use ridgepoint::binary64::F64;
use ridgepoint::detect::{detect_gpus, devices_report, match_device, match_lowered, DetectedGpu, Probe};
use ridgepoint::sizing::Failure;

fn hard(x: F64) -> f64 {
    f64::from_bits(x.to_bits())
}

fn gpus(listing: &str) -> Vec<(u32, String, u64)> {
    match detect_gpus(&Probe::Listing(listing.to_string())) {
        Ok(list) => list.into_iter().map(|g| (g.index, g.name, g.vram_bytes)).collect(),
        Err(_) => panic!("refused"),
    }
}

fn complaint(probe: Probe) -> String {
    match detect_gpus(&probe) {
        Ok(_) => panic!("accepted"),
        Err(Failure::Message(m)) => m,
        Err(Failure::Overflow) => "overflow".to_string(),
    }
}

const MIB: u64 = 1024 * 1024;

#[test]
fn listings_are_read() {
    assert_eq!(
        gpus("0, NVIDIA A100-SXM4-80GB, 81920\n1, NVIDIA L40S, 46068\n"),
        vec![
            (0, "NVIDIA A100-SXM4-80GB".to_string(), 81920 * MIB),
            (1, "NVIDIA L40S".to_string(), 46068 * MIB),
        ]
    );
    // Line ends, blanks, short lines and further fields.
    assert_eq!(
        gpus("\r\n  3 ,\t x\u{a0} , 1 \r\nnothing\n\n,,\n7,y,2,z"),
        vec![
            (3, "x".to_string(), MIB),
            (0, "".to_string(), 0),
            (7, "y".to_string(), 2 * MIB),
        ]
    );
    // What is no number counts as zero.
    assert_eq!(gpus("x, y, z"), vec![(0, "y".to_string(), 0)]);
    assert_eq!(gpus("4294967296, y, -1"), vec![(0, "y".to_string(), 0)]);
    assert_eq!(gpus("4294967295, y, 17592186044415"), vec![(u32::MAX, "y".to_string(), 17592186044415 * MIB)]);
}

#[test]
fn written_lines_read_back() {
    for (index, name, mib) in [(0u32, "NVIDIA H200", 143771u64), (u32::MAX, "a b: c", 0), (5, "", 9)] {
        assert_eq!(gpus(&format!("{}, {}, {}", index, name, mib)), vec![(index, name.to_string(), mib * MIB)]);
    }
}

#[test]
fn probes_without_gpus_are_complained_about() {
    assert_eq!(complaint(Probe::NotFound), "nvidia-smi not found (no NVIDIA GPU or driver on this machine)");
    assert_eq!(complaint(Probe::Failed), "nvidia-smi exited with an error");
    assert_eq!(complaint(Probe::Listing("".to_string())), "nvidia-smi returned no GPUs");
    assert_eq!(complaint(Probe::Listing("a, b\nc".to_string())), "nvidia-smi returned no GPUs");
    assert_eq!(complaint(Probe::Listing("0, x, 17592186044416\n".to_string())), "overflow");
}

#[test]
fn names_are_matched() {
    let big = 80_000_000_000;
    let rows = [
        ("NVIDIA H200", big, "h200-141gb"),
        ("NVIDIA H100 80GB HBM3", big, "h100-80gb"),
        ("NVIDIA GB200", big, "b200-192gb"),
        ("NVIDIA B200", big, "b200-192gb"),
        ("NVIDIA A100-PCIE-40GB", big, "a100-40gb"),
        ("NVIDIA A100-SXM4", 59_999_999_999, "a100-40gb"),
        ("NVIDIA A100-SXM4", 60_000_000_000, "a100-80gb"),
        ("NVIDIA A100-SXM4-80GB", big, "a100-80gb"),
        ("NVIDIA L40S", big, "l40s-48gb"),
        ("NVIDIA GeForce RTX 5090", big, "rtx5090-32gb"),
        ("NVIDIA GeForce RTX 4090", big, "rtx4090-24gb"),
        ("NVIDIA GeForce RTX 3090 Ti", big, "rtx3090-24gb"),
        ("AMD Instinct MI300X", big, "mi300x-192gb"),
    ];
    for (name, vram, id) in rows {
        let d = match_device(name, vram);
        let known = ridgepoint::registry::device(id).unwrap();
        assert_eq!(d.name, format!("{} (detected)", id));
        assert_eq!(d.vram_bytes, known.vram_bytes);
        assert_eq!(d.mem_bw_bytes_s, known.mem_bw_bytes_s);
        assert_eq!(hard(d.peak_flops), hard(known.peak_flops));
        assert_eq!((d.arch, d.interconnect), (known.arch, known.interconnect));
        assert_eq!(match_lowered(&name.to_lowercase(), name, vram).name, d.name);
    }
}

#[test]
fn case_does_not_matter_and_unknown_names_are_kept() {
    assert_eq!(match_device("h100", 1).name, match_device("H100", 1).name);
    let d = match_device("Tesla T4", 16_000_000_000);
    assert_eq!(d.name, "Tesla T4 (detected, specs unknown)");
    assert_eq!((d.vram_bytes, d.mem_bw_bytes_s), (16_000_000_000, 0));
    assert_eq!(hard(d.peak_flops), 0.0);
    assert_eq!((d.arch, d.interconnect), ("unknown", "unknown"));
    // Letters outside ASCII have a lower case too: the Kelvin sign is a k.
    assert_eq!(match_device("\u{212a} MI300", 1).name, "mi300x-192gb (detected)");
}

#[test]
fn case_of_ascii_letters_does_not_matter_beside_others() {
    for (upper, lower) in [("É A100", "É a100"), ("ΑΣ H100", "ΑΣ h100"), ("AΣ", "aΣ"), ("ΣA MI300", "Σa mi300")] {
        let a = match_device(upper, 80_000_000_000);
        let b = match_device(lower, 80_000_000_000);
        assert_eq!(upper.to_lowercase(), lower.to_lowercase());
        assert_eq!((a.vram_bytes, a.mem_bw_bytes_s), (b.vram_bytes, b.mem_bw_bytes_s));
        assert_eq!((a.arch, a.interconnect), (b.arch, b.interconnect));
        if upper == "AΣ" {
            assert_eq!(a.name, "AΣ (detected, specs unknown)");
            assert_eq!(b.name, "aΣ (detected, specs unknown)");
        } else {
            assert_eq!(a.name, b.name);
        }
    }
}

#[test]
fn reports_name_each_gpu() {
    let list = vec![
        DetectedGpu { index: 0, name: "NVIDIA L40S".to_string(), vram_bytes: 48_305_799_168 },
        DetectedGpu { index: 12, name: "Tesla T4".to_string(), vram_bytes: 500_000_000 },
    ];
    assert_eq!(
        devices_report(&list),
        "detected 2 GPU(s):\n  [0] NVIDIA L40S  (48 GB)  → l40s-48gb (detected) · Ada · PCIe4\n  [12] Tesla T4  (0 GB)  → Tesla T4 (detected, specs unknown) · unknown · unknown\n\nuse:  --gpu auto   (all)   ·   --gpu auto:N   (N of them)"
    );
}
