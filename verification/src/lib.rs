//! LLM inference sizing that models the engine, not just the weights.
//!
//! `sizing` holds the model of memory and speed, `fit` applies it to a setup, and
//! `render` shows the outcome. `registry`, `choice` and `detect` turn names into
//! models, devices, engines and dtypes; `cli` and `api` answer commands and calls.
//! Numbers are binary64, computed on their bits by `binary64` over `rounding` and
//! printed by `decimal`; `order` compares them, `close` says how far rounding takes them
//! from the exact ones, and `laws` states what follows of the whole.

pub mod api;
pub mod binary64;
pub mod choice;
pub mod cli;
pub mod close;
pub mod decimal;
pub mod detect;
pub mod fit;
pub mod laws;
pub mod order;
pub mod registry;
pub mod render;
pub mod rounding;
pub mod sizing;
pub mod text;
