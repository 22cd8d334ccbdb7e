//! What holds of the model as a whole.

pub mod capacity;
pub mod names;
pub mod numbers;
pub mod reports;
pub mod shown;
pub mod sizes;
pub mod speed;
pub mod words;
