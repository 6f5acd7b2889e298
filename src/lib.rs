//! A CHIP-8 virtual machine core: the machine state, its mathematical model,
//! the fetch-decode-execute engine verified against that model, and laws
//! proved of the model.

pub mod engine;
pub mod laws;
pub mod model;

pub use engine::Chip8;
pub use model::{Chip8Error, WaitState};
