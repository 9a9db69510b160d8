//! What the operations are for, said over their inputs and results alone: the
//! bytes, dots, requests and texts that come out, in plain numbers.

pub mod blocks;
pub mod colours;
pub mod diffusion;
pub mod flow;
pub mod households;
pub mod light;
pub mod names;
pub mod numbers;
pub mod records;
pub mod refusals;
pub mod service;
pub mod strips;
pub mod tones;
pub mod wording;
