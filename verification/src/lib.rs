//! Label-printer protocol core: page buffers, block packing, halftoning,
//! material records, device recognition and the print state machine.

pub mod buffer;
pub mod bytes;
pub mod cli;
pub mod compress;
pub mod discovery;
pub mod dither;
pub mod error;
pub mod laws;
pub mod models;
pub mod page;
pub mod printer;
pub mod rfid;
pub mod server;
pub mod single;
pub mod spp;
pub mod status;
pub mod text;
pub mod twocolor;
