//! What can go wrong between a page and the printer.

use vstd::prelude::*;

verus! {

#[derive(Debug, Clone, PartialEq, Eq)]
pub enum Error {
    /// The LZMA coder refused.
    Compression(String),
    /// The caller asked for something that cannot be printed.
    InvalidParam(String),
    /// The printer answered wrongly, with an error flag, or not at all.
    InvalidResponse(String),
    /// The printer never reported the awaited state.
    Timeout(&'static str),
}

} // verus!
