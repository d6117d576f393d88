//! A cursor over the symbols of a string, as scaffolding for tokenizers: navigation,
//! lookahead, marking, range extraction, quote detection, a token stack, a collection
//! buffer and a trace log.
use vstd::prelude::*;

mod encoding;
pub mod laws;
pub mod model;
mod rlex;
mod text;

pub use model::{LexView, QuoteScan};
pub use rlex::{Rlex, RlexError};

verus! {

/// A state for a cursor whose caller needs none.
#[derive(Debug, PartialEq, Eq)]
pub enum DefaultState {
    Default,
}

/// A token for a cursor whose caller collects none.
#[derive(Debug, PartialEq, Eq, Clone, Copy)]
pub enum DefaultToken {
    Default,
}

} // verus!
