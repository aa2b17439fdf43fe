//! Points in a document and search directions.
use vstd::prelude::*;

verus! {

/// A point in a document: `x` counts grapheme clusters within row `y`.
#[derive(PartialEq, Eq, Structural, Clone, Copy, Debug, Default)]
pub struct Position {
    pub x: usize,
    pub y: usize,
}

#[derive(PartialEq, Eq, Structural, Clone, Copy, Debug)]
pub enum SearchDirection {
    Forward,
    Backward,
}

} // verus!
