//! A line-oriented text buffer with grapheme-indexed editing and a
//! rule-based syntax highlighter.
use vstd::prelude::*;

pub mod unicode;
pub mod filetype;
pub mod search;
pub mod highlighting;
pub mod position;
pub mod width;
pub mod row;
pub mod document;
pub mod cursor;

pub use document::Document;
pub use filetype::{FileType, HighlightingOptions};
pub use highlighting::Type;
pub use position::{Position, SearchDirection};
pub use row::Row;

verus! {

} // verus!
