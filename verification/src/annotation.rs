//! Source annotations: classified character ranges that a renderer can
//! highlight, with optional error and warning notes.

use vstd::prelude::*;

verus! {

/// What a highlighted range of source text is.
#[derive(Debug, Clone, Copy, PartialEq)]
pub enum Kind {
    Keyword,
    Operator,
    Variable,
    Comment,
    String,
    Number,
    Type,
    PrimitiveType,
}

/// One classified character range of the source.
#[derive(Debug, Clone, PartialEq)]
pub struct Annotation {
    pub start_index: usize,
    pub end_index: usize,
    pub kind: Kind,
    pub error: Option<String>,
    pub warning: Option<String>,
}

impl Annotation {
    /// An annotation of the given range and kind, with no error or warning.
    pub fn from_kind(start: usize, end: usize, kind: Kind) -> (r: Self)
        ensures
            r == (Annotation {
                start_index: start,
                end_index: end,
                kind,
                error: None::<String>,
                warning: None::<String>,
            }),
    {
        Annotation { start_index: start, end_index: end, kind, error: None, warning: None }
    }
}

} // verus!
