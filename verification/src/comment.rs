//! Bookkeeping for type references found inside comments.

use vstd::prelude::*;

verus! {

/// A reference to a type inside a comment: the character range it covers and
/// the path segments it names.
#[derive(Debug, Clone, PartialEq)]
pub struct TypeReference {
    pub start: usize,
    pub end: usize,
    pub parts: Vec<String>,
}

} // verus!
