//! The normalization operations a node may list.
use vstd::prelude::*;

use crate::text::{same, Text};

verus! {

/// One step applied to a source value before it is decoded.
#[derive(Debug, Clone, Copy, PartialEq, Eq, PartialOrd, Ord, Hash, Structural)]
pub enum NormalizeOp {
    /// Drop white space at both ends.
    Trim,
    /// Convert to upper case.
    Uppercase,
    /// Convert to lower case.
    Lowercase,
    /// Treat an empty value as absent.
    EmptyAsMissing,
}

impl DeepView for NormalizeOp {
    type V = NormalizeOp;

    open spec fn deep_view(&self) -> NormalizeOp {
        *self
    }
}

/// The operation a keyword stands for, if it is one.
pub open spec fn op_of_keyword(word: Text) -> Option<NormalizeOp> {
    if word == "trim"@ {
        Some(NormalizeOp::Trim)
    } else if word == "uppercase"@ {
        Some(NormalizeOp::Uppercase)
    } else if word == "lowercase"@ {
        Some(NormalizeOp::Lowercase)
    } else if word == "empty_as_missing"@ {
        Some(NormalizeOp::EmptyAsMissing)
    } else {
        None
    }
}

impl NormalizeOp {
    /// The operation a keyword stands for, if it is one.
    pub fn from_keyword(word: &str) -> (r: Option<NormalizeOp>)
        ensures
            r == op_of_keyword(word@),
    {
        if same(word, "trim") {
            Some(NormalizeOp::Trim)
        } else if same(word, "uppercase") {
            Some(NormalizeOp::Uppercase)
        } else if same(word, "lowercase") {
            Some(NormalizeOp::Lowercase)
        } else if same(word, "empty_as_missing") {
            Some(NormalizeOp::EmptyAsMissing)
        } else {
            None
        }
    }
}

} // verus!
