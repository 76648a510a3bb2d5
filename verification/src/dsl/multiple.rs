//! What a reader does with a scalar that occurs more than once.
use vstd::prelude::*;

use crate::text::{same, Text};

verus! {

/// The policy for a scalar source element that repeats.
#[derive(Debug, Clone, Copy, PartialEq, Eq, PartialOrd, Ord, Hash, Structural)]
pub enum MultiplePolicy {
    /// More than one value is an error.
    Error,
    /// Take the first value.
    First,
    /// Join the values into one.
    Join,
}

impl DeepView for MultiplePolicy {
    type V = MultiplePolicy;

    open spec fn deep_view(&self) -> MultiplePolicy {
        *self
    }
}

/// The policy a keyword stands for, if it is one.
pub open spec fn policy_of_keyword(word: Text) -> Option<MultiplePolicy> {
    if word == "error"@ {
        Some(MultiplePolicy::Error)
    } else if word == "first"@ {
        Some(MultiplePolicy::First)
    } else if word == "join"@ {
        Some(MultiplePolicy::Join)
    } else {
        None
    }
}

impl MultiplePolicy {
    /// The policy a keyword stands for, if it is one.
    pub fn from_keyword(word: &str) -> (r: Option<MultiplePolicy>)
        ensures
            r == policy_of_keyword(word@),
    {
        if same(word, "error") {
            Some(MultiplePolicy::Error)
        } else if same(word, "first") {
            Some(MultiplePolicy::First)
        } else if same(word, "join") {
            Some(MultiplePolicy::Join)
        } else {
            None
        }
    }
}

} // verus!
