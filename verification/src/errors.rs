//! The crate's error type: every fallible operation of the library reports
//! one of these, carrying the name or detail it is about.

use vstd::prelude::*;
use vstd::string::StringExecFns;

verus! {

/// Why an operation on the tracker failed.
#[derive(Debug, Clone)]
pub enum YakError {
    /// A name was rejected by validation; the detail says why.
    Invalid { detail: String },
    /// No yak with (or matching) this name exists.
    NotFound { name: String },
    /// A fuzzy name matched more than one yak.
    Ambiguous { name: String },
    /// The target name is already taken.
    AlreadyExists { name: String },
    /// The yak cannot be marked done while children are unfinished.
    IncompleteChildren { name: String },
    /// The storage or history layer failed; the detail carries its report.
    Storage { detail: String },
}

impl YakError {
    /// A human-readable description of the failure.
    pub fn message(&self) -> (r: String)
        ensures
            self matches YakError::Invalid { detail } ==> r@ == detail@,
            self matches YakError::NotFound { name } ==> r@ == "yak '"@ + name@ + "' not found"@,
            self matches YakError::Ambiguous { name } ==> r@ == "yak name '"@ + name@
                + "' is ambiguous"@,
            self matches YakError::AlreadyExists { name } ==> r@ == "Yak '"@ + name@
                + "' already exists"@,
            self matches YakError::IncompleteChildren { name } ==> r@ == "cannot mark '"@ + name@
                + "' as done - it has incomplete children"@,
            self matches YakError::Storage { detail } ==> r@ == detail@,
    {
        match self {
            YakError::Invalid { detail } => detail.clone(),
            YakError::NotFound { name } => {
                let mut m = "yak '".to_owned();
                m.append(name.as_str());
                m.append("' not found");
                m
            },
            YakError::Ambiguous { name } => {
                let mut m = "yak name '".to_owned();
                m.append(name.as_str());
                m.append("' is ambiguous");
                m
            },
            YakError::AlreadyExists { name } => {
                let mut m = "Yak '".to_owned();
                m.append(name.as_str());
                m.append("' already exists");
                m
            },
            YakError::IncompleteChildren { name } => {
                let mut m = "cannot mark '".to_owned();
                m.append(name.as_str());
                m.append("' as done - it has incomplete children");
                m
            },
            YakError::Storage { detail } => detail.clone(),
        }
    }
}

} // verus!
