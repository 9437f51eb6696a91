//! What a name lookup can fail with.

use vstd::prelude::*;
use vstd::string::*;

verus! {

/// Why a name could not be resolved.
#[derive(Debug)]
pub enum ResolveError {
    /// The name has no address records.
    NxDomain,
    /// The lookup itself failed; the text says how.
    Other(String),
}

impl ResolveError {
    /// What the failure is called.
    pub open spec fn text(self) -> Seq<char> {
        match self {
            ResolveError::NxDomain => "domain not found"@,
            ResolveError::Other(_) => "resolver error"@,
        }
    }

    /// What the failure is called.
    pub fn to_string(&self) -> (r: String)
        ensures
            r@ == self.text(),
    {
        match self {
            ResolveError::NxDomain => String::from_str("domain not found"),
            ResolveError::Other(_) => String::from_str("resolver error"),
        }
    }
}

} // verus!
