//! The errors that a conversion or a package ordering can fail with. All of
//! them signal input that the caller was expected to have validated upstream:
//! none is retried and no partial result accompanies one.

use vstd::prelude::*;
use vstd::string::StringExecFns;

verus! {

/// A fatal error of the conversion pipeline or of the package orderer.
#[derive(Debug, Clone, PartialEq, Eq)]
pub enum WadmError {
    /// An interface identifier that is neither excluded nor well known and
    /// lacks the `:` namespace separator or the `/` package separator.
    /// Carries the offending identifier.
    MalformedIdentifier(String),
    /// A package depends, directly or through other packages, on itself.
    /// Carries the name of a package on the cycle.
    DependencyCycle(String),
    /// Two packages of one working set share a name. Carries that name.
    DuplicatePackage(String),
}

impl WadmError {
    /// A human-readable description of the error.
    pub fn message(&self) -> (r: String)
        ensures
            match self {
                WadmError::MalformedIdentifier(s) => r@ == "invalid interface: "@ + s@,
                WadmError::DependencyCycle(s) => r@ == "package "@ + s@ + " depends on itself"@,
                WadmError::DuplicatePackage(s) => r@ == "duplicate definitions of package "@
                    + s@ + " found"@,
            },
    {
        match self {
            WadmError::MalformedIdentifier(s) => {
                let mut m = "invalid interface: ".to_owned();
                m.append(s.as_str());
                m
            },
            WadmError::DependencyCycle(s) => {
                let mut m = "package ".to_owned();
                m.append(s.as_str());
                m.append(" depends on itself");
                m
            },
            WadmError::DuplicatePackage(s) => {
                let mut m = "duplicate definitions of package ".to_owned();
                m.append(s.as_str());
                m.append(" found");
                m
            },
        }
    }
}

} // verus!
