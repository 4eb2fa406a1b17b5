//! Error kinds shared by every fallible operation of the crate.

use vstd::prelude::*;
use vstd::string::StringExecFns;

verus! {

/// What went wrong during allocation, registry inspection or reconciliation.
///
/// `QueryFailed` covers an OS query mechanism (process table, interface or
/// namespace listing) that is unavailable as a whole; `ParseFailed` a
/// malformed value in a place where well-formed data was owed (such as an
/// interface address string); `NoFreeSubnet` exhaustion of the reserved
/// parent range; `DeletionFailed` a namespace or lock deletion command that
/// reported failure.
#[derive(Clone, Copy, Debug, PartialEq, Eq, Structural)]
pub enum VoponoError {
    QueryFailed,
    ParseFailed,
    NoFreeSubnet,
    DeletionFailed,
}

impl VoponoError {
    /// A human-readable message for the surrounding application to print.
    pub fn describe(&self) -> (s: String)
        ensures
            *self == VoponoError::QueryFailed ==> s@ == "OS query failed"@,
            *self == VoponoError::ParseFailed ==> s@ == "could not parse value"@,
            *self == VoponoError::NoFreeSubnet ==> s@ == "could not find free subnet of form: 10.200.xxx.1/24"@,
            *self == VoponoError::DeletionFailed ==> s@ == "deletion command failed"@,
    {
        match self {
            VoponoError::QueryFailed => String::from_str("OS query failed"),
            VoponoError::ParseFailed => String::from_str("could not parse value"),
            VoponoError::NoFreeSubnet => String::from_str(
                "could not find free subnet of form: 10.200.xxx.1/24",
            ),
            VoponoError::DeletionFailed => String::from_str("deletion command failed"),
        }
    }
}

} // verus!
