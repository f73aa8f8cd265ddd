use vstd::prelude::*;

verus! {

/// The classes of failure that the bridge distinguishes.
#[derive(Clone, Copy, Debug, PartialEq, Eq, Structural)]
pub enum ErrorKind {
    /// Malformed descriptor file or malformed frame.
    InvalidData,
    /// Any other failure: a transport, an outside command, a resource.
    Other,
}

/// An error of the bridge: its class and a human-readable description.
#[derive(Debug)]
pub struct BridgeError {
    pub kind: ErrorKind,
    pub details: String,
}

/// An error of class `Other` carrying `details`.
pub fn other_error(details: String) -> (r: BridgeError)
    ensures
        r.kind == ErrorKind::Other,
        r.details@ == details@,
{
    BridgeError { kind: ErrorKind::Other, details }
}

/// A data-format error carrying `details`.
pub fn report_data_err(details: String) -> (r: BridgeError)
    ensures
        r.kind == ErrorKind::InvalidData,
        r.details@ == details@,
{
    BridgeError { kind: ErrorKind::InvalidData, details }
}

} // verus!
