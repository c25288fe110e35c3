use vstd::prelude::*;

verus! {

/// Errors raised by the vardiff controllers.
#[derive(Debug, Clone, Copy, PartialEq, Eq, Structural)]
pub enum VardiffError {
    /// A persisted Q-table blob has the wrong length, magic, version or
    /// state/action layout.
    InvalidQTableBlob,
}

} // verus!
