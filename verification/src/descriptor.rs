//! Value types shared by the validator, the address space and the scanner.

use vstd::prelude::*;

verus! {

/// A validated network prefix in CIDR form: a 32-bit base address together
/// with the number of leading bits that identify the network.
#[derive(Clone, Copy, Debug, PartialEq, Eq, Structural)]
pub struct NetworkDescriptor {
    pub base_address: u32,
    pub prefix_length: u8,
}

impl NetworkDescriptor {
    /// A prefix never names more than all 32 bits of the address.
    pub open spec fn valid(self) -> bool {
        self.prefix_length <= 32
    }
}

/// Why a raw `A.B.C.D/N` string was rejected.
#[derive(Clone, Copy, Debug, PartialEq, Eq, Structural)]
pub enum ValidationError {
    /// The input did not split into exactly two parts on `/`.
    MalformedInput,
    /// The address part is not four dot-separated decimal octets in 0..=255.
    InvalidAddress,
    /// The prefix part is not a decimal number in 0..=32.
    InvalidPrefix,
}

/// Why a scan produced no result.
#[derive(Clone, Copy, Debug, PartialEq, Eq, Structural)]
pub enum ScanError {
    /// The raw input was rejected before any probing began.
    Validation(ValidationError),
    /// The external echo facility could not be invoked at all.
    ProbeMechanismUnavailable,
}

} // verus!
