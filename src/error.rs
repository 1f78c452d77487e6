use vstd::prelude::*;

verus! {

/// Why an instruction failed. No failure leaves the account buffer changed.
#[derive(Debug, Clone, Copy, PartialEq, Eq, Structural)]
pub enum ProgramError {
    /// The request or the stored record does not match its byte layout, or
    /// names an unknown sub-instruction.
    InvalidArgument,
    /// The leading opcode byte is missing or names no handler.
    InvalidInstruction,
    /// The serialized record would not fit in the account buffer.
    CapacityExceeded,
    /// The embedded transaction does not decode, or has no input to drop.
    MalformedTransaction,
}

} // verus!
