//! Error taxonomy: parse errors (the byte stream is structurally
//! malformed) and validation errors (well-formed input that the
//! consensus rules reject).
use vstd::prelude::*;

verus! {

/// A byte stream could not be decoded. Each variant carries the position
/// in the buffer at which decoding failed.
#[derive(Clone, Copy, Debug, PartialEq, Eq, Structural)]
pub enum BlockParseError {
    /// The buffer ended before the bytes needed at this position could be read.
    Truncated(usize),
    /// A decoded length field cannot be represented as a memory size on
    /// this platform, so it cannot be used as an allocation or copy size.
    Oversize(usize),
    /// A variable-length integer used a longer form than its value requires.
    NonCanonical(usize),
    /// The transaction witness marker/flag byte pair was malformed.
    BadWitnessFlag(usize),
    /// The four magic bytes before a block match no known network.
    UnknownMagic(usize),
}

/// A well-formed script or block was rejected by consensus rules.
#[derive(Clone, Copy, Debug, PartialEq, Eq, Structural)]
pub enum BlockValidationError {
    /// A reserved opcode was reached in an executed branch; carries the raw byte.
    ReservedOpcode(u8),
    /// A disabled opcode appeared anywhere in an executed script; carries the raw byte.
    DisabledOpcode(u8),
    /// An invalid opcode was reached in an executed branch; carries the raw byte.
    InvalidOpcode(u8),
    /// An opcode required more stack entries than were present.
    StackUnderflow,
    /// A verify-class opcode found a false value on top of the stack.
    VerifyFailed,
    /// `Return` was executed.
    EarlyReturn,
    /// `If`/`Else`/`EndIf` nesting was unbalanced, or `If` found an empty stack.
    UnbalancedConditional,
    /// A stack entry used as a number was longer than four bytes or not
    /// minimally encoded.
    NumberOutOfRange,
    /// The combined depth of the main and alternate stacks exceeded the limit.
    StackLimit,
    /// A single pushed element exceeded the per-push size limit.
    PushSize,
    /// More opcodes were executed than the per-script ceiling allows.
    OpCountLimit,
    /// A script exceeded the maximum script byte length.
    ScriptSize,
    /// The opcode needs cryptographic or transaction context this engine
    /// does not carry (signature checks and the non-SHA-256 digests).
    UnsupportedOpcode(u8),
    /// The block's header does not commit to the merkle root of its transactions.
    MerkleMismatch,
}

/// A script failed to verify: either it could not be parsed at all, or it
/// parsed but execution rejected it.
#[derive(Clone, Copy, Debug, PartialEq, Eq, Structural)]
pub enum ScriptError {
    /// One of the scripts is structurally malformed.
    Parse(BlockParseError),
    /// Both scripts parsed, but execution failed validation.
    Validation(BlockValidationError),
}

} // verus!
