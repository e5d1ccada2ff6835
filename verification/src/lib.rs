//! Validation of Bitcoin protocol data: wire-format decoding of blocks,
//! transactions and scripts, block identity and merkle-root computation,
//! and script execution under consensus rules.
//!
//! All multi-byte integers on the wire are little-endian. Every structured
//! entity implements [`LittleEndianSerialization`], whose contracts pin the
//! byte format down exactly; the merkle root and block id are double
//! SHA-256 digests over those serializations.
use vstd::prelude::*;

pub mod error;
pub mod hash;
pub mod merkle;
pub mod parse;
pub mod script;

pub use error::BlockParseError;
pub use error::BlockValidationError;
pub use error::ScriptError;
pub use hash::double_sha256_of;
pub use hash::sha256_of;
pub use merkle::spec_merkle_leaf;
pub use merkle::spec_merkle_root;
pub use script::parse_script;
pub use script::spec_parse_script;
pub use script::spec_verify;
pub use script::verify;
pub use script::Executor;
pub use script::MachineView;
pub use script::StackEntry;
pub use script::StackEntryView;

verus! {

/// Trait implemented by the data structures that are part of the network
/// protocol (Block, BlockHeader, etc.), giving serialization to and
/// deserialization from the protocol byte format.
///
/// `spec_serialized` is the canonical byte sequence of a value's
/// mathematical view, and `spec_parsed` says exactly what decoding yields
/// at a given position: the decoded view with the position one past its
/// bytes, or the parse error. The two executable methods are pinned to
/// these two functions.
pub trait LittleEndianSerialization: View + Sized {
    /// The canonical serialized bytes of a value with view `v`.
    spec fn spec_serialized(v: Self::V) -> Seq<u8>;

    /// What decoding yields at position `pos` of `bytes`.
    spec fn spec_parsed(bytes: Seq<u8>, pos: int) -> Result<(Self::V, int), BlockParseError>;

    /// Serializes the object in little-endian format, appending the bytes
    /// to the end of `dest`.
    fn serialize_le(&self, dest: &mut Vec<u8>)
        ensures
            final(dest)@ == old(dest)@ + Self::spec_serialized(self@),
    ;

    /// Constructs an object from serialized little-endian bytes, starting
    /// at `*ix` and advancing `*ix` past the consumed bytes. On failure the
    /// final position is unspecified.
    fn deserialize_le(bytes: &[u8], ix: &mut usize) -> (r: Result<Self, BlockParseError>)
        requires
            *old(ix) <= bytes@.len(),
        ensures
            match r {
                Ok(v) => Self::spec_parsed(bytes@, *old(ix) as int)
                    == Ok::<(Self::V, int), BlockParseError>((v@, *final(ix) as int))
                    && *old(ix) <= *final(ix) <= bytes@.len(),
                Err(e) => Self::spec_parsed(bytes@, *old(ix) as int)
                    == Err::<(Self::V, int), BlockParseError>(e),
            },
    ;
}

/// The network a block belongs to. This is a tag carried alongside the
/// block; on the wire it appears as the four magic bytes that precede a
/// block in block storage.
#[derive(Clone, Copy, Debug, PartialEq, Eq, Structural)]
pub enum Network {
    MainNet,
    TestNet3,
    RegTest,
}

/// Object representing a SHA-256 hash. Contains the raw 32-byte digest.
#[derive(Clone, Copy, Debug, PartialEq, Eq, Hash)]
pub struct Hash([u8; 32]);

impl View for Hash {
    type V = Seq<u8>;

    closed spec fn view(&self) -> Seq<u8> {
        self.0@
    }
}

/// The ASCII code of the lowercase hex digit for a nibble.
pub open spec fn spec_hex_digit(n: u8) -> u8
    recommends
        n < 16,
{
    if n < 10 {
        (48 + n) as u8  // '0' through '9'
    } else {
        (87 + n) as u8  // 'a' through 'f'
    }
}

impl Hash {
    /// Returns a zero hash, the protocol's "no parent"/"empty" sentinel.
    pub fn zero() -> (r: Self)
        ensures
            r@ == Seq::<u8>::new(32, |i: int| 0u8),
    {
        let r = Hash([0; 32]);
        proof {
            assert(r@ =~= Seq::<u8>::new(32, |i: int| 0u8));
        }
        r
    }

    /// Wraps 32 raw digest bytes as a hash.
    pub fn from_bytes(bytes: [u8; 32]) -> (r: Self)
        ensures
            r@ == bytes@,
    {
        Hash(bytes)
    }

    /// The raw digest bytes.
    pub fn to_bytes(&self) -> (r: [u8; 32])
        ensures
            r@ == self@,
    {
        self.0
    }

    /// Reverses the byte order of the hash, converting between internal
    /// order and display/wire order.
    pub fn reverse(&self) -> (r: Self)
        ensures
            r@ == self@.reverse(),
    {
        let mut out: [u8; 32] = [0; 32];
        let mut i: usize = 0;
        while i < 32
            invariant
                i <= 32,
                out@.len() == 32,
                forall|j: int| 0 <= j < i ==> out@[j] == self@[31 - j],
            decreases 32 - i,
        {
            out[i] = self.0[31 - i];
            i = i + 1;
        }
        proof {
            assert(out@ =~= self@.reverse());
        }
        Hash(out)
    }

    /// The 64 lowercase hex digits (as ASCII bytes) of the hash, in the
    /// byte order the hash is held in.
    pub fn to_hex(&self) -> (r: Vec<u8>)
        ensures
            r@.len() == 64,
            forall|i: int| 0 <= i < 32 ==> {
                &&& r@[2 * i] == spec_hex_digit((self@[i] / 16) as u8)
                &&& r@[2 * i + 1] == spec_hex_digit((self@[i] % 16) as u8)
            },
    {
        let mut out: Vec<u8> = Vec::new();
        let mut i: usize = 0;
        while i < 32
            invariant
                i <= 32,
                out@.len() == 2 * i,
                forall|j: int| 0 <= j < i ==> {
                    &&& out@[2 * j] == spec_hex_digit((self@[j] / 16) as u8)
                    &&& out@[2 * j + 1] == spec_hex_digit((self@[j] % 16) as u8)
                },
            decreases 32 - i,
        {
            let b = self.0[i];
            let hi = b / 16;
            let lo = b % 16;
            out.push(if hi < 10 { 48 + hi } else { 87 + hi });
            out.push(if lo < 10 { 48 + lo } else { 87 + lo });
            i = i + 1;
        }
        out
    }
}

/// Reversing a hash twice gives back the original hash.
pub proof fn lemma_reverse_involution(h: Hash)
    requires
        h@.len() == 32,
    ensures
        h@.reverse().reverse() == h@,
{
    assert(h@.reverse().reverse() =~= h@);
}

/// The bit set carried by a transaction. One bit is defined today
/// (witness data present); all other bits must be zero.
#[derive(Clone, Copy, Debug, PartialEq, Eq, Structural)]
pub struct TransactionFlags {
    pub bits: u8,
}

impl TransactionFlags {
    /// True when the witness bit is set.
    pub open spec fn spec_has_witness(&self) -> bool {
        self.bits == 1
    }

    /// The empty flag set.
    pub fn empty() -> (r: Self)
        ensures
            r.bits == 0,
    {
        TransactionFlags { bits: 0 }
    }

    /// The flag set with only the witness bit.
    pub fn witness() -> (r: Self)
        ensures
            r.bits == 1,
    {
        TransactionFlags { bits: 1 }
    }

    /// Whether this transaction carries segregated witness data.
    pub fn has_witness(&self) -> (r: bool)
        ensures
            r == self.spec_has_witness(),
    {
        self.bits == 1
    }
}

/// One script instruction: either a data push or an operation. Decoding a
/// leading byte never fails — every value 0x00 through 0xff maps to
/// exactly one variant; only a push whose declared length exceeds the
/// remaining buffer is a parse failure.
#[derive(Clone, Debug, PartialEq, Eq)]
pub enum Opcode {
    /// Pushes the carried bytes (byte values 0x00-0x4e).
    PushArray(Vec<u8>),
    /// Pushes a small signed integer (0x4f, 0x51-0x60), the byte minus 0x50.
    PushNumber(i8),
    /// Reserved opcode: decodes, but fails the script when executed
    /// (0x50, 0x89-0x8a). Carries the raw byte.
    Reserved(u8),
    /// No-operation family (0x61, 0xb0, 0xb3-0xb9). Carries the raw byte.
    Nop(u8),
    /// Permanently disabled opcode: fails the script wherever it appears
    /// (0x7e-0x81, 0x83-0x86, 0x8d-0x8e, 0x95-0x99). Carries the raw byte.
    Disabled(u8),
    /// Invalid opcode: decodes for introspection, fails when executed
    /// (0xba-0xff). Carries the raw byte.
    Invalid(u8),
    Ver,                 // 0x62
    If,                  // 0x63
    NotIf,               // 0x64
    VerIf,               // 0x65
    VerNotIf,            // 0x66
    Else,                // 0x67
    EndIf,               // 0x68
    Verify,              // 0x69
    Return,              // 0x6a
    ToAltStack,          // 0x6b
    FromAltStack,        // 0x6c
    Drop2,               // 0x6d
    Dup2,                // 0x6e
    Dup3,                // 0x6f
    Over2,               // 0x70
    Rot2,                // 0x71
    Swap2,               // 0x72
    IfDup,               // 0x73
    Depth,               // 0x74
    Drop,                // 0x75
    Dup,                 // 0x76
    Nip,                 // 0x77
    Over,                // 0x78
    Pick,                // 0x79
    Roll,                // 0x7a
    Rot,                 // 0x7b
    Swap,                // 0x7c
    Tuck,                // 0x7d
    Size,                // 0x82
    Equal,               // 0x87
    EqualVerify,         // 0x88
    Add1,                // 0x8b
    Sub1,                // 0x8c
    Negate,              // 0x8f
    Abs,                 // 0x90
    Not,                 // 0x91
    NotEqual0,           // 0x92
    Add,                 // 0x93
    Sub,                 // 0x94
    BoolAnd,             // 0x9a
    BoolOr,              // 0x9b
    NumEqual,            // 0x9c
    NumEqualVerify,      // 0x9d
    NumNotEqual,         // 0x9e
    LessThan,            // 0x9f
    GreaterThan,         // 0xa0
    LessThanOrEqual,     // 0xa1
    GreaterThanOrEqual,  // 0xa2
    Min,                 // 0xa3
    Max,                 // 0xa4
    Within,              // 0xa5
    RIPEMD160,           // 0xa6
    SHA1,                // 0xa7
    SHA256,              // 0xa8
    Hash160,             // 0xa9
    Hash256,             // 0xaa
    CodeSeparator,       // 0xab
    CheckSig,            // 0xac
    CheckSigVerify,      // 0xad
    CheckMultisig,       // 0xae
    CheckMultisigVerify, // 0xaf
    CheckLockTimeVerify, // 0xb1
    CheckSequenceVerify, // 0xb2
}

/// The mathematical view of an [`Opcode`]: the same tags, with pushed
/// bytes as a sequence.
#[verifier::ext_equal]
pub enum OpcodeView {
    PushArray(Seq<u8>),
    PushNumber(i8),
    Reserved(u8),
    Nop(u8),
    Disabled(u8),
    Invalid(u8),
    Ver,
    If,
    NotIf,
    VerIf,
    VerNotIf,
    Else,
    EndIf,
    Verify,
    Return,
    ToAltStack,
    FromAltStack,
    Drop2,
    Dup2,
    Dup3,
    Over2,
    Rot2,
    Swap2,
    IfDup,
    Depth,
    Drop,
    Dup,
    Nip,
    Over,
    Pick,
    Roll,
    Rot,
    Swap,
    Tuck,
    Size,
    Equal,
    EqualVerify,
    Add1,
    Sub1,
    Negate,
    Abs,
    Not,
    NotEqual0,
    Add,
    Sub,
    BoolAnd,
    BoolOr,
    NumEqual,
    NumEqualVerify,
    NumNotEqual,
    LessThan,
    GreaterThan,
    LessThanOrEqual,
    GreaterThanOrEqual,
    Min,
    Max,
    Within,
    RIPEMD160,
    SHA1,
    SHA256,
    Hash160,
    Hash256,
    CodeSeparator,
    CheckSig,
    CheckSigVerify,
    CheckMultisig,
    CheckMultisigVerify,
    CheckLockTimeVerify,
    CheckSequenceVerify,
}

impl View for Opcode {
    type V = OpcodeView;

    open spec fn view(&self) -> OpcodeView {
        match self {
            Opcode::PushArray(v) => OpcodeView::PushArray(v@),
            Opcode::PushNumber(n) => OpcodeView::PushNumber(*n),
            Opcode::Reserved(b) => OpcodeView::Reserved(*b),
            Opcode::Nop(b) => OpcodeView::Nop(*b),
            Opcode::Disabled(b) => OpcodeView::Disabled(*b),
            Opcode::Invalid(b) => OpcodeView::Invalid(*b),
            Opcode::Ver => OpcodeView::Ver,
            Opcode::If => OpcodeView::If,
            Opcode::NotIf => OpcodeView::NotIf,
            Opcode::VerIf => OpcodeView::VerIf,
            Opcode::VerNotIf => OpcodeView::VerNotIf,
            Opcode::Else => OpcodeView::Else,
            Opcode::EndIf => OpcodeView::EndIf,
            Opcode::Verify => OpcodeView::Verify,
            Opcode::Return => OpcodeView::Return,
            Opcode::ToAltStack => OpcodeView::ToAltStack,
            Opcode::FromAltStack => OpcodeView::FromAltStack,
            Opcode::Drop2 => OpcodeView::Drop2,
            Opcode::Dup2 => OpcodeView::Dup2,
            Opcode::Dup3 => OpcodeView::Dup3,
            Opcode::Over2 => OpcodeView::Over2,
            Opcode::Rot2 => OpcodeView::Rot2,
            Opcode::Swap2 => OpcodeView::Swap2,
            Opcode::IfDup => OpcodeView::IfDup,
            Opcode::Depth => OpcodeView::Depth,
            Opcode::Drop => OpcodeView::Drop,
            Opcode::Dup => OpcodeView::Dup,
            Opcode::Nip => OpcodeView::Nip,
            Opcode::Over => OpcodeView::Over,
            Opcode::Pick => OpcodeView::Pick,
            Opcode::Roll => OpcodeView::Roll,
            Opcode::Rot => OpcodeView::Rot,
            Opcode::Swap => OpcodeView::Swap,
            Opcode::Tuck => OpcodeView::Tuck,
            Opcode::Size => OpcodeView::Size,
            Opcode::Equal => OpcodeView::Equal,
            Opcode::EqualVerify => OpcodeView::EqualVerify,
            Opcode::Add1 => OpcodeView::Add1,
            Opcode::Sub1 => OpcodeView::Sub1,
            Opcode::Negate => OpcodeView::Negate,
            Opcode::Abs => OpcodeView::Abs,
            Opcode::Not => OpcodeView::Not,
            Opcode::NotEqual0 => OpcodeView::NotEqual0,
            Opcode::Add => OpcodeView::Add,
            Opcode::Sub => OpcodeView::Sub,
            Opcode::BoolAnd => OpcodeView::BoolAnd,
            Opcode::BoolOr => OpcodeView::BoolOr,
            Opcode::NumEqual => OpcodeView::NumEqual,
            Opcode::NumEqualVerify => OpcodeView::NumEqualVerify,
            Opcode::NumNotEqual => OpcodeView::NumNotEqual,
            Opcode::LessThan => OpcodeView::LessThan,
            Opcode::GreaterThan => OpcodeView::GreaterThan,
            Opcode::LessThanOrEqual => OpcodeView::LessThanOrEqual,
            Opcode::GreaterThanOrEqual => OpcodeView::GreaterThanOrEqual,
            Opcode::Min => OpcodeView::Min,
            Opcode::Max => OpcodeView::Max,
            Opcode::Within => OpcodeView::Within,
            Opcode::RIPEMD160 => OpcodeView::RIPEMD160,
            Opcode::SHA1 => OpcodeView::SHA1,
            Opcode::SHA256 => OpcodeView::SHA256,
            Opcode::Hash160 => OpcodeView::Hash160,
            Opcode::Hash256 => OpcodeView::Hash256,
            Opcode::CodeSeparator => OpcodeView::CodeSeparator,
            Opcode::CheckSig => OpcodeView::CheckSig,
            Opcode::CheckSigVerify => OpcodeView::CheckSigVerify,
            Opcode::CheckMultisig => OpcodeView::CheckMultisig,
            Opcode::CheckMultisigVerify => OpcodeView::CheckMultisigVerify,
            Opcode::CheckLockTimeVerify => OpcodeView::CheckLockTimeVerify,
            Opcode::CheckSequenceVerify => OpcodeView::CheckSequenceVerify,
        }
    }
}

/// An ordered sequence of opcodes forming a locking or unlocking
/// condition; the order is the execution order.
#[derive(Clone, Debug, PartialEq, Eq)]
pub struct Script {
    pub opcodes: Vec<Opcode>,
}

impl View for Script {
    type V = Seq<OpcodeView>;

    open spec fn view(&self) -> Seq<OpcodeView> {
        self.opcodes@.map_values(|op: Opcode| op@)
    }
}

/// One input of a transaction: the previous output it spends, the
/// unlocking script, the sequence number, and the witness byte-strings
/// when the transaction's witness flag is set.
#[derive(Clone, Debug, PartialEq, Eq)]
pub struct TransactionInput {
    pub txid: Hash,
    pub vout: u32,
    pub unlock_script: Vec<u8>,
    pub sequence: u32,
    pub witness_stuff: Vec<Vec<u8>>,
}

/// The mathematical view of a [`TransactionInput`].
#[verifier::ext_equal]
pub struct TransactionInputView {
    pub txid: Seq<u8>,
    pub vout: u32,
    pub unlock_script: Seq<u8>,
    pub sequence: u32,
    pub witness_stuff: Seq<Seq<u8>>,
}

impl View for TransactionInput {
    type V = TransactionInputView;

    open spec fn view(&self) -> TransactionInputView {
        TransactionInputView {
            txid: self.txid@,
            vout: self.vout,
            unlock_script: self.unlock_script@,
            sequence: self.sequence,
            witness_stuff: self.witness_stuff@.map_values(|w: Vec<u8>| w@),
        }
    }
}

/// One output of a transaction: an amount and the locking script that
/// must be satisfied to spend it.
#[derive(Clone, Debug, PartialEq, Eq)]
pub struct TransactionOutput {
    pub value: u64,
    pub lock_script: Vec<u8>,
}

/// The mathematical view of a [`TransactionOutput`].
#[verifier::ext_equal]
pub struct TransactionOutputView {
    pub value: u64,
    pub lock_script: Seq<u8>,
}

impl View for TransactionOutput {
    type V = TransactionOutputView;

    open spec fn view(&self) -> TransactionOutputView {
        TransactionOutputView { value: self.value, lock_script: self.lock_script@ }
    }
}

/// A transaction: version, flag set, ordered inputs and outputs, and
/// locktime.
#[derive(Clone, Debug, PartialEq, Eq)]
pub struct Transaction {
    pub version: u32,
    pub flags: TransactionFlags,
    pub inputs: Vec<TransactionInput>,
    pub outputs: Vec<TransactionOutput>,
    pub locktime: u32,
}

/// The mathematical view of a [`Transaction`]; `flags` is the raw flag
/// byte.
#[verifier::ext_equal]
pub struct TransactionView {
    pub version: u32,
    pub flags: u8,
    pub inputs: Seq<TransactionInputView>,
    pub outputs: Seq<TransactionOutputView>,
    pub locktime: u32,
}

impl View for Transaction {
    type V = TransactionView;

    open spec fn view(&self) -> TransactionView {
        TransactionView {
            version: self.version,
            flags: self.flags.bits,
            inputs: self.inputs@.map_values(|i: TransactionInput| i@),
            outputs: self.outputs@.map_values(|o: TransactionOutput| o@),
            locktime: self.locktime,
        }
    }
}

/// The witness-stripped projection of a transaction view: the witness
/// flag cleared and every input's witness data dropped, everything else
/// identical.
pub open spec fn spec_strip_witness(t: TransactionView) -> TransactionView {
    TransactionView {
        flags: 0,
        inputs: t.inputs.map_values(
            |i: TransactionInputView| TransactionInputView { witness_stuff: Seq::empty(), ..i },
        ),
        ..t
    }
}

impl Transaction {
    /// The historical (pre-witness) projection of this transaction: the
    /// witness flag cleared and all witness data dropped, everything else
    /// identical. Its serialization is what merkle-root computation and
    /// legacy signature hashing consume.
    pub fn strip_witness_data(&self) -> (r: Transaction)
        ensures
            r@ == spec_strip_witness(self@),
    {
        let mut inputs: Vec<TransactionInput> = Vec::new();
        let mut i: usize = 0;
        while i < self.inputs.len()
            invariant
                i <= self.inputs@.len(),
                inputs@.len() == i,
                forall|j: int| 0 <= j < i ==> #[trigger] inputs@[j]@ =~= (TransactionInputView {
                    witness_stuff: Seq::empty(),
                    ..self.inputs@[j]@
                }),
            decreases self.inputs@.len() - i,
        {
            let input = &self.inputs[i];
            inputs.push(TransactionInput {
                txid: input.txid,
                vout: input.vout,
                unlock_script: crate::parse::clone_bytes(&input.unlock_script),
                sequence: input.sequence,
                witness_stuff: Vec::new(),
            });
            i = i + 1;
        }
        let mut outputs: Vec<TransactionOutput> = Vec::new();
        let mut k: usize = 0;
        while k < self.outputs.len()
            invariant
                k <= self.outputs@.len(),
                outputs@.len() == k,
                forall|j: int| 0 <= j < k ==> #[trigger] outputs@[j]@ =~= self.outputs@[j]@,
            decreases self.outputs@.len() - k,
        {
            let output = &self.outputs[k];
            outputs.push(TransactionOutput {
                value: output.value,
                lock_script: crate::parse::clone_bytes(&output.lock_script),
            });
            k = k + 1;
        }
        let r = Transaction {
            version: self.version,
            flags: TransactionFlags::empty(),
            inputs,
            outputs,
            locktime: self.locktime,
        };
        proof {
            assert(r@.inputs =~= spec_strip_witness(self@).inputs);
            assert(r@.outputs =~= spec_strip_witness(self@).outputs);
            assert(r@ =~= spec_strip_witness(self@));
        }
        r
    }
}

/// A block header: its little-endian serialization is exactly what is
/// double-hashed to produce the block id.
#[derive(Clone, Copy, Debug, PartialEq, Eq)]
pub struct BlockHeader {
    pub version: u32,
    pub prev_block_hash: Hash,
    pub merkle_root: Hash,
    pub time: u32,
    pub bits: u32,
    pub nonce: u32,
}

/// The mathematical view of a [`BlockHeader`].
#[verifier::ext_equal]
pub struct BlockHeaderView {
    pub version: u32,
    pub prev_block_hash: Seq<u8>,
    pub merkle_root: Seq<u8>,
    pub time: u32,
    pub bits: u32,
    pub nonce: u32,
}

impl View for BlockHeader {
    type V = BlockHeaderView;

    open spec fn view(&self) -> BlockHeaderView {
        BlockHeaderView {
            version: self.version,
            prev_block_hash: self.prev_block_hash@,
            merkle_root: self.merkle_root@,
            time: self.time,
            bits: self.bits,
            nonce: self.nonce,
        }
    }
}

/// A block: the network it belongs to, its header, and its ordered
/// transactions.
#[derive(Clone, Debug, PartialEq, Eq)]
pub struct Block {
    pub network: Network,
    pub header: BlockHeader,
    pub transactions: Vec<Transaction>,
}

/// The mathematical view of a [`Block`].
#[verifier::ext_equal]
pub struct BlockView {
    pub network: Network,
    pub header: BlockHeaderView,
    pub transactions: Seq<TransactionView>,
}

impl View for Block {
    type V = BlockView;

    open spec fn view(&self) -> BlockView {
        BlockView {
            network: self.network,
            header: self.header@,
            transactions: self.transactions@.map_values(|t: Transaction| t@),
        }
    }
}

} // verus!
