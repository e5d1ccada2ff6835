//! The opcode decoder and the script execution engine: a stack machine
//! over the script instruction set with consensus-exact semantics,
//! including reserved, disabled and invalid opcodes that must fail
//! execution in specific ways.
use vstd::prelude::*;
use crate::error::BlockParseError;
use crate::error::BlockValidationError;
use crate::error::ScriptError;
use crate::parse::read_bytes;
use crate::parse::clone_bytes;
use crate::parse::push_all;
use crate::parse::views_of;
use crate::LittleEndianSerialization;
use crate::Opcode;
use crate::OpcodeView;
use crate::Script;

verus! {

impl LittleEndianSerialization for Opcode {
    open spec fn spec_serialized(v: OpcodeView) -> Seq<u8> {
        match v {
            OpcodeView::PushArray(data) => if data.len() <= 0x4b {
                seq![data.len() as u8] + data
            } else if data.len() <= 0xff {
                seq![0x4cu8, data.len() as u8] + data
            } else if data.len() <= 0xffff {
                seq![0x4du8] + vstd::bytes::spec_u16_to_le_bytes(data.len() as u16) + data
            } else {
                seq![0x4eu8] + vstd::bytes::spec_u32_to_le_bytes(data.len() as u32) + data
            },
            OpcodeView::PushNumber(n) => seq![(n + 0x50) as u8],
            OpcodeView::Reserved(b) => seq![b],
            OpcodeView::Nop(b) => seq![b],
            OpcodeView::Disabled(b) => seq![b],
            OpcodeView::Invalid(b) => seq![b],
            OpcodeView::Ver => seq![0x62u8],
            OpcodeView::If => seq![0x63u8],
            OpcodeView::NotIf => seq![0x64u8],
            OpcodeView::VerIf => seq![0x65u8],
            OpcodeView::VerNotIf => seq![0x66u8],
            OpcodeView::Else => seq![0x67u8],
            OpcodeView::EndIf => seq![0x68u8],
            OpcodeView::Verify => seq![0x69u8],
            OpcodeView::Return => seq![0x6au8],
            OpcodeView::ToAltStack => seq![0x6bu8],
            OpcodeView::FromAltStack => seq![0x6cu8],
            OpcodeView::Drop2 => seq![0x6du8],
            OpcodeView::Dup2 => seq![0x6eu8],
            OpcodeView::Dup3 => seq![0x6fu8],
            OpcodeView::Over2 => seq![0x70u8],
            OpcodeView::Rot2 => seq![0x71u8],
            OpcodeView::Swap2 => seq![0x72u8],
            OpcodeView::IfDup => seq![0x73u8],
            OpcodeView::Depth => seq![0x74u8],
            OpcodeView::Drop => seq![0x75u8],
            OpcodeView::Dup => seq![0x76u8],
            OpcodeView::Nip => seq![0x77u8],
            OpcodeView::Over => seq![0x78u8],
            OpcodeView::Pick => seq![0x79u8],
            OpcodeView::Roll => seq![0x7au8],
            OpcodeView::Rot => seq![0x7bu8],
            OpcodeView::Swap => seq![0x7cu8],
            OpcodeView::Tuck => seq![0x7du8],
            OpcodeView::Size => seq![0x82u8],
            OpcodeView::Equal => seq![0x87u8],
            OpcodeView::EqualVerify => seq![0x88u8],
            OpcodeView::Add1 => seq![0x8bu8],
            OpcodeView::Sub1 => seq![0x8cu8],
            OpcodeView::Negate => seq![0x8fu8],
            OpcodeView::Abs => seq![0x90u8],
            OpcodeView::Not => seq![0x91u8],
            OpcodeView::NotEqual0 => seq![0x92u8],
            OpcodeView::Add => seq![0x93u8],
            OpcodeView::Sub => seq![0x94u8],
            OpcodeView::BoolAnd => seq![0x9au8],
            OpcodeView::BoolOr => seq![0x9bu8],
            OpcodeView::NumEqual => seq![0x9cu8],
            OpcodeView::NumEqualVerify => seq![0x9du8],
            OpcodeView::NumNotEqual => seq![0x9eu8],
            OpcodeView::LessThan => seq![0x9fu8],
            OpcodeView::GreaterThan => seq![0xa0u8],
            OpcodeView::LessThanOrEqual => seq![0xa1u8],
            OpcodeView::GreaterThanOrEqual => seq![0xa2u8],
            OpcodeView::Min => seq![0xa3u8],
            OpcodeView::Max => seq![0xa4u8],
            OpcodeView::Within => seq![0xa5u8],
            OpcodeView::RIPEMD160 => seq![0xa6u8],
            OpcodeView::SHA1 => seq![0xa7u8],
            OpcodeView::SHA256 => seq![0xa8u8],
            OpcodeView::Hash160 => seq![0xa9u8],
            OpcodeView::Hash256 => seq![0xaau8],
            OpcodeView::CodeSeparator => seq![0xabu8],
            OpcodeView::CheckSig => seq![0xacu8],
            OpcodeView::CheckSigVerify => seq![0xadu8],
            OpcodeView::CheckMultisig => seq![0xaeu8],
            OpcodeView::CheckMultisigVerify => seq![0xafu8],
            OpcodeView::CheckLockTimeVerify => seq![0xb1u8],
            OpcodeView::CheckSequenceVerify => seq![0xb2u8],
        }
    }

    open spec fn spec_parsed(bytes: Seq<u8>, pos: int) -> Result<(OpcodeView, int), BlockParseError> {
        match u8::spec_parsed(bytes, pos) {
            Err(e) => Err(e),
            Ok((v, p1)) => if v <= 0x4b {
                if p1 + v <= bytes.len() {
                    Ok((OpcodeView::PushArray(bytes.subrange(p1, p1 + v)), p1 + v))
                } else {
                    Err(BlockParseError::Truncated(p1 as usize))
                }
            } else if v == 0x4c {
                match u8::spec_parsed(bytes, p1) {
                    Err(e) => Err(e),
                    Ok((n, p2)) => if p2 + n <= bytes.len() {
                        Ok((OpcodeView::PushArray(bytes.subrange(p2, p2 + n)), p2 + n))
                    } else {
                        Err(BlockParseError::Truncated(p2 as usize))
                    },
                }
            } else if v == 0x4d {
                match u16::spec_parsed(bytes, p1) {
                    Err(e) => Err(e),
                    Ok((n, p2)) => if p2 + n <= bytes.len() {
                        Ok((OpcodeView::PushArray(bytes.subrange(p2, p2 + n)), p2 + n))
                    } else {
                        Err(BlockParseError::Truncated(p2 as usize))
                    },
                }
            } else if v == 0x4e {
                match u32::spec_parsed(bytes, p1) {
                    Err(e) => Err(e),
                    Ok((n, p2)) => if n > usize::MAX as u32 {
                        Err(BlockParseError::Oversize(p1 as usize))
                    } else if p2 + n <= bytes.len() {
                        Ok((OpcodeView::PushArray(bytes.subrange(p2, p2 + n)), p2 + n))
                    } else {
                        Err(BlockParseError::Truncated(p2 as usize))
                    },
                }
            } else {
                Ok((spec_opcode_of_byte(v), p1))
            },
        }
    }

    fn serialize_le(&self, dest: &mut Vec<u8>) {
        match self {
            Opcode::PushArray(data) => {
                if data.len() <= 0x4b {
                    dest.push(data.len() as u8);
                } else if data.len() <= 0xff {
                    dest.push(0x4c);
                    dest.push(data.len() as u8);
                } else if data.len() <= 0xffff {
                    dest.push(0x4d);
                    let b = vstd::bytes::u16_to_le_bytes(data.len() as u16);
                    push_all(dest, b.as_slice());
                } else {
                    dest.push(0x4e);
                    let b = vstd::bytes::u32_to_le_bytes(#[verifier::truncate] (data.len() as u32));
                    push_all(dest, b.as_slice());
                }
                push_all(dest, data.as_slice());
                proof {
                    assert(dest@ =~= old(dest)@ + Self::spec_serialized(self@));
                }
            },
            Opcode::PushNumber(n) => {
                dest.push(#[verifier::truncate] ((*n as i16 + 0x50) as u8));
                proof {
                    assert(dest@ =~= old(dest)@ + Self::spec_serialized(self@));
                }
            },
            Opcode::Reserved(b) => {
                dest.push(*b);
                proof {
                    assert(dest@ =~= old(dest)@ + Self::spec_serialized(self@));
                }
            },
            Opcode::Nop(b) => {
                dest.push(*b);
                proof {
                    assert(dest@ =~= old(dest)@ + Self::spec_serialized(self@));
                }
            },
            Opcode::Disabled(b) => {
                dest.push(*b);
                proof {
                    assert(dest@ =~= old(dest)@ + Self::spec_serialized(self@));
                }
            },
            Opcode::Invalid(b) => {
                dest.push(*b);
                proof {
                    assert(dest@ =~= old(dest)@ + Self::spec_serialized(self@));
                }
            },
            _ => {
                let b = self.to_byte();
                dest.push(b);
                proof {
                    assert(dest@ =~= old(dest)@ + Self::spec_serialized(self@));
                }
            },
        }
    }

    fn deserialize_le(bytes: &[u8], ix: &mut usize) -> (r: Result<Self, BlockParseError>) {
        let v = match u8::deserialize_le(bytes, ix) {
            Ok(b) => b,
            Err(e) => {
                return Err(e);
            },
        };
        match v {
            0x00..=0x4b => {
                let data = match read_bytes(bytes, ix, v as usize) {
                    Ok(d) => d,
                    Err(e) => {
                        return Err(e);
                    },
                };
                Ok(Opcode::PushArray(data))
            },
            0x4c => {
                let n = match u8::deserialize_le(bytes, ix) {
                    Ok(b) => b,
                    Err(e) => {
                        return Err(e);
                    },
                };
                let data = match read_bytes(bytes, ix, n as usize) {
                    Ok(d) => d,
                    Err(e) => {
                        return Err(e);
                    },
                };
                Ok(Opcode::PushArray(data))
            },
            0x4d => {
                let n = match u16::deserialize_le(bytes, ix) {
                    Ok(b) => b,
                    Err(e) => {
                        return Err(e);
                    },
                };
                let data = match read_bytes(bytes, ix, n as usize) {
                    Ok(d) => d,
                    Err(e) => {
                        return Err(e);
                    },
                };
                Ok(Opcode::PushArray(data))
            },
            0x4e => {
                let start = *ix;
                let n = match u32::deserialize_le(bytes, ix) {
                    Ok(b) => b,
                    Err(e) => {
                        return Err(e);
                    },
                };
                if n > usize::MAX as u32 {
                    return Err(BlockParseError::Oversize(start));
                }
                let data = match read_bytes(bytes, ix, n as usize) {
                    Ok(d) => d,
                    Err(e) => {
                        return Err(e);
                    },
                };
                Ok(Opcode::PushArray(data))
            },
            _ => Ok(Opcode::of_byte(v)),
        }
    }
}

/// The single-byte opcode (every value above the push-data range) a byte
/// decodes to.
pub open spec fn spec_opcode_of_byte(v: u8) -> OpcodeView
    recommends
        v > 0x4e,
{
    if v == 0x4f {
        OpcodeView::PushNumber(-1i8)
    } else if v == 0x50 {
        OpcodeView::Reserved(v)
    } else if 0x51 <= v && v <= 0x60 {
        OpcodeView::PushNumber((v - 0x50) as i8)
    } else if v == 0x61 {
        OpcodeView::Nop(v)
    } else if v == 0x62 {
        OpcodeView::Ver
    } else if v == 0x63 {
        OpcodeView::If
    } else if v == 0x64 {
        OpcodeView::NotIf
    } else if v == 0x65 {
        OpcodeView::VerIf
    } else if v == 0x66 {
        OpcodeView::VerNotIf
    } else if v == 0x67 {
        OpcodeView::Else
    } else if v == 0x68 {
        OpcodeView::EndIf
    } else if v == 0x69 {
        OpcodeView::Verify
    } else if v == 0x6a {
        OpcodeView::Return
    } else if v == 0x6b {
        OpcodeView::ToAltStack
    } else if v == 0x6c {
        OpcodeView::FromAltStack
    } else if v == 0x6d {
        OpcodeView::Drop2
    } else if v == 0x6e {
        OpcodeView::Dup2
    } else if v == 0x6f {
        OpcodeView::Dup3
    } else if v == 0x70 {
        OpcodeView::Over2
    } else if v == 0x71 {
        OpcodeView::Rot2
    } else if v == 0x72 {
        OpcodeView::Swap2
    } else if v == 0x73 {
        OpcodeView::IfDup
    } else if v == 0x74 {
        OpcodeView::Depth
    } else if v == 0x75 {
        OpcodeView::Drop
    } else if v == 0x76 {
        OpcodeView::Dup
    } else if v == 0x77 {
        OpcodeView::Nip
    } else if v == 0x78 {
        OpcodeView::Over
    } else if v == 0x79 {
        OpcodeView::Pick
    } else if v == 0x7a {
        OpcodeView::Roll
    } else if v == 0x7b {
        OpcodeView::Rot
    } else if v == 0x7c {
        OpcodeView::Swap
    } else if v == 0x7d {
        OpcodeView::Tuck
    } else if 0x7e <= v && v <= 0x81 {
        OpcodeView::Disabled(v)
    } else if v == 0x82 {
        OpcodeView::Size
    } else if 0x83 <= v && v <= 0x86 {
        OpcodeView::Disabled(v)
    } else if v == 0x87 {
        OpcodeView::Equal
    } else if v == 0x88 {
        OpcodeView::EqualVerify
    } else if 0x89 <= v && v <= 0x8a {
        OpcodeView::Reserved(v)
    } else if v == 0x8b {
        OpcodeView::Add1
    } else if v == 0x8c {
        OpcodeView::Sub1
    } else if 0x8d <= v && v <= 0x8e {
        OpcodeView::Disabled(v)
    } else if v == 0x8f {
        OpcodeView::Negate
    } else if v == 0x90 {
        OpcodeView::Abs
    } else if v == 0x91 {
        OpcodeView::Not
    } else if v == 0x92 {
        OpcodeView::NotEqual0
    } else if v == 0x93 {
        OpcodeView::Add
    } else if v == 0x94 {
        OpcodeView::Sub
    } else if 0x95 <= v && v <= 0x99 {
        OpcodeView::Disabled(v)
    } else if v == 0x9a {
        OpcodeView::BoolAnd
    } else if v == 0x9b {
        OpcodeView::BoolOr
    } else if v == 0x9c {
        OpcodeView::NumEqual
    } else if v == 0x9d {
        OpcodeView::NumEqualVerify
    } else if v == 0x9e {
        OpcodeView::NumNotEqual
    } else if v == 0x9f {
        OpcodeView::LessThan
    } else if v == 0xa0 {
        OpcodeView::GreaterThan
    } else if v == 0xa1 {
        OpcodeView::LessThanOrEqual
    } else if v == 0xa2 {
        OpcodeView::GreaterThanOrEqual
    } else if v == 0xa3 {
        OpcodeView::Min
    } else if v == 0xa4 {
        OpcodeView::Max
    } else if v == 0xa5 {
        OpcodeView::Within
    } else if v == 0xa6 {
        OpcodeView::RIPEMD160
    } else if v == 0xa7 {
        OpcodeView::SHA1
    } else if v == 0xa8 {
        OpcodeView::SHA256
    } else if v == 0xa9 {
        OpcodeView::Hash160
    } else if v == 0xaa {
        OpcodeView::Hash256
    } else if v == 0xab {
        OpcodeView::CodeSeparator
    } else if v == 0xac {
        OpcodeView::CheckSig
    } else if v == 0xad {
        OpcodeView::CheckSigVerify
    } else if v == 0xae {
        OpcodeView::CheckMultisig
    } else if v == 0xaf {
        OpcodeView::CheckMultisigVerify
    } else if v == 0xb0 {
        OpcodeView::Nop(v)
    } else if v == 0xb1 {
        OpcodeView::CheckLockTimeVerify
    } else if v == 0xb2 {
        OpcodeView::CheckSequenceVerify
    } else if 0xb3 <= v && v <= 0xb9 {
        OpcodeView::Nop(v)
    } else {
        OpcodeView::Invalid(v)
    }
}

impl Opcode {
    /// Decodes a single-byte (non-push) opcode. Total: every byte value
    /// above the push-data range maps to exactly one opcode.
    pub fn of_byte(v: u8) -> (r: Opcode)
        requires
            v > 0x4e,
        ensures
            r@ == spec_opcode_of_byte(v),
    {
        match v {
            0x4f => Opcode::PushNumber(-1),
            0x50 => Opcode::Reserved(v),
            0x51..=0x60 => Opcode::PushNumber((v - 0x50) as i8),
            0x61 => Opcode::Nop(v),
            0x62 => Opcode::Ver,
            0x63 => Opcode::If,
            0x64 => Opcode::NotIf,
            0x65 => Opcode::VerIf,
            0x66 => Opcode::VerNotIf,
            0x67 => Opcode::Else,
            0x68 => Opcode::EndIf,
            0x69 => Opcode::Verify,
            0x6a => Opcode::Return,
            0x6b => Opcode::ToAltStack,
            0x6c => Opcode::FromAltStack,
            0x6d => Opcode::Drop2,
            0x6e => Opcode::Dup2,
            0x6f => Opcode::Dup3,
            0x70 => Opcode::Over2,
            0x71 => Opcode::Rot2,
            0x72 => Opcode::Swap2,
            0x73 => Opcode::IfDup,
            0x74 => Opcode::Depth,
            0x75 => Opcode::Drop,
            0x76 => Opcode::Dup,
            0x77 => Opcode::Nip,
            0x78 => Opcode::Over,
            0x79 => Opcode::Pick,
            0x7a => Opcode::Roll,
            0x7b => Opcode::Rot,
            0x7c => Opcode::Swap,
            0x7d => Opcode::Tuck,
            0x7e..=0x81 => Opcode::Disabled(v),
            0x82 => Opcode::Size,
            0x83..=0x86 => Opcode::Disabled(v),
            0x87 => Opcode::Equal,
            0x88 => Opcode::EqualVerify,
            0x89..=0x8a => Opcode::Reserved(v),
            0x8b => Opcode::Add1,
            0x8c => Opcode::Sub1,
            0x8d..=0x8e => Opcode::Disabled(v),
            0x8f => Opcode::Negate,
            0x90 => Opcode::Abs,
            0x91 => Opcode::Not,
            0x92 => Opcode::NotEqual0,
            0x93 => Opcode::Add,
            0x94 => Opcode::Sub,
            0x95..=0x99 => Opcode::Disabled(v),
            0x9a => Opcode::BoolAnd,
            0x9b => Opcode::BoolOr,
            0x9c => Opcode::NumEqual,
            0x9d => Opcode::NumEqualVerify,
            0x9e => Opcode::NumNotEqual,
            0x9f => Opcode::LessThan,
            0xa0 => Opcode::GreaterThan,
            0xa1 => Opcode::LessThanOrEqual,
            0xa2 => Opcode::GreaterThanOrEqual,
            0xa3 => Opcode::Min,
            0xa4 => Opcode::Max,
            0xa5 => Opcode::Within,
            0xa6 => Opcode::RIPEMD160,
            0xa7 => Opcode::SHA1,
            0xa8 => Opcode::SHA256,
            0xa9 => Opcode::Hash160,
            0xaa => Opcode::Hash256,
            0xab => Opcode::CodeSeparator,
            0xac => Opcode::CheckSig,
            0xad => Opcode::CheckSigVerify,
            0xae => Opcode::CheckMultisig,
            0xaf => Opcode::CheckMultisigVerify,
            0xb0 => Opcode::Nop(v),
            0xb1 => Opcode::CheckLockTimeVerify,
            0xb2 => Opcode::CheckSequenceVerify,
            0xb3..=0xb9 => Opcode::Nop(v),
            _ => Opcode::Invalid(v),
        }
    }

    /// The single byte a non-push opcode encodes to.
    pub fn to_byte(&self) -> (r: u8)
        requires
            !(self matches Opcode::PushArray(_)),
            !(self matches Opcode::PushNumber(_)),
            !(self matches Opcode::Reserved(_)),
            !(self matches Opcode::Nop(_)),
            !(self matches Opcode::Disabled(_)),
            !(self matches Opcode::Invalid(_)),
        ensures
            Opcode::spec_serialized(self@) == seq![r],
    {
        match self {
            Opcode::Ver => 0x62,
            Opcode::If => 0x63,
            Opcode::NotIf => 0x64,
            Opcode::VerIf => 0x65,
            Opcode::VerNotIf => 0x66,
            Opcode::Else => 0x67,
            Opcode::EndIf => 0x68,
            Opcode::Verify => 0x69,
            Opcode::Return => 0x6a,
            Opcode::ToAltStack => 0x6b,
            Opcode::FromAltStack => 0x6c,
            Opcode::Drop2 => 0x6d,
            Opcode::Dup2 => 0x6e,
            Opcode::Dup3 => 0x6f,
            Opcode::Over2 => 0x70,
            Opcode::Rot2 => 0x71,
            Opcode::Swap2 => 0x72,
            Opcode::IfDup => 0x73,
            Opcode::Depth => 0x74,
            Opcode::Drop => 0x75,
            Opcode::Dup => 0x76,
            Opcode::Nip => 0x77,
            Opcode::Over => 0x78,
            Opcode::Pick => 0x79,
            Opcode::Roll => 0x7a,
            Opcode::Rot => 0x7b,
            Opcode::Swap => 0x7c,
            Opcode::Tuck => 0x7d,
            Opcode::Size => 0x82,
            Opcode::Equal => 0x87,
            Opcode::EqualVerify => 0x88,
            Opcode::Add1 => 0x8b,
            Opcode::Sub1 => 0x8c,
            Opcode::Negate => 0x8f,
            Opcode::Abs => 0x90,
            Opcode::Not => 0x91,
            Opcode::NotEqual0 => 0x92,
            Opcode::Add => 0x93,
            Opcode::Sub => 0x94,
            Opcode::BoolAnd => 0x9a,
            Opcode::BoolOr => 0x9b,
            Opcode::NumEqual => 0x9c,
            Opcode::NumEqualVerify => 0x9d,
            Opcode::NumNotEqual => 0x9e,
            Opcode::LessThan => 0x9f,
            Opcode::GreaterThan => 0xa0,
            Opcode::LessThanOrEqual => 0xa1,
            Opcode::GreaterThanOrEqual => 0xa2,
            Opcode::Min => 0xa3,
            Opcode::Max => 0xa4,
            Opcode::Within => 0xa5,
            Opcode::RIPEMD160 => 0xa6,
            Opcode::SHA1 => 0xa7,
            Opcode::SHA256 => 0xa8,
            Opcode::Hash160 => 0xa9,
            Opcode::Hash256 => 0xaa,
            Opcode::CodeSeparator => 0xab,
            Opcode::CheckSig => 0xac,
            Opcode::CheckSigVerify => 0xad,
            Opcode::CheckMultisig => 0xae,
            Opcode::CheckMultisigVerify => 0xaf,
            Opcode::CheckLockTimeVerify => 0xb1,
            Opcode::CheckSequenceVerify => 0xb2,
            _ => 0x62,
        }
    }
}

} // verus!
verus! {

/// What decoding a whole script buffer yields from `pos` to the end: the
/// opcode sequence, or the first parse error. The inner guard can never
/// be taken (a decoded opcode always advances the position); it keeps the
/// recursion well-founded.
pub open spec fn spec_parse_script(bytes: Seq<u8>, pos: int) -> Result<
    Seq<OpcodeView>,
    BlockParseError,
>
    decreases bytes.len() - pos,
{
    if pos < 0 || pos >= bytes.len() {
        Ok(Seq::empty())
    } else {
        match Opcode::spec_parsed(bytes, pos) {
            Err(e) => Err(e),
            Ok((op, p1)) => if p1 <= pos || p1 > bytes.len() {
                Err(BlockParseError::Truncated(pos as usize))
            } else {
                match spec_parse_script(bytes, p1) {
                    Err(e) => Err(e),
                    Ok(rest) => Ok(seq![op] + rest),
                }
            },
        }
    }
}

/// A successfully decoded opcode always advances the position and stays
/// within the buffer.
pub proof fn lemma_opcode_parse_advances(bytes: Seq<u8>, pos: int)
    requires
        0 <= pos <= bytes.len(),
    ensures
        match Opcode::spec_parsed(bytes, pos) {
            Ok((op, p1)) => pos < p1 <= bytes.len(),
            Err(_) => true,
        },
{
}

/// Decodes a flat script byte buffer into its opcode sequence, consuming
/// the whole buffer; fails on a push whose declared length exceeds the
/// remaining bytes.
#[verifier::loop_isolation(false)]
pub fn parse_script(bytes: &[u8]) -> (r: Result<Script, BlockParseError>)
    ensures
        match r {
            Ok(s) => spec_parse_script(bytes@, 0) == Ok::<Seq<OpcodeView>, BlockParseError>(s@),
            Err(e) => spec_parse_script(bytes@, 0) == Err::<Seq<OpcodeView>, BlockParseError>(e),
        },
{
    let mut opcodes: Vec<Opcode> = Vec::new();
    let mut ix: usize = 0;
    while ix < bytes.len()
        invariant
            ix <= bytes@.len(),
            spec_parse_script(bytes@, 0) == (match spec_parse_script(bytes@, ix as int) {
                Ok(rest) => Ok::<Seq<OpcodeView>, BlockParseError>(views_of(opcodes@) + rest),
                Err(e) => Err::<Seq<OpcodeView>, BlockParseError>(e),
            }),
        decreases bytes@.len() - ix,
    {
        let ghost pre = ix as int;
        let ghost ops_pre = opcodes@;
        match Opcode::deserialize_le(bytes, &mut ix) {
            Ok(op) => {
                let ghost x = op@;
                opcodes.push(op);
                proof {
                    lemma_opcode_parse_advances(bytes@, pre);
                    assert(views_of(opcodes@) =~= views_of(ops_pre).push(x));
                    match spec_parse_script(bytes@, ix as int) {
                        Ok(rest) => {
                            assert(views_of(ops_pre) + (seq![x] + rest) =~= views_of(opcodes@)
                                + rest);
                        },
                        Err(e) => {},
                    }
                }
            },
            Err(e) => {
                return Err(e);
            },
        }
    }
    proof {
        assert(spec_parse_script(bytes@, ix as int) == Ok::<Seq<OpcodeView>, BlockParseError>(
            Seq::empty(),
        ));
        assert(views_of(opcodes@) + Seq::<OpcodeView>::empty() =~= views_of(opcodes@));
    }
    Ok(Script { opcodes })
}

} // verus!
verus! {

/// 256 to the power `k`.
pub open spec fn pow256(k: nat) -> int
    decreases k,
{
    if k == 0 {
        1
    } else {
        256 * pow256((k - 1) as nat)
    }
}

/// The unsigned little-endian value of a byte sequence.
pub open spec fn spec_le_unsigned(b: Seq<u8>) -> int
    decreases b.len(),
{
    if b.len() == 0 {
        0
    } else {
        b[0] + 256 * spec_le_unsigned(b.drop_first())
    }
}

/// The little-endian magnitude bytes of a positive number, most
/// significant byte last and non-zero.
pub open spec fn spec_scriptnum_mag(m: nat) -> Seq<u8>
    decreases m,
{
    if m == 0 {
        Seq::empty()
    } else {
        seq![(m % 256) as u8] + spec_scriptnum_mag(m / 256)
    }
}

/// The minimal script-number encoding of an integer: little-endian
/// magnitude with the sign carried in the top bit of the last byte, an
/// extra sign byte appended when the magnitude already uses that bit,
/// and the empty sequence for zero.
pub open spec fn spec_scriptnum(n: int) -> Seq<u8> {
    if n == 0 {
        Seq::empty()
    } else {
        let m = spec_scriptnum_mag((if n < 0 {
            -n
        } else {
            n
        }) as nat);
        if m.last() >= 0x80 {
            m + seq![
                if n < 0 {
                    0x80u8
                } else {
                    0x00u8
                },
            ]
        } else if n < 0 {
            m.update(m.len() - 1, (m.last() + 0x80) as u8)
        } else {
            m
        }
    }
}

/// A byte sequence is a minimal script-number encoding: it is empty, or
/// its last byte is not a bare sign byte that a shorter encoding would
/// absorb.
pub open spec fn spec_scriptnum_minimal(b: Seq<u8>) -> bool {
    b.len() == 0 || !((b.last() == 0 || b.last() == 0x80) && (b.len() == 1 || b[b.len() - 2]
        < 0x80))
}

/// The signed value a byte sequence decodes to under the script-number
/// convention: unsigned little-endian with the top bit of the last byte
/// as the sign.
pub open spec fn spec_scriptnum_of(b: Seq<u8>) -> int {
    if b.len() == 0 {
        0
    } else if b.last() < 0x80 {
        spec_le_unsigned(b)
    } else {
        -(spec_le_unsigned(b) - 0x80 * pow256((b.len() - 1) as nat))
    }
}

/// Appending a byte adds its value at the next power of 256.
proof fn lemma_le_unsigned_push(b: Seq<u8>, x: u8)
    ensures
        spec_le_unsigned(b.push(x)) == spec_le_unsigned(b) + x * pow256(b.len()),
    decreases b.len(),
{
    if b.len() == 0 {
        assert(b.push(x).drop_first() =~= Seq::<u8>::empty());
        assert(b.push(x)[0] == x);
        assert(spec_le_unsigned(Seq::<u8>::empty()) == 0);
        assert(spec_le_unsigned(b.push(x)) == x + 256 * 0);
        assert(pow256(0nat) == 1);
    } else {
        assert(b.push(x).drop_first() =~= b.drop_first().push(x));
        lemma_le_unsigned_push(b.drop_first(), x);
        assert(spec_le_unsigned(b.push(x)) == b[0] + 256 * (spec_le_unsigned(b.drop_first()) + x
            * pow256((b.len() - 1) as nat)));
        assert(256 * (spec_le_unsigned(b.drop_first()) + x * pow256((b.len() - 1) as nat)) == 256
            * spec_le_unsigned(b.drop_first()) + x * (256 * pow256((b.len() - 1) as nat)))
            by (nonlinear_arith);
        assert(256 * pow256((b.len() - 1) as nat) == pow256(b.len()));
    }
}

/// The unsigned value of a byte sequence is bounded by the next power of
/// 256 and non-negative.
proof fn lemma_le_unsigned_bounds(b: Seq<u8>)
    ensures
        0 <= spec_le_unsigned(b) < pow256(b.len()),
    decreases b.len(),
{
    if b.len() == 0 {
    } else {
        lemma_le_unsigned_bounds(b.drop_first());
        assert(pow256(b.len()) == 256 * pow256((b.len() - 1) as nat));
        assert(b[0] + 256 * spec_le_unsigned(b.drop_first()) < 256 * pow256(
            (b.len() - 1) as nat,
        )) by (nonlinear_arith)
            requires
                b[0] < 256,
                spec_le_unsigned(b.drop_first()) <= pow256((b.len() - 1) as nat) - 1,
                pow256((b.len() - 1) as nat) >= 1,
        {}
        assert(pow256((b.len() - 1) as nat) >= 1) by {
            lemma_pow256_positive((b.len() - 1) as nat);
        }
    }
}

/// The first five powers of 256, spelled out.
proof fn lemma_pow256_small()
    ensures
        pow256(0nat) == 1,
        pow256(1nat) == 0x100,
        pow256(2nat) == 0x10000,
        pow256(3nat) == 0x100_0000,
        pow256(4nat) == 0x1_0000_0000,
{
    assert(pow256(0nat) == 1);
    assert(pow256(1nat) == 256 * pow256(0nat));
    assert(pow256(2nat) == 256 * pow256(1nat));
    assert(pow256(3nat) == 256 * pow256(2nat));
    assert(pow256(4nat) == 256 * pow256(3nat));
}

/// Powers of 256 are positive.
proof fn lemma_pow256_positive(k: nat)
    ensures
        pow256(k) >= 1,
    decreases k,
{
    if k > 0 {
        lemma_pow256_positive((k - 1) as nat);
    }
}

/// Interprets a stack entry's bytes as a signed number under consensus
/// rules: at most four bytes, minimally encoded.
pub fn parse_scriptnum(b: &[u8]) -> (r: Result<i64, BlockValidationError>)
    ensures
        match r {
            Ok(n) => b@.len() <= 4 && spec_scriptnum_minimal(b@) && n == spec_scriptnum_of(b@)
                && -0x1_0000_0000i64 < n < 0x1_0000_0000i64,
            Err(e) => (b@.len() > 4 || !spec_scriptnum_minimal(b@)) && e
                == BlockValidationError::NumberOutOfRange,
        },
{
    if b.len() > 4 {
        return Err(BlockValidationError::NumberOutOfRange);
    }
    if b.len() == 0 {
        return Ok(0);
    }
    let last = b[b.len() - 1];
    if (last == 0 || last == 0x80) && (b.len() == 1 || b[b.len() - 2] < 0x80) {
        return Err(BlockValidationError::NumberOutOfRange);
    }
    proof {
        lemma_pow256_small();
    }
    let mut acc: i64 = 0;
    let mut factor: i64 = 1;
    let mut i: usize = 0;
    while i < b.len()
        invariant
            i <= b@.len() <= 4,
            factor == pow256(i as nat),
            1 <= factor <= 0x1_0000_0000i64,
            0 <= acc,
            acc == spec_le_unsigned(b@.take(i as int)),
            acc < factor,
        decreases b@.len() - i,
    {
        proof {
            lemma_le_unsigned_push(b@.take(i as int), b@[i as int]);
            assert(b@.take(i as int).push(b@[i as int]) =~= b@.take(i + 1));
            assert(acc + b@[i as int] * factor < 256 * factor) by (nonlinear_arith)
                requires
                    acc < factor,
                    b@[i as int] < 256,
                    factor >= 1,
            {}
            assert(b@[i as int] * factor >= 0) by (nonlinear_arith)
                requires
                    b@[i as int] >= 0,
                    factor >= 1,
            {}
            lemma_pow256_small();
            assert(pow256((i + 1) as nat) == 256 * pow256(i as nat));
        }
        acc = acc + (b[i] as i64) * factor;
        factor = factor * 256;
        i = i + 1;
    }
    proof {
        assert(b@.take(b@.len() as int) =~= b@);
    }
    if last < 0x80 {
        Ok(acc)
    } else {
        let sign_place: i64 = if b.len() == 1 {
            0x80
        } else if b.len() == 2 {
            0x8000
        } else if b.len() == 3 {
            0x80_0000
        } else {
            0x8000_0000
        };
        proof {
            lemma_pow256_small();
            assert(sign_place == 0x80 * pow256((b@.len() - 1) as nat));
            lemma_le_unsigned_bounds(b@);
        }
        Ok(-(acc - sign_place))
    }
}

/// Encodes a signed number as its minimal script-number byte sequence.
pub fn scriptnum_encode(n: i64) -> (r: Vec<u8>)
    ensures
        r@ == spec_scriptnum(n as int),
{
    if n == 0 {
        let r: Vec<u8> = Vec::new();
        proof {
            assert(r@ =~= spec_scriptnum(0));
        }
        return r;
    }
    let neg = n < 0;
    let mut mag: u64 = if n == i64::MIN {
        0x8000_0000_0000_0000u64
    } else if neg {
        (-n) as u64
    } else {
        n as u64
    };
    let ghost m0 = mag as nat;
    let mut out: Vec<u8> = Vec::new();
    while mag > 0
        invariant
            spec_scriptnum_mag(m0) == out@ + spec_scriptnum_mag(mag as nat),
            mag > 0 ==> out@ + spec_scriptnum_mag(mag as nat) == out@ + (seq![
                (mag as nat % 256) as u8,
            ] + spec_scriptnum_mag(mag as nat / 256)),
        decreases mag,
    {
        let ghost out_pre = out@;
        out.push((mag % 256) as u8);
        proof {
            assert(out_pre + (seq![(mag as nat % 256) as u8] + spec_scriptnum_mag(
                mag as nat / 256,
            )) =~= out@ + spec_scriptnum_mag(mag as nat / 256));
        }
        mag = mag / 256;
    }
    proof {
        assert(out@ + spec_scriptnum_mag(0) =~= out@);
        assert(out@ == spec_scriptnum_mag(m0));
        assert(m0 > 0);
        assert(spec_scriptnum_mag(m0).len() > 0);
    }
    let last = out[out.len() - 1];
    if last >= 0x80 {
        out.push(if neg {
            0x80
        } else {
            0x00
        });
        proof {
            assert(out@ =~= spec_scriptnum(n as int));
        }
    } else if neg {
        let idx = out.len() - 1;
        out[idx] = last + 0x80;
        proof {
            assert(out@ =~= spec_scriptnum(n as int));
        }
    } else {
        proof {
            assert(out@ =~= spec_scriptnum(n as int));
        }
    }
    out
}

} // verus!
verus! {

/// One entry of the evaluation stack: a raw byte string, or a signed
/// integer that stands for its minimal script-number encoding.
#[derive(Clone, Debug, PartialEq, Eq)]
pub enum StackEntry {
    Bytes(Vec<u8>),
    Number(i64),
}

/// The mathematical view of a [`StackEntry`].
#[verifier::ext_equal]
pub enum StackEntryView {
    Bytes(Seq<u8>),
    Number(i64),
}

impl View for StackEntry {
    type V = StackEntryView;

    open spec fn view(&self) -> StackEntryView {
        match self {
            StackEntry::Bytes(b) => StackEntryView::Bytes(b@),
            StackEntry::Number(n) => StackEntryView::Number(*n),
        }
    }
}

/// The canonical byte string a stack entry stands for: a byte entry is
/// itself; a number entry is its minimal script-number encoding.
pub open spec fn spec_entry_bytes(e: StackEntryView) -> Seq<u8> {
    match e {
        StackEntryView::Bytes(b) => b,
        StackEntryView::Number(n) => spec_scriptnum(n as int),
    }
}

/// A byte string is true unless every byte is zero, allowing a trailing
/// 0x80 (negative zero) as false.
pub open spec fn spec_bytes_truthy(b: Seq<u8>) -> bool {
    exists|i: int| 0 <= i < b.len() && b[i] != 0 && !(i == b.len() - 1 && b[i] == 0x80)
}

/// Whether a stack entry counts as true.
pub open spec fn spec_entry_truthy(e: StackEntryView) -> bool {
    match e {
        StackEntryView::Bytes(b) => spec_bytes_truthy(b),
        StackEntryView::Number(n) => n != 0,
    }
}

/// The number a stack entry yields to a numeric opcode: a byte entry must
/// be at most four bytes and minimally encoded; a number entry must lie in
/// the four-byte range.
pub open spec fn spec_entry_num(e: StackEntryView) -> Result<int, BlockValidationError> {
    match e {
        StackEntryView::Number(n) => if -0x7fffffff <= n <= 0x7fffffff {
            Ok(n as int)
        } else {
            Err(BlockValidationError::NumberOutOfRange)
        },
        StackEntryView::Bytes(b) => if b.len() <= 4 && spec_scriptnum_minimal(b) {
            Ok(spec_scriptnum_of(b))
        } else {
            Err(BlockValidationError::NumberOutOfRange)
        },
    }
}

/// The state of the script machine: the evaluation stack, the alternate
/// stack, the branch-activity stack for `If`/`Else`/`EndIf` nesting, and
/// the count of executed (non-push) opcodes.
#[verifier::ext_equal]
pub struct MachineView {
    pub stack: Seq<StackEntryView>,
    pub alt: Seq<StackEntryView>,
    pub branches: Seq<bool>,
    pub op_count: u64,
}

/// The machine a script starts on: both stacks as given, no open
/// branches, no opcodes counted.
pub open spec fn spec_machine(stack: Seq<StackEntryView>, alt: Seq<StackEntryView>) -> MachineView {
    MachineView { stack, alt, branches: Seq::empty(), op_count: 0 }
}

/// Whether the current branch is active: no enclosing `If` arm is
/// currently skipped.
pub open spec fn spec_active(m: MachineView) -> bool {
    !m.branches.contains(false)
}

/// Whether an opcode counts against the executed-opcode ceiling: every
/// opcode above the push range does.
pub open spec fn spec_op_counts(op: OpcodeView) -> bool {
    match op {
        OpcodeView::PushArray(_) => false,
        OpcodeView::PushNumber(_) => false,
        OpcodeView::Reserved(b) => b > 0x60,
        _ => true,
    }
}

/// The combined stack-depth ceiling.
pub open spec fn spec_stack_limit() -> int {
    1000
}

/// The executed-opcode ceiling per script.
pub open spec fn spec_op_limit() -> int {
    201
}

/// The byte-size ceiling of a single pushed element.
pub open spec fn spec_push_limit() -> int {
    520
}

/// The byte-size ceiling of one script.
pub open spec fn spec_script_size_limit() -> int {
    10000
}

/// The effect of `If` (or `NotIf`, with `negate`): in an active branch it
/// pops the condition and opens a branch with its truth; in a skipped
/// branch it opens an inactive branch without touching the stack.
pub open spec fn spec_step_if(m: MachineView, negate: bool) -> Result<
    MachineView,
    BlockValidationError,
> {
    if spec_active(m) {
        if m.stack.len() == 0 {
            Err(BlockValidationError::UnbalancedConditional)
        } else {
            let v = spec_entry_truthy(m.stack.last());
            Ok(
                MachineView {
                    stack: m.stack.drop_last(),
                    branches: m.branches.push(
                        if negate {
                            !v
                        } else {
                            v
                        },
                    ),
                    ..m
                },
            )
        }
    } else {
        Ok(MachineView { branches: m.branches.push(false), ..m })
    }
}

/// The effect of one opcode reached in an active branch (conditionals,
/// disabled opcodes and the push-size check are handled before this).
pub open spec fn spec_exec_op(m: MachineView, op: OpcodeView) -> Result<
    MachineView,
    BlockValidationError,
> {
    let s = m.stack;
    let n = s.len() as int;
    match op {
        OpcodeView::PushArray(d) => Ok(MachineView { stack: s.push(StackEntryView::Bytes(d)), ..m }),
        OpcodeView::PushNumber(k) => Ok(
            MachineView { stack: s.push(StackEntryView::Number(k as i64)), ..m },
        ),
        OpcodeView::Reserved(b) => Err(BlockValidationError::ReservedOpcode(b)),
        OpcodeView::Invalid(b) => Err(BlockValidationError::InvalidOpcode(b)),
        OpcodeView::Ver => Err(BlockValidationError::InvalidOpcode(0x62)),
        OpcodeView::Nop(_) => Ok(m),
        OpcodeView::CodeSeparator => Ok(m),
        OpcodeView::CheckLockTimeVerify => Ok(m),
        OpcodeView::CheckSequenceVerify => Ok(m),
        OpcodeView::Verify => if n < 1 {
            Err(BlockValidationError::StackUnderflow)
        } else if spec_entry_truthy(s.last()) {
            Ok(MachineView { stack: s.drop_last(), ..m })
        } else {
            Err(BlockValidationError::VerifyFailed)
        },
        OpcodeView::Return => Err(BlockValidationError::EarlyReturn),
        OpcodeView::ToAltStack => if n < 1 {
            Err(BlockValidationError::StackUnderflow)
        } else {
            Ok(MachineView { stack: s.drop_last(), alt: m.alt.push(s.last()), ..m })
        },
        OpcodeView::FromAltStack => if m.alt.len() < 1 {
            Err(BlockValidationError::StackUnderflow)
        } else {
            Ok(MachineView { stack: s.push(m.alt.last()), alt: m.alt.drop_last(), ..m })
        },
        OpcodeView::Drop2 => if n < 2 {
            Err(BlockValidationError::StackUnderflow)
        } else {
            Ok(MachineView { stack: s.take(n - 2), ..m })
        },
        OpcodeView::Dup2 => if n < 2 {
            Err(BlockValidationError::StackUnderflow)
        } else {
            Ok(MachineView { stack: s + seq![s[n - 2], s[n - 1]], ..m })
        },
        OpcodeView::Dup3 => if n < 3 {
            Err(BlockValidationError::StackUnderflow)
        } else {
            Ok(MachineView { stack: s + seq![s[n - 3], s[n - 2], s[n - 1]], ..m })
        },
        OpcodeView::Over2 => if n < 4 {
            Err(BlockValidationError::StackUnderflow)
        } else {
            Ok(MachineView { stack: s + seq![s[n - 4], s[n - 3]], ..m })
        },
        OpcodeView::Rot2 => if n < 6 {
            Err(BlockValidationError::StackUnderflow)
        } else {
            Ok(
                MachineView {
                    stack: s.take(n - 6) + seq![
                        s[n - 4],
                        s[n - 3],
                        s[n - 2],
                        s[n - 1],
                        s[n - 6],
                        s[n - 5],
                    ],
                    ..m
                },
            )
        },
        OpcodeView::Swap2 => if n < 4 {
            Err(BlockValidationError::StackUnderflow)
        } else {
            Ok(MachineView { stack: s.take(n - 4) + seq![s[n - 2], s[n - 1], s[n - 4], s[n - 3]], ..m },
            )
        },
        OpcodeView::IfDup => if n < 1 {
            Err(BlockValidationError::StackUnderflow)
        } else if spec_entry_truthy(s.last()) {
            Ok(MachineView { stack: s.push(s.last()), ..m })
        } else {
            Ok(m)
        },
        OpcodeView::Depth => Ok(
            MachineView { stack: s.push(StackEntryView::Number(s.len() as i64)), ..m },
        ),
        OpcodeView::Drop => if n < 1 {
            Err(BlockValidationError::StackUnderflow)
        } else {
            Ok(MachineView { stack: s.drop_last(), ..m })
        },
        OpcodeView::Dup => if n < 1 {
            Err(BlockValidationError::StackUnderflow)
        } else {
            Ok(MachineView { stack: s.push(s.last()), ..m })
        },
        OpcodeView::Nip => if n < 2 {
            Err(BlockValidationError::StackUnderflow)
        } else {
            Ok(MachineView { stack: s.take(n - 2).push(s[n - 1]), ..m })
        },
        OpcodeView::Over => if n < 2 {
            Err(BlockValidationError::StackUnderflow)
        } else {
            Ok(MachineView { stack: s.push(s[n - 2]), ..m })
        },
        OpcodeView::Pick => if n < 2 {
            Err(BlockValidationError::StackUnderflow)
        } else {
            match spec_entry_num(s.last()) {
                Err(e) => Err(e),
                Ok(k) => {
                    let rest = s.drop_last();
                    if k < 0 || k >= rest.len() {
                        Err(BlockValidationError::StackUnderflow)
                    } else {
                        Ok(MachineView { stack: rest.push(rest[rest.len() - 1 - k]), ..m })
                    }
                },
            }
        },
        OpcodeView::Roll => if n < 2 {
            Err(BlockValidationError::StackUnderflow)
        } else {
            match spec_entry_num(s.last()) {
                Err(e) => Err(e),
                Ok(k) => {
                    let rest = s.drop_last();
                    if k < 0 || k >= rest.len() {
                        Err(BlockValidationError::StackUnderflow)
                    } else {
                        let idx = rest.len() - 1 - k;
                        Ok(
                            MachineView {
                                stack: (rest.take(idx) + rest.subrange(
                                    idx + 1,
                                    rest.len() as int,
                                )).push(rest[idx]),
                                ..m
                            },
                        )
                    }
                },
            }
        },
        OpcodeView::Rot => if n < 3 {
            Err(BlockValidationError::StackUnderflow)
        } else {
            Ok(MachineView { stack: s.take(n - 3) + seq![s[n - 2], s[n - 1], s[n - 3]], ..m })
        },
        OpcodeView::Swap => if n < 2 {
            Err(BlockValidationError::StackUnderflow)
        } else {
            Ok(MachineView { stack: s.take(n - 2) + seq![s[n - 1], s[n - 2]], ..m })
        },
        OpcodeView::Tuck => if n < 2 {
            Err(BlockValidationError::StackUnderflow)
        } else {
            Ok(MachineView { stack: s.take(n - 2) + seq![s[n - 1], s[n - 2], s[n - 1]], ..m })
        },
        OpcodeView::Size => if n < 1 {
            Err(BlockValidationError::StackUnderflow)
        } else {
            Ok(
                MachineView {
                    stack: s.push(
                        StackEntryView::Number(spec_entry_bytes(s.last()).len() as i64),
                    ),
                    ..m
                },
            )
        },
        OpcodeView::Equal => if n < 2 {
            Err(BlockValidationError::StackUnderflow)
        } else {
            let eq = spec_entry_bytes(s[n - 2]) == spec_entry_bytes(s[n - 1]);
            Ok(
                MachineView {
                    stack: s.take(n - 2).push(
                        StackEntryView::Number(
                            if eq {
                                1
                            } else {
                                0
                            },
                        ),
                    ),
                    ..m
                },
            )
        },
        OpcodeView::EqualVerify => if n < 2 {
            Err(BlockValidationError::StackUnderflow)
        } else if spec_entry_bytes(s[n - 2]) == spec_entry_bytes(s[n - 1]) {
            Ok(MachineView { stack: s.take(n - 2), ..m })
        } else {
            Err(BlockValidationError::VerifyFailed)
        },
        OpcodeView::Add1 => spec_unary_num(m, op),
        OpcodeView::Sub1 => spec_unary_num(m, op),
        OpcodeView::Negate => spec_unary_num(m, op),
        OpcodeView::Abs => spec_unary_num(m, op),
        OpcodeView::Not => spec_unary_num(m, op),
        OpcodeView::NotEqual0 => spec_unary_num(m, op),
        OpcodeView::Add => spec_binary_num(m, op),
        OpcodeView::Sub => spec_binary_num(m, op),
        OpcodeView::BoolAnd => spec_binary_num(m, op),
        OpcodeView::BoolOr => spec_binary_num(m, op),
        OpcodeView::NumEqual => spec_binary_num(m, op),
        OpcodeView::NumNotEqual => spec_binary_num(m, op),
        OpcodeView::LessThan => spec_binary_num(m, op),
        OpcodeView::GreaterThan => spec_binary_num(m, op),
        OpcodeView::LessThanOrEqual => spec_binary_num(m, op),
        OpcodeView::GreaterThanOrEqual => spec_binary_num(m, op),
        OpcodeView::Min => spec_binary_num(m, op),
        OpcodeView::Max => spec_binary_num(m, op),
        OpcodeView::NumEqualVerify => if n < 2 {
            Err(BlockValidationError::StackUnderflow)
        } else {
            match spec_entry_num(s[n - 2]) {
                Err(e) => Err(e),
                Ok(a) => match spec_entry_num(s[n - 1]) {
                    Err(e) => Err(e),
                    Ok(b) => if a == b {
                        Ok(MachineView { stack: s.take(n - 2), ..m })
                    } else {
                        Err(BlockValidationError::VerifyFailed)
                    },
                },
            }
        },
        OpcodeView::Within => if n < 3 {
            Err(BlockValidationError::StackUnderflow)
        } else {
            match spec_entry_num(s[n - 3]) {
                Err(e) => Err(e),
                Ok(x) => match spec_entry_num(s[n - 2]) {
                    Err(e) => Err(e),
                    Ok(lo) => match spec_entry_num(s[n - 1]) {
                        Err(e) => Err(e),
                        Ok(hi) => Ok(
                            MachineView {
                                stack: s.take(n - 3).push(
                                    StackEntryView::Number(
                                        if lo <= x && x < hi {
                                            1
                                        } else {
                                            0
                                        },
                                    ),
                                ),
                                ..m
                            },
                        ),
                    },
                },
            }
        },
        OpcodeView::SHA256 => if n < 1 {
            Err(BlockValidationError::StackUnderflow)
        } else {
            Ok(
                MachineView {
                    stack: s.drop_last().push(
                        StackEntryView::Bytes(crate::hash::sha256_of(spec_entry_bytes(s.last()))),
                    ),
                    ..m
                },
            )
        },
        OpcodeView::Hash256 => if n < 1 {
            Err(BlockValidationError::StackUnderflow)
        } else {
            Ok(
                MachineView {
                    stack: s.drop_last().push(
                        StackEntryView::Bytes(
                            crate::hash::double_sha256_of(spec_entry_bytes(s.last())),
                        ),
                    ),
                    ..m
                },
            )
        },
        OpcodeView::RIPEMD160 => Err(BlockValidationError::UnsupportedOpcode(0xa6)),
        OpcodeView::SHA1 => Err(BlockValidationError::UnsupportedOpcode(0xa7)),
        OpcodeView::Hash160 => Err(BlockValidationError::UnsupportedOpcode(0xa9)),
        OpcodeView::CheckSig => Err(BlockValidationError::UnsupportedOpcode(0xac)),
        OpcodeView::CheckSigVerify => Err(BlockValidationError::UnsupportedOpcode(0xad)),
        OpcodeView::CheckMultisig => Err(BlockValidationError::UnsupportedOpcode(0xae)),
        OpcodeView::CheckMultisigVerify => Err(BlockValidationError::UnsupportedOpcode(0xaf)),
        // conditionals and disabled opcodes never reach this function;
        // `spec_step` handles them before the branch-activity check
        _ => Err(BlockValidationError::InvalidOpcode(0)),
    }
}

/// The numeric result of a unary arithmetic opcode.
pub open spec fn spec_unary_result(op: OpcodeView, a: int) -> int {
    match op {
        OpcodeView::Add1 => a + 1,
        OpcodeView::Sub1 => a - 1,
        OpcodeView::Negate => -a,
        OpcodeView::Abs => if a < 0 {
            -a
        } else {
            a
        },
        OpcodeView::Not => if a == 0 {
            1
        } else {
            0
        },
        OpcodeView::NotEqual0 => if a != 0 {
            1
        } else {
            0
        },
        _ => 0,
    }
}

/// A unary arithmetic opcode: pops one number, pushes the result.
pub open spec fn spec_unary_num(m: MachineView, op: OpcodeView) -> Result<
    MachineView,
    BlockValidationError,
> {
    if m.stack.len() < 1 {
        Err(BlockValidationError::StackUnderflow)
    } else {
        match spec_entry_num(m.stack.last()) {
            Err(e) => Err(e),
            Ok(a) => Ok(
                MachineView {
                    stack: m.stack.drop_last().push(
                        StackEntryView::Number(spec_unary_result(op, a) as i64),
                    ),
                    ..m
                },
            ),
        }
    }
}

/// The numeric result of a binary arithmetic or comparison opcode on
/// `a` (the deeper operand) and `b` (the top operand).
pub open spec fn spec_binary_result(op: OpcodeView, a: int, b: int) -> int {
    match op {
        OpcodeView::Add => a + b,
        OpcodeView::Sub => a - b,
        OpcodeView::BoolAnd => if a != 0 && b != 0 {
            1
        } else {
            0
        },
        OpcodeView::BoolOr => if a != 0 || b != 0 {
            1
        } else {
            0
        },
        OpcodeView::NumEqual => if a == b {
            1
        } else {
            0
        },
        OpcodeView::NumNotEqual => if a != b {
            1
        } else {
            0
        },
        OpcodeView::LessThan => if a < b {
            1
        } else {
            0
        },
        OpcodeView::GreaterThan => if a > b {
            1
        } else {
            0
        },
        OpcodeView::LessThanOrEqual => if a <= b {
            1
        } else {
            0
        },
        OpcodeView::GreaterThanOrEqual => if a >= b {
            1
        } else {
            0
        },
        OpcodeView::Min => if a < b {
            a
        } else {
            b
        },
        OpcodeView::Max => if a > b {
            a
        } else {
            b
        },
        _ => 0,
    }
}

/// A binary arithmetic or comparison opcode: pops two numbers (the deeper
/// operand is read first, as its error takes precedence), pushes the
/// result.
pub open spec fn spec_binary_num(m: MachineView, op: OpcodeView) -> Result<
    MachineView,
    BlockValidationError,
> {
    let s = m.stack;
    let n = s.len() as int;
    if n < 2 {
        Err(BlockValidationError::StackUnderflow)
    } else {
        match spec_entry_num(s[n - 2]) {
            Err(e) => Err(e),
            Ok(a) => match spec_entry_num(s[n - 1]) {
                Err(e) => Err(e),
                Ok(b) => Ok(
                    MachineView {
                        stack: s.take(n - 2).push(
                            StackEntryView::Number(spec_binary_result(op, a, b) as i64),
                        ),
                        ..m
                    },
                ),
            },
        }
    }
}

/// One step of the machine on one opcode: the opcode ceiling, the
/// push-size ceiling, disabled opcodes and conditionals apply whether or
/// not the branch is active; everything else only in an active branch;
/// the stack-depth ceiling applies after the step.
pub open spec fn spec_step(m: MachineView, op: OpcodeView) -> Result<
    MachineView,
    BlockValidationError,
> {
    if spec_op_counts(op) && m.op_count >= spec_op_limit() {
        Err(BlockValidationError::OpCountLimit)
    } else {
        let m1 = MachineView {
            op_count: if spec_op_counts(op) {
                (m.op_count + 1) as u64
            } else {
                m.op_count
            },
            ..m
        };
        let stepped = match op {
            OpcodeView::PushArray(d) => if d.len() > spec_push_limit() {
                Err(BlockValidationError::PushSize)
            } else if spec_active(m1) {
                spec_exec_op(m1, op)
            } else {
                Ok(m1)
            },
            OpcodeView::Disabled(b) => Err(BlockValidationError::DisabledOpcode(b)),
            OpcodeView::VerIf => Err(BlockValidationError::InvalidOpcode(0x65)),
            OpcodeView::VerNotIf => Err(BlockValidationError::InvalidOpcode(0x66)),
            OpcodeView::If => spec_step_if(m1, false),
            OpcodeView::NotIf => spec_step_if(m1, true),
            OpcodeView::Else => if m1.branches.len() == 0 {
                Err(BlockValidationError::UnbalancedConditional)
            } else {
                Ok(
                    MachineView {
                        branches: m1.branches.update(
                            m1.branches.len() - 1,
                            !m1.branches.last(),
                        ),
                        ..m1
                    },
                )
            },
            OpcodeView::EndIf => if m1.branches.len() == 0 {
                Err(BlockValidationError::UnbalancedConditional)
            } else {
                Ok(MachineView { branches: m1.branches.drop_last(), ..m1 })
            },
            _ => if spec_active(m1) {
                spec_exec_op(m1, op)
            } else {
                Ok(m1)
            },
        };
        match stepped {
            Err(e) => Err(e),
            Ok(m2) => if m2.stack.len() + m2.alt.len() > spec_stack_limit() {
                Err(BlockValidationError::StackLimit)
            } else {
                Ok(m2)
            },
        }
    }
}

/// Running a whole opcode sequence, one step at a time, stopping at the
/// first failure.
pub open spec fn spec_run(m: MachineView, ops: Seq<OpcodeView>) -> Result<
    MachineView,
    BlockValidationError,
>
    decreases ops.len(),
{
    if ops.len() == 0 {
        Ok(m)
    } else {
        match spec_step(m, ops[0]) {
            Err(e) => Err(e),
            Ok(m2) => spec_run(m2, ops.drop_first()),
        }
    }
}

/// Executing a script: run every opcode, then fail if any `If` is still
/// open at the end of the script.
pub open spec fn spec_execute(m: MachineView, ops: Seq<OpcodeView>) -> Result<
    MachineView,
    BlockValidationError,
> {
    match spec_run(m, ops) {
        Err(e) => Err(e),
        Ok(m2) => if m2.branches.len() != 0 {
            Err(BlockValidationError::UnbalancedConditional)
        } else {
            Ok(m2)
        },
    }
}

} // verus!
verus! {

/// Copies a stack entry. (A `Vec` clone's contents are not otherwise
/// visible to the verifier.)
fn entry_clone(e: &StackEntry) -> (r: StackEntry)
    ensures
        r@ == e@,
{
    match e {
        StackEntry::Bytes(b) => StackEntry::Bytes(clone_bytes(b)),
        StackEntry::Number(n) => StackEntry::Number(*n),
    }
}

/// The canonical byte string of a stack entry.
fn entry_bytes(e: &StackEntry) -> (r: Vec<u8>)
    ensures
        r@ == spec_entry_bytes(e@),
{
    match e {
        StackEntry::Bytes(b) => clone_bytes(b),
        StackEntry::Number(n) => scriptnum_encode(*n),
    }
}

/// Whether a stack entry counts as true.
#[verifier::loop_isolation(false)]
fn entry_truthy(e: &StackEntry) -> (r: bool)
    ensures
        r == spec_entry_truthy(e@),
{
    match e {
        StackEntry::Number(n) => *n != 0,
        StackEntry::Bytes(b) => {
            let mut i: usize = 0;
            while i < b.len()
                invariant
                    i <= b@.len(),
                    forall|j: int| 0 <= j < i ==> !(b@[j] != 0 && !(j == b@.len() - 1 && b@[j]
                        == 0x80)),
                decreases b@.len() - i,
            {
                if b[i] != 0 {
                    if !(i == b.len() - 1 && b[i] == 0x80) {
                        proof {
                            assert(spec_bytes_truthy(b@)) by {
                                assert(0 <= i < b@.len() && b@[i as int] != 0 && !(i == b@.len() - 1
                                    && b@[i as int] == 0x80));
                            }
                        }
                        return true;
                    }
                }
                i = i + 1;
            }
            false
        },
    }
}

/// The number a stack entry yields to a numeric opcode.
fn entry_num(e: &StackEntry) -> (r: Result<i64, BlockValidationError>)
    ensures
        match r {
            Ok(n) => spec_entry_num(e@) == Ok::<int, BlockValidationError>(n as int)
                && -0x1_0000_0000i64 < n < 0x1_0000_0000i64,
            Err(er) => spec_entry_num(e@) == Err::<int, BlockValidationError>(er),
        },
{
    match e {
        StackEntry::Number(n) => if -0x7fffffff <= *n && *n <= 0x7fffffff {
            Ok(*n)
        } else {
            Err(BlockValidationError::NumberOutOfRange)
        },
        StackEntry::Bytes(b) => parse_scriptnum(b.as_slice()),
    }
}

/// Whether two byte vectors hold the same bytes.
fn bytes_eq(x: &Vec<u8>, y: &Vec<u8>) -> (r: bool)
    ensures
        r == (x@ == y@),
{
    if x.len() != y.len() {
        return false;
    }
    let mut i: usize = 0;
    while i < x.len()
        invariant
            i <= x@.len(),
            x@.len() == y@.len(),
            forall|j: int| 0 <= j < i ==> x@[j] == y@[j],
        decreases x@.len() - i,
    {
        if x[i] != y[i] {
            return false;
        }
        i = i + 1;
    }
    proof {
        assert(x@ =~= y@);
    }
    true
}

/// The script execution engine: a stack machine whose state is the
/// evaluation stack, the alternate stack, the branch-activity stack, and
/// the executed-opcode count, all scoped to one validation and discarded
/// afterwards.
pub struct Executor {
    stack: Vec<StackEntry>,
    alt: Vec<StackEntry>,
    branches: Vec<bool>,
    op_count: u64,
}

impl View for Executor {
    type V = MachineView;

    closed spec fn view(&self) -> MachineView {
        MachineView {
            stack: views_of(self.stack@),
            alt: views_of(self.alt@),
            branches: self.branches@,
            op_count: self.op_count,
        }
    }
}

impl Executor {
    /// A fresh machine: empty stacks, no open branches, nothing counted.
    pub fn new() -> (r: Self)
        ensures
            r@ == spec_machine(Seq::empty(), Seq::empty()),
    {
        let r = Executor { stack: Vec::new(), alt: Vec::new(), branches: Vec::new(), op_count: 0 };
        proof {
            assert(r@ =~= spec_machine(Seq::empty(), Seq::empty()));
        }
        r
    }

    /// The current depth of the evaluation stack.
    pub fn depth(&self) -> (r: usize)
        ensures
            r == self@.stack.len(),
    {
        self.stack.len()
    }

    /// Whether the top of the evaluation stack counts as true.
    pub fn top_truthy(&self) -> (r: bool)
        requires
            self@.stack.len() > 0,
        ensures
            r == spec_entry_truthy(self@.stack.last()),
    {
        entry_truthy(&self.stack[self.stack.len() - 1])
    }

    /// Clears the executed-opcode count, as each script gets its own
    /// ceiling.
    fn reset_op_count(&mut self)
        ensures
            final(self)@ == (MachineView { op_count: 0, ..old(self)@ }),
    {
        self.op_count = 0;
        proof {
            assert(self@ =~= (MachineView { op_count: 0, ..old(self)@ }));
        }
    }

    /// Pops the top entry of the evaluation stack.
    fn pop_entry(&mut self) -> (r: StackEntry)
        requires
            old(self)@.stack.len() > 0,
        ensures
            r@ == old(self)@.stack.last(),
            final(self)@ == (MachineView { stack: old(self)@.stack.drop_last(), ..old(self)@ }),
    {
        let e = self.stack.pop().unwrap();
        proof {
            assert(views_of(self.stack@) =~= old(self)@.stack.drop_last());
            assert(self@ =~= (MachineView { stack: old(self)@.stack.drop_last(), ..old(self)@ }));
        }
        e
    }

    /// Pushes an entry onto the evaluation stack.
    fn push_entry(&mut self, e: StackEntry)
        ensures
            final(self)@ == (MachineView { stack: old(self)@.stack.push(e@), ..old(self)@ }),
    {
        let ghost x = e@;
        self.stack.push(e);
        proof {
            assert(views_of(self.stack@) =~= old(self)@.stack.push(x));
            assert(self@ =~= (MachineView { stack: old(self)@.stack.push(x), ..old(self)@ }));
        }
    }

    /// Whether the current branch is active.
    fn active(&self) -> (r: bool)
        ensures
            r == spec_active(self@),
    {
        let mut i: usize = 0;
        while i < self.branches.len()
            invariant
                i <= self.branches@.len(),
                forall|j: int| 0 <= j < i ==> self.branches@[j] != false,
            decreases self.branches@.len() - i,
        {
            if !self.branches[i] {
                proof {
                    assert(self@.branches.contains(false)) by {
                        assert(self@.branches[i as int] == false);
                    }
                }
                return false;
            }
            i = i + 1;
        }
        proof {
            assert(!self@.branches.contains(false));
        }
        true
    }
}

} // verus!
verus! {

/// Whether an opcode counts against the executed-opcode ceiling.
fn opcode_counts(op: &Opcode) -> (r: bool)
    ensures
        r == spec_op_counts(op@),
{
    match op {
        Opcode::PushArray(_) => false,
        Opcode::PushNumber(_) => false,
        Opcode::Reserved(b) => *b > 0x60,
        _ => true,
    }
}

impl Executor {
    /// Pushes an entry onto the alternate stack.
    fn push_alt(&mut self, e: StackEntry)
        ensures
            final(self)@ == (MachineView { alt: old(self)@.alt.push(e@), ..old(self)@ }),
    {
        let ghost x = e@;
        self.alt.push(e);
        proof {
            assert(views_of(self.alt@) =~= old(self)@.alt.push(x));
            assert(self@ =~= (MachineView { alt: old(self)@.alt.push(x), ..old(self)@ }));
        }
    }

    /// Pops the top entry of the alternate stack.
    fn pop_alt(&mut self) -> (r: StackEntry)
        requires
            old(self)@.alt.len() > 0,
        ensures
            r@ == old(self)@.alt.last(),
            final(self)@ == (MachineView { alt: old(self)@.alt.drop_last(), ..old(self)@ }),
    {
        let e = self.alt.pop().unwrap();
        proof {
            assert(views_of(self.alt@) =~= old(self)@.alt.drop_last());
            assert(self@ =~= (MachineView { alt: old(self)@.alt.drop_last(), ..old(self)@ }));
        }
        e
    }

    /// The opcodes `exec_active_op` handles: everything except pushes of
    /// raw bytes, conditionals, and the opcodes that fail before the
    /// branch-activity check.
    pub open spec fn spec_exec_routed(op: OpcodeView) -> bool {
        match op {
            OpcodeView::PushArray(_) => false,
            OpcodeView::Disabled(_) => false,
            OpcodeView::VerIf => false,
            OpcodeView::VerNotIf => false,
            OpcodeView::If => false,
            OpcodeView::NotIf => false,
            OpcodeView::Else => false,
            OpcodeView::EndIf => false,
            _ => true,
        }
    }

    /// One machine step on one opcode, exactly as `spec_step` describes.
    fn step(&mut self, op: &Opcode) -> (r: Result<(), BlockValidationError>)
        ensures
            match r {
                Ok(()) => spec_step(old(self)@, op@) == Ok::<MachineView, BlockValidationError>(
                    final(self)@,
                ),
                Err(e) => spec_step(old(self)@, op@) == Err::<MachineView, BlockValidationError>(
                    e,
                ),
            },
{
        if opcode_counts(op) {
            if self.op_count >= 201 {
                return Err(BlockValidationError::OpCountLimit);
            }
            self.op_count = self.op_count + 1;
        }
        let ghost m1 = self@;
        proof {
            assert(m1 =~= (MachineView {
                op_count: if spec_op_counts(op@) {
                    (old(self)@.op_count + 1) as u64
                } else {
                    old(self)@.op_count
                },
                ..old(self)@
            }));
        }
        match op {
            Opcode::PushArray(d) => {
                if d.len() > 520 {
                    return Err(BlockValidationError::PushSize);
                }
                if self.active() {
                    self.push_entry(StackEntry::Bytes(clone_bytes(d)));
                }
            },
            Opcode::Disabled(b) => {
                return Err(BlockValidationError::DisabledOpcode(*b));
            },
            Opcode::VerIf => {
                return Err(BlockValidationError::InvalidOpcode(0x65));
            },
            Opcode::VerNotIf => {
                return Err(BlockValidationError::InvalidOpcode(0x66));
            },
            Opcode::If | Opcode::NotIf => {
                let negate = matches!(op, Opcode::NotIf);
                if self.active() {
                    if self.stack.len() == 0 {
                        return Err(BlockValidationError::UnbalancedConditional);
                    }
                    let e = self.pop_entry();
                    let v = entry_truthy(&e);
                    self.branches.push(if negate { !v } else { v });
                } else {
                    self.branches.push(false);
                }
            },
            Opcode::Else => {
                if self.branches.len() == 0 {
                    return Err(BlockValidationError::UnbalancedConditional);
                }
                let v = self.branches.pop().unwrap();
                self.branches.push(!v);
                proof {
                    assert(self@.branches =~= m1.branches.update(
                        m1.branches.len() - 1,
                        !m1.branches.last(),
                    ));
                }
            },
            Opcode::EndIf => {
                if self.branches.len() == 0 {
                    return Err(BlockValidationError::UnbalancedConditional);
                }
                self.branches.pop().unwrap();
                proof {
                    assert(self@.branches =~= m1.branches.drop_last());
                }
            },
            _ => {
                if self.active() {
                    match self.exec_active_op(op) {
                        Ok(()) => {},
                        Err(e) => {
                            return Err(e);
                        },
                    }
                }
            },
        }
        if self.stack.len() as u128 + self.alt.len() as u128 > 1000 {
            return Err(BlockValidationError::StackLimit);
        }
        Ok(())
    }

    /// Executes one non-conditional opcode in an active branch, exactly as
    /// `spec_exec_op` describes.
    #[verifier::rlimit(60)]
    fn exec_active_op(&mut self, op: &Opcode) -> (r: Result<(), BlockValidationError>)
        requires
            spec_active(old(self)@),
            Self::spec_exec_routed(op@),
        ensures
            match r {
                Ok(()) => spec_exec_op(old(self)@, op@) == Ok::<
                    MachineView,
                    BlockValidationError,
                >(final(self)@),
                Err(e) => spec_exec_op(old(self)@, op@) == Err::<
                    MachineView,
                    BlockValidationError,
                >(e),
            },
    {
        let ghost m1 = self@;
        match op {
                        Opcode::PushNumber(k) => {
                            self.push_entry(StackEntry::Number(*k as i64));
                        },
                        Opcode::Reserved(b) => {
                            return Err(BlockValidationError::ReservedOpcode(*b));
                        },
                        Opcode::Invalid(b) => {
                            return Err(BlockValidationError::InvalidOpcode(*b));
                        },
                        Opcode::Ver => {
                            return Err(BlockValidationError::InvalidOpcode(0x62));
                        },
                        Opcode::Nop(_) => {},
                        Opcode::CodeSeparator => {},
                        Opcode::CheckLockTimeVerify => {},
                        Opcode::CheckSequenceVerify => {},
                        Opcode::Verify => {
                            if self.stack.len() < 1 {
                                return Err(BlockValidationError::StackUnderflow);
                            }
                            let e = self.pop_entry();
                            if !entry_truthy(&e) {
                                return Err(BlockValidationError::VerifyFailed);
                            }
                        },
                        Opcode::Return => {
                            return Err(BlockValidationError::EarlyReturn);
                        },
                        Opcode::ToAltStack => {
                            if self.stack.len() < 1 {
                                return Err(BlockValidationError::StackUnderflow);
                            }
                            let e = self.pop_entry();
                            self.push_alt(e);
                        },
                        Opcode::FromAltStack => {
                            if self.alt.len() < 1 {
                                return Err(BlockValidationError::StackUnderflow);
                            }
                            let e = self.pop_alt();
                            self.push_entry(e);
                        },
                        Opcode::Drop2 => {
                            if self.stack.len() < 2 {
                                return Err(BlockValidationError::StackUnderflow);
                            }
                            self.pop_entry();
                            self.pop_entry();
                            proof {
                                assert(self@.stack =~= m1.stack.take(m1.stack.len() - 2));
                            }
                        },
                        Opcode::Dup2 => {
                            if self.stack.len() < 2 {
                                return Err(BlockValidationError::StackUnderflow);
                            }
                            let a = entry_clone(&self.stack[self.stack.len() - 2]);
                            let b = entry_clone(&self.stack[self.stack.len() - 1]);
                            self.push_entry(a);
                            self.push_entry(b);
                            proof {
                                assert(self@.stack =~= m1.stack + seq![
                                    m1.stack[m1.stack.len() - 2],
                                    m1.stack[m1.stack.len() - 1],
                                ]);
                            }
                        },
                        Opcode::Dup3 => {
                            if self.stack.len() < 3 {
                                return Err(BlockValidationError::StackUnderflow);
                            }
                            let a = entry_clone(&self.stack[self.stack.len() - 3]);
                            let b = entry_clone(&self.stack[self.stack.len() - 2]);
                            let c = entry_clone(&self.stack[self.stack.len() - 1]);
                            self.push_entry(a);
                            self.push_entry(b);
                            self.push_entry(c);
                            proof {
                                assert(self@.stack =~= m1.stack + seq![
                                    m1.stack[m1.stack.len() - 3],
                                    m1.stack[m1.stack.len() - 2],
                                    m1.stack[m1.stack.len() - 1],
                                ]);
                            }
                        },
                        Opcode::Over2 => {
                            if self.stack.len() < 4 {
                                return Err(BlockValidationError::StackUnderflow);
                            }
                            let a = entry_clone(&self.stack[self.stack.len() - 4]);
                            let b = entry_clone(&self.stack[self.stack.len() - 3]);
                            self.push_entry(a);
                            self.push_entry(b);
                            proof {
                                assert(self@.stack =~= m1.stack + seq![
                                    m1.stack[m1.stack.len() - 4],
                                    m1.stack[m1.stack.len() - 3],
                                ]);
                            }
                        },
                        Opcode::Rot2 => {
                            if self.stack.len() < 6 {
                                return Err(BlockValidationError::StackUnderflow);
                            }
                            let x6 = self.pop_entry();
                            let x5 = self.pop_entry();
                            let x4 = self.pop_entry();
                            let x3 = self.pop_entry();
                            let x2 = self.pop_entry();
                            let x1 = self.pop_entry();
                            self.push_entry(x3);
                            self.push_entry(x4);
                            self.push_entry(x5);
                            self.push_entry(x6);
                            self.push_entry(x1);
                            self.push_entry(x2);
                            proof {
                                let n = m1.stack.len() as int;
                                assert(self@.stack =~= m1.stack.take(n - 6) + seq![
                                    m1.stack[n - 4],
                                    m1.stack[n - 3],
                                    m1.stack[n - 2],
                                    m1.stack[n - 1],
                                    m1.stack[n - 6],
                                    m1.stack[n - 5],
                                ]);
                            }
                        },
                        Opcode::Swap2 => {
                            if self.stack.len() < 4 {
                                return Err(BlockValidationError::StackUnderflow);
                            }
                            let x4 = self.pop_entry();
                            let x3 = self.pop_entry();
                            let x2 = self.pop_entry();
                            let x1 = self.pop_entry();
                            self.push_entry(x3);
                            self.push_entry(x4);
                            self.push_entry(x1);
                            self.push_entry(x2);
                            proof {
                                let n = m1.stack.len() as int;
                                assert(self@.stack =~= m1.stack.take(n - 4) + seq![
                                    m1.stack[n - 2],
                                    m1.stack[n - 1],
                                    m1.stack[n - 4],
                                    m1.stack[n - 3],
                                ]);
                            }
                        },
                        Opcode::IfDup => {
                            if self.stack.len() < 1 {
                                return Err(BlockValidationError::StackUnderflow);
                            }
                            let t = self.top_truthy();
                            if t {
                                let e = entry_clone(&self.stack[self.stack.len() - 1]);
                                self.push_entry(e);
                            }
                        },
                        Opcode::Depth => {
                            let d = self.stack.len();
                            self.push_entry(StackEntry::Number(d as i64));
                        },
                        Opcode::Drop => {
                            if self.stack.len() < 1 {
                                return Err(BlockValidationError::StackUnderflow);
                            }
                            self.pop_entry();
                        },
                        Opcode::Dup => {
                            if self.stack.len() < 1 {
                                return Err(BlockValidationError::StackUnderflow);
                            }
                            let e = entry_clone(&self.stack[self.stack.len() - 1]);
                            self.push_entry(e);
                        },
                        Opcode::Nip => {
                            if self.stack.len() < 2 {
                                return Err(BlockValidationError::StackUnderflow);
                            }
                            let b = self.pop_entry();
                            self.pop_entry();
                            self.push_entry(b);
                            proof {
                                let n = m1.stack.len() as int;
                                assert(self@.stack =~= m1.stack.take(n - 2).push(
                                    m1.stack[n - 1],
                                ));
                            }
                        },
                        Opcode::Over => {
                            if self.stack.len() < 2 {
                                return Err(BlockValidationError::StackUnderflow);
                            }
                            let e = entry_clone(&self.stack[self.stack.len() - 2]);
                            self.push_entry(e);
                        },
                        Opcode::Pick | Opcode::Roll => {
                            if self.stack.len() < 2 {
                                return Err(BlockValidationError::StackUnderflow);
                            }
                            let top = self.pop_entry();
                            let k = match entry_num(&top) {
                                Ok(v) => v,
                                Err(e) => {
                                    return Err(e);
                                },
                            };
                            if k < 0 || k as u64 >= self.stack.len() as u64 {
                                return Err(BlockValidationError::StackUnderflow);
                            }
                            let idx = self.stack.len() - 1 - (k as usize);
                            if matches!(op, Opcode::Pick) {
                                let e = entry_clone(&self.stack[idx]);
                                self.push_entry(e);
                            } else {
                                let ghost rest = self@.stack;
                                let e = self.stack.remove(idx);
                                proof {
                                    assert(views_of(self.stack@) =~= rest.take(idx as int)
                                        + rest.subrange(idx + 1, rest.len() as int));
                                }
                                self.push_entry(e);
                            }
                        },
                        Opcode::Rot => {
                            if self.stack.len() < 3 {
                                return Err(BlockValidationError::StackUnderflow);
                            }
                            let x3 = self.pop_entry();
                            let x2 = self.pop_entry();
                            let x1 = self.pop_entry();
                            self.push_entry(x2);
                            self.push_entry(x3);
                            self.push_entry(x1);
                            proof {
                                let n = m1.stack.len() as int;
                                assert(self@.stack =~= m1.stack.take(n - 3) + seq![
                                    m1.stack[n - 2],
                                    m1.stack[n - 1],
                                    m1.stack[n - 3],
                                ]);
                            }
                        },
                        Opcode::Swap => {
                            if self.stack.len() < 2 {
                                return Err(BlockValidationError::StackUnderflow);
                            }
                            let x2 = self.pop_entry();
                            let x1 = self.pop_entry();
                            self.push_entry(x2);
                            self.push_entry(x1);
                            proof {
                                let n = m1.stack.len() as int;
                                assert(self@.stack =~= m1.stack.take(n - 2) + seq![
                                    m1.stack[n - 1],
                                    m1.stack[n - 2],
                                ]);
                            }
                        },
                        Opcode::Tuck => {
                            if self.stack.len() < 2 {
                                return Err(BlockValidationError::StackUnderflow);
                            }
                            let x2 = self.pop_entry();
                            let x1 = self.pop_entry();
                            let x2c = entry_clone(&x2);
                            self.push_entry(x2);
                            self.push_entry(x1);
                            self.push_entry(x2c);
                            proof {
                                let n = m1.stack.len() as int;
                                assert(self@.stack =~= m1.stack.take(n - 2) + seq![
                                    m1.stack[n - 1],
                                    m1.stack[n - 2],
                                    m1.stack[n - 1],
                                ]);
                            }
                        },
                        Opcode::Size => {
                            if self.stack.len() < 1 {
                                return Err(BlockValidationError::StackUnderflow);
                            }
                            let b = entry_bytes(&self.stack[self.stack.len() - 1]);
                            self.push_entry(StackEntry::Number(b.len() as i64));
                        },
                        Opcode::Equal | Opcode::EqualVerify => {
                            if self.stack.len() < 2 {
                                return Err(BlockValidationError::StackUnderflow);
                            }
                            let be = self.pop_entry();
                            let ae = self.pop_entry();
                            let ab = entry_bytes(&ae);
                            let bb = entry_bytes(&be);
                            let eq = bytes_eq(&ab, &bb);
                            if matches!(op, Opcode::Equal) {
                                self.push_entry(StackEntry::Number(if eq { 1 } else { 0 }));
                                proof {
                                    let n = m1.stack.len() as int;
                                    assert(self@.stack =~= m1.stack.take(n - 2).push(
                                        StackEntryView::Number(
                                            if spec_entry_bytes(m1.stack[n - 2])
                                                == spec_entry_bytes(m1.stack[n - 1]) {
                                                1
                                            } else {
                                                0
                                            },
                                        ),
                                    ));
                                }
                            } else {
                                if !eq {
                                    return Err(BlockValidationError::VerifyFailed);
                                }
                                proof {
                                    let n = m1.stack.len() as int;
                                    assert(self@.stack =~= m1.stack.take(n - 2));
                                }
                            }
                        },
                        Opcode::Add1 | Opcode::Sub1 | Opcode::Negate | Opcode::Abs | Opcode::Not
                            | Opcode::NotEqual0 => {
                            if self.stack.len() < 1 {
                                return Err(BlockValidationError::StackUnderflow);
                            }
                            let e = self.pop_entry();
                            let a = match entry_num(&e) {
                                Ok(v) => v,
                                Err(er) => {
                                    return Err(er);
                                },
                            };
                            let res: i64 = match op {
                                Opcode::Add1 => a + 1,
                                Opcode::Sub1 => a - 1,
                                Opcode::Negate => -a,
                                Opcode::Abs => if a < 0 { -a } else { a },
                                Opcode::Not => if a == 0 { 1 } else { 0 },
                                _ => if a != 0 { 1 } else { 0 },
                            };
                            self.push_entry(StackEntry::Number(res));
                        },
                        Opcode::Add | Opcode::Sub | Opcode::BoolAnd | Opcode::BoolOr
                            | Opcode::NumEqual | Opcode::NumNotEqual | Opcode::LessThan
                            | Opcode::GreaterThan | Opcode::LessThanOrEqual
                            | Opcode::GreaterThanOrEqual | Opcode::Min | Opcode::Max => {
                            if self.stack.len() < 2 {
                                return Err(BlockValidationError::StackUnderflow);
                            }
                            let be = self.pop_entry();
                            let ae = self.pop_entry();
                            let a = match entry_num(&ae) {
                                Ok(v) => v,
                                Err(er) => {
                                    return Err(er);
                                },
                            };
                            let b = match entry_num(&be) {
                                Ok(v) => v,
                                Err(er) => {
                                    return Err(er);
                                },
                            };
                            let res: i64 = match op {
                                Opcode::Add => a + b,
                                Opcode::Sub => a - b,
                                Opcode::BoolAnd => if a != 0 && b != 0 { 1 } else { 0 },
                                Opcode::BoolOr => if a != 0 || b != 0 { 1 } else { 0 },
                                Opcode::NumEqual => if a == b { 1 } else { 0 },
                                Opcode::NumNotEqual => if a != b { 1 } else { 0 },
                                Opcode::LessThan => if a < b { 1 } else { 0 },
                                Opcode::GreaterThan => if a > b { 1 } else { 0 },
                                Opcode::LessThanOrEqual => if a <= b { 1 } else { 0 },
                                Opcode::GreaterThanOrEqual => if a >= b { 1 } else { 0 },
                                Opcode::Min => if a < b { a } else { b },
                                _ => if a > b { a } else { b },
                            };
                            self.push_entry(StackEntry::Number(res));
                            proof {
                                let n = m1.stack.len() as int;
                                assert(self@.stack =~= m1.stack.take(n - 2).push(
                                    StackEntryView::Number(res),
                                ));
                            }
                        },
                        Opcode::NumEqualVerify => {
                            if self.stack.len() < 2 {
                                return Err(BlockValidationError::StackUnderflow);
                            }
                            let be = self.pop_entry();
                            let ae = self.pop_entry();
                            let a = match entry_num(&ae) {
                                Ok(v) => v,
                                Err(er) => {
                                    return Err(er);
                                },
                            };
                            let b = match entry_num(&be) {
                                Ok(v) => v,
                                Err(er) => {
                                    return Err(er);
                                },
                            };
                            if a != b {
                                return Err(BlockValidationError::VerifyFailed);
                            }
                            proof {
                                let n = m1.stack.len() as int;
                                assert(self@.stack =~= m1.stack.take(n - 2));
                            }
                        },
                        Opcode::Within => {
                            if self.stack.len() < 3 {
                                return Err(BlockValidationError::StackUnderflow);
                            }
                            let he = self.pop_entry();
                            let le = self.pop_entry();
                            let xe = self.pop_entry();
                            let x = match entry_num(&xe) {
                                Ok(v) => v,
                                Err(er) => {
                                    return Err(er);
                                },
                            };
                            let lo = match entry_num(&le) {
                                Ok(v) => v,
                                Err(er) => {
                                    return Err(er);
                                },
                            };
                            let hi = match entry_num(&he) {
                                Ok(v) => v,
                                Err(er) => {
                                    return Err(er);
                                },
                            };
                            let res: i64 = if lo <= x && x < hi { 1 } else { 0 };
                            self.push_entry(StackEntry::Number(res));
                            proof {
                                let n = m1.stack.len() as int;
                                assert(self@.stack =~= m1.stack.take(n - 3).push(
                                    StackEntryView::Number(res),
                                ));
                            }
                        },
                        Opcode::SHA256 => {
                            if self.stack.len() < 1 {
                                return Err(BlockValidationError::StackUnderflow);
                            }
                            let e = self.pop_entry();
                            let data = entry_bytes(&e);
                            let h = crate::hash::sha256(data.as_slice());
                            self.push_entry(
                                StackEntry::Bytes(vstd::slice::slice_to_vec(h.as_slice())),
                            );
                        },
                        Opcode::Hash256 => {
                            if self.stack.len() < 1 {
                                return Err(BlockValidationError::StackUnderflow);
                            }
                            let e = self.pop_entry();
                            let data = entry_bytes(&e);
                            let h = crate::hash::double_sha256_bytes(data.as_slice()).to_bytes();
                            self.push_entry(
                                StackEntry::Bytes(vstd::slice::slice_to_vec(h.as_slice())),
                            );
                        },
                        Opcode::RIPEMD160 => {
                            return Err(BlockValidationError::UnsupportedOpcode(0xa6));
                        },
                        Opcode::SHA1 => {
                            return Err(BlockValidationError::UnsupportedOpcode(0xa7));
                        },
                        Opcode::Hash160 => {
                            return Err(BlockValidationError::UnsupportedOpcode(0xa9));
                        },
                        Opcode::CheckSig => {
                            return Err(BlockValidationError::UnsupportedOpcode(0xac));
                        },
                        Opcode::CheckSigVerify => {
                            return Err(BlockValidationError::UnsupportedOpcode(0xad));
                        },
                        Opcode::CheckMultisig => {
                            return Err(BlockValidationError::UnsupportedOpcode(0xae));
                        },
                        // only CheckMultisigVerify is left: the caller
                        // handles pushes and conditionals itself
                        _ => {
                            return Err(BlockValidationError::UnsupportedOpcode(0xaf));
                        },
                    }
        Ok(())
    }
}

} // verus!
verus! {

impl Executor {
    /// Runs an opcode sequence against the current machine: each opcode
    /// steps the machine, and a script that ends with an `If` still open
    /// fails. On failure the machine state is unspecified.
    #[verifier::loop_isolation(false)]
    pub fn execute(&mut self, script: Script) -> (r: Result<(), BlockValidationError>)
        ensures
            match r {
                Ok(()) => spec_execute(old(self)@, script@) == Ok::<
                    MachineView,
                    BlockValidationError,
                >(final(self)@),
                Err(e) => spec_execute(old(self)@, script@) == Err::<
                    MachineView,
                    BlockValidationError,
                >(e),
            },
    {
        let ghost m0 = self@;
        let ghost ops = script@;
        proof {
            assert(ops.skip(0) =~= ops);
        }
        let mut i: usize = 0;
        while i < script.opcodes.len()
            invariant
                i <= script.opcodes@.len(),
                spec_run(m0, ops) == spec_run(self@, ops.skip(i as int)),
            decreases script.opcodes@.len() - i,
        {
            let ghost pre = self@;
            proof {
                assert(ops.skip(i as int)[0] == ops[i as int]);
                assert(ops.skip(i as int).drop_first() =~= ops.skip(i + 1));
                assert(ops[i as int] == script.opcodes@[i as int]@);
            }
            match self.step(&script.opcodes[i]) {
                Ok(()) => {
                    i = i + 1;
                },
                Err(e) => {
                    return Err(e);
                },
            }
        }
        proof {
            assert(ops.skip(ops.len() as int) =~= Seq::<OpcodeView>::empty());
        }
        if self.branches.len() != 0 {
            return Err(BlockValidationError::UnbalancedConditional);
        }
        Ok(())
    }
}

/// What verifying an unlocking script against a locking script yields:
/// parse both (locking script first), execute the unlocking script on an
/// empty machine, then the locking script on the resulting stack, and
/// succeed exactly when a single true value remains.
pub open spec fn spec_verify(lock: Seq<u8>, unlock: Seq<u8>) -> Result<bool, ScriptError> {
    if lock.len() > spec_script_size_limit() || unlock.len() > spec_script_size_limit() {
        Err(ScriptError::Validation(BlockValidationError::ScriptSize))
    } else {
        match spec_parse_script(lock, 0) {
            Err(e) => Err(ScriptError::Parse(e)),
            Ok(lockops) => match spec_parse_script(unlock, 0) {
                Err(e) => Err(ScriptError::Parse(e)),
                Ok(unlockops) => match spec_execute(
                    spec_machine(Seq::empty(), Seq::empty()),
                    unlockops,
                ) {
                    Err(e) => Err(ScriptError::Validation(e)),
                    Ok(m1) => match spec_execute(MachineView { op_count: 0, ..m1 }, lockops) {
                        Err(e) => Err(ScriptError::Validation(e)),
                        Ok(m2) => Ok(
                            m2.stack.len() == 1 && spec_entry_truthy(m2.stack.last()),
                        ),
                    },
                },
            },
        }
    }
}

/// Verifies an unlocking script against a locking script: decodes both,
/// executes the unlocking script and then the locking script on the same
/// stack (state deliberately carries over between the two), and succeeds
/// only when exactly one true value remains.
pub fn verify(lock: &[u8], unlock: &[u8]) -> (r: Result<bool, ScriptError>)
    ensures
        r == spec_verify(lock@, unlock@),
{
    if lock.len() > 10000 || unlock.len() > 10000 {
        return Err(ScriptError::Validation(BlockValidationError::ScriptSize));
    }
    let lock_script = match parse_script(lock) {
        Ok(s) => s,
        Err(e) => {
            return Err(ScriptError::Parse(e));
        },
    };
    let unlock_script = match parse_script(unlock) {
        Ok(s) => s,
        Err(e) => {
            return Err(ScriptError::Parse(e));
        },
    };
    let mut executor = Executor::new();
    match executor.execute(unlock_script) {
        Ok(()) => {},
        Err(e) => {
            return Err(ScriptError::Validation(e));
        },
    }
    executor.reset_op_count();
    match executor.execute(lock_script) {
        Ok(()) => {},
        Err(e) => {
            return Err(ScriptError::Validation(e));
        },
    }
    if executor.depth() == 1 {
        Ok(executor.top_truthy())
    } else {
        Ok(false)
    }
}

} // verus!
verus! {

/// Opcode totality: decoding one opcode from a non-empty buffer fails
/// only when the leading byte begins a push whose declared length exceeds
/// the remaining buffer; every byte above the push-data range decodes to
/// exactly one opcode in one byte.
pub proof fn lemma_opcode_decode_total(bytes: Seq<u8>, pos: int)
    requires
        0 <= pos < bytes.len(),
    ensures
        bytes[pos] > 0x4e ==> Opcode::spec_parsed(bytes, pos) == Ok::<
            (OpcodeView, int),
            BlockParseError,
        >((spec_opcode_of_byte(bytes[pos]), pos + 1)),
        Opcode::spec_parsed(bytes, pos) is Err ==> bytes[pos] <= 0x4e,
{
}

/// Stack underflow is an error, not a crash: stepping `Add` on a machine
/// with fewer than two stack entries fails with `StackUnderflow` whenever
/// the opcode ceiling is not already reached and the branch is active.
pub proof fn lemma_add_underflow(m: MachineView)
    requires
        m.stack.len() < 2,
        m.op_count < spec_op_limit(),
        spec_active(m),
    ensures
        spec_step(m, OpcodeView::Add) == Err::<MachineView, BlockValidationError>(
            BlockValidationError::StackUnderflow,
        ),
{
}

} // verus!
