//! The binary cursor codec and the protocol data decoder: fixed-width
//! little-endian integers, the protocol's variable-length integer,
//! length-prefixed byte strings, and the structured entities built from
//! them.
use vstd::prelude::*;
use vstd::bytes::lemma_auto_spec_u16_to_from_le_bytes;
use vstd::bytes::lemma_auto_spec_u32_to_from_le_bytes;
use vstd::bytes::lemma_auto_spec_u64_to_from_le_bytes;
use vstd::bytes::spec_u16_from_le_bytes;
use vstd::bytes::spec_u16_to_le_bytes;
use vstd::bytes::spec_u32_from_le_bytes;
use vstd::bytes::spec_u32_to_le_bytes;
use vstd::bytes::spec_u64_from_le_bytes;
use vstd::bytes::spec_u64_to_le_bytes;
use vstd::bytes::u16_from_le_bytes;
use vstd::bytes::u16_to_le_bytes;
use vstd::bytes::u32_from_le_bytes;
use vstd::bytes::u32_to_le_bytes;
use vstd::bytes::u64_from_le_bytes;
use vstd::bytes::u64_to_le_bytes;
use vstd::slice::slice_subrange;
use vstd::slice::slice_to_vec;
use crate::error::BlockParseError;
use crate::LittleEndianSerialization;

verus! {

/// Copies a byte vector. (A `Vec` clone's contents are not otherwise
/// visible to the verifier.)
pub fn clone_bytes(v: &Vec<u8>) -> (r: Vec<u8>)
    ensures
        r@ == v@,
{
    slice_to_vec(v.as_slice())
}

/// Appends all of `src` to `dest`.
pub fn push_all(dest: &mut Vec<u8>, src: &[u8])
    ensures
        final(dest)@ == old(dest)@ + src@,
{
    let mut i: usize = 0;
    while i < src.len()
        invariant
            i <= src@.len(),
            dest@ == old(dest)@ + src@.subrange(0, i as int),
        decreases src@.len() - i,
    {
        dest.push(src[i]);
        proof {
            assert(old(dest)@ + src@.subrange(0, i as int) + seq![src@[i as int]] =~= old(
                dest,
            )@ + src@.subrange(0, i + 1));
        }
        i = i + 1;
    }
    proof {
        assert(src@.subrange(0, src@.len() as int) =~= src@);
    }
}

/// Reads exactly `count` bytes starting at `*ix`, advancing `*ix` past
/// them; fails with `Truncated` when fewer than `count` bytes remain.
pub fn read_bytes(bytes: &[u8], ix: &mut usize, count: usize) -> (r: Result<
    Vec<u8>,
    BlockParseError,
>)
    requires
        *old(ix) <= bytes@.len(),
    ensures
        match r {
            Ok(v) => {
                &&& *old(ix) + count <= bytes@.len()
                &&& *final(ix) == *old(ix) + count
                &&& v@ == bytes@.subrange(*old(ix) as int, *final(ix) as int)
            },
            Err(e) => {
                &&& *old(ix) + count > bytes@.len()
                &&& e == BlockParseError::Truncated(*old(ix))
            },
        },
{
    if count > bytes.len() - *ix {
        return Err(BlockParseError::Truncated(*ix));
    }
    let start = *ix;
    *ix = start + count;
    Ok(slice_to_vec(slice_subrange(bytes, start, start + count)))
}

impl LittleEndianSerialization for u8 {
    open spec fn spec_serialized(v: u8) -> Seq<u8> {
        seq![v]
    }

    open spec fn spec_parsed(bytes: Seq<u8>, pos: int) -> Result<(u8, int), BlockParseError> {
        if 0 <= pos && pos + 1 <= bytes.len() {
            Ok((bytes[pos], pos + 1))
        } else {
            Err(BlockParseError::Truncated(pos as usize))
        }
    }

    fn serialize_le(&self, dest: &mut Vec<u8>) {
        dest.push(*self);
        proof {
            assert(dest@ =~= old(dest)@ + Self::spec_serialized(*self));
        }
    }

    fn deserialize_le(bytes: &[u8], ix: &mut usize) -> (r: Result<Self, BlockParseError>) {
        if bytes.len() - *ix < 1 {
            return Err(BlockParseError::Truncated(*ix));
        }
        let v = bytes[*ix];
        *ix = *ix + 1;
        Ok(v)
    }
}

impl LittleEndianSerialization for u16 {
    open spec fn spec_serialized(v: u16) -> Seq<u8> {
        spec_u16_to_le_bytes(v)
    }

    open spec fn spec_parsed(bytes: Seq<u8>, pos: int) -> Result<(u16, int), BlockParseError> {
        if 0 <= pos && pos + 2 <= bytes.len() {
            Ok((spec_u16_from_le_bytes(bytes.subrange(pos, pos + 2)), pos + 2))
        } else {
            Err(BlockParseError::Truncated(pos as usize))
        }
    }

    fn serialize_le(&self, dest: &mut Vec<u8>) {
        let b = u16_to_le_bytes(*self);
        push_all(dest, b.as_slice());
    }

    fn deserialize_le(bytes: &[u8], ix: &mut usize) -> (r: Result<Self, BlockParseError>) {
        if bytes.len() - *ix < 2 {
            return Err(BlockParseError::Truncated(*ix));
        }
        let v = u16_from_le_bytes(slice_subrange(bytes, *ix, *ix + 2));
        *ix = *ix + 2;
        Ok(v)
    }
}

impl LittleEndianSerialization for u32 {
    open spec fn spec_serialized(v: u32) -> Seq<u8> {
        spec_u32_to_le_bytes(v)
    }

    open spec fn spec_parsed(bytes: Seq<u8>, pos: int) -> Result<(u32, int), BlockParseError> {
        if 0 <= pos && pos + 4 <= bytes.len() {
            Ok((spec_u32_from_le_bytes(bytes.subrange(pos, pos + 4)), pos + 4))
        } else {
            Err(BlockParseError::Truncated(pos as usize))
        }
    }

    fn serialize_le(&self, dest: &mut Vec<u8>) {
        let b = u32_to_le_bytes(*self);
        push_all(dest, b.as_slice());
    }

    fn deserialize_le(bytes: &[u8], ix: &mut usize) -> (r: Result<Self, BlockParseError>) {
        if bytes.len() - *ix < 4 {
            return Err(BlockParseError::Truncated(*ix));
        }
        let v = u32_from_le_bytes(slice_subrange(bytes, *ix, *ix + 4));
        *ix = *ix + 4;
        Ok(v)
    }
}

impl LittleEndianSerialization for u64 {
    open spec fn spec_serialized(v: u64) -> Seq<u8> {
        spec_u64_to_le_bytes(v)
    }

    open spec fn spec_parsed(bytes: Seq<u8>, pos: int) -> Result<(u64, int), BlockParseError> {
        if 0 <= pos && pos + 8 <= bytes.len() {
            Ok((spec_u64_from_le_bytes(bytes.subrange(pos, pos + 8)), pos + 8))
        } else {
            Err(BlockParseError::Truncated(pos as usize))
        }
    }

    fn serialize_le(&self, dest: &mut Vec<u8>) {
        let b = u64_to_le_bytes(*self);
        push_all(dest, b.as_slice());
    }

    fn deserialize_le(bytes: &[u8], ix: &mut usize) -> (r: Result<Self, BlockParseError>) {
        if bytes.len() - *ix < 8 {
            return Err(BlockParseError::Truncated(*ix));
        }
        let v = u64_from_le_bytes(slice_subrange(bytes, *ix, *ix + 8));
        *ix = *ix + 8;
        Ok(v)
    }
}

} // verus!
verus! {

/// The canonical encoding of the protocol's variable-length integer: one
/// byte below 0xfd, otherwise a lead byte 0xfd/0xfe/0xff followed by the
/// smallest little-endian fixed width that holds the value.
pub open spec fn spec_compact_size(v: u64) -> Seq<u8> {
    if v < 0xfd {
        seq![v as u8]
    } else if v <= 0xffff {
        seq![0xfdu8] + spec_u16_to_le_bytes(v as u16)
    } else if v <= 0xffffffff {
        seq![0xfeu8] + spec_u32_to_le_bytes(v as u32)
    } else {
        seq![0xffu8] + spec_u64_to_le_bytes(v)
    }
}

/// What decoding a variable-length integer yields at `pos`: the value and
/// the position past it. A form longer than the value requires is
/// rejected as non-canonical, as the reference implementation rejects it.
pub open spec fn spec_parse_compact_size(bytes: Seq<u8>, pos: int) -> Result<
    (u64, int),
    BlockParseError,
> {
    match u8::spec_parsed(bytes, pos) {
        Err(e) => Err(e),
        Ok((lead, p1)) => if lead < 0xfd {
            Ok((lead as u64, p1))
        } else if lead == 0xfd {
            match u16::spec_parsed(bytes, p1) {
                Err(e) => Err(e),
                Ok((v, p2)) => if v >= 0xfd {
                    Ok((v as u64, p2))
                } else {
                    Err(BlockParseError::NonCanonical(pos as usize))
                },
            }
        } else if lead == 0xfe {
            match u32::spec_parsed(bytes, p1) {
                Err(e) => Err(e),
                Ok((v, p2)) => if v > 0xffff {
                    Ok((v as u64, p2))
                } else {
                    Err(BlockParseError::NonCanonical(pos as usize))
                },
            }
        } else {
            match u64::spec_parsed(bytes, p1) {
                Err(e) => Err(e),
                Ok((v, p2)) => if v > 0xffffffff {
                    Ok((v, p2))
                } else {
                    Err(BlockParseError::NonCanonical(pos as usize))
                },
            }
        },
    }
}

/// Reads a variable-length integer at `*ix`, advancing `*ix` past it.
pub fn read_compact_size(bytes: &[u8], ix: &mut usize) -> (r: Result<u64, BlockParseError>)
    requires
        *old(ix) <= bytes@.len(),
    ensures
        match r {
            Ok(v) => spec_parse_compact_size(bytes@, *old(ix) as int) == Ok::<
                (u64, int),
                BlockParseError,
            >((v, *final(ix) as int)) && *old(ix) <= *final(ix) <= bytes@.len(),
            Err(e) => spec_parse_compact_size(bytes@, *old(ix) as int) == Err::<
                (u64, int),
                BlockParseError,
            >(e),
        },
{
    let start = *ix;
    let lead = match u8::deserialize_le(bytes, ix) {
        Ok(v) => v,
        Err(e) => {
            return Err(e);
        },
    };
    if lead < 0xfd {
        Ok(lead as u64)
    } else if lead == 0xfd {
        match u16::deserialize_le(bytes, ix) {
            Ok(v) => if v >= 0xfd {
                Ok(v as u64)
            } else {
                Err(BlockParseError::NonCanonical(start))
            },
            Err(e) => Err(e),
        }
    } else if lead == 0xfe {
        match u32::deserialize_le(bytes, ix) {
            Ok(v) => if v > 0xffff {
                Ok(v as u64)
            } else {
                Err(BlockParseError::NonCanonical(start))
            },
            Err(e) => Err(e),
        }
    } else {
        match u64::deserialize_le(bytes, ix) {
            Ok(v) => if v > 0xffffffff {
                Ok(v)
            } else {
                Err(BlockParseError::NonCanonical(start))
            },
            Err(e) => Err(e),
        }
    }
}

/// Appends the variable-length integer encoding of `v` to `dest`.
pub fn write_compact_size(dest: &mut Vec<u8>, v: u64)
    ensures
        final(dest)@ == old(dest)@ + spec_compact_size(v),
{
    if v < 0xfd {
        dest.push(v as u8);
        proof {
            assert(dest@ =~= old(dest)@ + spec_compact_size(v));
        }
    } else if v <= 0xffff {
        dest.push(0xfd);
        let b = u16_to_le_bytes(v as u16);
        push_all(dest, b.as_slice());
        proof {
            assert(dest@ =~= old(dest)@ + spec_compact_size(v));
        }
    } else if v <= 0xffffffff {
        dest.push(0xfe);
        let b = u32_to_le_bytes(v as u32);
        push_all(dest, b.as_slice());
        proof {
            assert(dest@ =~= old(dest)@ + spec_compact_size(v));
        }
    } else {
        dest.push(0xff);
        let b = u64_to_le_bytes(v);
        push_all(dest, b.as_slice());
        proof {
            assert(dest@ =~= old(dest)@ + spec_compact_size(v));
        }
    }
}

} // verus!
verus! {

/// The serialization of a length-prefixed byte string: the count as a
/// variable-length integer, then the bytes themselves.
pub open spec fn spec_var_bytes(v: Seq<u8>) -> Seq<u8> {
    spec_compact_size(v.len() as u64) + v
}

/// What decoding a length-prefixed byte string yields at `pos`.
pub open spec fn spec_parse_var_bytes(bytes: Seq<u8>, pos: int) -> Result<
    (Seq<u8>, int),
    BlockParseError,
> {
    match spec_parse_compact_size(bytes, pos) {
        Err(e) => Err(e),
        Ok((n, p1)) => if n > usize::MAX as u64 {
            Err(BlockParseError::Oversize(pos as usize))
        } else if p1 + n <= bytes.len() {
            Ok((bytes.subrange(p1, p1 + n), p1 + n))
        } else {
            Err(BlockParseError::Truncated(p1 as usize))
        },
    }
}

impl LittleEndianSerialization for Vec<u8> {
    open spec fn spec_serialized(v: Seq<u8>) -> Seq<u8> {
        spec_var_bytes(v)
    }

    open spec fn spec_parsed(bytes: Seq<u8>, pos: int) -> Result<(Seq<u8>, int), BlockParseError> {
        spec_parse_var_bytes(bytes, pos)
    }

    fn serialize_le(&self, dest: &mut Vec<u8>) {
        write_compact_size(dest, self.len() as u64);
        push_all(dest, self.as_slice());
        proof {
            assert(dest@ =~= old(dest)@ + Self::spec_serialized(self@));
        }
    }

    fn deserialize_le(bytes: &[u8], ix: &mut usize) -> (r: Result<Self, BlockParseError>) {
        let start = *ix;
        let count = match read_compact_size(bytes, ix) {
            Ok(v) => v,
            Err(e) => {
                return Err(e);
            },
        };
        if count > usize::MAX as u64 {
            return Err(BlockParseError::Oversize(start));
        }
        read_bytes(bytes, ix, count as usize)
    }
}

/// The views of the elements of a sequence.
pub open spec fn views_of<T: View>(s: Seq<T>) -> Seq<T::V> {
    s.map_values(|x: T| x@)
}

/// The concatenated serializations of a sequence of views.
pub open spec fn spec_serialized_list<T: LittleEndianSerialization>(items: Seq<T::V>) -> Seq<u8>
    decreases items.len(),
{
    if items.len() == 0 {
        Seq::empty()
    } else {
        T::spec_serialized(items[0]) + spec_serialized_list::<T>(items.drop_first())
    }
}

/// Appending one view to a list appends its serialization to the list's.
pub proof fn lemma_serialized_list_push<T: LittleEndianSerialization>(s: Seq<T::V>, v: T::V)
    ensures
        spec_serialized_list::<T>(s.push(v)) == spec_serialized_list::<T>(s) + T::spec_serialized(
            v,
        ),
    decreases s.len(),
{
    if s.len() == 0 {
        assert(s.push(v).drop_first() =~= Seq::<T::V>::empty());
        assert(s.push(v)[0] == v);
        assert(spec_serialized_list::<T>(s.push(v).drop_first()) == Seq::<u8>::empty());
        assert(spec_serialized_list::<T>(s.push(v)) == T::spec_serialized(v)
            + Seq::<u8>::empty());
        assert(T::spec_serialized(v) + Seq::<u8>::empty() =~= spec_serialized_list::<T>(s)
            + T::spec_serialized(v));
    } else {
        assert(s.push(v).drop_first() =~= s.drop_first().push(v));
        assert(s.push(v)[0] == s[0]);
        lemma_serialized_list_push::<T>(s.drop_first(), v);
        assert(spec_serialized_list::<T>(s.push(v)) == T::spec_serialized(s[0])
            + (spec_serialized_list::<T>(s.drop_first()) + T::spec_serialized(v)));
        assert(T::spec_serialized(s[0]) + (spec_serialized_list::<T>(s.drop_first())
            + T::spec_serialized(v)) =~= spec_serialized_list::<T>(s) + T::spec_serialized(v));
    }
}

/// What decoding `n` consecutive values yields starting at `pos`.
pub open spec fn spec_parsed_items<T: LittleEndianSerialization>(
    bytes: Seq<u8>,
    pos: int,
    n: nat,
) -> Result<(Seq<T::V>, int), BlockParseError>
    decreases n,
{
    if n == 0 {
        Ok((Seq::empty(), pos))
    } else {
        match T::spec_parsed(bytes, pos) {
            Err(e) => Err(e),
            Ok((v, p1)) => match spec_parsed_items::<T>(bytes, p1, (n - 1) as nat) {
                Err(e) => Err(e),
                Ok((rest, end)) => Ok((seq![v] + rest, end)),
            },
        }
    }
}

/// What decoding a count-prefixed list yields at `pos`: the count as a
/// variable-length integer, then that many values.
pub open spec fn spec_parse_list<T: LittleEndianSerialization>(bytes: Seq<u8>, pos: int) -> Result<
    (Seq<T::V>, int),
    BlockParseError,
> {
    match spec_parse_compact_size(bytes, pos) {
        Err(e) => Err(e),
        Ok((n, p1)) => if n > usize::MAX as u64 {
            Err(BlockParseError::Oversize(pos as usize))
        } else {
            spec_parsed_items::<T>(bytes, p1, n as nat)
        },
    }
}

/// The serialization of a count-prefixed list of views.
pub open spec fn spec_serialized_count_list<T: LittleEndianSerialization>(
    items: Seq<T::V>,
) -> Seq<u8> {
    spec_compact_size(items.len() as u64) + spec_serialized_list::<T>(items)
}

/// Writes a count-prefixed list: the element count, then each element in
/// order.
pub fn write_list<T: LittleEndianSerialization>(dest: &mut Vec<u8>, items: &Vec<T>)
    ensures
        final(dest)@ == old(dest)@ + spec_serialized_count_list::<T>(views_of(items@)),
{
    write_compact_size(dest, items.len() as u64);
    let ghost base = dest@;
    let mut i: usize = 0;
    while i < items.len()
        invariant
            i <= items@.len(),
            dest@ == base + spec_serialized_list::<T>(views_of(items@).take(i as int)),
        decreases items@.len() - i,
    {
        items[i].serialize_le(dest);
        proof {
            assert(views_of(items@).take(i as int).push(items@[i as int]@) =~= views_of(
                items@,
            ).take(i + 1));
            lemma_serialized_list_push::<T>(views_of(items@).take(i as int), items@[i as int]@);
        }
        i = i + 1;
    }
    proof {
        assert(views_of(items@).take(items@.len() as int) =~= views_of(items@));
        assert(views_of(items@).len() == items@.len());
    }
}

/// Reads a count-prefixed list: the element count, then that many
/// elements in order.
pub fn read_list<T: LittleEndianSerialization>(bytes: &[u8], ix: &mut usize) -> (r: Result<
    Vec<T>,
    BlockParseError,
>)
    requires
        *old(ix) <= bytes@.len(),
    ensures
        match r {
            Ok(v) => spec_parse_list::<T>(bytes@, *old(ix) as int) == Ok::<
                (Seq<T::V>, int),
                BlockParseError,
            >((views_of(v@), *final(ix) as int)) && *old(ix) <= *final(ix) <= bytes@.len(),
            Err(e) => spec_parse_list::<T>(bytes@, *old(ix) as int) == Err::<
                (Seq<T::V>, int),
                BlockParseError,
            >(e),
        },
{
    let start = *ix;
    let count = match read_compact_size(bytes, ix) {
        Ok(v) => v,
        Err(e) => {
            return Err(e);
        },
    };
    if count > usize::MAX as u64 {
        return Err(BlockParseError::Oversize(start));
    }
    let n = count as usize;
    let mut items: Vec<T> = Vec::new();
    let mut k: usize = 0;
    let ghost p1 = *ix as int;
    while k < n
        invariant
            k <= n,
            items@.len() == k,
            *old(ix) <= *ix <= bytes@.len(),
            spec_parse_list::<T>(bytes@, *old(ix) as int) == spec_parsed_items::<T>(
                bytes@,
                p1,
                n as nat,
            ),
            spec_parsed_items::<T>(bytes@, p1, n as nat) == (match spec_parsed_items::<T>(
                bytes@,
                *ix as int,
                (n - k) as nat,
            ) {
                Ok((rest, end)) => Ok::<(Seq<T::V>, int), BlockParseError>(
                    (views_of(items@) + rest, end),
                ),
                Err(e) => Err::<(Seq<T::V>, int), BlockParseError>(e),
            }),
        decreases n - k,
    {
        let ghost pre = *ix as int;
        let ghost items_pre = items@;
        match T::deserialize_le(bytes, ix) {
            Ok(item) => {
                let ghost x = item@;
                items.push(item);
                proof {
                    assert(views_of(items@) =~= views_of(items_pre).push(x));
                    assert(spec_parsed_items::<T>(bytes@, pre, (n - k) as nat) == (
                    match spec_parsed_items::<T>(bytes@, *ix as int, (n - (k + 1)) as nat) {
                        Ok((rest, end)) => Ok::<(Seq<T::V>, int), BlockParseError>(
                            (seq![x] + rest, end),
                        ),
                        Err(e) => Err::<(Seq<T::V>, int), BlockParseError>(e),
                    }));
                    match spec_parsed_items::<T>(bytes@, *ix as int, (n - (k + 1)) as nat) {
                        Ok((rest, end)) => {
                            assert(views_of(items_pre) + (seq![x] + rest) =~= views_of(items@)
                                + rest);
                        },
                        Err(e) => {},
                    }
                }
                k = k + 1;
            },
            Err(e) => {
                proof {
                    assert(spec_parsed_items::<T>(bytes@, pre, (n - k) as nat) == Err::<
                        (Seq<T::V>, int),
                        BlockParseError,
                    >(e));
                }
                return Err(e);
            },
        }
    }
    proof {
        assert(views_of(items@) + Seq::<T::V>::empty() =~= views_of(items@));
    }
    Ok(items)
}

} // verus!
verus! {

impl LittleEndianSerialization for crate::Hash {
    open spec fn spec_serialized(v: Seq<u8>) -> Seq<u8> {
        v
    }

    open spec fn spec_parsed(bytes: Seq<u8>, pos: int) -> Result<(Seq<u8>, int), BlockParseError> {
        if 0 <= pos && pos + 32 <= bytes.len() {
            Ok((bytes.subrange(pos, pos + 32), pos + 32))
        } else {
            Err(BlockParseError::Truncated(pos as usize))
        }
    }

    fn serialize_le(&self, dest: &mut Vec<u8>) {
        let b = self.to_bytes();
        push_all(dest, b.as_slice());
    }

    fn deserialize_le(bytes: &[u8], ix: &mut usize) -> (r: Result<Self, BlockParseError>) {
        if bytes.len() - *ix < 32 {
            return Err(BlockParseError::Truncated(*ix));
        }
        let start = *ix;
        let mut out: [u8; 32] = [0; 32];
        let mut i: usize = 0;
        while i < 32
            invariant
                start + 32 <= bytes@.len(),
                i <= 32,
                out@.len() == 32,
                forall|j: int| 0 <= j < i ==> out@[j] == bytes@[start + j],
            decreases 32 - i,
        {
            out[i] = bytes[start + i];
            i = i + 1;
        }
        *ix = start + 32;
        proof {
            assert(out@ =~= bytes@.subrange(start as int, start + 32));
        }
        Ok(crate::Hash::from_bytes(out))
    }
}

impl LittleEndianSerialization for crate::TransactionOutput {
    open spec fn spec_serialized(v: crate::TransactionOutputView) -> Seq<u8> {
        spec_u64_to_le_bytes(v.value) + spec_var_bytes(v.lock_script)
    }

    open spec fn spec_parsed(bytes: Seq<u8>, pos: int) -> Result<
        (crate::TransactionOutputView, int),
        BlockParseError,
    > {
        match u64::spec_parsed(bytes, pos) {
            Err(e) => Err(e),
            Ok((value, p1)) => match spec_parse_var_bytes(bytes, p1) {
                Err(e) => Err(e),
                Ok((lock_script, p2)) => Ok(
                    (crate::TransactionOutputView { value, lock_script }, p2),
                ),
            },
        }
    }

    fn serialize_le(&self, dest: &mut Vec<u8>) {
        self.value.serialize_le(dest);
        self.lock_script.serialize_le(dest);
        proof {
            assert(dest@ =~= old(dest)@ + Self::spec_serialized(self@));
        }
    }

    fn deserialize_le(bytes: &[u8], ix: &mut usize) -> (r: Result<Self, BlockParseError>) {
        let value = match u64::deserialize_le(bytes, ix) {
            Ok(v) => v,
            Err(e) => {
                return Err(e);
            },
        };
        let lock_script = match <Vec<u8> as LittleEndianSerialization>::deserialize_le(bytes, ix) {
            Ok(v) => v,
            Err(e) => {
                return Err(e);
            },
        };
        Ok(crate::TransactionOutput { value, lock_script })
    }
}

impl LittleEndianSerialization for crate::TransactionInput {
    open spec fn spec_serialized(v: crate::TransactionInputView) -> Seq<u8> {
        v.txid + spec_u32_to_le_bytes(v.vout) + spec_var_bytes(v.unlock_script)
            + spec_u32_to_le_bytes(v.sequence)
    }

    open spec fn spec_parsed(bytes: Seq<u8>, pos: int) -> Result<
        (crate::TransactionInputView, int),
        BlockParseError,
    > {
        match crate::Hash::spec_parsed(bytes, pos) {
            Err(e) => Err(e),
            Ok((txid, p1)) => match u32::spec_parsed(bytes, p1) {
                Err(e) => Err(e),
                Ok((vout, p2)) => match spec_parse_var_bytes(bytes, p2) {
                    Err(e) => Err(e),
                    Ok((unlock_script, p3)) => match u32::spec_parsed(bytes, p3) {
                        Err(e) => Err(e),
                        Ok((sequence, p4)) => Ok(
                            (
                                crate::TransactionInputView {
                                    txid,
                                    vout,
                                    unlock_script,
                                    sequence,
                                    witness_stuff: Seq::empty(),
                                },
                                p4,
                            ),
                        ),
                    },
                },
            },
        }
    }

    fn serialize_le(&self, dest: &mut Vec<u8>) {
        self.txid.serialize_le(dest);
        self.vout.serialize_le(dest);
        self.unlock_script.serialize_le(dest);
        self.sequence.serialize_le(dest);
        proof {
            assert(dest@ =~= old(dest)@ + Self::spec_serialized(self@));
        }
    }

    fn deserialize_le(bytes: &[u8], ix: &mut usize) -> (r: Result<Self, BlockParseError>) {
        let txid = match crate::Hash::deserialize_le(bytes, ix) {
            Ok(v) => v,
            Err(e) => {
                return Err(e);
            },
        };
        let vout = match u32::deserialize_le(bytes, ix) {
            Ok(v) => v,
            Err(e) => {
                return Err(e);
            },
        };
        let unlock_script = match <Vec<u8> as LittleEndianSerialization>::deserialize_le(
            bytes,
            ix,
        ) {
            Ok(v) => v,
            Err(e) => {
                return Err(e);
            },
        };
        let sequence = match u32::deserialize_le(bytes, ix) {
            Ok(v) => v,
            Err(e) => {
                return Err(e);
            },
        };
        let r = crate::TransactionInput {
            txid,
            vout,
            unlock_script,
            sequence,
            witness_stuff: Vec::new(),
        };
        proof {
            assert(r@.witness_stuff =~= Seq::<Seq<u8>>::empty());
            assert(r@ =~= (crate::TransactionInputView {
                txid: txid@,
                vout,
                unlock_script: unlock_script@,
                sequence,
                witness_stuff: Seq::empty(),
            }));
        }
        Ok(r)
    }
}

} // verus!
verus! {

/// The per-input witness stacks as serialized after the outputs of a
/// witness-flagged transaction: for each input in order, a count-prefixed
/// list of byte strings.
pub open spec fn spec_serialized_witnesses(inputs: Seq<crate::TransactionInputView>) -> Seq<u8>
    decreases inputs.len(),
{
    if inputs.len() == 0 {
        Seq::empty()
    } else {
        spec_serialized_count_list::<Vec<u8>>(inputs[0].witness_stuff) + spec_serialized_witnesses(
            inputs.drop_first(),
        )
    }
}

/// Appending one input appends its witness stack's serialization.
pub proof fn lemma_serialized_witnesses_push(
    s: Seq<crate::TransactionInputView>,
    v: crate::TransactionInputView,
)
    ensures
        spec_serialized_witnesses(s.push(v)) == spec_serialized_witnesses(s)
            + spec_serialized_count_list::<Vec<u8>>(v.witness_stuff),
    decreases s.len(),
{
    if s.len() == 0 {
        assert(s.push(v).drop_first() =~= Seq::<crate::TransactionInputView>::empty());
        assert(s.push(v)[0] == v);
        assert(spec_serialized_witnesses(s.push(v).drop_first()) == Seq::<u8>::empty());
        assert(spec_serialized_count_list::<Vec<u8>>(v.witness_stuff) + Seq::<u8>::empty()
            =~= spec_serialized_witnesses(s) + spec_serialized_count_list::<Vec<u8>>(
            v.witness_stuff,
        ));
    } else {
        assert(s.push(v).drop_first() =~= s.drop_first().push(v));
        assert(s.push(v)[0] == s[0]);
        lemma_serialized_witnesses_push(s.drop_first(), v);
        assert(spec_serialized_count_list::<Vec<u8>>(s[0].witness_stuff) + (
        spec_serialized_witnesses(s.drop_first()) + spec_serialized_count_list::<Vec<u8>>(
            v.witness_stuff,
        )) =~= spec_serialized_witnesses(s) + spec_serialized_count_list::<Vec<u8>>(
            v.witness_stuff,
        ));
    }
}

/// What decoding `n` consecutive witness stacks yields starting at `pos`.
pub open spec fn spec_parse_witnesses(bytes: Seq<u8>, pos: int, n: nat) -> Result<
    (Seq<Seq<Seq<u8>>>, int),
    BlockParseError,
>
    decreases n,
{
    if n == 0 {
        Ok((Seq::empty(), pos))
    } else {
        match spec_parse_list::<Vec<u8>>(bytes, pos) {
            Err(e) => Err(e),
            Ok((w, p1)) => match spec_parse_witnesses(bytes, p1, (n - 1) as nat) {
                Err(e) => Err(e),
                Ok((rest, end)) => Ok((seq![w] + rest, end)),
            },
        }
    }
}

/// What decoding the body of a transaction (everything after the version
/// and the optional marker/flag pair) yields at `pos`.
pub open spec fn spec_parse_tx_body(bytes: Seq<u8>, pos: int, version: u32, witness: bool) -> Result<
    (crate::TransactionView, int),
    BlockParseError,
> {
    match spec_parse_list::<crate::TransactionInput>(bytes, pos) {
        Err(e) => Err(e),
        Ok((inputs0, p1)) => match spec_parse_list::<crate::TransactionOutput>(bytes, p1) {
            Err(e) => Err(e),
            Ok((outputs, p2)) => if witness {
                match spec_parse_witnesses(bytes, p2, inputs0.len()) {
                    Err(e) => Err(e),
                    Ok((ws, p3)) => match u32::spec_parsed(bytes, p3) {
                        Err(e) => Err(e),
                        Ok((locktime, p4)) => Ok(
                            (
                                crate::TransactionView {
                                    version,
                                    flags: 1,
                                    inputs: Seq::new(
                                        inputs0.len(),
                                        |i: int|
                                            crate::TransactionInputView {
                                                witness_stuff: ws[i],
                                                ..inputs0[i]
                                            },
                                    ),
                                    outputs,
                                    locktime,
                                },
                                p4,
                            ),
                        ),
                    },
                }
            } else {
                match u32::spec_parsed(bytes, p2) {
                    Err(e) => Err(e),
                    Ok((locktime, p3)) => Ok(
                        (
                            crate::TransactionView {
                                version,
                                flags: 0,
                                inputs: inputs0,
                                outputs,
                                locktime,
                            },
                            p3,
                        ),
                    ),
                }
            },
        },
    }
}

impl LittleEndianSerialization for crate::Transaction {
    open spec fn spec_serialized(v: crate::TransactionView) -> Seq<u8> {
        spec_u32_to_le_bytes(v.version) + (if v.flags == 1 {
            seq![0u8, 1u8]
        } else {
            Seq::empty()
        }) + spec_serialized_count_list::<crate::TransactionInput>(v.inputs)
            + spec_serialized_count_list::<crate::TransactionOutput>(v.outputs) + (if v.flags == 1 {
            spec_serialized_witnesses(v.inputs)
        } else {
            Seq::empty()
        }) + spec_u32_to_le_bytes(v.locktime)
    }

    open spec fn spec_parsed(bytes: Seq<u8>, pos: int) -> Result<
        (crate::TransactionView, int),
        BlockParseError,
    > {
        match u32::spec_parsed(bytes, pos) {
            Err(e) => Err(e),
            Ok((version, p1)) => if p1 < bytes.len() && bytes[p1] == 0 {
                match u8::spec_parsed(bytes, p1 + 1) {
                    Err(e) => Err(e),
                    Ok((flag, p2)) => if flag != 1 {
                        Err(BlockParseError::BadWitnessFlag((p1 + 1) as usize))
                    } else {
                        spec_parse_tx_body(bytes, p2, version, true)
                    },
                }
            } else {
                spec_parse_tx_body(bytes, p1, version, false)
            },
        }
    }

    #[verifier::loop_isolation(false)]
    fn serialize_le(&self, dest: &mut Vec<u8>) {
        self.version.serialize_le(dest);
        if self.flags.has_witness() {
            dest.push(0);
            dest.push(1);
        }
        write_list(dest, &self.inputs);
        write_list(dest, &self.outputs);
        if self.flags.has_witness() {
            let ghost base = dest@;
            let mut i: usize = 0;
            while i < self.inputs.len()
                invariant
                    i <= self.inputs@.len(),
                    dest@ == base + spec_serialized_witnesses(views_of(self.inputs@).take(i as int)),
                decreases self.inputs@.len() - i,
            {
                write_list::<Vec<u8>>(dest, &self.inputs[i].witness_stuff);
                proof {
                    assert(views_of(self.inputs@).take(i as int).push(self.inputs@[i as int]@)
                        =~= views_of(self.inputs@).take(i + 1));
                    lemma_serialized_witnesses_push(
                        views_of(self.inputs@).take(i as int),
                        self.inputs@[i as int]@,
                    );
                }
                i = i + 1;
            }
            proof {
                assert(views_of(self.inputs@).take(self.inputs@.len() as int) =~= views_of(
                    self.inputs@,
                ));
            }
        }
        self.locktime.serialize_le(dest);
        proof {
            assert(dest@ =~= old(dest)@ + Self::spec_serialized(self@));
        }
    }

    #[verifier::loop_isolation(false)]
    fn deserialize_le(bytes: &[u8], ix: &mut usize) -> (r: Result<Self, BlockParseError>) {
        let version = match u32::deserialize_le(bytes, ix) {
            Ok(v) => v,
            Err(e) => {
                return Err(e);
            },
        };
        let mut witness = false;
        if *ix < bytes.len() && bytes[*ix] == 0 {
            *ix = *ix + 1;
            let flag = match u8::deserialize_le(bytes, ix) {
                Ok(v) => v,
                Err(e) => {
                    return Err(e);
                },
            };
            if flag != 1 {
                return Err(BlockParseError::BadWitnessFlag(*ix - 1));
            }
            witness = true;
        }
        let inputs0: Vec<crate::TransactionInput> = match read_list(bytes, ix) {
            Ok(v) => v,
            Err(e) => {
                return Err(e);
            },
        };
        let outputs: Vec<crate::TransactionOutput> = match read_list(bytes, ix) {
            Ok(v) => v,
            Err(e) => {
                return Err(e);
            },
        };
        let ghost inviews = views_of(inputs0@);
        let ghost p2 = *ix as int;
        let mut inputs = inputs0;
        if witness {
            let ghost n = inviews.len();
            let mut winputs: Vec<crate::TransactionInput> = Vec::new();
            let ghost ws_acc = Seq::<Seq<Seq<u8>>>::empty();
            let mut i: usize = 0;
            while i < inputs.len()
                invariant
                    i <= inputs@.len(),
                    winputs@.len() == i,
                    *old(ix) <= *ix <= bytes@.len(),
                    ws_acc.len() == i,
                    forall|j: int| 0 <= j < i ==> #[trigger] winputs@[j]@
                        == (crate::TransactionInputView { witness_stuff: ws_acc[j], ..inviews[j] }),
                    spec_parse_witnesses(bytes@, p2, n) == (match spec_parse_witnesses(
                        bytes@,
                        *ix as int,
                        (n - i) as nat,
                    ) {
                        Ok((rest, end)) => Ok::<(Seq<Seq<Seq<u8>>>, int), BlockParseError>(
                            (ws_acc + rest, end),
                        ),
                        Err(e) => Err::<(Seq<Seq<Seq<u8>>>, int), BlockParseError>(e),
                    }),
                decreases inputs@.len() - i,
            {
                let ghost pre = *ix as int;
                let w: Vec<Vec<u8>> = match read_list(bytes, ix) {
                    Ok(v) => v,
                    Err(e) => {
                        proof {
                            assert(spec_parse_witnesses(bytes@, pre, (n - i) as nat) == Err::<
                                (Seq<Seq<Seq<u8>>>, int),
                                BlockParseError,
                            >(e));
                        }
                        return Err(e);
                    },
                };
                let inp = &inputs[i];
                winputs.push(
                    crate::TransactionInput {
                        txid: inp.txid,
                        vout: inp.vout,
                        unlock_script: clone_bytes(&inp.unlock_script),
                        sequence: inp.sequence,
                        witness_stuff: w,
                    },
                );
                proof {
                    match spec_parse_witnesses(bytes@, *ix as int, (n - (i + 1)) as nat) {
                        Ok((rest, end)) => {
                            assert(ws_acc + (seq![views_of(w@)] + rest) =~= ws_acc.push(
                                views_of(w@),
                            ) + rest);
                        },
                        Err(e) => {},
                    }
                }
                proof {
                    ws_acc = ws_acc.push(views_of(w@));
                }
                i = i + 1;
            }
            inputs = winputs;
            proof {
                assert(ws_acc + Seq::<Seq<Seq<u8>>>::empty() =~= ws_acc);
                assert(views_of(inputs@) =~= Seq::new(
                    inviews.len(),
                    |j: int| crate::TransactionInputView { witness_stuff: ws_acc[j], ..inviews[j] },
                ));
            }
        }
        let ghost p3 = *ix as int;
        let locktime = match u32::deserialize_le(bytes, ix) {
            Ok(v) => v,
            Err(e) => {
                return Err(e);
            },
        };
        let r = crate::Transaction {
            version,
            flags: if witness {
                crate::TransactionFlags::witness()
            } else {
                crate::TransactionFlags::empty()
            },
            inputs,
            outputs,
            locktime,
        };
        proof {
            if !witness {
                assert(r@ =~= (crate::TransactionView {
                    version,
                    flags: 0,
                    inputs: inviews,
                    outputs: views_of(outputs@),
                    locktime,
                }));
            } else {
                match spec_parse_witnesses(bytes@, p2, inviews.len()) {
                    Ok((ws, wend)) => {
                        assert(Seq::new(
                            inviews.len(),
                            |i: int| crate::TransactionInputView {
                                witness_stuff: ws[i],
                                ..inviews[i]
                            },
                        ) =~= views_of(inputs@));
                        assert(r@ =~= (crate::TransactionView {
                            version,
                            flags: 1,
                            inputs: Seq::new(
                                inviews.len(),
                                |i: int| crate::TransactionInputView {
                                    witness_stuff: ws[i],
                                    ..inviews[i]
                                },
                            ),
                            outputs: views_of(outputs@),
                            locktime,
                        }));
                    },
                    Err(e) => {
                        assert(false);
                    },
                }
            }
        }
        Ok(r)
    }
}

} // verus!
verus! {

/// The four magic bytes (as a little-endian 32-bit value) that precede a
/// block of the given network in block storage.
pub open spec fn spec_magic(n: crate::Network) -> u32 {
    match n {
        crate::Network::MainNet => 0xd9b4bef9u32,
        crate::Network::TestNet3 => 0x0709110bu32,
        crate::Network::RegTest => 0xdab5bffau32,
    }
}

impl LittleEndianSerialization for crate::BlockHeader {
    open spec fn spec_serialized(v: crate::BlockHeaderView) -> Seq<u8> {
        spec_u32_to_le_bytes(v.version) + v.prev_block_hash + v.merkle_root + spec_u32_to_le_bytes(
            v.time,
        ) + spec_u32_to_le_bytes(v.bits) + spec_u32_to_le_bytes(v.nonce)
    }

    open spec fn spec_parsed(bytes: Seq<u8>, pos: int) -> Result<
        (crate::BlockHeaderView, int),
        BlockParseError,
    > {
        match u32::spec_parsed(bytes, pos) {
            Err(e) => Err(e),
            Ok((version, p1)) => match crate::Hash::spec_parsed(bytes, p1) {
                Err(e) => Err(e),
                Ok((prev_block_hash, p2)) => match crate::Hash::spec_parsed(bytes, p2) {
                    Err(e) => Err(e),
                    Ok((merkle_root, p3)) => match u32::spec_parsed(bytes, p3) {
                        Err(e) => Err(e),
                        Ok((time, p4)) => match u32::spec_parsed(bytes, p4) {
                            Err(e) => Err(e),
                            Ok((bits, p5)) => match u32::spec_parsed(bytes, p5) {
                                Err(e) => Err(e),
                                Ok((nonce, p6)) => Ok(
                                    (
                                        crate::BlockHeaderView {
                                            version,
                                            prev_block_hash,
                                            merkle_root,
                                            time,
                                            bits,
                                            nonce,
                                        },
                                        p6,
                                    ),
                                ),
                            },
                        },
                    },
                },
            },
        }
    }

    fn serialize_le(&self, dest: &mut Vec<u8>) {
        self.version.serialize_le(dest);
        self.prev_block_hash.serialize_le(dest);
        self.merkle_root.serialize_le(dest);
        self.time.serialize_le(dest);
        self.bits.serialize_le(dest);
        self.nonce.serialize_le(dest);
        proof {
            assert(dest@ =~= old(dest)@ + Self::spec_serialized(self@));
        }
    }

    fn deserialize_le(bytes: &[u8], ix: &mut usize) -> (r: Result<Self, BlockParseError>) {
        let version = match u32::deserialize_le(bytes, ix) {
            Ok(v) => v,
            Err(e) => {
                return Err(e);
            },
        };
        let prev_block_hash = match crate::Hash::deserialize_le(bytes, ix) {
            Ok(v) => v,
            Err(e) => {
                return Err(e);
            },
        };
        let merkle_root = match crate::Hash::deserialize_le(bytes, ix) {
            Ok(v) => v,
            Err(e) => {
                return Err(e);
            },
        };
        let time = match u32::deserialize_le(bytes, ix) {
            Ok(v) => v,
            Err(e) => {
                return Err(e);
            },
        };
        let bits = match u32::deserialize_le(bytes, ix) {
            Ok(v) => v,
            Err(e) => {
                return Err(e);
            },
        };
        let nonce = match u32::deserialize_le(bytes, ix) {
            Ok(v) => v,
            Err(e) => {
                return Err(e);
            },
        };
        Ok(crate::BlockHeader { version, prev_block_hash, merkle_root, time, bits, nonce })
    }
}

impl LittleEndianSerialization for crate::Block {
    open spec fn spec_serialized(v: crate::BlockView) -> Seq<u8> {
        spec_u32_to_le_bytes(spec_magic(v.network)) + crate::BlockHeader::spec_serialized(v.header)
            + spec_serialized_count_list::<crate::Transaction>(v.transactions)
    }

    open spec fn spec_parsed(bytes: Seq<u8>, pos: int) -> Result<
        (crate::BlockView, int),
        BlockParseError,
    > {
        match u32::spec_parsed(bytes, pos) {
            Err(e) => Err(e),
            Ok((magic, p1)) => if magic == spec_magic(crate::Network::MainNet) || magic
                == spec_magic(crate::Network::TestNet3) || magic == spec_magic(
                crate::Network::RegTest,
            ) {
                match crate::BlockHeader::spec_parsed(bytes, p1) {
                    Err(e) => Err(e),
                    Ok((header, p2)) => match spec_parse_list::<crate::Transaction>(bytes, p2) {
                        Err(e) => Err(e),
                        Ok((transactions, p3)) => Ok(
                            (
                                crate::BlockView {
                                    network: if magic == spec_magic(crate::Network::MainNet) {
                                        crate::Network::MainNet
                                    } else if magic == spec_magic(crate::Network::TestNet3) {
                                        crate::Network::TestNet3
                                    } else {
                                        crate::Network::RegTest
                                    },
                                    header,
                                    transactions,
                                },
                                p3,
                            ),
                        ),
                    },
                }
            } else {
                Err(BlockParseError::UnknownMagic(pos as usize))
            },
        }
    }

    fn serialize_le(&self, dest: &mut Vec<u8>) {
        let magic: u32 = match self.network {
            crate::Network::MainNet => 0xd9b4bef9,
            crate::Network::TestNet3 => 0x0709110b,
            crate::Network::RegTest => 0xdab5bffa,
        };
        magic.serialize_le(dest);
        self.header.serialize_le(dest);
        write_list(dest, &self.transactions);
        proof {
            assert(dest@ =~= old(dest)@ + Self::spec_serialized(self@));
        }
    }

    fn deserialize_le(bytes: &[u8], ix: &mut usize) -> (r: Result<Self, BlockParseError>) {
        let start = *ix;
        let magic = match u32::deserialize_le(bytes, ix) {
            Ok(v) => v,
            Err(e) => {
                return Err(e);
            },
        };
        let network = if magic == 0xd9b4bef9 {
            crate::Network::MainNet
        } else if magic == 0x0709110b {
            crate::Network::TestNet3
        } else if magic == 0xdab5bffa {
            crate::Network::RegTest
        } else {
            return Err(BlockParseError::UnknownMagic(start));
        };
        let header = match crate::BlockHeader::deserialize_le(bytes, ix) {
            Ok(v) => v,
            Err(e) => {
                return Err(e);
            },
        };
        let transactions: Vec<crate::Transaction> = match read_list(bytes, ix) {
            Ok(v) => v,
            Err(e) => {
                return Err(e);
            },
        };
        Ok(crate::Block { network, header, transactions })
    }
}

} // verus!
verus! {

/// Round trip: decoding a canonically encoded variable-length integer
/// placed at `pos` gives back the value and stops right after it.
pub proof fn lemma_compact_size_round_trip(bytes: Seq<u8>, pos: int, v: u64)
    requires
        0 <= pos,
        pos + spec_compact_size(v).len() <= bytes.len(),
        bytes.subrange(pos, pos + spec_compact_size(v).len() as int) == spec_compact_size(v),
    ensures
        spec_parse_compact_size(bytes, pos) == Ok::<(u64, int), BlockParseError>(
            (v, pos + spec_compact_size(v).len()),
        ),
{
    let enc = spec_compact_size(v);
    let sub = bytes.subrange(pos, pos + enc.len() as int);
    assert(sub[0] == bytes[pos + 0]);
    assert(bytes[pos] == enc[0]);
    if v < 0xfd {
    } else if v <= 0xffff {
        lemma_auto_spec_u16_to_from_le_bytes();
        assert(bytes.subrange(pos + 1, pos + 3) =~= spec_u16_to_le_bytes(v as u16)) by {
            assert forall|i: int| 0 <= i < 2 implies #[trigger] bytes.subrange(pos + 1, pos + 3)[i]
                == spec_u16_to_le_bytes(v as u16)[i] by {
                assert(bytes.subrange(pos + 1, pos + 3)[i] == bytes[pos + 1 + i]);
                assert(sub[1 + i] == bytes[pos + (1 + i)]);
                assert(sub[1 + i] == enc[1 + i]);
            }
        }
        assert(spec_u16_from_le_bytes(spec_u16_to_le_bytes(v as u16)) == v as u16);
    } else if v <= 0xffffffff {
        lemma_auto_spec_u32_to_from_le_bytes();
        assert(bytes.subrange(pos + 1, pos + 5) =~= spec_u32_to_le_bytes(v as u32)) by {
            assert forall|i: int| 0 <= i < 4 implies #[trigger] bytes.subrange(pos + 1, pos + 5)[i]
                == spec_u32_to_le_bytes(v as u32)[i] by {
                assert(bytes.subrange(pos + 1, pos + 5)[i] == bytes[pos + 1 + i]);
                assert(sub[1 + i] == bytes[pos + (1 + i)]);
                assert(sub[1 + i] == enc[1 + i]);
            }
        }
        assert(spec_u32_from_le_bytes(spec_u32_to_le_bytes(v as u32)) == v as u32);
    } else {
        lemma_auto_spec_u64_to_from_le_bytes();
        assert(bytes.subrange(pos + 1, pos + 9) =~= spec_u64_to_le_bytes(v)) by {
            assert forall|i: int| 0 <= i < 8 implies #[trigger] bytes.subrange(pos + 1, pos + 9)[i]
                == spec_u64_to_le_bytes(v)[i] by {
                assert(bytes.subrange(pos + 1, pos + 9)[i] == bytes[pos + 1 + i]);
                assert(sub[1 + i] == bytes[pos + (1 + i)]);
                assert(sub[1 + i] == enc[1 + i]);
            }
        }
        assert(spec_u64_from_le_bytes(spec_u64_to_le_bytes(v)) == v);
    }
}

/// Round trip: decoding an encoded length-prefixed byte string placed at
/// `pos` gives back the bytes.
pub proof fn lemma_var_bytes_round_trip(bytes: Seq<u8>, pos: int, v: Seq<u8>)
    requires
        0 <= pos,
        bytes.len() <= usize::MAX,
        pos + spec_var_bytes(v).len() <= bytes.len(),
        bytes.subrange(pos, pos + spec_var_bytes(v).len() as int) == spec_var_bytes(v),
    ensures
        spec_parse_var_bytes(bytes, pos) == Ok::<(Seq<u8>, int), BlockParseError>(
            (v, pos + spec_var_bytes(v).len()),
        ),
{
    let c = spec_compact_size(v.len() as u64);
    let total = spec_var_bytes(v);
    let sub = bytes.subrange(pos, pos + total.len() as int);
    let cl = c.len() as int;
    assert(bytes.subrange(pos, pos + cl) =~= c) by {
        assert forall|i: int| 0 <= i < cl implies #[trigger] bytes.subrange(pos, pos + cl)[i] == c[i] by {
            assert(bytes.subrange(pos, pos + cl)[i] == bytes[pos + i]);
            assert(sub[i] == bytes[pos + i]);
            assert(sub[i] == total[i]);
        }
    }
    lemma_compact_size_round_trip(bytes, pos, v.len() as u64);
    assert(bytes.subrange(pos + cl, pos + cl + v.len() as int) =~= v) by {
        assert forall|i: int| 0 <= i < v.len() implies #[trigger] bytes.subrange(
            pos + cl,
            pos + cl + v.len() as int,
        )[i] == v[i] by {
            assert(bytes.subrange(pos + cl, pos + cl + v.len() as int)[i] == bytes[(pos + cl)
                + i]);
            assert(sub[cl + i] == bytes[pos + (cl + i)]);
            assert(sub[cl + i] == total[cl + i]);
            assert(total[cl + i] == v[i]);
        }
    }
}

/// Round trip: decoding 32 hash bytes placed at `pos` gives them back.
pub proof fn lemma_hash_round_trip(bytes: Seq<u8>, pos: int, v: Seq<u8>)
    requires
        0 <= pos,
        v.len() == 32,
        pos + 32 <= bytes.len(),
        bytes.subrange(pos, pos + 32) == v,
    ensures
        crate::Hash::spec_parsed(bytes, pos) == Ok::<(Seq<u8>, int), BlockParseError>(
            (v, pos + 32),
        ),
{
}

} // verus!
verus! {

/// A piece of a byte run: when `bytes` holds `whole` at `pos`, it holds
/// every contiguous part of `whole` at the corresponding offset.
pub proof fn lemma_subrange_chunk(bytes: Seq<u8>, pos: int, whole: Seq<u8>, off: int, part: Seq<u8>)
    requires
        0 <= pos,
        pos + whole.len() <= bytes.len(),
        bytes.subrange(pos, pos + whole.len() as int) == whole,
        0 <= off,
        off + part.len() <= whole.len(),
        part == whole.subrange(off, off + part.len() as int),
    ensures
        bytes.subrange(pos + off, pos + off + part.len() as int) == part,
{
    let sub = bytes.subrange(pos, pos + whole.len() as int);
    assert(bytes.subrange(pos + off, pos + off + part.len() as int) =~= part) by {
        assert forall|i: int| 0 <= i < part.len() implies #[trigger] bytes.subrange(
            pos + off,
            pos + off + part.len() as int,
        )[i] == part[i] by {
            assert(bytes.subrange(pos + off, pos + off + part.len() as int)[i] == bytes[(pos + off)
                + i]);
            assert(sub[off + i] == bytes[pos + (off + i)]);
            assert(whole.subrange(off, off + part.len() as int)[i] == whole[off + i]);
        }
    }
}

/// Round trip: decoding an encoded transaction output placed at `pos`
/// gives back its view.
pub proof fn lemma_txout_round_trip(bytes: Seq<u8>, pos: int, v: crate::TransactionOutputView)
    requires
        0 <= pos,
        bytes.len() <= usize::MAX,
        pos + crate::TransactionOutput::spec_serialized(v).len() <= bytes.len(),
        bytes.subrange(pos, pos + crate::TransactionOutput::spec_serialized(v).len() as int)
            == crate::TransactionOutput::spec_serialized(v),
    ensures
        crate::TransactionOutput::spec_parsed(bytes, pos) == Ok::<
            (crate::TransactionOutputView, int),
            BlockParseError,
        >((v, pos + crate::TransactionOutput::spec_serialized(v).len())),
{
    let whole = crate::TransactionOutput::spec_serialized(v);
    let e1 = spec_u64_to_le_bytes(v.value);
    let e2 = spec_var_bytes(v.lock_script);
    lemma_auto_spec_u64_to_from_le_bytes();
    assert(e1 =~= whole.subrange(0, 8));
    lemma_subrange_chunk(bytes, pos, whole, 0, e1);
    assert(bytes.subrange(pos, pos + 8) == e1);
    assert(spec_u64_from_le_bytes(spec_u64_to_le_bytes(v.value)) == v.value);
    assert(e2 =~= whole.subrange(8, 8 + e2.len() as int));
    lemma_subrange_chunk(bytes, pos, whole, 8, e2);
    lemma_var_bytes_round_trip(bytes, pos + 8, v.lock_script);
    assert((crate::TransactionOutputView { value: v.value, lock_script: v.lock_script }) =~= v);
}

/// Round trip: decoding an encoded transaction input placed at `pos`
/// gives back its view (an input carries no witness data of its own).
pub proof fn lemma_txin_round_trip(bytes: Seq<u8>, pos: int, v: crate::TransactionInputView)
    requires
        0 <= pos,
        bytes.len() <= usize::MAX,
        v.txid.len() == 32,
        v.witness_stuff == Seq::<Seq<u8>>::empty(),
        pos + crate::TransactionInput::spec_serialized(v).len() <= bytes.len(),
        bytes.subrange(pos, pos + crate::TransactionInput::spec_serialized(v).len() as int)
            == crate::TransactionInput::spec_serialized(v),
    ensures
        crate::TransactionInput::spec_parsed(bytes, pos) == Ok::<
            (crate::TransactionInputView, int),
            BlockParseError,
        >((v, pos + crate::TransactionInput::spec_serialized(v).len())),
{
    let whole = crate::TransactionInput::spec_serialized(v);
    let e1 = v.txid;
    let e2 = spec_u32_to_le_bytes(v.vout);
    let e3 = spec_var_bytes(v.unlock_script);
    let e4 = spec_u32_to_le_bytes(v.sequence);
    lemma_auto_spec_u32_to_from_le_bytes();
    assert(e1 =~= whole.subrange(0, 32));
    lemma_subrange_chunk(bytes, pos, whole, 0, e1);
    lemma_hash_round_trip(bytes, pos, v.txid);
    assert(e2 =~= whole.subrange(32, 36));
    lemma_subrange_chunk(bytes, pos, whole, 32, e2);
    assert(spec_u32_from_le_bytes(spec_u32_to_le_bytes(v.vout)) == v.vout);
    assert(e3 =~= whole.subrange(36, 36 + e3.len() as int));
    lemma_subrange_chunk(bytes, pos, whole, 36, e3);
    lemma_var_bytes_round_trip(bytes, pos + 36, v.unlock_script);
    let p3 = pos + 36 + e3.len() as int;
    assert(e4 =~= whole.subrange(36 + e3.len() as int, 36 + e3.len() as int + 4));
    lemma_subrange_chunk(bytes, pos, whole, 36 + e3.len() as int, e4);
    assert(spec_u32_from_le_bytes(spec_u32_to_le_bytes(v.sequence)) == v.sequence);
    assert((crate::TransactionInputView {
        txid: v.txid,
        vout: v.vout,
        unlock_script: v.unlock_script,
        sequence: v.sequence,
        witness_stuff: Seq::empty(),
    }) =~= v);
}

/// Round trip: decoding an encoded block header placed at `pos` gives
/// back its view.
pub proof fn lemma_header_round_trip(bytes: Seq<u8>, pos: int, v: crate::BlockHeaderView)
    requires
        0 <= pos,
        v.prev_block_hash.len() == 32,
        v.merkle_root.len() == 32,
        pos + crate::BlockHeader::spec_serialized(v).len() <= bytes.len(),
        bytes.subrange(pos, pos + crate::BlockHeader::spec_serialized(v).len() as int)
            == crate::BlockHeader::spec_serialized(v),
    ensures
        crate::BlockHeader::spec_parsed(bytes, pos) == Ok::<
            (crate::BlockHeaderView, int),
            BlockParseError,
        >((v, pos + 80)),
{
    let whole = crate::BlockHeader::spec_serialized(v);
    let e1 = spec_u32_to_le_bytes(v.version);
    let e4 = spec_u32_to_le_bytes(v.time);
    let e5 = spec_u32_to_le_bytes(v.bits);
    let e6 = spec_u32_to_le_bytes(v.nonce);
    lemma_auto_spec_u32_to_from_le_bytes();
    assert(whole.len() == 80);
    assert(e1 =~= whole.subrange(0, 4));
    lemma_subrange_chunk(bytes, pos, whole, 0, e1);
    assert(spec_u32_from_le_bytes(spec_u32_to_le_bytes(v.version)) == v.version);
    assert(v.prev_block_hash =~= whole.subrange(4, 36));
    lemma_subrange_chunk(bytes, pos, whole, 4, v.prev_block_hash);
    lemma_hash_round_trip(bytes, pos + 4, v.prev_block_hash);
    assert(v.merkle_root =~= whole.subrange(36, 68));
    lemma_subrange_chunk(bytes, pos, whole, 36, v.merkle_root);
    lemma_hash_round_trip(bytes, pos + 36, v.merkle_root);
    assert(e4 =~= whole.subrange(68, 72));
    lemma_subrange_chunk(bytes, pos, whole, 68, e4);
    assert(spec_u32_from_le_bytes(spec_u32_to_le_bytes(v.time)) == v.time);
    assert(e5 =~= whole.subrange(72, 76));
    lemma_subrange_chunk(bytes, pos, whole, 72, e5);
    assert(spec_u32_from_le_bytes(spec_u32_to_le_bytes(v.bits)) == v.bits);
    assert(e6 =~= whole.subrange(76, 80));
    lemma_subrange_chunk(bytes, pos, whole, 76, e6);
    assert(spec_u32_from_le_bytes(spec_u32_to_le_bytes(v.nonce)) == v.nonce);
    assert((crate::BlockHeaderView {
        version: v.version,
        prev_block_hash: v.prev_block_hash,
        merkle_root: v.merkle_root,
        time: v.time,
        bits: v.bits,
        nonce: v.nonce,
    }) =~= v);
}

} // verus!
verus! {

/// A serialized list of outputs is at least as long as its count.
proof fn lemma_ser_list_len_outputs(items: Seq<crate::TransactionOutputView>)
    ensures
        spec_serialized_list::<crate::TransactionOutput>(items).len() >= items.len(),
    decreases items.len(),
{
    if items.len() > 0 {
        lemma_ser_list_len_outputs(items.drop_first());
        lemma_auto_spec_u64_to_from_le_bytes();
    }
}

/// A serialized list of inputs is at least as long as its count.
proof fn lemma_ser_list_len_inputs(items: Seq<crate::TransactionInputView>)
    ensures
        spec_serialized_list::<crate::TransactionInput>(items).len() >= items.len(),
    decreases items.len(),
{
    if items.len() > 0 {
        lemma_ser_list_len_inputs(items.drop_first());
        lemma_auto_spec_u32_to_from_le_bytes();
    }
}

/// A serialized list of byte strings is at least as long as its count.
proof fn lemma_ser_list_len_var_bytes(items: Seq<Seq<u8>>)
    ensures
        spec_serialized_list::<Vec<u8>>(items).len() >= items.len(),
    decreases items.len(),
{
    if items.len() > 0 {
        lemma_ser_list_len_var_bytes(items.drop_first());
    }
}

/// Round trip: decoding the concatenated encodings of `n` outputs gives
/// them back.
proof fn lemma_items_outputs_round_trip(
    bytes: Seq<u8>,
    pos: int,
    items: Seq<crate::TransactionOutputView>,
)
    requires
        0 <= pos,
        bytes.len() <= usize::MAX,
        pos + spec_serialized_list::<crate::TransactionOutput>(items).len() <= bytes.len(),
        bytes.subrange(
            pos,
            pos + spec_serialized_list::<crate::TransactionOutput>(items).len() as int,
        ) == spec_serialized_list::<crate::TransactionOutput>(items),
    ensures
        spec_parsed_items::<crate::TransactionOutput>(bytes, pos, items.len()) == Ok::<
            (Seq<crate::TransactionOutputView>, int),
            BlockParseError,
        >((items, pos + spec_serialized_list::<crate::TransactionOutput>(items).len())),
    decreases items.len(),
{
    if items.len() == 0 {
        assert(items =~= Seq::<crate::TransactionOutputView>::empty());
    } else {
        let whole = spec_serialized_list::<crate::TransactionOutput>(items);
        let e0 = crate::TransactionOutput::spec_serialized(items[0]);
        let rest = spec_serialized_list::<crate::TransactionOutput>(items.drop_first());
        assert(whole == e0 + rest);
        assert(e0 =~= whole.subrange(0, e0.len() as int));
        lemma_subrange_chunk(bytes, pos, whole, 0, e0);
        lemma_txout_round_trip(bytes, pos, items[0]);
        assert(rest =~= whole.subrange(e0.len() as int, whole.len() as int));
        lemma_subrange_chunk(bytes, pos, whole, e0.len() as int, rest);
        lemma_items_outputs_round_trip(bytes, pos + e0.len() as int, items.drop_first());
        assert(seq![items[0]] + items.drop_first() =~= items);
    }
}

/// Round trip: decoding the concatenated encodings of `n` inputs gives
/// them back, when none carries witness data.
proof fn lemma_items_inputs_round_trip(
    bytes: Seq<u8>,
    pos: int,
    items: Seq<crate::TransactionInputView>,
)
    requires
        0 <= pos,
        bytes.len() <= usize::MAX,
        forall|i: int| 0 <= i < items.len() ==> (#[trigger] items[i]).txid.len() == 32
            && items[i].witness_stuff == Seq::<Seq<u8>>::empty(),
        pos + spec_serialized_list::<crate::TransactionInput>(items).len() <= bytes.len(),
        bytes.subrange(
            pos,
            pos + spec_serialized_list::<crate::TransactionInput>(items).len() as int,
        ) == spec_serialized_list::<crate::TransactionInput>(items),
    ensures
        spec_parsed_items::<crate::TransactionInput>(bytes, pos, items.len()) == Ok::<
            (Seq<crate::TransactionInputView>, int),
            BlockParseError,
        >((items, pos + spec_serialized_list::<crate::TransactionInput>(items).len())),
    decreases items.len(),
{
    if items.len() == 0 {
        assert(items =~= Seq::<crate::TransactionInputView>::empty());
    } else {
        let whole = spec_serialized_list::<crate::TransactionInput>(items);
        let e0 = crate::TransactionInput::spec_serialized(items[0]);
        let rest = spec_serialized_list::<crate::TransactionInput>(items.drop_first());
        assert(whole == e0 + rest);
        assert(e0 =~= whole.subrange(0, e0.len() as int));
        lemma_subrange_chunk(bytes, pos, whole, 0, e0);
        lemma_txin_round_trip(bytes, pos, items[0]);
        assert(rest =~= whole.subrange(e0.len() as int, whole.len() as int));
        lemma_subrange_chunk(bytes, pos, whole, e0.len() as int, rest);
        lemma_items_inputs_round_trip(bytes, pos + e0.len() as int, items.drop_first());
        assert(seq![items[0]] + items.drop_first() =~= items);
    }
}

/// Round trip: decoding a count-prefixed list of outputs gives it back.
pub proof fn lemma_list_outputs_round_trip(
    bytes: Seq<u8>,
    pos: int,
    items: Seq<crate::TransactionOutputView>,
)
    requires
        0 <= pos,
        bytes.len() <= usize::MAX,
        pos + spec_serialized_count_list::<crate::TransactionOutput>(items).len() <= bytes.len(),
        bytes.subrange(
            pos,
            pos + spec_serialized_count_list::<crate::TransactionOutput>(items).len() as int,
        ) == spec_serialized_count_list::<crate::TransactionOutput>(items),
    ensures
        spec_parse_list::<crate::TransactionOutput>(bytes, pos) == Ok::<
            (Seq<crate::TransactionOutputView>, int),
            BlockParseError,
        >((items, pos + spec_serialized_count_list::<crate::TransactionOutput>(items).len())),
{
    let whole = spec_serialized_count_list::<crate::TransactionOutput>(items);
    let c = spec_compact_size(items.len() as u64);
    let body = spec_serialized_list::<crate::TransactionOutput>(items);
    lemma_ser_list_len_outputs(items);
    assert(c =~= whole.subrange(0, c.len() as int));
    lemma_subrange_chunk(bytes, pos, whole, 0, c);
    lemma_compact_size_round_trip(bytes, pos, items.len() as u64);
    assert(body =~= whole.subrange(c.len() as int, whole.len() as int));
    lemma_subrange_chunk(bytes, pos, whole, c.len() as int, body);
    lemma_items_outputs_round_trip(bytes, pos + c.len() as int, items);
}

/// Round trip: decoding a count-prefixed list of inputs gives it back.
pub proof fn lemma_list_inputs_round_trip(
    bytes: Seq<u8>,
    pos: int,
    items: Seq<crate::TransactionInputView>,
)
    requires
        0 <= pos,
        bytes.len() <= usize::MAX,
        forall|i: int| 0 <= i < items.len() ==> (#[trigger] items[i]).txid.len() == 32
            && items[i].witness_stuff == Seq::<Seq<u8>>::empty(),
        pos + spec_serialized_count_list::<crate::TransactionInput>(items).len() <= bytes.len(),
        bytes.subrange(
            pos,
            pos + spec_serialized_count_list::<crate::TransactionInput>(items).len() as int,
        ) == spec_serialized_count_list::<crate::TransactionInput>(items),
    ensures
        spec_parse_list::<crate::TransactionInput>(bytes, pos) == Ok::<
            (Seq<crate::TransactionInputView>, int),
            BlockParseError,
        >((items, pos + spec_serialized_count_list::<crate::TransactionInput>(items).len())),
{
    let whole = spec_serialized_count_list::<crate::TransactionInput>(items);
    let c = spec_compact_size(items.len() as u64);
    let body = spec_serialized_list::<crate::TransactionInput>(items);
    lemma_ser_list_len_inputs(items);
    assert(c =~= whole.subrange(0, c.len() as int));
    lemma_subrange_chunk(bytes, pos, whole, 0, c);
    lemma_compact_size_round_trip(bytes, pos, items.len() as u64);
    assert(body =~= whole.subrange(c.len() as int, whole.len() as int));
    lemma_subrange_chunk(bytes, pos, whole, c.len() as int, body);
    lemma_items_inputs_round_trip(bytes, pos + c.len() as int, items);
}

} // verus!
verus! {

/// Round trip for a transaction without witness data: decoding the
/// encoding of a well-formed legacy transaction (clear flag byte, at
/// least one input, no witness entries) gives back its view.
pub proof fn lemma_transaction_round_trip_legacy(
    bytes: Seq<u8>,
    pos: int,
    v: crate::TransactionView,
)
    requires
        0 <= pos,
        bytes.len() <= usize::MAX,
        v.flags == 0,
        v.inputs.len() >= 1,
        forall|i: int| 0 <= i < v.inputs.len() ==> (#[trigger] v.inputs[i]).txid.len() == 32
            && v.inputs[i].witness_stuff == Seq::<Seq<u8>>::empty(),
        pos + crate::Transaction::spec_serialized(v).len() <= bytes.len(),
        bytes.subrange(pos, pos + crate::Transaction::spec_serialized(v).len() as int)
            == crate::Transaction::spec_serialized(v),
    ensures
        crate::Transaction::spec_parsed(bytes, pos) == Ok::<
            (crate::TransactionView, int),
            BlockParseError,
        >((v, pos + crate::Transaction::spec_serialized(v).len())),
{
    let whole = crate::Transaction::spec_serialized(v);
    let e1 = spec_u32_to_le_bytes(v.version);
    let cl_in = spec_serialized_count_list::<crate::TransactionInput>(v.inputs);
    let cl_out = spec_serialized_count_list::<crate::TransactionOutput>(v.outputs);
    let e4 = spec_u32_to_le_bytes(v.locktime);
    lemma_auto_spec_u32_to_from_le_bytes();
    assert(whole =~= e1 + cl_in + cl_out + e4);
    let l2 = cl_in.len() as int;
    let l3 = cl_out.len() as int;
    assert(e1 =~= whole.subrange(0, 4));
    lemma_subrange_chunk(bytes, pos, whole, 0, e1);
    assert(spec_u32_from_le_bytes(spec_u32_to_le_bytes(v.version)) == v.version);
    assert(cl_in =~= whole.subrange(4, 4 + l2));
    lemma_subrange_chunk(bytes, pos, whole, 4, cl_in);
    assert(cl_out =~= whole.subrange(4 + l2, 4 + l2 + l3));
    lemma_subrange_chunk(bytes, pos, whole, 4 + l2, cl_out);
    assert(e4 =~= whole.subrange(4 + l2 + l3, 4 + l2 + l3 + 4));
    lemma_subrange_chunk(bytes, pos, whole, 4 + l2 + l3, e4);
    assert(spec_u32_from_le_bytes(spec_u32_to_le_bytes(v.locktime)) == v.locktime);
    // the byte after the version is the first byte of the input count,
    // which is never zero for one or more inputs, so no witness marker
    // is seen
    lemma_ser_list_len_inputs(v.inputs);
    assert(cl_in[0] == spec_compact_size(v.inputs.len() as u64)[0]) by {
        assert(cl_in == spec_compact_size(v.inputs.len() as u64)
            + spec_serialized_list::<crate::TransactionInput>(v.inputs));
    }
    assert(cl_in[0] != 0);
    assert(bytes.subrange(pos + 4, pos + 4 + l2)[0] == bytes[(pos + 4) + 0]);
    assert(bytes[pos + 4] == cl_in[0]);
    lemma_list_inputs_round_trip(bytes, pos + 4, v.inputs);
    lemma_list_outputs_round_trip(bytes, pos + 4 + l2, v.outputs);
    assert((crate::TransactionView {
        version: v.version,
        flags: 0,
        inputs: v.inputs,
        outputs: v.outputs,
        locktime: v.locktime,
    }) =~= v);
}

} // verus!
verus! {

/// Round trip: decoding the concatenated encodings of `n` byte strings
/// gives them back.
proof fn lemma_items_var_bytes_round_trip(bytes: Seq<u8>, pos: int, items: Seq<Seq<u8>>)
    requires
        0 <= pos,
        bytes.len() <= usize::MAX,
        pos + spec_serialized_list::<Vec<u8>>(items).len() <= bytes.len(),
        bytes.subrange(pos, pos + spec_serialized_list::<Vec<u8>>(items).len() as int)
            == spec_serialized_list::<Vec<u8>>(items),
    ensures
        spec_parsed_items::<Vec<u8>>(bytes, pos, items.len()) == Ok::<
            (Seq<Seq<u8>>, int),
            BlockParseError,
        >((items, pos + spec_serialized_list::<Vec<u8>>(items).len())),
    decreases items.len(),
{
    if items.len() == 0 {
        assert(items =~= Seq::<Seq<u8>>::empty());
    } else {
        let whole = spec_serialized_list::<Vec<u8>>(items);
        let e0 = spec_var_bytes(items[0]);
        let rest = spec_serialized_list::<Vec<u8>>(items.drop_first());
        assert(whole == e0 + rest);
        assert(e0 =~= whole.subrange(0, e0.len() as int));
        lemma_subrange_chunk(bytes, pos, whole, 0, e0);
        lemma_var_bytes_round_trip(bytes, pos, items[0]);
        assert(rest =~= whole.subrange(e0.len() as int, whole.len() as int));
        lemma_subrange_chunk(bytes, pos, whole, e0.len() as int, rest);
        lemma_items_var_bytes_round_trip(bytes, pos + e0.len() as int, items.drop_first());
        assert(seq![items[0]] + items.drop_first() =~= items);
    }
}

/// Round trip: decoding a count-prefixed list of byte strings gives it
/// back.
proof fn lemma_list_var_bytes_round_trip(bytes: Seq<u8>, pos: int, items: Seq<Seq<u8>>)
    requires
        0 <= pos,
        bytes.len() <= usize::MAX,
        pos + spec_serialized_count_list::<Vec<u8>>(items).len() <= bytes.len(),
        bytes.subrange(pos, pos + spec_serialized_count_list::<Vec<u8>>(items).len() as int)
            == spec_serialized_count_list::<Vec<u8>>(items),
    ensures
        spec_parse_list::<Vec<u8>>(bytes, pos) == Ok::<(Seq<Seq<u8>>, int), BlockParseError>(
            (items, pos + spec_serialized_count_list::<Vec<u8>>(items).len()),
        ),
{
    let whole = spec_serialized_count_list::<Vec<u8>>(items);
    let c = spec_compact_size(items.len() as u64);
    let body = spec_serialized_list::<Vec<u8>>(items);
    lemma_ser_list_len_var_bytes(items);
    assert(c =~= whole.subrange(0, c.len() as int));
    lemma_subrange_chunk(bytes, pos, whole, 0, c);
    lemma_compact_size_round_trip(bytes, pos, items.len() as u64);
    assert(body =~= whole.subrange(c.len() as int, whole.len() as int));
    lemma_subrange_chunk(bytes, pos, whole, c.len() as int, body);
    lemma_items_var_bytes_round_trip(bytes, pos + c.len() as int, items);
}

/// Round trip: decoding the appended witness stacks of a transaction's
/// inputs gives back each input's witness byte strings, in input order.
proof fn lemma_witnesses_round_trip(
    bytes: Seq<u8>,
    pos: int,
    inputs: Seq<crate::TransactionInputView>,
)
    requires
        0 <= pos,
        bytes.len() <= usize::MAX,
        pos + spec_serialized_witnesses(inputs).len() <= bytes.len(),
        bytes.subrange(pos, pos + spec_serialized_witnesses(inputs).len() as int)
            == spec_serialized_witnesses(inputs),
    ensures
        spec_parse_witnesses(bytes, pos, inputs.len()) == Ok::<
            (Seq<Seq<Seq<u8>>>, int),
            BlockParseError,
        >(
            (
                inputs.map_values(|i: crate::TransactionInputView| i.witness_stuff),
                pos + spec_serialized_witnesses(inputs).len(),
            ),
        ),
    decreases inputs.len(),
{
    let ws = inputs.map_values(|i: crate::TransactionInputView| i.witness_stuff);
    if inputs.len() == 0 {
        assert(ws =~= Seq::<Seq<Seq<u8>>>::empty());
    } else {
        let whole = spec_serialized_witnesses(inputs);
        let e0 = spec_serialized_count_list::<Vec<u8>>(inputs[0].witness_stuff);
        let rest = spec_serialized_witnesses(inputs.drop_first());
        assert(whole == e0 + rest);
        assert(e0 =~= whole.subrange(0, e0.len() as int));
        lemma_subrange_chunk(bytes, pos, whole, 0, e0);
        lemma_list_var_bytes_round_trip(bytes, pos, inputs[0].witness_stuff);
        assert(rest =~= whole.subrange(e0.len() as int, whole.len() as int));
        lemma_subrange_chunk(bytes, pos, whole, e0.len() as int, rest);
        lemma_witnesses_round_trip(bytes, pos + e0.len() as int, inputs.drop_first());
        assert(seq![inputs[0].witness_stuff] + inputs.drop_first().map_values(
            |i: crate::TransactionInputView| i.witness_stuff,
        ) =~= ws);
    }
}

/// Serializing an input ignores its witness field, so a list of inputs
/// and the same list with witness data cleared serialize identically.
proof fn lemma_ser_list_ignores_witness(items: Seq<crate::TransactionInputView>)
    ensures
        spec_serialized_list::<crate::TransactionInput>(
            items.map_values(
                |i: crate::TransactionInputView| crate::TransactionInputView {
                    witness_stuff: Seq::empty(),
                    ..i
                },
            ),
        ) == spec_serialized_list::<crate::TransactionInput>(items),
    decreases items.len(),
{
    let cleared = items.map_values(
        |i: crate::TransactionInputView| crate::TransactionInputView {
            witness_stuff: Seq::empty(),
            ..i
        },
    );
    if items.len() == 0 {
        assert(cleared =~= Seq::<crate::TransactionInputView>::empty());
    } else {
        lemma_ser_list_ignores_witness(items.drop_first());
        assert(cleared.drop_first() =~= items.drop_first().map_values(
            |i: crate::TransactionInputView| crate::TransactionInputView {
                witness_stuff: Seq::empty(),
                ..i
            },
        ));
        assert(crate::TransactionInput::spec_serialized(cleared[0])
            == crate::TransactionInput::spec_serialized(items[0]));
    }
}

/// Round trip for a transaction with witness data: decoding the encoding
/// of a well-formed witness transaction (witness flag byte set) gives
/// back its view, witness stacks included.
#[verifier::rlimit(100)]
#[verifier::spinoff_prover]
pub proof fn lemma_transaction_round_trip_witness(
    bytes: Seq<u8>,
    pos: int,
    v: crate::TransactionView,
)
    requires
        0 <= pos,
        bytes.len() <= usize::MAX,
        v.flags == 1,
        forall|i: int| 0 <= i < v.inputs.len() ==> (#[trigger] v.inputs[i]).txid.len() == 32,
        pos + crate::Transaction::spec_serialized(v).len() <= bytes.len(),
        bytes.subrange(pos, pos + crate::Transaction::spec_serialized(v).len() as int)
            == crate::Transaction::spec_serialized(v),
    ensures
        crate::Transaction::spec_parsed(bytes, pos) == Ok::<
            (crate::TransactionView, int),
            BlockParseError,
        >((v, pos + crate::Transaction::spec_serialized(v).len())),
{
    let whole = crate::Transaction::spec_serialized(v);
    let e1 = spec_u32_to_le_bytes(v.version);
    let marker = seq![0u8, 1u8];
    let cleared = v.inputs.map_values(
        |i: crate::TransactionInputView| crate::TransactionInputView {
            witness_stuff: Seq::empty(),
            ..i
        },
    );
    let cl_in = spec_serialized_count_list::<crate::TransactionInput>(v.inputs);
    let cl_out = spec_serialized_count_list::<crate::TransactionOutput>(v.outputs);
    let wit = spec_serialized_witnesses(v.inputs);
    let e4 = spec_u32_to_le_bytes(v.locktime);
    lemma_auto_spec_u32_to_from_le_bytes();
    assert(whole =~= e1 + marker + cl_in + cl_out + wit + e4);
    let l2 = cl_in.len() as int;
    let l3 = cl_out.len() as int;
    let l4 = wit.len() as int;
    assert(e1 =~= whole.subrange(0, 4));
    lemma_subrange_chunk(bytes, pos, whole, 0, e1);
    assert(spec_u32_from_le_bytes(spec_u32_to_le_bytes(v.version)) == v.version);
    assert(marker =~= whole.subrange(4, 6));
    lemma_subrange_chunk(bytes, pos, whole, 4, marker);
    assert(bytes.subrange(pos + 4, pos + 6)[0] == bytes[(pos + 4) + 0]);
    assert(bytes.subrange(pos + 4, pos + 6)[1] == bytes[(pos + 4) + 1]);
    assert(bytes[pos + 4] == 0);
    assert(bytes[pos + 5] == 1);
    assert(cl_in =~= whole.subrange(6, 6 + l2));
    lemma_subrange_chunk(bytes, pos, whole, 6, cl_in);
    lemma_ser_list_ignores_witness(v.inputs);
    assert(spec_serialized_count_list::<crate::TransactionInput>(cleared) == cl_in) by {
        assert(cleared.len() == v.inputs.len());
    }
    lemma_list_inputs_round_trip(bytes, pos + 6, cleared);
    assert(cl_out =~= whole.subrange(6 + l2, 6 + l2 + l3));
    lemma_subrange_chunk(bytes, pos, whole, 6 + l2, cl_out);
    lemma_list_outputs_round_trip(bytes, pos + 6 + l2, v.outputs);
    assert(wit =~= whole.subrange(6 + l2 + l3, 6 + l2 + l3 + l4));
    lemma_subrange_chunk(bytes, pos, whole, 6 + l2 + l3, wit);
    lemma_witnesses_round_trip(bytes, pos + 6 + l2 + l3, v.inputs);
    assert(e4 =~= whole.subrange(6 + l2 + l3 + l4, 6 + l2 + l3 + l4 + 4));
    lemma_subrange_chunk(bytes, pos, whole, 6 + l2 + l3 + l4, e4);
    assert(spec_u32_from_le_bytes(spec_u32_to_le_bytes(v.locktime)) == v.locktime);
    let ws = v.inputs.map_values(|i: crate::TransactionInputView| i.witness_stuff);
    assert(Seq::new(
        cleared.len(),
        |i: int| crate::TransactionInputView { witness_stuff: ws[i], ..cleared[i] },
    ) =~= v.inputs);
    assert((crate::TransactionView {
        version: v.version,
        flags: 1,
        inputs: Seq::new(
            cleared.len(),
            |i: int| crate::TransactionInputView { witness_stuff: ws[i], ..cleared[i] },
        ),
        outputs: v.outputs,
        locktime: v.locktime,
    }) =~= v);
}

} // verus!
verus! {

/// A well-formed transaction view: a canonical flag byte, 32-byte
/// previous-transaction ids, and — in the legacy form — at least one
/// input (else the serialization would be mistaken for a witness marker)
/// and no witness entries.
pub open spec fn spec_tx_wf(t: crate::TransactionView) -> bool {
    &&& (t.flags == 0 || t.flags == 1)
    &&& (forall|i: int| 0 <= i < t.inputs.len() ==> (#[trigger] t.inputs[i]).txid.len() == 32)
    &&& (t.flags == 0 ==> t.inputs.len() >= 1 && (forall|i: int|
        0 <= i < t.inputs.len() ==> (#[trigger] t.inputs[i]).witness_stuff == Seq::<
            Seq<u8>,
        >::empty()))
}

/// Round trip: decoding the encoding of any well-formed transaction gives
/// back its view.
pub proof fn lemma_transaction_round_trip(bytes: Seq<u8>, pos: int, v: crate::TransactionView)
    requires
        0 <= pos,
        bytes.len() <= usize::MAX,
        spec_tx_wf(v),
        pos + crate::Transaction::spec_serialized(v).len() <= bytes.len(),
        bytes.subrange(pos, pos + crate::Transaction::spec_serialized(v).len() as int)
            == crate::Transaction::spec_serialized(v),
    ensures
        crate::Transaction::spec_parsed(bytes, pos) == Ok::<
            (crate::TransactionView, int),
            BlockParseError,
        >((v, pos + crate::Transaction::spec_serialized(v).len())),
{
    if v.flags == 0 {
        lemma_transaction_round_trip_legacy(bytes, pos, v);
    } else {
        lemma_transaction_round_trip_witness(bytes, pos, v);
    }
}

/// A serialized list of transactions is at least as long as its count.
proof fn lemma_ser_list_len_txs(items: Seq<crate::TransactionView>)
    ensures
        spec_serialized_list::<crate::Transaction>(items).len() >= items.len(),
    decreases items.len(),
{
    if items.len() > 0 {
        lemma_ser_list_len_txs(items.drop_first());
        lemma_auto_spec_u32_to_from_le_bytes();
    }
}

/// Round trip: decoding the concatenated encodings of `n` well-formed
/// transactions gives them back.
proof fn lemma_items_txs_round_trip(bytes: Seq<u8>, pos: int, items: Seq<crate::TransactionView>)
    requires
        0 <= pos,
        bytes.len() <= usize::MAX,
        forall|i: int| 0 <= i < items.len() ==> spec_tx_wf(#[trigger] items[i]),
        pos + spec_serialized_list::<crate::Transaction>(items).len() <= bytes.len(),
        bytes.subrange(pos, pos + spec_serialized_list::<crate::Transaction>(items).len() as int)
            == spec_serialized_list::<crate::Transaction>(items),
    ensures
        spec_parsed_items::<crate::Transaction>(bytes, pos, items.len()) == Ok::<
            (Seq<crate::TransactionView>, int),
            BlockParseError,
        >((items, pos + spec_serialized_list::<crate::Transaction>(items).len())),
    decreases items.len(),
{
    if items.len() == 0 {
        assert(items =~= Seq::<crate::TransactionView>::empty());
    } else {
        let whole = spec_serialized_list::<crate::Transaction>(items);
        let e0 = crate::Transaction::spec_serialized(items[0]);
        let rest = spec_serialized_list::<crate::Transaction>(items.drop_first());
        assert(whole == e0 + rest);
        assert(e0 =~= whole.subrange(0, e0.len() as int));
        lemma_subrange_chunk(bytes, pos, whole, 0, e0);
        lemma_transaction_round_trip(bytes, pos, items[0]);
        assert(rest =~= whole.subrange(e0.len() as int, whole.len() as int));
        lemma_subrange_chunk(bytes, pos, whole, e0.len() as int, rest);
        lemma_items_txs_round_trip(bytes, pos + e0.len() as int, items.drop_first());
        assert(seq![items[0]] + items.drop_first() =~= items);
    }
}

/// Round trip: decoding the encoding of a well-formed block (32-byte
/// hashes in the header, well-formed transactions) gives back its view.
pub proof fn lemma_block_round_trip(bytes: Seq<u8>, pos: int, v: crate::BlockView)
    requires
        0 <= pos,
        bytes.len() <= usize::MAX,
        v.header.prev_block_hash.len() == 32,
        v.header.merkle_root.len() == 32,
        forall|i: int| 0 <= i < v.transactions.len() ==> spec_tx_wf(#[trigger] v.transactions[i]),
        pos + crate::Block::spec_serialized(v).len() <= bytes.len(),
        bytes.subrange(pos, pos + crate::Block::spec_serialized(v).len() as int)
            == crate::Block::spec_serialized(v),
    ensures
        crate::Block::spec_parsed(bytes, pos) == Ok::<(crate::BlockView, int), BlockParseError>(
            (v, pos + crate::Block::spec_serialized(v).len()),
        ),
{
    let whole = crate::Block::spec_serialized(v);
    let e1 = spec_u32_to_le_bytes(spec_magic(v.network));
    let hdr = crate::BlockHeader::spec_serialized(v.header);
    let cl = spec_serialized_count_list::<crate::Transaction>(v.transactions);
    lemma_auto_spec_u32_to_from_le_bytes();
    assert(whole =~= e1 + hdr + cl);
    assert(hdr.len() == 80);
    assert(e1 =~= whole.subrange(0, 4));
    lemma_subrange_chunk(bytes, pos, whole, 0, e1);
    assert(spec_u32_from_le_bytes(spec_u32_to_le_bytes(spec_magic(v.network))) == spec_magic(
        v.network,
    ));
    assert(hdr =~= whole.subrange(4, 84));
    lemma_subrange_chunk(bytes, pos, whole, 4, hdr);
    lemma_header_round_trip(bytes, pos + 4, v.header);
    assert(cl =~= whole.subrange(84, 84 + cl.len() as int));
    lemma_subrange_chunk(bytes, pos, whole, 84, cl);
    let c = spec_compact_size(v.transactions.len() as u64);
    let body = spec_serialized_list::<crate::Transaction>(v.transactions);
    lemma_ser_list_len_txs(v.transactions);
    assert(c =~= cl.subrange(0, c.len() as int));
    lemma_subrange_chunk(bytes, pos + 84, cl, 0, c);
    lemma_compact_size_round_trip(bytes, pos + 84, v.transactions.len() as u64);
    assert(body =~= cl.subrange(c.len() as int, cl.len() as int));
    lemma_subrange_chunk(bytes, pos + 84, cl, c.len() as int, body);
    lemma_items_txs_round_trip(bytes, pos + 84 + c.len() as int, v.transactions);
    assert((crate::BlockView {
        network: v.network,
        header: v.header,
        transactions: v.transactions,
    }) =~= v);
}

} // verus!
