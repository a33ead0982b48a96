//! Canonical byte encodings and the XXH3-128 digest that identities are made of.
//!
//! Every identity, receipt and fingerprint of the compiler is the XXH3-128 digest of
//! a canonical byte sequence. The byte sequences are this library's own logic and are
//! specified exactly below; the digest itself is computed by `xxhash_rust`.
use vstd::prelude::*;

verus! {

/// The XXH3-128 digest (seed 0, default secret) of a byte sequence.
pub uninterp spec fn xxh3_128_digest(bytes: Seq<u8>) -> u128;

/// Calls `xxhash_rust::xxh3::xxh3_128`, which hashes its whole input with the default
/// secret and seed 0. The contract only names the result: it is the digest of exactly
/// the bytes handed in; nothing is claimed about the digest's value.
#[verifier::external_body]
pub fn xxh3_128(bytes: &[u8]) -> (digest: u128)
    ensures
        digest == xxh3_128_digest(bytes@),
{
    xxhash_rust::xxh3::xxh3_128(bytes)
}

/// The big-endian encoding of the low `width` bytes of `value`.
pub open spec fn be_bytes(value: u128, width: nat) -> Seq<u8> {
    Seq::new(width, |i: int| ((value >> ((8 * (width - 1 - i)) as u32)) & 0xff) as u8)
}

/// `u8` as one byte.
pub open spec fn be_u8(value: u8) -> Seq<u8> {
    seq![value]
}

/// `u16::to_be_bytes`.
pub open spec fn be_u16(value: u16) -> Seq<u8> {
    be_bytes(value as u128, 2)
}

/// `u32::to_be_bytes`.
pub open spec fn be_u32(value: u32) -> Seq<u8> {
    be_bytes(value as u128, 4)
}

/// `u64::to_be_bytes`.
pub open spec fn be_u64(value: u64) -> Seq<u8> {
    be_bytes(value as u128, 8)
}

/// `u128::to_be_bytes`.
pub open spec fn be_u128(value: u128) -> Seq<u8> {
    be_bytes(value, 16)
}

/// `i128::to_be_bytes` (two's complement).
pub open spec fn be_i128(value: i128) -> Seq<u8> {
    be_bytes(value as u128, 16)
}

/// A length-framed part: the length as a big-endian `u64`, then the bytes.
pub open spec fn part(bytes: Seq<u8>) -> Seq<u8> {
    be_u64(bytes.len() as u64) + bytes
}

/// A length as a big-endian `u64`.
pub open spec fn length(len: nat) -> Seq<u8> {
    be_u64(len as u64)
}

/// Appends the big-endian encoding of the low `width` bytes of `value`.
pub fn push_be(bytes: &mut Vec<u8>, value: u128, width: usize)
    requires
        width <= 16,
    ensures
        final(bytes)@ == old(bytes)@ + be_bytes(value, width as nat),
{
    let ghost start = bytes@;
    let mut i: usize = 0;
    while i < width
        invariant
            i <= width,
            width <= 16,
            bytes@ == start + be_bytes(value, width as nat).take(i as int),
        decreases width - i,
    {
        let shift: u32 = (8 * (width - 1 - i)) as u32;
        bytes.push(((value >> shift) & 0xff) as u8);
        proof {
            assert(be_bytes(value, width as nat).take((i + 1) as int) =~= be_bytes(
                value,
                width as nat,
            ).take(i as int).push(((value >> shift) & 0xff) as u8));
        }
        i = i + 1;
    }
    proof {
        assert(be_bytes(value, width as nat).take(width as int) =~= be_bytes(value, width as nat));
    }
}

/// Appends one byte.
pub fn push_u8(bytes: &mut Vec<u8>, value: u8)
    ensures
        final(bytes)@ == old(bytes)@ + be_u8(value),
{
    bytes.push(value);
    proof {
        assert(final(bytes)@ =~= old(bytes)@ + be_u8(value));
    }
}

/// Appends `value.to_be_bytes()`.
pub fn push_u16(bytes: &mut Vec<u8>, value: u16)
    ensures
        final(bytes)@ == old(bytes)@ + be_u16(value),
{
    push_be(bytes, value as u128, 2);
}

/// Appends `value.to_be_bytes()`.
pub fn push_u32(bytes: &mut Vec<u8>, value: u32)
    ensures
        final(bytes)@ == old(bytes)@ + be_u32(value),
{
    push_be(bytes, value as u128, 4);
}

/// Appends `value.to_be_bytes()`.
pub fn push_u64(bytes: &mut Vec<u8>, value: u64)
    ensures
        final(bytes)@ == old(bytes)@ + be_u64(value),
{
    push_be(bytes, value as u128, 8);
}

/// Appends `value.to_be_bytes()`.
pub fn push_u128(bytes: &mut Vec<u8>, value: u128)
    ensures
        final(bytes)@ == old(bytes)@ + be_u128(value),
{
    push_be(bytes, value, 16);
}

/// Appends `value.to_be_bytes()`.
pub fn push_i128(bytes: &mut Vec<u8>, value: i128)
    ensures
        final(bytes)@ == old(bytes)@ + be_i128(value),
{
    push_be(bytes, value as u128, 16);
}

/// Appends every byte of `other`.
pub fn push_slice(bytes: &mut Vec<u8>, other: &[u8])
    ensures
        final(bytes)@ == old(bytes)@ + other@,
{
    let ghost start = bytes@;
    let mut i: usize = 0;
    while i < other.len()
        invariant
            i <= other@.len(),
            bytes@ == start + other@.take(i as int),
        decreases other@.len() - i,
    {
        bytes.push(other[i]);
        proof {
            assert(other@.take((i + 1) as int) =~= other@.take(i as int).push(other@[i as int]));
        }
        i = i + 1;
    }
    proof {
        assert(other@.take(other@.len() as int) =~= other@);
    }
}

/// Appends a length as a big-endian `u64`.
pub fn push_len(bytes: &mut Vec<u8>, len: usize)
    ensures
        final(bytes)@ == old(bytes)@ + length(len as nat),
{
    push_u64(bytes, len as u64);
}

/// Appends a length-framed part.
pub fn push_part(bytes: &mut Vec<u8>, other: &[u8])
    ensures
        final(bytes)@ == old(bytes)@ + part(other@),
{
    push_u64(bytes, other.len() as u64);
    push_slice(bytes, other);
    proof {
        assert(final(bytes)@ =~= old(bytes)@ + part(other@));
    }
}

/// The concatenated encodings of a sequence of items, in order.
pub open spec fn encode_each<T>(items: Seq<T>, encode: spec_fn(T) -> Seq<u8>) -> Seq<u8>
    decreases items.len(),
{
    if items.len() == 0 {
        Seq::empty()
    } else {
        encode_each(items.drop_last(), encode) + encode(items.last())
    }
}

/// Encoding one more item of a prefix appends that item's encoding.
pub proof fn lemma_encode_each_step<T>(items: Seq<T>, encode: spec_fn(T) -> Seq<u8>, i: int)
    requires
        0 <= i < items.len(),
    ensures
        encode_each(items.take(i + 1), encode) == encode_each(items.take(i), encode) + encode(
            items[i],
        ),
{
    assert(items.take(i + 1).drop_last() =~= items.take(i));
}

/// A verifier's own canonical encoder: it shares no code with the producers' push
/// functions, so a defect of a producer cannot authenticate itself by being repeated.
pub struct VerificationEncoding {
    bytes: Vec<u8>,
}

impl View for VerificationEncoding {
    type V = Seq<u8>;

    /// The bytes encoded so far.
    closed spec fn view(&self) -> Seq<u8> {
        self.bytes@
    }
}

impl VerificationEncoding {
    /// An encoder that has encoded nothing.
    pub fn new() -> (encoding: Self)
        ensures
            encoding@ == Seq::<u8>::empty(),
    {
        VerificationEncoding { bytes: Vec::new() }
    }

    /// Encodes one byte.
    pub fn byte(&mut self, value: u8)
        ensures
            final(self)@ == old(self)@ + be_u8(value),
    {
        self.bytes.push(value);
        proof {
            assert(final(self).bytes@ =~= old(self).bytes@ + be_u8(value));
        }
    }

    /// Encodes a `u128` in big-endian order.
    pub fn u128(&mut self, value: u128)
        ensures
            final(self)@ == old(self)@ + be_u128(value),
    {
        let ghost start = self.bytes@;
        let mut index: u32 = 0;
        while index < 16
            invariant
                index <= 16,
                self.bytes@ == start + be_u128(value).take(index as int),
            decreases 16 - index,
        {
            let shift: u32 = 8 * (15 - index);
            self.bytes.push(((value >> shift) & 0xff) as u8);
            proof {
                assert(be_u128(value).take(index + 1) =~= be_u128(value).take(index as int).push(
                    ((value >> shift) & 0xff) as u8,
                ));
            }
            index = index + 1;
        }
        proof {
            assert(be_u128(value).take(16) =~= be_u128(value));
        }
    }

    /// Encodes a `u32` in big-endian order.
    pub fn u32(&mut self, value: u32)
        ensures
            final(self)@ == old(self)@ + be_u32(value),
    {
        let ghost start = self.bytes@;
        let mut index: u32 = 0;
        while index < 4
            invariant
                index <= 4,
                self.bytes@ == start + be_u32(value).take(index as int),
            decreases 4 - index,
        {
            let shift: u32 = 8 * (3 - index);
            self.bytes.push(((value >> shift) & 0xff) as u8);
            proof {
                assert((value as u128 >> shift) & 0xff == (value >> shift) & 0xff) by (bit_vector);
                assert(be_u32(value).take(index + 1) =~= be_u32(value).take(index as int).push(
                    ((value >> shift) & 0xff) as u8,
                ));
            }
            index = index + 1;
        }
        proof {
            assert(be_u32(value).take(4) =~= be_u32(value));
        }
    }

    /// Encodes a `u16` in big-endian order.
    pub fn u16(&mut self, value: u16)
        ensures
            final(self)@ == old(self)@ + be_u16(value),
    {
        let ghost start = self.bytes@;
        let mut index: u32 = 0;
        while index < 2
            invariant
                index <= 2,
                self.bytes@ == start + be_u16(value).take(index as int),
            decreases 2 - index,
        {
            let shift: u32 = 8 * (1 - index);
            self.bytes.push(((value >> shift) & 0xff) as u8);
            proof {
                assert((value as u128 >> shift) & 0xff == (value >> shift) & 0xff) by (bit_vector);
                assert(be_u16(value).take(index + 1) =~= be_u16(value).take(index as int).push(
                    ((value >> shift) & 0xff) as u8,
                ));
            }
            index = index + 1;
        }
        proof {
            assert(be_u16(value).take(2) =~= be_u16(value));
        }
    }

    /// Encodes bytes as they are.
    pub fn bytes(&mut self, value: &[u8])
        ensures
            final(self)@ == old(self)@ + value@,
    {
        let ghost start = self.bytes@;
        let mut i: usize = 0;
        while i < value.len()
            invariant
                i <= value@.len(),
                self.bytes@ == start + value@.take(i as int),
            decreases value@.len() - i,
        {
            self.bytes.push(value[i]);
            proof {
                assert(value@.take(i + 1) =~= value@.take(i as int).push(value@[i as int]));
            }
            i = i + 1;
        }
        proof {
            assert(value@.take(value@.len() as int) =~= value@);
        }
    }

    /// Encodes a `u64` in big-endian order.
    pub fn u64(&mut self, value: u64)
        ensures
            final(self)@ == old(self)@ + be_u64(value),
    {
        let ghost start = self.bytes@;
        let mut index: u32 = 0;
        while index < 8
            invariant
                index <= 8,
                self.bytes@ == start + be_u64(value).take(index as int),
            decreases 8 - index,
        {
            let shift: u32 = 8 * (7 - index);
            self.bytes.push(((value >> shift) & 0xff) as u8);
            proof {
                assert((value as u128 >> shift) & 0xff == (value >> shift) & 0xff) by (bit_vector);
                assert(be_u64(value).take(index + 1) =~= be_u64(value).take(index as int).push(
                    ((value >> shift) & 0xff) as u8,
                ));
            }
            index = index + 1;
        }
        proof {
            assert(be_u64(value).take(8) =~= be_u64(value));
        }
    }

    /// Encodes a length-framed part.
    pub fn part(&mut self, value: &[u8])
        ensures
            final(self)@ == old(self)@ + part(value@),
    {
        let ghost start = self.bytes@;
        self.u64(value.len() as u64);
        let mut i: usize = 0;
        while i < value.len()
            invariant
                i <= value@.len(),
                self.bytes@ == start + be_u64(value@.len() as u64) + value@.take(i as int),
            decreases value@.len() - i,
        {
            self.bytes.push(value[i]);
            proof {
                assert(value@.take(i + 1) =~= value@.take(i as int).push(value@[i as int]));
            }
            i = i + 1;
        }
        proof {
            assert(value@.take(value@.len() as int) =~= value@);
            assert(self.bytes@ =~= start + part(value@));
        }
    }

    /// The digest of the encoded bytes.
    pub fn finish(self) -> (digest: u128)
        ensures
            digest == xxh3_128_digest(self@),
    {
        xxh3_128(self.bytes.as_slice())
    }
}

/// Equal big-endian `u64` encodings encode equal values.
pub proof fn lemma_be_u64_injective(first: u64, second: u64)
    requires
        be_u64(first) == be_u64(second),
    ensures
        first == second,
{
    let x = first as u128;
    let y = second as u128;
    assert(be_u64(first)[0] == ((x >> ((8 * (8 - 1 - 0)) as u32)) & 0xff) as u8);
    assert(be_u64(second)[0] == ((y >> ((8 * (8 - 1 - 0)) as u32)) & 0xff) as u8);
    assert(be_u64(first)[1] == ((x >> ((8 * (8 - 1 - 1)) as u32)) & 0xff) as u8);
    assert(be_u64(second)[1] == ((y >> ((8 * (8 - 1 - 1)) as u32)) & 0xff) as u8);
    assert(be_u64(first)[2] == ((x >> ((8 * (8 - 1 - 2)) as u32)) & 0xff) as u8);
    assert(be_u64(second)[2] == ((y >> ((8 * (8 - 1 - 2)) as u32)) & 0xff) as u8);
    assert(be_u64(first)[3] == ((x >> ((8 * (8 - 1 - 3)) as u32)) & 0xff) as u8);
    assert(be_u64(second)[3] == ((y >> ((8 * (8 - 1 - 3)) as u32)) & 0xff) as u8);
    assert(be_u64(first)[4] == ((x >> ((8 * (8 - 1 - 4)) as u32)) & 0xff) as u8);
    assert(be_u64(second)[4] == ((y >> ((8 * (8 - 1 - 4)) as u32)) & 0xff) as u8);
    assert(be_u64(first)[5] == ((x >> ((8 * (8 - 1 - 5)) as u32)) & 0xff) as u8);
    assert(be_u64(second)[5] == ((y >> ((8 * (8 - 1 - 5)) as u32)) & 0xff) as u8);
    assert(be_u64(first)[6] == ((x >> ((8 * (8 - 1 - 6)) as u32)) & 0xff) as u8);
    assert(be_u64(second)[6] == ((y >> ((8 * (8 - 1 - 6)) as u32)) & 0xff) as u8);
    assert(be_u64(first)[7] == ((x >> ((8 * (8 - 1 - 7)) as u32)) & 0xff) as u8);
    assert(be_u64(second)[7] == ((y >> ((8 * (8 - 1 - 7)) as u32)) & 0xff) as u8);
    assert(((x >> 56u32) & 0xff) as u8 == ((y >> 56u32) & 0xff) as u8);
    assert(((x >> 48u32) & 0xff) as u8 == ((y >> 48u32) & 0xff) as u8);
    assert(((x >> 40u32) & 0xff) as u8 == ((y >> 40u32) & 0xff) as u8);
    assert(((x >> 32u32) & 0xff) as u8 == ((y >> 32u32) & 0xff) as u8);
    assert(((x >> 24u32) & 0xff) as u8 == ((y >> 24u32) & 0xff) as u8);
    assert(((x >> 16u32) & 0xff) as u8 == ((y >> 16u32) & 0xff) as u8);
    assert(((x >> 8u32) & 0xff) as u8 == ((y >> 8u32) & 0xff) as u8);
    assert(((x >> 0u32) & 0xff) as u8 == ((y >> 0u32) & 0xff) as u8);
    assert(x == y) by (bit_vector)
        requires
            x < 0x1_0000_0000_0000_0000,
            y < 0x1_0000_0000_0000_0000,
            ((x >> 56u32) & 0xff) as u8 == ((y >> 56u32) & 0xff) as u8,
            ((x >> 48u32) & 0xff) as u8 == ((y >> 48u32) & 0xff) as u8,
            ((x >> 40u32) & 0xff) as u8 == ((y >> 40u32) & 0xff) as u8,
            ((x >> 32u32) & 0xff) as u8 == ((y >> 32u32) & 0xff) as u8,
            ((x >> 24u32) & 0xff) as u8 == ((y >> 24u32) & 0xff) as u8,
            ((x >> 16u32) & 0xff) as u8 == ((y >> 16u32) & 0xff) as u8,
            ((x >> 8u32) & 0xff) as u8 == ((y >> 8u32) & 0xff) as u8,
            ((x >> 0u32) & 0xff) as u8 == ((y >> 0u32) & 0xff) as u8,
    ;
}

/// Length framing keeps the boundaries between parts: two framed parts in a row encode
/// the same bytes only when the parts themselves are the same, so moving bytes across a
/// boundary changes the encoding.
pub proof fn lemma_parts_keep_boundaries(first: Seq<u8>, second: Seq<u8>, third: Seq<u8>, fourth: Seq<u8>)
    requires
        first.len() <= u64::MAX,
        third.len() <= u64::MAX,
        part(first) + part(second) == part(third) + part(fourth),
    ensures
        first == third,
        second == fourth,
{
    let joined = part(first) + part(second);
    assert(be_u64(first.len() as u64) =~= joined.take(8));
    assert(be_u64(third.len() as u64) =~= (part(third) + part(fourth)).take(8));
    lemma_be_u64_injective(first.len() as u64, third.len() as u64);
    assert(first =~= joined.subrange(8, 8 + first.len() as int));
    assert(third =~= (part(third) + part(fourth)).subrange(8, 8 + third.len() as int));
    assert(part(second) =~= joined.skip(8 + first.len() as int));
    assert(part(fourth) =~= (part(third) + part(fourth)).skip(8 + third.len() as int));
    assert(second =~= part(second).skip(8));
    assert(fourth =~= part(fourth).skip(8));
}

} // verus!
