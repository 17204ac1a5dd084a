//! The bit-packing codec: a sequence of path segments to and from a
//! single `usize` identifier.
//!
//! Layout of an identifier for a non-empty path of length `L`: the
//! first segment sits in the highest-used bits (a 7-bit window is
//! assumed but not enforced), each later segment follows at a 3-bit
//! stride, and the lowest `RESOLUTION_BITS` (4) bits hold `L` itself.

use vstd::arithmetic::power2::lemma2_to64;
use vstd::arithmetic::power2::lemma2_to64_rest;
use vstd::arithmetic::power2::lemma_pow2_adds;
use vstd::arithmetic::power2::lemma_pow2_strictly_increases;
use vstd::arithmetic::power2::pow2;
use vstd::prelude::*;

verus! {

/// Width of the length field at the bottom of an identifier.
pub const RESOLUTION_BITS: usize = 0b100;

/// Stride, in bits, at which segments after the first are packed.
pub const PATH_BITS: usize = 0b11;

/// Mask for the length field: the low 4 bits.
pub const RESOLUTION_MASK: usize = 0b1111;

/// Mask for the first (widest) segment: the low 7 bits.
pub const FIRST_PATH_MASK: usize = 0b1111111;

/// Mask for a segment after the first: the low 3 bits.
pub const PATH_MASK: usize = 0b111;

/// The accumulator value after folding a whole segment sequence:
/// the first segment, then each later segment OR-ed in below a 3-bit
/// left shift. This is the identifier before the length field is
/// appended.
pub open spec fn encode_acc(s: Seq<u8>) -> usize
    decreases s.len(),
{
    if s.len() == 0 {
        0
    } else if s.len() == 1 {
        s[0] as usize
    } else {
        (encode_acc(s.drop_last()) << PATH_BITS) | (s.last() as usize)
    }
}

/// The identifier of a segment sequence: `0` for the empty sequence,
/// otherwise the folded accumulator shifted up by the 4 length-field
/// bits with the length OR-ed in.
pub open spec fn spec_encode_id(s: Seq<u8>) -> usize {
    if s.len() == 0 {
        0
    } else {
        (encode_acc(s) << RESOLUTION_BITS) | (s.len() as usize)
    }
}

/// The segment sequence recovered from accumulator `v` holding `n`
/// segments: the low 3 bits of `v` are the last segment, except that
/// the sole remaining (first) segment is read through the 7-bit mask.
pub open spec fn decode_rec(v: usize, n: nat) -> Seq<u8>
    decreases n,
{
    if n == 0 {
        Seq::empty()
    } else if n == 1 {
        seq![(v & FIRST_PATH_MASK) as u8]
    } else {
        decode_rec(v >> PATH_BITS, (n - 1) as nat).push((v & PATH_MASK) as u8)
    }
}

/// The segment sequence encoded in `encoded_id`: the low 4 bits give
/// the count, the rest the packed segments.
pub open spec fn spec_decode_id(encoded_id: usize) -> Seq<u8> {
    decode_rec(encoded_id >> RESOLUTION_BITS, (encoded_id & RESOLUTION_MASK) as nat)
}

/// Packs `ids` into a single identifier. The first segment is taken
/// whole; later segments are OR-ed in at a 3-bit stride, so a caller
/// that appends a segment above 7 gets an identifier that will not
/// decode back (no masking is applied, by design).
pub fn encode_id(ids: &[u8]) -> (r: usize)
    ensures
        r == spec_encode_id(ids@),
{
    if ids.len() == 0 {
        return 0;
    }
    let mut encoded_id: usize = ids[0] as usize;
    let mut i: usize = 1;
    while i < ids.len()
        invariant
            1 <= i <= ids@.len(),
            encoded_id == encode_acc(ids@.take(i as int)),
        decreases ids@.len() - i,
    {
        encoded_id = (encoded_id << PATH_BITS) | (ids[i] as usize);
        proof {
            let t = ids@.take(i as int + 1);
            assert(t.drop_last() =~= ids@.take(i as int));
            assert(t.last() == ids@[i as int]);
        }
        i = i + 1;
    }
    proof {
        assert(ids@.take(ids@.len() as int) =~= ids@);
    }
    (encoded_id << RESOLUTION_BITS) | ids.len()
}

/// Unpacks `n` segments out of accumulator `v`, innermost (last
/// appended) segment first out of the low bits, rebuilding the
/// sequence in original order.
fn decode_segments(v: usize, n: u8) -> (r: Vec<u8>)
    ensures
        r@ == decode_rec(v, n as nat),
    decreases n,
{
    if n == 0 {
        Vec::new()
    } else if n == 1 {
        let mut r: Vec<u8> = Vec::new();
        r.push((v & FIRST_PATH_MASK) as u8);
        proof {
            assert(r@ =~= decode_rec(v, 1));
        }
        r
    } else {
        let mut r = decode_segments(v >> PATH_BITS, n - 1);
        r.push((v & PATH_MASK) as u8);
        r
    }
}

/// Unpacks an identifier back into its segment sequence: the low
/// 4 bits give the count, then each segment is read at the 3-bit
/// stride except the final (first) one, which is read through the
/// 7-bit mask.
pub fn decode_id(encoded_id: usize) -> (r: Vec<u8>)
    ensures
        r@ == spec_decode_id(encoded_id),
{
    let resolution: u8 = (encoded_id & RESOLUTION_MASK) as u8;
    let rest: usize = encoded_id >> RESOLUTION_BITS;
    proof {
        assert(encoded_id & RESOLUTION_MASK <= 15) by (bit_vector);
    }
    decode_segments(rest, resolution)
}

/// The folded accumulator of a well-formed sequence stays under
/// `pow2(7 + 3 * (len - 1))`: the first segment brings 7 bits and
/// every later one 3 more.
proof fn lemma_encode_acc_bound(s: Seq<u8>)
    requires
        usize::BITS == 64,
        1 <= s.len() <= 15,
        s[0] <= 127,
        forall|i: int| 1 <= i < s.len() ==> s[i] <= 7,
    ensures
        encode_acc(s) < pow2((7 + 3 * (s.len() - 1)) as nat),
    decreases s.len(),
{
    lemma2_to64();
    lemma2_to64_rest();
    if s.len() == 1 {
        assert(encode_acc(s) == s[0] as usize);
    } else {
        let t = s.drop_last();
        lemma_encode_acc_bound(t);
        let a = encode_acc(t);
        let b = s.last() as usize;
        let m = (7 + 3 * (t.len() - 1)) as nat;
        if m < 46 {
            lemma_pow2_strictly_increases(m, 46);
        }
        assert(a < pow2(46));
        assert((a << PATH_BITS) | b == 8 * a + b) by (bit_vector)
            requires
                usize::BITS == 64,
                a < 0x400000000000,
                b <= 7,
        ;
        lemma_pow2_adds(m, 3);
        assert(8 * a + b < 8 * pow2(m));
        assert(encode_acc(s) == (a << PATH_BITS) | b);
        assert(pow2(m + 3) == pow2((7 + 3 * (s.len() - 1)) as nat));
    }
}

/// Unpacking inverts folding: for a well-formed sequence the
/// accumulator built by `encode_acc` decodes, segment count in hand,
/// back to the very sequence.
proof fn lemma_decode_rec_inverts_encode_acc(s: Seq<u8>)
    requires
        usize::BITS == 64,
        1 <= s.len() <= 15,
        s[0] <= 127,
        forall|i: int| 1 <= i < s.len() ==> s[i] <= 7,
    ensures
        decode_rec(encode_acc(s), s.len()) == s,
    decreases s.len(),
{
    if s.len() == 1 {
        let v = s[0] as usize;
        assert(v & FIRST_PATH_MASK == v) by (bit_vector)
            requires
                v <= 127,
        ;
        assert(decode_rec(encode_acc(s), 1) =~= s);
    } else {
        let t = s.drop_last();
        lemma_decode_rec_inverts_encode_acc(t);
        lemma_encode_acc_bound(t);
        let a = encode_acc(t);
        let b = s.last() as usize;
        let m = (7 + 3 * (t.len() - 1)) as nat;
        lemma2_to64();
        lemma2_to64_rest();
        if m < 46 {
            lemma_pow2_strictly_increases(m, 46);
        }
        assert(a < pow2(46));
        assert(((a << PATH_BITS) | b) >> PATH_BITS == a && ((a << PATH_BITS) | b) & PATH_MASK == b)
            by (bit_vector)
            requires
                usize::BITS == 64,
                a < 0x400000000000,
                b <= 7,
        ;
        let e = encode_acc(s);
        assert(e == (a << PATH_BITS) | b);
        assert(decode_rec(e, s.len()) == decode_rec(a, t.len()).push(b as u8));
        assert(decode_rec(e, s.len()) =~= s);
    }
}

/// The round trip: any sequence whose first segment fits the 7-bit
/// window, whose later segments fit the 3-bit stride, and whose
/// length fits the 4-bit count field decodes from its own identifier
/// unchanged. Beyond 15 segments the count field wraps and the claim
/// fails, which is a known boundary of the scheme; a 64-bit word is
/// assumed, as the identifier needs up to 53 bits.
pub proof fn lemma_decode_id_inverts_encode_id(s: Seq<u8>)
    requires
        usize::BITS == 64,
        s.len() <= 15,
        s.len() > 0 ==> s[0] <= 127,
        forall|i: int| 1 <= i < s.len() ==> s[i] <= 7,
    ensures
        spec_decode_id(spec_encode_id(s)) == s,
{
    if s.len() == 0 {
        assert(0usize >> RESOLUTION_BITS == 0 && 0usize & RESOLUTION_MASK == 0) by (bit_vector);
        assert(spec_decode_id(0) =~= s);
    } else {
        lemma_encode_acc_bound(s);
        lemma_decode_rec_inverts_encode_acc(s);
        let a = encode_acc(s);
        let n = s.len() as usize;
        let m = (7 + 3 * (s.len() - 1)) as nat;
        lemma2_to64();
        lemma2_to64_rest();
        if m < 49 {
            lemma_pow2_strictly_increases(m, 49);
        }
        assert(a < pow2(49));
        assert(((a << RESOLUTION_BITS) | n) >> RESOLUTION_BITS == a && ((a << RESOLUTION_BITS)
            | n) & RESOLUTION_MASK == n) by (bit_vector)
            requires
                usize::BITS == 64,
                a < 0x2000000000000,
                n <= 15,
        ;
        assert(spec_encode_id(s) == (a << RESOLUTION_BITS) | n);
        assert(spec_decode_id(spec_encode_id(s)) == decode_rec(a, s.len()));
    }
}

} // verus!
