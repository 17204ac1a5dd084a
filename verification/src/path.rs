//! The path types: a validated first segment and the owned segment
//! sequence that encodes to and decodes from an identifier.

use crate::codec::decode_id;
use crate::codec::encode_id;
use crate::codec::spec_decode_id;
use crate::codec::spec_encode_id;
use vstd::prelude::*;

verus! {

/// The one failure of the whole library: a first segment above 127
/// was offered to [`FirstResolution::new`].
#[derive(Debug)]
pub struct FirstResolutionExceededThresholdError;

impl FirstResolutionExceededThresholdError {
    /// The human-readable account of the failure.
    pub fn message(&self) -> (r: String)
        ensures
            r@ == "Resolution must be between 0 and 127"@,
    {
        String::from_str("Resolution must be between 0 and 127")
    }
}

/// A first path segment, validated at construction to fit the 7-bit
/// window the codec gives the first position.
#[derive(Debug)]
pub struct FirstResolution(u8);

impl View for FirstResolution {
    type V = u8;

    closed spec fn view(&self) -> u8 {
        self.0
    }
}

impl FirstResolution {
    /// The wrapped value never exceeds 127.
    #[verifier::type_invariant]
    pub closed spec fn inv(self) -> bool {
        self.0 <= 127
    }

    /// Validates `resolution` against the 7-bit window: accepted if
    /// and only if it is at most 127.
    pub fn new(resolution: u8) -> (r: Result<FirstResolution, FirstResolutionExceededThresholdError>)
        ensures
            r is Ok <==> resolution <= 127,
            r is Ok ==> r->Ok_0@ == resolution,
    {
        if resolution > 127 {
            return Err(FirstResolutionExceededThresholdError);
        }
        Ok(FirstResolution(resolution))
    }

    /// The wrapped value, read-only.
    pub fn value(&self) -> (r: u8)
        ensures
            r == self@,
            r <= 127,
    {
        proof {
            use_type_invariant(self);
        }
        self.0
    }
}

impl From<FirstResolution> for u8 {
    /// Unwraps a validated first segment back into its raw value.
    fn from(resolution: FirstResolution) -> (r: u8) {
        resolution.0
    }
}

impl vstd::std_specs::convert::FromSpecImpl<FirstResolution> for u8 {
    open spec fn obeys_from_spec() -> bool {
        true
    }

    open spec fn from_spec(resolution: FirstResolution) -> u8 {
        resolution@
    }
}

/// The factor by which a number already read grows when the decimal
/// digits of `v` are appended after it: `10` to the power of the
/// count of digits in `v`.
pub open spec fn concat_shift(v: u8) -> int {
    if v <= 9 {
        10
    } else if v <= 99 {
        100
    } else {
        1000
    }
}

/// The number read from writing every segment of `s` in decimal and
/// concatenating the digit strings: each segment shifts what came
/// before by its own digit count and adds itself.
pub open spec fn concat_val(s: Seq<u8>) -> int
    decreases s.len(),
{
    if s.len() == 0 {
        0
    } else {
        concat_val(s.drop_last()) * concat_shift(s.last()) + s.last()
    }
}

/// The concatenated decimal value never goes negative.
proof fn lemma_concat_val_nonneg(s: Seq<u8>)
    ensures
        concat_val(s) >= 0,
    decreases s.len(),
{
    if s.len() > 0 {
        let v = concat_val(s.drop_last());
        let m = concat_shift(s.last());
        lemma_concat_val_nonneg(s.drop_last());
        assert(v * m >= 0) by (nonlinear_arith)
            requires
                v >= 0,
                m >= 10,
        ;
    }
}

/// Appending segments can only grow the concatenated decimal value:
/// every prefix reads at most the whole.
proof fn lemma_concat_val_prefix_le(s: Seq<u8>, i: int)
    requires
        0 <= i <= s.len(),
    ensures
        concat_val(s.take(i)) <= concat_val(s),
    decreases s.len() - i,
{
    if i < s.len() {
        lemma_concat_val_prefix_le(s, i + 1);
        let t = s.take(i + 1);
        assert(t.drop_last() =~= s.take(i));
        let v = concat_val(s.take(i));
        let m = concat_shift(s[i]);
        lemma_concat_val_nonneg(s.take(i));
        assert(v * m >= v) by (nonlinear_arith)
            requires
                v >= 0,
                m >= 10,
        ;
    } else {
        assert(s.take(i) =~= s);
    }
}

/// An owned, ordered sequence of path segments. Built from a
/// validated first segment or recovered from an identifier; appended
/// segments are taken as given, with no width check: keeping later
/// segments at 3 bits is the caller's contract.
#[derive(Debug)]
pub struct Path {
    resolutions: Vec<u8>,
}

impl View for Path {
    type V = Seq<u8>;

    closed spec fn view(&self) -> Seq<u8> {
        self.resolutions@
    }
}

impl Path {
    /// Seeds a path with its validated first segment.
    pub fn new(resolution: FirstResolution) -> (r: Path)
        ensures
            r@ == seq![resolution@],
            r@[0] <= 127,
    {
        let first: u8 = resolution.value();
        let mut resolutions: Vec<u8> = Vec::new();
        resolutions.push(first);
        proof {
            assert(resolutions@ =~= seq![resolution@]);
        }
        Path { resolutions }
    }

    /// Appends a segment, unconditionally: no bound is checked, so a
    /// value above 7 lands outside its 3-bit window and the resulting
    /// identifier will not decode back.
    pub fn add_resolution(&mut self, resolution: u8)
        ensures
            final(self)@ == old(self)@.push(resolution),
    {
        self.resolutions.push(resolution);
    }

    /// Rebuilds the path packed into `id`; the empty path for `id == 0`.
    pub fn from_id(id: usize) -> (r: Path)
        ensures
            r@ == spec_decode_id(id),
    {
        Path { resolutions: decode_id(id) }
    }

    /// The packed identifier of this path.
    pub fn id(&self) -> (r: usize)
        ensures
            r == spec_encode_id(self@),
    {
        encode_id(self.resolutions.as_slice())
    }

    /// The alternative, lossy identifier: every segment written in
    /// decimal, the digit strings concatenated and read back as one
    /// number. Returns that number when it fits the word, and `0`
    /// when it overflows or when the path is empty. Distinct paths
    /// can collide (`[1, 23]` and `[12, 3]` both read as `123`), so
    /// this identifier does not round-trip; it exists for comparison
    /// against the packed one.
    pub fn id_concat(&self) -> (r: usize)
        ensures
            r == if concat_val(self@) <= usize::MAX {
                concat_val(self@)
            } else {
                0
            },
    {
        let mut acc: usize = 0;
        let mut i: usize = 0;
        let n: usize = self.resolutions.len();
        while i < n
            invariant
                0 <= i <= n,
                n == self@.len(),
                acc == concat_val(self@.take(i as int)),
            decreases n - i,
        {
            let segment: u8 = self.resolutions[i];
            let shift: usize = if segment <= 9 {
                10
            } else if segment <= 99 {
                100
            } else {
                1000
            };
            proof {
                let t = self@.take(i as int + 1);
                assert(t.drop_last() =~= self@.take(i as int));
                assert(t.last() == self@[i as int]);
            }
            let shifted: usize = match acc.checked_mul(shift) {
                Some(p) => p,
                None => {
                    proof {
                        lemma_concat_val_prefix_le(self@, i as int + 1);
                    }
                    return 0;
                },
            };
            acc = match shifted.checked_add(segment as usize) {
                Some(v) => v,
                None => {
                    proof {
                        lemma_concat_val_prefix_le(self@, i as int + 1);
                    }
                    return 0;
                },
            };
            i = i + 1;
        }
        proof {
            assert(self@.take(n as int) =~= self@);
        }
        acc
    }

    /// The segments of this path, in order, read-only.
    pub fn resolutions(&self) -> (r: &Vec<u8>)
        ensures
            r@ == self@,
    {
        &self.resolutions
    }
}

} // verus!
