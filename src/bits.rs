use core::ops::RangeInclusive;

use smallvec::SmallVec;
use vstd::prelude::*;

verus! {

/// Bytes stored inline up to 20, on the heap beyond; opaque to proofs,
/// which see only `small_bytes`.
#[verifier::external_body]
#[derive(Debug, PartialEq, Eq)]
pub struct InlineBytes {
    inner: SmallVec<[u8; 20]>,
}

/// The bytes an `InlineBytes` holds, in order.
pub uninterp spec fn small_bytes(v: InlineBytes) -> Seq<u8>;

/// Relies on `SmallVec::from_slice`: the new vector holds the slice's items, in order.
#[verifier::external_body]
fn small_from_slice(b: &[u8]) -> (r: InlineBytes)
    ensures
        small_bytes(r) == b@,
{
    InlineBytes { inner: SmallVec::from_slice(b) }
}

/// Relies on `SmallVec::as_slice`: a slice of the vector's items, in order.
#[verifier::external_body]
fn small_as_slice(v: &InlineBytes) -> (r: &[u8])
    ensures
        r@ == small_bytes(*v),
{
    v.inner.as_slice()
}

/// `n` zero bytes.
pub open spec fn zeros(n: nat) -> Seq<u8> {
    Seq::new(n, |i: int| 0u8)
}

/// `n` bytes with every bit set.
pub open spec fn ones(n: nat) -> Seq<u8> {
    Seq::new(n, |i: int| 0xffu8)
}

/// The number one in `n` little-endian bytes.
pub open spec fn one_le(n: nat) -> Seq<u8> {
    Seq::new(n, |i: int| if i == 0 { 1u8 } else { 0u8 })
}

/// A fixed-width pattern of bits, held as bytes in little-endian order;
/// patterns of up to 20 bytes need no allocation.
#[derive(Debug, PartialEq, Eq)]
pub struct BitPattern {
    bytes: InlineBytes,
}

impl View for BitPattern {
    type V = Seq<u8>;

    closed spec fn view(&self) -> Seq<u8> {
        small_bytes(self.bytes)
    }
}

/// A copy of `b[lo..hi]`.
pub fn copy_range(b: &[u8], lo: usize, hi: usize) -> (r: Vec<u8>)
    requires
        lo <= hi <= b@.len(),
    ensures
        r@ == b@.subrange(lo as int, hi as int),
{
    let mut r: Vec<u8> = Vec::new();
    let mut i: usize = lo;
    while i < hi
        invariant
            lo <= i <= hi <= b@.len(),
            r@ == b@.subrange(lo as int, i as int),
        decreases hi - i,
    {
        r.push(b[i]);
        i = i + 1;
        assert(r@ =~= b@.subrange(lo as int, i as int));
    }
    r
}

/// `n` copies of `byte`, with the first replaced by `first`.
fn filled(n: usize, first: u8, byte: u8) -> (r: Vec<u8>)
    ensures
        r@.len() == n,
        forall|i: int| 0 <= i < n ==> r@[i] == if i == 0 { first } else { byte },
{
    let mut r: Vec<u8> = Vec::new();
    let mut i: usize = 0;
    while i < n
        invariant
            i <= n,
            r@.len() == i,
            forall|j: int| 0 <= j < i ==> r@[j] == if j == 0 { first } else { byte },
        decreases n - i,
    {
        if i == 0 {
            r.push(first);
        } else {
            r.push(byte);
        }
        i = i + 1;
    }
    r
}

impl BitPattern {
    /// The pattern whose bytes, lowest first, are `bytes`.
    pub fn from_le(bytes: &[u8]) -> (r: BitPattern)
        ensures
            r@ == bytes@,
    {
        BitPattern { bytes: small_from_slice(bytes) }
    }

    /// The pattern whose bytes, lowest first, are `bytes[lo..hi]`.
    pub fn from_le_range(bytes: &[u8], lo: usize, hi: usize) -> (r: BitPattern)
        requires
            lo <= hi <= bytes@.len(),
        ensures
            r@ == bytes@.subrange(lo as int, hi as int),
    {
        let v = copy_range(bytes, lo, hi);
        BitPattern { bytes: small_from_slice(v.as_slice()) }
    }

    /// `n` zero bytes.
    pub fn zeroed(n: usize) -> (r: BitPattern)
        ensures
            r@ == zeros(n as nat),
    {
        let v = filled(n, 0, 0);
        assert(v@ =~= zeros(n as nat));
        BitPattern { bytes: small_from_slice(v.as_slice()) }
    }

    /// The bytes of the pattern, lowest first.
    pub fn as_bytes(&self) -> (r: &[u8])
        ensures
            r@ == self@,
    {
        small_as_slice(&self.bytes)
    }

    /// Number of bytes in the pattern.
    pub fn len(&self) -> (r: usize)
        ensures
            r == self@.len(),
    {
        small_as_slice(&self.bytes).len()
    }
}

/// Inclusive ranges of bit patterns, one stored inline; opaque to proofs,
/// which see only `small_ranges`.
#[verifier::external_body]
#[derive(Debug, PartialEq, Eq)]
pub struct InlineRanges {
    inner: SmallVec<[RangeInclusive<BitPattern>; 1]>,
}

/// The ranges an `InlineRanges` holds, in order, each as the bytes of its
/// first and last pattern.
pub uninterp spec fn small_ranges(v: InlineRanges) -> Seq<(Seq<u8>, Seq<u8>)>;

/// Relies on `SmallVec::new`: an empty vector.
#[verifier::external_body]
fn ranges_new() -> (r: InlineRanges)
    ensures
        small_ranges(r) == Seq::<(Seq<u8>, Seq<u8>)>::empty(),
{
    InlineRanges { inner: SmallVec::new() }
}

/// Relies on `SmallVec::push`: the range `first..=last` is added at the end.
/// It panics only where the grown capacity overflows, which the bound on the
/// length rules out.
#[verifier::external_body]
fn ranges_push(v: &mut InlineRanges, first: BitPattern, last: BitPattern)
    requires
        small_ranges(*old(v)).len() < 0x10_0000,
    ensures
        small_ranges(*final(v)) == small_ranges(*old(v)).push((first@, last@)),
{
    v.inner.push(first..=last)
}

/// Relies on `SmallVec::len`: the number of ranges held.
#[verifier::external_body]
fn ranges_len(v: &InlineRanges) -> (r: usize)
    ensures
        r == small_ranges(*v).len(),
{
    v.inner.len()
}

/// A list of inclusive ranges of bit patterns, each given by its first and
/// last pattern.
#[derive(Debug, PartialEq, Eq)]
pub struct BitRanges {
    ranges: InlineRanges,
}

impl View for BitRanges {
    type V = Seq<(Seq<u8>, Seq<u8>)>;

    closed spec fn view(&self) -> Seq<(Seq<u8>, Seq<u8>)> {
        small_ranges(self.ranges)
    }
}

impl BitRanges {
    /// The ranges `first..=last`, for each pair of little-endian byte strings
    /// (at most 2^20 of them).
    pub fn from_le(ranges: &[(Vec<u8>, Vec<u8>)]) -> (r: BitRanges)
        requires
            ranges@.len() <= 0x10_0000,
        ensures
            r@ == ranges@.map_values(|p: (Vec<u8>, Vec<u8>)| (p.0@, p.1@)),
    {
        let mut out = ranges_new();
        let mut i: usize = 0;
        while i < ranges.len()
            invariant
                i <= ranges@.len() <= 0x10_0000,
                small_ranges(out) == ranges@.subrange(0, i as int).map_values(
                    |p: (Vec<u8>, Vec<u8>)| (p.0@, p.1@),
                ),
            decreases ranges@.len() - i,
        {
            let first = BitPattern::from_le(ranges[i].0.as_slice());
            let last = BitPattern::from_le(ranges[i].1.as_slice());
            ranges_push(&mut out, first, last);
            i = i + 1;
            assert(small_ranges(out) =~= ranges@.subrange(0, i as int).map_values(
                |p: (Vec<u8>, Vec<u8>)| (p.0@, p.1@),
            ));
        }
        assert(ranges@.subrange(0, ranges@.len() as int) =~= ranges@);
        BitRanges { ranges: out }
    }

    /// The single range from one to the largest value, in `n` bytes: the
    /// valid patterns of a non-zero integer of that width.
    pub fn nonzero(n: usize) -> (r: BitRanges)
        ensures
            r@ == seq![(one_le(n as nat), ones(n as nat))],
    {
        let first = filled(n, 1, 0);
        let last = filled(n, 0xff, 0xff);
        assert(first@ =~= one_le(n as nat));
        assert(last@ =~= ones(n as nat));
        let mut ranges = ranges_new();
        ranges_push(
            &mut ranges,
            BitPattern { bytes: small_from_slice(first.as_slice()) },
            BitPattern { bytes: small_from_slice(last.as_slice()) },
        );
        assert(small_ranges(ranges) =~= seq![(one_le(n as nat), ones(n as nat))]);
        BitRanges { ranges }
    }

    /// Number of ranges.
    pub fn len(&self) -> (r: usize)
        ensures
            r == self@.len(),
    {
        ranges_len(&self.ranges)
    }
}

} // verus!
