use vstd::prelude::*;

use crate::bits::{ones, one_le, zeros, BitPattern, BitRanges};
use crate::error::{Error, ErrorKind, ErrorView, KindView};
use crate::shape::{
    discriminant, discriminants, discriminants_ok, field_offset, fields_align, fields_end,
    fields_wf, lemma_align_up, lemma_fields_end_mono, lemma_fields_nonneg,
    lemma_fields_wf_prefix, lemma_variant_fits, lemma_variants_nonneg, lemma_variants_wf_prefix,
    max, round_up, size_of, variants_align, variants_size, variants_wf, well_formed, IntKind, Shape,
    Variant,
};

verus! {

/// The unsigned number whose little-endian bytes are `b`.
pub open spec fn le_value(b: Seq<u8>) -> nat
    decreases b.len(),
{
    if b.len() == 0 {
        0
    } else {
        b[0] as nat + 256 * le_value(b.drop_first())
    }
}

pub open spec fn pow256(n: nat) -> nat
    decreases n,
{
    if n == 0 {
        1
    } else {
        256 * pow256((n - 1) as nat)
    }
}

/// Name of the non-zero integer type of kind `k`.
pub open spec fn nonzero_name(k: IntKind) -> &'static str {
    match k {
        IntKind::U8 => "NonZeroU8",
        IntKind::U16 => "NonZeroU16",
        IntKind::U32 => "NonZeroU32",
        IntKind::U64 => "NonZeroU64",
        IntKind::U128 => "NonZeroU128",
        IntKind::I8 => "NonZeroI8",
        IntKind::I16 => "NonZeroI16",
        IntKind::I32 => "NonZeroI32",
        IntKind::I64 => "NonZeroI64",
        IntKind::I128 => "NonZeroI128",
    }
}

/// Name of the block its bits are checked from.
pub open spec fn nonzero_universe(k: IntKind) -> &'static str {
    match k {
        IntKind::U8 => "MaybeInvalid<NonZeroU8>",
        IntKind::U16 => "MaybeInvalid<NonZeroU16>",
        IntKind::U32 => "MaybeInvalid<NonZeroU32>",
        IntKind::U64 => "MaybeInvalid<NonZeroU64>",
        IntKind::U128 => "MaybeInvalid<NonZeroU128>",
        IntKind::I8 => "MaybeInvalid<NonZeroI8>",
        IntKind::I16 => "MaybeInvalid<NonZeroI16>",
        IntKind::I32 => "MaybeInvalid<NonZeroI32>",
        IntKind::I64 => "MaybeInvalid<NonZeroI64>",
        IntKind::I128 => "MaybeInvalid<NonZeroI128>",
    }
}

/// The error for a zero where a non-zero integer of kind `k` was required:
/// the zero pattern, and the one valid range from one to the largest pattern.
pub open spec fn nonzero_error(k: IntKind) -> ErrorView {
    ErrorView {
        error: KindView::InvalidBitPattern {
            bits: zeros(k.width()),
            valid: seq![(one_le(k.width()), ones(k.width()))],
        },
        from: nonzero_universe(k),
        into: nonzero_name(k),
    }
}

/// The outcome of checking the bytes `b` of a value of shape `s`: fields in
/// declaration order, the first failure reported as it is.
pub open spec fn check(s: Shape, b: Seq<u8>) -> Result<(), ErrorView>
    decreases s, 2int,
{
    match s {
        Shape::NonZero(k) => if b.subrange(0, k.width() as int) == zeros(k.width()) {
            Err(nonzero_error(k))
        } else {
            Ok(())
        },
        Shape::NonNull(k) => if b.subrange(0, k.width() as int) == zeros(k.width()) {
            Err(ErrorView { error: KindView::NullPtr, from: "MaybeInvalid<NonNull>", into: "NonNull" })
        } else {
            Ok(())
        },
        Shape::Struct { fields, .. } => check_fields(fields@, fields@.len() as int, 0, b),
        Shape::Enum { name, universe, tag, variants, .. } => match variant_check(
            tag,
            variants@,
            variants@.len() as int,
            le_value(b.subrange(0, tag.width() as int)) as int,
            b,
        ) {
            Some(r) => r,
            None => Err(
                ErrorView {
                    error: KindView::InvalidEnumDiscriminant(b.subrange(0, tag.width() as int)),
                    from: universe,
                    into: name,
                },
            ),
        },
        _ => Ok(()),
    }
}

/// Checks the first `n` fields of a `repr(C)` field list that may start at
/// `start`, in order, stopping at the first failure.
pub open spec fn check_fields(fs: Seq<Shape>, n: int, start: int, b: Seq<u8>) -> Result<(), ErrorView>
    decreases fs, n,
{
    if n <= 0 || n > fs.len() {
        Ok(())
    } else {
        match check_fields(fs, n - 1, start, b) {
            Err(e) => Err(e),
            Ok(_) => check(fs[n - 1], field_bytes(fs, n - 1, start, b)),
        }
    }
}

/// Among the first `n` variants, the check of the fields of the first whose
/// discriminant is `t`; `None` where there is none.
pub open spec fn variant_check(tag: IntKind, vs: Seq<Variant>, n: int, t: int, b: Seq<u8>) -> Option<
    Result<(), ErrorView>,
>
    decreases vs, n,
{
    if n <= 0 || n > vs.len() {
        None
    } else {
        match variant_check(tag, vs, n - 1, t, b) {
            Some(r) => Some(r),
            None => if discriminant(tag, vs, n - 1) == t {
                Some(check_fields(vs[n - 1].fields@, vs[n - 1].fields@.len() as int, tag.width() as int, b))
            } else {
                None
            },
        }
    }
}

/// The bytes of field `i` within the bytes `b` of its struct.
pub open spec fn field_bytes(fs: Seq<Shape>, i: int, start: int, b: Seq<u8>) -> Seq<u8> {
    b.subrange(field_offset(fs, i, start), field_offset(fs, i, start) + size_of(fs[i]))
}

pub open spec fn result_view(r: Result<(), Error>) -> Result<(), ErrorView> {
    match r {
        Ok(_) => Ok(()),
        Err(e) => Err(e@),
    }
}

pub proof fn lemma_fields_err(fs: Seq<Shape>, m: int, n: int, start: int, b: Seq<u8>)
    requires
        0 <= m <= n <= fs.len(),
        check_fields(fs, m, start, b) is Err,
    ensures
        check_fields(fs, n, start, b) == check_fields(fs, m, start, b),
    decreases n,
{
    if m < n {
        lemma_fields_err(fs, m, n - 1, start, b);
    }
}

pub proof fn lemma_variant_none(tag: IntKind, vs: Seq<Variant>, n: int, t: int, b: Seq<u8>)
    requires
        0 <= n <= vs.len(),
        forall|j: int| 0 <= j < n ==> discriminant(tag, vs, j) != t,
    ensures
        variant_check(tag, vs, n, t, b) is None,
    decreases n,
{
    if n > 0 {
        lemma_variant_none(tag, vs, n - 1, t, b);
    }
}

pub proof fn lemma_variant_some(tag: IntKind, vs: Seq<Variant>, m: int, n: int, t: int, b: Seq<u8>)
    requires
        0 <= m <= n <= vs.len(),
        variant_check(tag, vs, m, t, b) is Some,
    ensures
        variant_check(tag, vs, n, t, b) == variant_check(tag, vs, m, t, b),
    decreases n,
{
    if m < n {
        lemma_variant_some(tag, vs, m, n - 1, t, b);
    }
}

/// A non-zero integer rejects exactly the all-zero pattern, with the error
/// that carries that pattern and the one valid range from one to the
/// largest pattern; every other pattern passes.
pub proof fn lemma_nonzero_check(k: IntKind, b: Seq<u8>)
    requires
        b.len() == k.width(),
    ensures
        b == zeros(k.width()) ==> check(Shape::NonZero(k), b) == Err::<(), ErrorView>(
            nonzero_error(k),
        ),
        b != zeros(k.width()) ==> check(Shape::NonZero(k), b) == Ok::<(), ErrorView>(()),
{
    assert(b.subrange(0, k.width() as int) =~= b);
}

/// The tag of an enum selects the variant whose discriminant equals it, and
/// the outcome is the check of that variant's fields alone.
pub proof fn lemma_enum_dispatch(s: Shape, b: Seq<u8>, i: int)
    requires
        s is Enum,
        well_formed(s),
        0 <= i < s->Enum_variants@.len(),
        discriminant(s->Enum_tag, s->Enum_variants@, i) == le_value(
            b.subrange(0, s->Enum_tag.width() as int),
        ),
    ensures
        check(s, b) == check_fields(
            s->Enum_variants@[i].fields@,
            s->Enum_variants@[i].fields@.len() as int,
            s->Enum_tag.width() as int,
            b,
        ),
{
    let tag = s->Enum_tag;
    let vs = s->Enum_variants@;
    let t = le_value(b.subrange(0, tag.width() as int)) as int;
    assert forall|j: int| 0 <= j < i implies discriminant(tag, vs, j) != t by {
        assert(discriminant(tag, vs, j) != discriminant(tag, vs, i));
    }
    lemma_variant_none(tag, vs, i, t, b);
    lemma_variant_some(tag, vs, i + 1, vs.len() as int, t, b);
}

/// A tag that no variant's discriminant equals fails the check with the
/// tag's own bits.
pub proof fn lemma_enum_unknown_tag(s: Shape, b: Seq<u8>)
    requires
        s is Enum,
        forall|j: int|
            0 <= j < s->Enum_variants@.len() ==> discriminant(s->Enum_tag, s->Enum_variants@, j)
                != le_value(b.subrange(0, s->Enum_tag.width() as int)),
    ensures
        check(s, b) == Err::<(), ErrorView>(
            ErrorView {
                error: KindView::InvalidEnumDiscriminant(b.subrange(0, s->Enum_tag.width() as int)),
                from: s->Enum_universe,
                into: s->Enum_name,
            },
        ),
{
    let tag = s->Enum_tag;
    let vs = s->Enum_variants@;
    lemma_variant_none(tag, vs, vs.len() as int, le_value(b.subrange(0, tag.width() as int)) as int, b);
}

/// Where the fields before field `i` pass and field `i` fails, the whole
/// field list fails with field `i`'s error, whatever the later fields hold.
pub proof fn lemma_first_field_wins(fs: Seq<Shape>, i: int, start: int, b: Seq<u8>)
    requires
        0 <= i < fs.len(),
        check_fields(fs, i, start, b) == Ok::<(), ErrorView>(()),
        check(fs[i], field_bytes(fs, i, start, b)) is Err,
    ensures
        check_fields(fs, fs.len() as int, start, b) == check(fs[i], field_bytes(fs, i, start, b)),
{
    lemma_fields_err(fs, i + 1, fs.len() as int, start, b);
}

/// A struct's check is the in-order check of its fields.
pub proof fn lemma_struct_check(s: Shape, b: Seq<u8>)
    requires
        s is Struct,
    ensures
        check(s, b) == check_fields(s->Struct_fields@, s->Struct_fields@.len() as int, 0, b),
{
}

proof fn lemma_pow256_15()
    ensures
        pow256(15) == 0x1000000000000000000000000000000,
{
    reveal_with_fuel(pow256, 16);
}

proof fn lemma_pow256_mono(m: nat, n: nat)
    requires
        m <= n,
    ensures
        pow256(m) <= pow256(n),
    decreases n,
{
    if m < n {
        lemma_pow256_mono(m, (n - 1) as nat);
    }
}

/// The tag stored, lowest byte first, in `b[base..base + w]`.
fn read_tag(b: &[u8], base: usize, w: usize) -> (r: u128)
    requires
        1 <= w <= 16,
        base + w <= b@.len(),
    ensures
        r == le_value(b@.subrange(base as int, base + w)),
{
    let n = b.len();
    let mut acc: u128 = 0;
    let mut i: usize = w;
    assert(b@.subrange(base + w, base + w) =~= Seq::<u8>::empty());
    while i > 0
        invariant
            i <= w <= 16,
            base + w <= b@.len(),
            n == b@.len(),
            acc == le_value(b@.subrange(base + i, base + w)),
            acc < pow256((w - i) as nat),
        decreases i,
    {
        i = i - 1;
        let byte = b[base + i];
        proof {
            let s = b@.subrange(base + i, base + w);
            assert(s.drop_first() =~= b@.subrange(base + i + 1, base + w));
            lemma_pow256_mono((w - i - 1) as nat, 15);
            lemma_pow256_15();
            let p = pow256((w - i - 1) as nat);
            assert(byte as int + 256 * acc < 256 * p) by (nonlinear_arith)
                requires
                    acc < p,
                    byte < 256,
            ;
        }
        acc = byte as u128 + 256 * acc;
    }
    acc
}

fn nonzero_names(k: IntKind) -> (r: (&'static str, &'static str))
    ensures
        r.0 == nonzero_universe(k),
        r.1 == nonzero_name(k),
{
    match k {
        IntKind::U8 => ("MaybeInvalid<NonZeroU8>", "NonZeroU8"),
        IntKind::U16 => ("MaybeInvalid<NonZeroU16>", "NonZeroU16"),
        IntKind::U32 => ("MaybeInvalid<NonZeroU32>", "NonZeroU32"),
        IntKind::U64 => ("MaybeInvalid<NonZeroU64>", "NonZeroU64"),
        IntKind::U128 => ("MaybeInvalid<NonZeroU128>", "NonZeroU128"),
        IntKind::I8 => ("MaybeInvalid<NonZeroI8>", "NonZeroI8"),
        IntKind::I16 => ("MaybeInvalid<NonZeroI16>", "NonZeroI16"),
        IntKind::I32 => ("MaybeInvalid<NonZeroI32>", "NonZeroI32"),
        IntKind::I64 => ("MaybeInvalid<NonZeroI64>", "NonZeroI64"),
        IntKind::I128 => ("MaybeInvalid<NonZeroI128>", "NonZeroI128"),
    }
}


/// Checks `b[base..base + size_of(s)]` as a value of shape `s`.
pub(crate) fn check_at(s: &Shape, b: &[u8], base: usize) -> (r: Result<(), Error>)
    requires
        well_formed(*s),
        base + size_of(*s) <= b@.len(),
    ensures
        result_view(r) == check(*s, b@.subrange(base as int, base + size_of(*s))),
    decreases s,
{
    let ghost bs = b@.subrange(base as int, base + size_of(*s));
    let n = b.len();
    match s {
        Shape::Int(_) => Ok(()),
        Shape::Optional(_) => Ok(()),
        Shape::NonZero(k) | Shape::NonNull(k) => {
            let w = k.size();
            let mut i: usize = 0;
            while i < w
                invariant
                    i <= w,
                    *s == Shape::NonZero(*k) || *s == Shape::NonNull(*k),
                    w == k.width(),
                    w == size_of(*s),
                    base + w <= b@.len(),
                    n == b@.len(),
                    bs == b@.subrange(base as int, base + w),
                    forall|j: int| 0 <= j < i ==> bs[j] == 0,
                decreases w - i,
            {
                if b[base + i] != 0 {
                    proof {
                        assert(bs[i as int] == b@[base + i]);
                        assert(bs.subrange(0, w as int)[i as int] != zeros(w as nat)[i as int]);
                        assert(bs.subrange(0, w as int) != zeros(w as nat));
                    }
                    return Ok(());
                }
                i = i + 1;
            }
            proof {
                assert(bs.subrange(0, w as int) =~= zeros(w as nat));
            }
            if let Shape::NonNull(_) = s {
                return Err(
                    Error { error: ErrorKind::NullPtr, from: "MaybeInvalid<NonNull>", into: "NonNull" },
                );
            }
            let (from, into) = nonzero_names(*k);
            Err(
                Error {
                    error: ErrorKind::InvalidBitPattern {
                        bits: BitPattern::zeroed(w),
                        valid: BitRanges::nonzero(w),
                    },
                    from,
                    into,
                },
            )
        },
        Shape::Struct { fields, align } => {
            let size = s.size();
            proof {
                lemma_fields_nonneg(fields@, fields@.len() as int, 0);
                lemma_align_up(
                    fields_end(fields@, fields@.len() as int, 0),
                    max(
                        fields_align(fields@, fields@.len() as int),
                        *align as int,
                    ),
                );
            }
            check_fields_at(fields, 0, b, base, size)
        },
        Shape::Enum { name, universe, tag, variants, align } => {
            let size = s.size();
            let w = tag.size();
            let ghost len = variants@.len() as int;
            proof {
                lemma_variants_nonneg(variants@, len, *tag);
                lemma_align_up(
                    variants_size(variants@, len, *tag),
                    max(variants_align(variants@, len, *tag), *align as int),
                );
                lemma_variant_fits(variants@, 0, len, *tag);
                lemma_fields_nonneg(
                    variants@[0].fields@,
                    variants@[0].fields@.len() as int,
                    w as int,
                );
            }
            let t = read_tag(b, base, w);
            proof {
                assert(bs.subrange(0, w as int) =~= b@.subrange(base as int, base + w));
            }
            match check_variants_at(*tag, variants, t, b, base, size) {
                Some(r) => r,
                None => Err(
                    Error {
                        error: ErrorKind::InvalidEnumDiscriminant(
                            BitPattern::from_le_range(b, base, base + w),
                        ),
                        from: *universe,
                        into: *name,
                    },
                ),
            }
        },
    }
}

/// Checks, in order, the fields of a `repr(C)` field list that may start at
/// `start`, within the value `b[base..base + size]`.
fn check_fields_at(fs: &Vec<Shape>, start: usize, b: &[u8], base: usize, size: usize) -> (r:
    Result<(), Error>)
    requires
        start <= 16,
        fields_wf(fs@, fs@.len() as int, start as int),
        fields_end(fs@, fs@.len() as int, start as int) <= size,
        base + size <= b@.len(),
    ensures
        result_view(r) == check_fields(
            fs@,
            fs@.len() as int,
            start as int,
            b@.subrange(base as int, base + size),
        ),
    decreases fs,
{
    let ghost bs = b@.subrange(base as int, base + size);
    let ghost len = fs@.len() as int;
    let n = b.len();
    let mut end: usize = start;
    let mut i: usize = 0;
    while i < fs.len()
        invariant
            i <= len,
            len == fs@.len(),
            start <= 16,
            fields_wf(fs@, len, start as int),
            fields_end(fs@, len, start as int) <= size,
            base + size <= b@.len(),
            n == b@.len(),
            bs == b@.subrange(base as int, base + size),
            end == fields_end(fs@, i as int, start as int),
            check_fields(fs@, i as int, start as int, bs) == Ok::<(), ErrorView>(()),
        decreases len - i,
    {
        proof {
            lemma_fields_wf_prefix(fs@, len, i + 1, start as int);
            lemma_fields_end_mono(fs@, i as int, len, start as int);
            lemma_fields_end_mono(fs@, i + 1, len, start as int);
        }
        let fsize = fs[i].size();
        let falign = fs[i].align();
        let off = round_up(end, falign);
        proof {
            assert(bs.subrange(off as int, off + fsize) =~= b@.subrange(
                base + off,
                base + off + fsize,
            ));
        }
        match check_at(&fs[i], b, base + off) {
            Err(e) => {
                proof {
                    lemma_fields_err(fs@, i + 1, len, start as int, bs);
                }
                return Err(e);
            },
            Ok(()) => {},
        }
        end = off + fsize;
        i = i + 1;
    }
    Ok(())
}

/// Finds the first variant whose discriminant is the tag `t` and checks its
/// fields within the value `b[base..base + size]`; `None` where no variant has it.
fn check_variants_at(
    tag: IntKind,
    vs: &Vec<Variant>,
    t: u128,
    b: &[u8],
    base: usize,
    size: usize,
) -> (r: Option<Result<(), Error>>)
    requires
        variants_wf(vs@, vs@.len() as int, tag),
        discriminants_ok(tag, vs@),
        variants_size(vs@, vs@.len() as int, tag) <= size,
        base + size <= b@.len(),
    ensures
        match r {
            None => variant_check(
                tag,
                vs@,
                vs@.len() as int,
                t as int,
                b@.subrange(base as int, base + size),
            ) is None,
            Some(x) => variant_check(
                tag,
                vs@,
                vs@.len() as int,
                t as int,
                b@.subrange(base as int, base + size),
            ) == Some(result_view(x)),
        },
    decreases vs,
{
    let ghost bs = b@.subrange(base as int, base + size);
    let ghost len = vs@.len() as int;
    let ds = match discriminants(tag, vs) {
        Some(ds) => ds,
        None => {
            return None;
        },
    };
    let mut i: usize = 0;
    while i < ds.len() && ds[i] != t
        invariant
            i <= ds@.len(),
            ds@.len() == len,
            forall|j: int| 0 <= j < ds@.len() ==> ds@[j] == discriminant(tag, vs@, j),
            forall|j: int| 0 <= j < i ==> discriminant(tag, vs@, j) != t,
        decreases ds@.len() - i,
    {
        i = i + 1;
    }
    if i == ds.len() {
        proof {
            lemma_variant_none(tag, vs@, len, t as int, bs);
        }
        return None;
    }
    proof {
        lemma_variant_none(tag, vs@, i as int, t as int, bs);
        lemma_variant_some(tag, vs@, i + 1, len, t as int, bs);
        lemma_variants_wf_prefix(vs@, len, i + 1, tag);
        lemma_variant_fits(vs@, i as int, len, tag);
        assert(decreases_to!(vs@[i as int] => vs@[i as int].fields));
    }
    let w = tag.size();
    Some(check_fields_at(&vs[i].fields, w, b, base, size))
}

} // verus!
