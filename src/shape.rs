use vstd::arithmetic::div_mod::{lemma_fundamental_div_mod, lemma_mod_bound};
use vstd::prelude::*;

verus! {

/// The primitive integer types that may hold a value or an enum tag.
#[derive(Clone, Copy, Debug, PartialEq, Eq, Structural)]
pub enum IntKind {
    U8,
    U16,
    U32,
    U64,
    U128,
    I8,
    I16,
    I32,
    I64,
    I128,
}

impl IntKind {
    /// Width in bytes; also the type's alignment.
    pub open spec fn width(self) -> nat {
        match self {
            IntKind::U8 | IntKind::I8 => 1,
            IntKind::U16 | IntKind::I16 => 2,
            IntKind::U32 | IntKind::I32 => 4,
            IntKind::U64 | IntKind::I64 => 8,
            IntKind::U128 | IntKind::I128 => 16,
        }
    }

    /// The bit pattern with every bit set, read as an unsigned number.
    pub open spec fn mask(self) -> int {
        match self {
            IntKind::U8 | IntKind::I8 => 0xff,
            IntKind::U16 | IntKind::I16 => 0xffff,
            IntKind::U32 | IntKind::I32 => 0xffff_ffff,
            IntKind::U64 | IntKind::I64 => 0xffff_ffff_ffff_ffff,
            IntKind::U128 | IntKind::I128 => 0xffff_ffff_ffff_ffff_ffff_ffff_ffff_ffff,
        }
    }

    /// The bit pattern of the largest value of the type.
    pub open spec fn max_pattern(self) -> int {
        match self {
            IntKind::I8 => 0x7f,
            IntKind::I16 => 0x7fff,
            IntKind::I32 => 0x7fff_ffff,
            IntKind::I64 => 0x7fff_ffff_ffff_ffff,
            IntKind::I128 => 0x7fff_ffff_ffff_ffff_ffff_ffff_ffff_ffff,
            _ => self.mask(),
        }
    }

    pub fn size(&self) -> (r: usize)
        ensures
            r == self.width(),
    {
        match self {
            IntKind::U8 | IntKind::I8 => 1,
            IntKind::U16 | IntKind::I16 => 2,
            IntKind::U32 | IntKind::I32 => 4,
            IntKind::U64 | IntKind::I64 => 8,
            IntKind::U128 | IntKind::I128 => 16,
        }
    }

    pub fn all_ones(&self) -> (r: u128)
        ensures
            r == self.mask(),
    {
        match self {
            IntKind::U8 | IntKind::I8 => 0xff,
            IntKind::U16 | IntKind::I16 => 0xffff,
            IntKind::U32 | IntKind::I32 => 0xffff_ffff,
            IntKind::U64 | IntKind::I64 => 0xffff_ffff_ffff_ffff,
            IntKind::U128 | IntKind::I128 => 0xffff_ffff_ffff_ffff_ffff_ffff_ffff_ffff,
        }
    }

    pub fn largest(&self) -> (r: u128)
        ensures
            r == self.max_pattern(),
    {
        match self {
            IntKind::I8 => 0x7f,
            IntKind::I16 => 0x7fff,
            IntKind::I32 => 0x7fff_ffff,
            IntKind::I64 => 0x7fff_ffff_ffff_ffff,
            IntKind::I128 => 0x7fff_ffff_ffff_ffff_ffff_ffff_ffff_ffff,
            _ => self.all_ones(),
        }
    }
}

/// The declared layout of a type taking part in a conversion.
pub enum Shape {
    /// A primitive integer: every bit pattern is a value.
    Int(IntKind),
    /// A non-zero integer: the all-zero pattern is its one niche.
    NonZero(IntKind),
    /// A non-nullable pointer as wide as the given integer kind (the
    /// target's `usize`): null is its one niche.
    NonNull(IntKind),
    /// An option-like wrapper around a shape with exactly one niche, which
    /// the absent case fills; same layout as the wrapped shape.
    Optional(Box<Shape>),
    /// A `repr(C)` struct; `align` is an explicit `align(n)`, or 0 for none.
    Struct { fields: Vec<Shape>, align: usize },
    /// A `repr(Int)` enum: a tag of the given kind, then the active
    /// variant's fields, laid out as a `repr(C)` union of `repr(C)` structs
    /// that each start with the tag. `name` and `universe` name the enum and
    /// the type its bits are checked from, for diagnostics.
    Enum {
        name: &'static str,
        universe: &'static str,
        tag: IntKind,
        variants: Vec<Variant>,
        align: usize,
    },
}

/// One variant of an enum shape: an optional explicit discriminant (its bit
/// pattern in the tag's width) and the variant's fields.
pub struct Variant {
    pub discriminant: Option<u128>,
    pub fields: Vec<Shape>,
}

/// Size and alignment of a shape, in bytes.
#[derive(Clone, Copy, Debug, PartialEq, Eq, Structural)]
pub struct Layout {
    pub size: usize,
    pub align: usize,
}

/// Largest size accepted for a shape, on every target.
pub const MAX_SIZE: usize = 0x7fff_ffff;

/// Largest alignment Rust allows.
pub const MAX_ALIGN: usize = 0x2000_0000;

pub open spec fn align_up(x: int, a: int) -> int {
    if a <= 0 {
        x
    } else {
        ((x + a - 1) / a) * a
    }
}

pub open spec fn max(a: int, b: int) -> int {
    if a >= b {
        a
    } else {
        b
    }
}

pub open spec fn is_pow2(a: int) -> bool
    decreases a,
{
    if a <= 1 {
        a == 1
    } else {
        a % 2 == 0 && is_pow2(a / 2)
    }
}

/// An explicit `align(n)`: absent (0), or a power of two no larger than Rust allows.
pub open spec fn align_attr_ok(a: usize) -> bool {
    a == 0 || (is_pow2(a as int) && a <= MAX_ALIGN)
}

/// Shapes with exactly one niche.
pub open spec fn one_niche(s: Shape) -> bool {
    s is NonZero || s is NonNull
}

/// Size in bytes of a value of shape `s`.
pub open spec fn size_of(s: Shape) -> int
    decreases s, 2int,
{
    match s {
        Shape::Int(k) => k.width() as int,
        Shape::NonZero(k) => k.width() as int,
        Shape::NonNull(k) => k.width() as int,
        Shape::Optional(inner) => size_of(*inner),
        Shape::Struct { fields, align } => align_up(
            fields_end(fields@, fields@.len() as int, 0),
            max(fields_align(fields@, fields@.len() as int), align as int),
        ),
        Shape::Enum { tag, variants, align, .. } => align_up(
            variants_size(variants@, variants@.len() as int, tag),
            max(variants_align(variants@, variants@.len() as int, tag), align as int),
        ),
    }
}

/// Alignment in bytes of a value of shape `s`.
pub open spec fn align_of(s: Shape) -> int
    decreases s, 2int,
{
    match s {
        Shape::Int(k) => k.width() as int,
        Shape::NonZero(k) => k.width() as int,
        Shape::NonNull(k) => k.width() as int,
        Shape::Optional(inner) => align_of(*inner),
        Shape::Struct { fields, align } => max(
            fields_align(fields@, fields@.len() as int),
            align as int,
        ),
        Shape::Enum { tag, variants, align, .. } => max(
            variants_align(variants@, variants@.len() as int, tag),
            align as int,
        ),
    }
}

/// Offset of field `i` in a `repr(C)` field list whose first field may start at `start`.
pub open spec fn field_offset(fs: Seq<Shape>, i: int, start: int) -> int {
    align_up(fields_end(fs, i, start), align_of(fs[i]))
}

/// Offset just past the first `n` fields, when the first may start at `start`.
pub open spec fn fields_end(fs: Seq<Shape>, n: int, start: int) -> int
    decreases fs, n,
{
    if n <= 0 || n > fs.len() {
        start
    } else {
        align_up(fields_end(fs, n - 1, start), align_of(fs[n - 1])) + size_of(fs[n - 1])
    }
}

/// Largest alignment among the first `n` fields, at least 1.
pub open spec fn fields_align(fs: Seq<Shape>, n: int) -> int
    decreases fs, n,
{
    if n <= 0 || n > fs.len() {
        1
    } else {
        max(fields_align(fs, n - 1), align_of(fs[n - 1]))
    }
}

/// Largest size among the first `n` variants, each a `repr(C)` struct of
/// the tag followed by the variant's fields.
pub open spec fn variants_size(vs: Seq<Variant>, n: int, tag: IntKind) -> int
    decreases vs, n,
{
    if n <= 0 || n > vs.len() {
        0
    } else {
        max(
            variants_size(vs, n - 1, tag),
            align_up(
                fields_end(vs[n - 1].fields@, vs[n - 1].fields@.len() as int, tag.width() as int),
                max(tag.width() as int, fields_align(vs[n - 1].fields@, vs[n - 1].fields@.len() as int)),
            ),
        )
    }
}

/// Largest alignment among the tag and the fields of the first `n` variants.
pub open spec fn variants_align(vs: Seq<Variant>, n: int, tag: IntKind) -> int
    decreases vs, n,
{
    if n <= 0 || n > vs.len() {
        tag.width() as int
    } else {
        max(variants_align(vs, n - 1, tag), fields_align(vs[n - 1].fields@, vs[n - 1].fields@.len() as int))
    }
}

/// The discriminant that follows `prev`, as a bit pattern in the tag's width.
pub open spec fn next_discriminant(tag: IntKind, prev: int) -> int {
    if prev == tag.mask() {
        0
    } else {
        prev + 1
    }
}

/// Discriminant of variant `i`: its explicit one, or one more than the
/// previous variant's, starting at 0.
pub open spec fn discriminant(tag: IntKind, vs: Seq<Variant>, i: int) -> int
    decreases i,
{
    if i < 0 || i >= vs.len() {
        0
    } else {
        match vs[i].discriminant {
            Some(d) => d as int,
            None => if i == 0 {
                0
            } else {
                next_discriminant(tag, discriminant(tag, vs, i - 1))
            },
        }
    }
}

/// Every explicit discriminant fits the tag, and no implicit one steps past
/// the tag type's largest value.
pub open spec fn discriminants_ok(tag: IntKind, vs: Seq<Variant>) -> bool {
    forall|i: int|
        0 <= i < vs.len() ==> match #[trigger] vs[i].discriminant {
            Some(d) => d <= tag.mask(),
            None => i == 0 || discriminant(tag, vs, i - 1) != tag.max_pattern(),
        }
}

/// No two variants share a discriminant.
pub open spec fn discriminants_distinct(tag: IntKind, vs: Seq<Variant>) -> bool {
    forall|i: int, j: int|
        #![trigger discriminant(tag, vs, i), discriminant(tag, vs, j)]
        0 <= i < j < vs.len() ==> discriminant(tag, vs, i) != discriminant(tag, vs, j)
}

/// A shape whose layout Rust would accept: valid alignments, sizes within
/// bounds, enums with at least one variant and distinct discriminants that
/// fit, and
/// option-like wrappers only around shapes with one niche.
pub open spec fn well_formed(s: Shape) -> bool
    decreases s, 2int,
{
    match s {
        Shape::Int(_) => true,
        Shape::NonZero(_) => true,
        Shape::NonNull(_) => true,
        Shape::Optional(inner) => well_formed(*inner) && one_niche(*inner),
        Shape::Struct { fields, align } => fields_wf(fields@, fields@.len() as int, 0)
            && align_attr_ok(align) && size_of(s) <= MAX_SIZE,
        Shape::Enum { tag, variants, align, .. } => variants@.len() > 0
            && variants_wf(variants@, variants@.len() as int, tag)
            && discriminants_ok(tag, variants@) && discriminants_distinct(tag, variants@)
            && align_attr_ok(align) && size_of(s) <= MAX_SIZE,
    }
}

/// The first `n` fields are well formed and end within bounds.
pub open spec fn fields_wf(fs: Seq<Shape>, n: int, start: int) -> bool
    decreases fs, n,
{
    if n <= 0 || n > fs.len() {
        true
    } else {
        fields_wf(fs, n - 1, start) && well_formed(fs[n - 1]) && fields_end(fs, n, start) <= MAX_SIZE
    }
}

/// The fields of the first `n` variants are well formed and end within bounds.
pub open spec fn variants_wf(vs: Seq<Variant>, n: int, tag: IntKind) -> bool
    decreases vs, n,
{
    if n <= 0 || n > vs.len() {
        true
    } else {
        variants_wf(vs, n - 1, tag) && fields_wf(
            vs[n - 1].fields@,
            vs[n - 1].fields@.len() as int,
            tag.width() as int,
        )
    }
}


pub proof fn lemma_align_up(x: int, a: int)
    requires
        x >= 0,
        a >= 1,
    ensures
        x <= align_up(x, a) <= x + a - 1,
{
    let y = x + a - 1;
    lemma_fundamental_div_mod(y, a);
    lemma_mod_bound(y, a);
    assert((y / a) * a == y - y % a) by (nonlinear_arith)
        requires
            y == a * (y / a) + y % a,
    ;
}

/// Sizes are never negative and alignments are at least 1.
pub proof fn lemma_size_nonneg(s: Shape)
    ensures
        size_of(s) >= 0,
        align_of(s) >= 1,
    decreases s, 2int,
{
    match s {
        Shape::Optional(inner) => lemma_size_nonneg(*inner),
        Shape::Struct { fields, align } => {
            lemma_fields_nonneg(fields@, fields@.len() as int, 0);
            lemma_align_up(
                fields_end(fields@, fields@.len() as int, 0),
                max(fields_align(fields@, fields@.len() as int), align as int),
            );
        },
        Shape::Enum { tag, variants, align, .. } => {
            lemma_variants_nonneg(variants@, variants@.len() as int, tag);
            lemma_align_up(
                variants_size(variants@, variants@.len() as int, tag),
                max(variants_align(variants@, variants@.len() as int, tag), align as int),
            );
        },
        _ => {},
    }
}

pub proof fn lemma_fields_nonneg(fs: Seq<Shape>, n: int, start: int)
    requires
        start >= 0,
    ensures
        fields_end(fs, n, start) >= start,
        fields_align(fs, n) >= 1,
    decreases fs, n,
{
    if 0 < n <= fs.len() {
        lemma_fields_nonneg(fs, n - 1, start);
        lemma_size_nonneg(fs[n - 1]);
        lemma_align_up(fields_end(fs, n - 1, start), align_of(fs[n - 1]));
    }
}

pub proof fn lemma_variants_nonneg(vs: Seq<Variant>, n: int, tag: IntKind)
    ensures
        variants_size(vs, n, tag) >= 0,
        variants_align(vs, n, tag) >= tag.width(),
    decreases vs, n,
{
    if 0 < n <= vs.len() {
        lemma_variants_nonneg(vs, n - 1, tag);
        lemma_fields_nonneg(vs[n - 1].fields@, vs[n - 1].fields@.len() as int, tag.width() as int);
    }
}

/// Fields end no earlier as more of them are laid out.
pub proof fn lemma_fields_end_mono(fs: Seq<Shape>, m: int, n: int, start: int)
    requires
        start >= 0,
        0 <= m <= n <= fs.len(),
    ensures
        fields_end(fs, m, start) <= fields_end(fs, n, start),
    decreases n,
{
    if m < n {
        lemma_fields_end_mono(fs, m, n - 1, start);
        lemma_fields_nonneg(fs, n - 1, start);
        lemma_size_nonneg(fs[n - 1]);
        lemma_align_up(fields_end(fs, n - 1, start), align_of(fs[n - 1]));
    }
}

/// Each variant, laid out as a struct, fits in the largest.
pub proof fn lemma_variant_fits(vs: Seq<Variant>, i: int, n: int, tag: IntKind)
    requires
        0 <= i < n <= vs.len(),
    ensures
        fields_end(vs[i].fields@, vs[i].fields@.len() as int, tag.width() as int)
            <= variants_size(vs, n, tag),
    decreases n,
{
    if i < n - 1 {
        lemma_variant_fits(vs, i, n - 1, tag);
    } else {
        lemma_fields_nonneg(vs[i].fields@, vs[i].fields@.len() as int, tag.width() as int);
        lemma_align_up(
            fields_end(vs[i].fields@, vs[i].fields@.len() as int, tag.width() as int),
            max(tag.width() as int, fields_align(vs[i].fields@, vs[i].fields@.len() as int)),
        );
    }
}

pub proof fn lemma_fields_wf_prefix(fs: Seq<Shape>, n: int, m: int, start: int)
    requires
        fields_wf(fs, n, start),
        0 <= m <= n <= fs.len(),
    ensures
        fields_wf(fs, m, start),
    decreases n,
{
    if m < n {
        lemma_fields_wf_prefix(fs, n - 1, m, start);
    }
}

pub proof fn lemma_variants_wf_prefix(vs: Seq<Variant>, n: int, m: int, tag: IntKind)
    requires
        variants_wf(vs, n, tag),
        0 <= m <= n <= vs.len(),
    ensures
        variants_wf(vs, m, tag),
    decreases n,
{
    if m < n {
        lemma_variants_wf_prefix(vs, n - 1, m, tag);
    }
}

/// Decides `align_attr_ok`.
fn check_align_attr(a: usize) -> (r: bool)
    ensures
        r == align_attr_ok(a),
{
    if a == 0 {
        return true;
    }
    if a > MAX_ALIGN {
        return false;
    }
    let mut x: usize = a;
    while x > 1 && x % 2 == 0
        invariant
            x >= 1,
            is_pow2(x as int) == is_pow2(a as int),
        decreases x,
    {
        x = x / 2;
    }
    x == 1
}

/// `x` rounded up to a multiple of `a`.
pub(crate) fn round_up(x: usize, a: usize) -> (r: usize)
    requires
        x <= MAX_SIZE + MAX_ALIGN,
        1 <= a <= MAX_ALIGN,
    ensures
        r == align_up(x as int, a as int),
        x <= r <= x + a - 1,
{
    let y: usize = x + (a - 1);
    let q: usize = y / a;
    proof {
        lemma_fundamental_div_mod(y as int, a as int);
        lemma_mod_bound(y as int, a as int);
        assert(q * a == y - y % a) by (nonlinear_arith)
            requires
                y == a * (y / a) + y % a,
                q == y / a,
        ;
    }
    q * a
}

/// Every variant's discriminant, in declaration order, or `None` where one
/// does not fit the tag or an implicit one would step past its largest value.
pub fn discriminants(tag: IntKind, variants: &Vec<Variant>) -> (r: Option<Vec<u128>>)
    ensures
        r is Some <==> discriminants_ok(tag, variants@),
        r matches Some(ds) ==> ds@.len() == variants@.len() && forall|i: int|
            0 <= i < ds@.len() ==> ds@[i] == discriminant(tag, variants@, i),
{
    let mask = tag.all_ones();
    let largest = tag.largest();
    let mut ds: Vec<u128> = Vec::new();
    let mut i: usize = 0;
    while i < variants.len()
        invariant
            i <= variants@.len(),
            ds@.len() == i,
            mask == tag.mask(),
            largest == tag.max_pattern(),
            forall|j: int| 0 <= j < i ==> ds@[j] == discriminant(tag, variants@, j) && ds@[j] <= mask,
            forall|j: int|
                0 <= j < i ==> match #[trigger] variants@[j].discriminant {
                    Some(d) => d <= tag.mask(),
                    None => j == 0 || discriminant(tag, variants@, j - 1) != tag.max_pattern(),
                },
        decreases variants@.len() - i,
    {
        let d: u128 = match variants[i].discriminant {
            Some(d) => {
                if d > mask {
                    assert(!(match variants@[i as int].discriminant {
                        Some(d) => d <= tag.mask(),
                        None => i == 0 || discriminant(tag, variants@, i - 1) != tag.max_pattern(),
                    }));
                    return None;
                }
                d
            },
            None => {
                if i == 0 {
                    0
                } else {
                    let prev = ds[i - 1];
                    if prev == largest {
                        assert(!(match variants@[i as int].discriminant {
                            Some(d) => d <= tag.mask(),
                            None => i == 0 || discriminant(tag, variants@, i - 1) != tag.max_pattern(),
                        }));
                        return None;
                    }
                    if prev == mask {
                        0
                    } else {
                        prev + 1
                    }
                }
            },
        };
        ds.push(d);
        i = i + 1;
    }
    Some(ds)
}

/// Whether no two entries of `ds` are equal.
fn all_distinct(ds: &Vec<u128>) -> (r: bool)
    ensures
        r == forall|i: int, j: int| 0 <= i < j < ds@.len() ==> ds@[i] != ds@[j],
{
    let n = ds.len();
    let mut i: usize = 0;
    while i < n
        invariant
            i <= n,
            n == ds@.len(),
            forall|a: int, b: int| 0 <= a < i && a < b < n ==> ds@[a] != ds@[b],
        decreases n - i,
    {
        let mut j: usize = i + 1;
        while j < n
            invariant
                i < n,
                i + 1 <= j <= n,
                n == ds@.len(),
                forall|a: int, b: int| 0 <= a < i && a < b < n ==> ds@[a] != ds@[b],
                forall|b: int| i < b < j ==> ds@[i as int] != ds@[b],
            decreases n - j,
        {
            if ds[i] == ds[j] {
                return false;
            }
            j = j + 1;
        }
        i = i + 1;
    }
    true
}

/// Layout of a `repr(C)` field list whose first field may start at `start`:
/// the offset just past its last field and its largest alignment.
fn fields_layout(fs: &Vec<Shape>, start: usize) -> (r: Option<(usize, usize)>)
    requires
        start <= 16,
    ensures
        r is Some <==> fields_wf(fs@, fs@.len() as int, start as int),
        r matches Some(p) ==> p.0 == fields_end(fs@, fs@.len() as int, start as int)
            && p.1 == fields_align(fs@, fs@.len() as int) && p.0 <= MAX_SIZE && 1 <= p.1 <= MAX_ALIGN,
    decreases fs,
{
    let mut end: usize = start;
    let mut align: usize = 1;
    let mut i: usize = 0;
    while i < fs.len()
        invariant
            i <= fs@.len(),
            start <= 16,
            fields_wf(fs@, i as int, start as int),
            end == fields_end(fs@, i as int, start as int),
            align == fields_align(fs@, i as int),
            end <= MAX_SIZE,
            1 <= align <= MAX_ALIGN,
        decreases fs@.len() - i,
    {
        match fs[i].layout() {
            None => {
                proof {
                    if fields_wf(fs@, fs@.len() as int, start as int) {
                        lemma_fields_wf_prefix(fs@, fs@.len() as int, i + 1, start as int);
                    }
                }
                return None;
            },
            Some(l) => {
                let offset = round_up(end, l.align);
                if offset > MAX_SIZE || l.size > MAX_SIZE - offset {
                    proof {
                        if fields_wf(fs@, fs@.len() as int, start as int) {
                            lemma_fields_wf_prefix(fs@, fs@.len() as int, i + 1, start as int);
                        }
                    }
                    return None;
                }
                end = offset + l.size;
                if l.align > align {
                    align = l.align;
                }
            },
        }
        i = i + 1;
    }
    Some((end, align))
}

/// Largest size and alignment among the variants of an enum, each laid out
/// as a `repr(C)` struct of the tag followed by its fields.
fn variants_layout(vs: &Vec<Variant>, tag: IntKind) -> (r: Option<(usize, usize)>)
    ensures
        r is Some <==> variants_wf(vs@, vs@.len() as int, tag),
        r matches Some(p) ==> p.0 == variants_size(vs@, vs@.len() as int, tag)
            && p.1 == variants_align(vs@, vs@.len() as int, tag) && p.0 <= MAX_SIZE + MAX_ALIGN
            && 1 <= p.1 <= MAX_ALIGN,
    decreases vs,
{
    let w = tag.size();
    let mut vsize: usize = 0;
    let mut valign: usize = w;
    let mut i: usize = 0;
    while i < vs.len()
        invariant
            i <= vs@.len(),
            w == tag.width(),
            variants_wf(vs@, i as int, tag),
            vsize == variants_size(vs@, i as int, tag),
            valign == variants_align(vs@, i as int, tag),
            vsize <= MAX_SIZE + MAX_ALIGN,
            1 <= valign <= MAX_ALIGN,
        decreases vs@.len() - i,
    {
        proof {
            assert(decreases_to!(vs@[i as int] => vs@[i as int].fields));
        }
        match fields_layout(&vs[i].fields, w) {
            None => {
                proof {
                    if variants_wf(vs@, vs@.len() as int, tag) {
                        lemma_variants_wf_prefix(vs@, vs@.len() as int, i + 1, tag);
                    }
                }
                return None;
            },
            Some((end, fa)) => {
                let va = if fa >= w {
                    fa
                } else {
                    w
                };
                let s = round_up(end, va);
                if s > vsize {
                    vsize = s;
                }
                if fa > valign {
                    valign = fa;
                }
            },
        }
        i = i + 1;
    }
    Some((vsize, valign))
}

impl Shape {
    /// Size in bytes of a value of this shape.
    pub fn size(&self) -> (r: usize)
        requires
            well_formed(*self),
        ensures
            r == size_of(*self),
            r <= MAX_SIZE,
    {
        match self.layout() {
            Some(l) => l.size,
            None => 0,
        }
    }

    /// Alignment in bytes of a value of this shape.
    pub fn align(&self) -> (r: usize)
        requires
            well_formed(*self),
        ensures
            r == align_of(*self),
            1 <= r <= MAX_ALIGN,
    {
        match self.layout() {
            Some(l) => l.align,
            None => 1,
        }
    }

    /// Size and alignment of this shape, or `None` where it is not well formed.
    pub fn layout(&self) -> (r: Option<Layout>)
        ensures
            r is Some <==> well_formed(*self),
            r matches Some(l) ==> l.size == size_of(*self) && l.align == align_of(*self)
                && l.size <= MAX_SIZE && 1 <= l.align <= MAX_ALIGN,
        decreases self,
    {
        match self {
            Shape::Int(k) => Some(Layout { size: k.size(), align: k.size() }),
            Shape::NonZero(k) => Some(Layout { size: k.size(), align: k.size() }),
            Shape::NonNull(k) => Some(Layout { size: k.size(), align: k.size() }),
            Shape::Optional(inner) => match &**inner {
                Shape::NonZero(k) => {
                    proof {
                        assert(well_formed(**inner));
                        assert(size_of(**inner) == k.width() && align_of(**inner) == k.width());
                    }
                    Some(Layout { size: k.size(), align: k.size() })
                },
                Shape::NonNull(k) => {
                    proof {
                        assert(well_formed(**inner));
                        assert(size_of(**inner) == k.width() && align_of(**inner) == k.width());
                    }
                    Some(Layout { size: k.size(), align: k.size() })
                },
                _ => None,
            },
            Shape::Struct { fields, align } => {
                match fields_layout(fields, 0) {
                    None => None,
                    Some((end, falign)) => {
                        if !check_align_attr(*align) {
                            return None;
                        }
                        let a = if falign >= *align {
                            falign
                        } else {
                            *align
                        };
                        let size = round_up(end, a);
                        if size > MAX_SIZE {
                            None
                        } else {
                            Some(Layout { size, align: a })
                        }
                    },
                }
            },
            Shape::Enum { tag, variants, align, .. } => {
                let (vsize, valign) = match variants_layout(variants, *tag) {
                    None => return None,
                    Some(p) => p,
                };
                if variants.len() == 0 {
                    return None;
                }
                match discriminants(*tag, variants) {
                    None => {
                        return None;
                    },
                    Some(ds) => {
                        let distinct = all_distinct(&ds);
                        proof {
                            if distinct {
                                assert forall|i: int, j: int|
                                    0 <= i < j < variants@.len() implies discriminant(
                                    *tag,
                                    variants@,
                                    i,
                                ) != discriminant(*tag, variants@, j) by {
                                    assert(ds@[i] != ds@[j]);
                                }
                            } else {
                                let (i, j) = choose|i: int, j: int|
                                    0 <= i < j < ds@.len() && ds@[i] == ds@[j];
                                assert(discriminant(*tag, variants@, i) == discriminant(
                                    *tag,
                                    variants@,
                                    j,
                                ));
                            }
                        }
                        if !distinct {
                            return None;
                        }
                    },
                }
                if !check_align_attr(*align) {
                    return None;
                }
                let a = if valign >= *align {
                    valign
                } else {
                    *align
                };
                let size = round_up(vsize, a);
                if size > MAX_SIZE {
                    None
                } else {
                    Some(Layout { size, align: a })
                }
            },
        }
    }
}

} // verus!
