use vstd::prelude::*;
use vstd::set_lib::{lemma_int_range, lemma_len_subset, set_int_range};

use crate::check::{check, check_fields, field_bytes, le_value, pow256, variant_check};
use crate::error::ErrorView;
use crate::shape::{
    align_of, discriminant, discriminants, fields_align, fields_end, fields_wf, lemma_align_up,
    lemma_fields_nonneg, lemma_size_nonneg, lemma_variant_fits, lemma_variants_nonneg,
    lemma_variants_wf_prefix, max, one_niche, size_of, variants_align, variants_size, variants_wf,
    well_formed, IntKind, Shape, Variant,
};

verus! {

/// Shapes with no invalid bit pattern. Integers have none; an option-like
/// wrapper fills the one niche of what it wraps; a struct has none when no
/// field has any; an enum has none when every tag pattern is the
/// discriminant of some variant and no variant's field has any. A non-zero
/// integer and a non-null pointer have one.
pub open spec fn nicheless(s: Shape) -> bool
    decreases s, 2int,
{
    match s {
        Shape::Int(_) => true,
        Shape::NonZero(_) => false,
        Shape::NonNull(_) => false,
        Shape::Optional(inner) => one_niche(*inner),
        Shape::Struct { fields, .. } => fields_nicheless(fields@, fields@.len() as int),
        Shape::Enum { tag, variants, .. } => variants_nicheless(variants@, variants@.len() as int)
            && tags_covered(tag, variants@),
    }
}

/// The first `n` fields are all nicheless.
pub open spec fn fields_nicheless(fs: Seq<Shape>, n: int) -> bool
    decreases fs, n,
{
    if n <= 0 || n > fs.len() {
        true
    } else {
        fields_nicheless(fs, n - 1) && nicheless(fs[n - 1])
    }
}

/// The fields of the first `n` variants are all nicheless.
pub open spec fn variants_nicheless(vs: Seq<Variant>, n: int) -> bool
    decreases vs, n,
{
    if n <= 0 || n > vs.len() {
        true
    } else {
        variants_nicheless(vs, n - 1) && fields_nicheless(
            vs[n - 1].fields@,
            vs[n - 1].fields@.len() as int,
        )
    }
}

/// Some variant has the tag pattern `t` as its discriminant.
pub open spec fn claimed(tag: IntKind, vs: Seq<Variant>, t: int) -> bool {
    exists|j: int| 0 <= j < vs.len() && discriminant(tag, vs, j) == t
}

/// Every pattern of the tag is some variant's discriminant.
pub open spec fn tags_covered(tag: IntKind, vs: Seq<Variant>) -> bool {
    forall|t: int| 0 <= t <= tag.mask() ==> #[trigger] claimed(tag, vs, t)
}

/// Capability query: does the type have no invalid bit pattern?
pub trait Nicheless {
    spec fn nicheless_spec(&self) -> bool;

    fn is_nicheless(&self) -> (r: bool)
        ensures
            r == self.nicheless_spec(),
    ;
}

/// Capability query: does the type have exactly one invalid bit pattern,
/// which an option-like wrapper can fill?
pub trait OneNiche {
    spec fn one_niche_spec(&self) -> bool;

    fn has_one_niche(&self) -> (r: bool)
        ensures
            r == self.one_niche_spec(),
    ;
}

impl Nicheless for Shape {
    /// A shape that Rust would not lay out is no type, and has no capability.
    open spec fn nicheless_spec(&self) -> bool {
        well_formed(*self) && nicheless(*self)
    }

    fn is_nicheless(&self) -> (r: bool) {
        if self.layout().is_none() {
            return false;
        }
        shape_is_nicheless(self)
    }
}

impl OneNiche for Shape {
    open spec fn one_niche_spec(&self) -> bool {
        one_niche(*self)
    }

    fn has_one_niche(&self) -> (r: bool) {
        match self {
            Shape::NonZero(_) => true,
            Shape::NonNull(_) => true,
            _ => false,
        }
    }
}

fn shape_is_nicheless(s: &Shape) -> (r: bool)
    requires
        well_formed(*s),
    ensures
        r == nicheless(*s),
    decreases s,
{
    match s {
        Shape::Int(_) => true,
        Shape::NonZero(_) => false,
        Shape::NonNull(_) => false,
        Shape::Optional(inner) => inner.has_one_niche(),
        Shape::Struct { fields, .. } => {
            proof {
                lemma_fields_wf_elems(fields@, fields@.len() as int, 0);
            }
            fields_are_nicheless(fields)
        },
        Shape::Enum { tag, variants, .. } => {
            if !variants_are_nicheless(variants, *tag) {
                return false;
            }
            match discriminants(*tag, variants) {
                Some(ds) => tags_are_covered(*tag, variants, &ds),
                None => false,
            }
        },
    }
}

fn fields_are_nicheless(fs: &Vec<Shape>) -> (r: bool)
    requires
        forall|i: int| 0 <= i < fs@.len() ==> well_formed(#[trigger] fs@[i]),
    ensures
        r == fields_nicheless(fs@, fs@.len() as int),
    decreases fs,
{
    let mut i: usize = 0;
    while i < fs.len()
        invariant
            i <= fs@.len(),
            forall|i: int| 0 <= i < fs@.len() ==> well_formed(#[trigger] fs@[i]),
            fields_nicheless(fs@, i as int),
        decreases fs@.len() - i,
    {
        if !shape_is_nicheless(&fs[i]) {
            proof {
                lemma_fields_nicheless(fs@, fs@.len() as int);
            }
            return false;
        }
        i = i + 1;
    }
    true
}

fn variants_are_nicheless(vs: &Vec<Variant>, tag: IntKind) -> (r: bool)
    requires
        variants_wf(vs@, vs@.len() as int, tag),
    ensures
        r == variants_nicheless(vs@, vs@.len() as int),
    decreases vs,
{
    let mut i: usize = 0;
    while i < vs.len()
        invariant
            i <= vs@.len(),
            variants_wf(vs@, vs@.len() as int, tag),
            variants_nicheless(vs@, i as int),
        decreases vs@.len() - i,
    {
        proof {
            lemma_variants_wf_prefix(vs@, vs@.len() as int, i + 1, tag);
            lemma_fields_wf_elems(
                vs@[i as int].fields@,
                vs@[i as int].fields@.len() as int,
                tag.width() as int,
            );
            assert(decreases_to!(vs@[i as int] => vs@[i as int].fields));
        }
        if !fields_are_nicheless(&vs[i].fields) {
            proof {
                lemma_variants_nicheless(vs@, vs@.len() as int);
            }
            return false;
        }
        i = i + 1;
    }
    true
}

/// Decides `tags_covered`, given every variant's discriminant.
fn tags_are_covered(tag: IntKind, vs: &Vec<Variant>, ds: &Vec<u128>) -> (r: bool)
    requires
        ds@.len() == vs@.len(),
        forall|i: int| 0 <= i < ds@.len() ==> ds@[i] == discriminant(tag, vs@, i),
    ensures
        r == tags_covered(tag, vs@),
{
    let mask = tag.all_ones();
    let n = ds.len();
    if (n as u128) <= mask {
        proof {
            lemma_pigeonhole(tag, vs@);
        }
        return false;
    }
    let mut t: u128 = 0;
    while t <= mask
        invariant
            mask == tag.mask(),
            n == ds@.len(),
            mask < n,
            t <= mask + 1,
            ds@.len() == vs@.len(),
            forall|i: int| 0 <= i < ds@.len() ==> ds@[i] == discriminant(tag, vs@, i),
            forall|u: int| 0 <= u < t ==> #[trigger] claimed(tag, vs@, u),
        decreases mask + 1 - t,
    {
        let mut j: usize = 0;
        while j < n && ds[j] != t
            invariant
                j <= n,
                n == ds@.len(),
                forall|k: int| 0 <= k < j ==> ds@[k] != t,
            decreases n - j,
        {
            j = j + 1;
        }
        if j == n {
            proof {
                assert forall|k: int| 0 <= k < vs@.len() implies discriminant(tag, vs@, k) != t by {
                    assert(ds@[k] == discriminant(tag, vs@, k));
                }
                assert(!claimed(tag, vs@, t as int));
            }
            return false;
        }
        proof {
            assert(ds@[j as int] == discriminant(tag, vs@, j as int));
            assert(claimed(tag, vs@, t as int));
        }
        t = t + 1;
    }
    true
}

pub proof fn lemma_fields_wf_elems(fs: Seq<Shape>, n: int, start: int)
    requires
        fields_wf(fs, n, start),
        0 <= n <= fs.len(),
    ensures
        forall|i: int| 0 <= i < n ==> well_formed(#[trigger] fs[i]),
    decreases n,
{
    if n > 0 {
        lemma_fields_wf_elems(fs, n - 1, start);
    }
}

/// A field list is nicheless exactly when each of its fields is.
pub proof fn lemma_fields_nicheless(fs: Seq<Shape>, n: int)
    requires
        0 <= n <= fs.len(),
    ensures
        fields_nicheless(fs, n) <==> forall|i: int| 0 <= i < n ==> nicheless(#[trigger] fs[i]),
    decreases n,
{
    if n > 0 {
        lemma_fields_nicheless(fs, n - 1);
    }
}

/// The variants' fields are nicheless exactly when each variant's are.
pub proof fn lemma_variants_nicheless(vs: Seq<Variant>, n: int)
    requires
        0 <= n <= vs.len(),
    ensures
        variants_nicheless(vs, n) <==> forall|i: int|
            0 <= i < n ==> fields_nicheless(
                (#[trigger] vs[i]).fields@,
                vs[i].fields@.len() as int,
            ),
    decreases n,
{
    if n > 0 {
        lemma_variants_nicheless(vs, n - 1);
    }
}

/// A struct is always-valid exactly when every one of its fields is.
pub proof fn lemma_struct_nicheless(s: Shape)
    requires
        s is Struct,
    ensures
        nicheless(s) <==> forall|i: int|
            0 <= i < s->Struct_fields@.len() ==> nicheless(#[trigger] s->Struct_fields@[i]),
{
    lemma_fields_nicheless(s->Struct_fields@, s->Struct_fields@.len() as int);
}

/// An enum is always-valid only where every field of every variant is, and
/// every tag pattern belongs to a variant.
pub proof fn lemma_enum_nicheless(s: Shape)
    requires
        s is Enum,
    ensures
        nicheless(s) <==> (forall|i: int|
            0 <= i < s->Enum_variants@.len() ==> forall|k: int|
                0 <= k < (#[trigger] s->Enum_variants@[i]).fields@.len() ==> nicheless(
                    #[trigger] s->Enum_variants@[i].fields@[k],
                )) && tags_covered(s->Enum_tag, s->Enum_variants@),
{
    let vs = s->Enum_variants@;
    lemma_variants_nicheless(vs, vs.len() as int);
    assert forall|i: int| 0 <= i < vs.len() implies fields_nicheless(
        vs[i].fields@,
        vs[i].fields@.len() as int,
    ) == (forall|k: int|
        0 <= k < vs[i].fields@.len() ==> nicheless(#[trigger] vs[i].fields@[k])) by {
        lemma_fields_nicheless(vs[i].fields@, vs[i].fields@.len() as int);
    }
}

/// An enum with fewer variants than tag patterns leaves some pattern unclaimed.
pub proof fn lemma_pigeonhole(tag: IntKind, vs: Seq<Variant>)
    requires
        vs.len() <= tag.mask(),
    ensures
        !tags_covered(tag, vs),
{
    let q = Seq::new(vs.len(), |j: int| discriminant(tag, vs, j));
    if tags_covered(tag, vs) {
        let range = set_int_range(0, tag.mask() + 1);
        lemma_int_range(0, tag.mask() + 1);
        assert forall|t: int| range.contains(t) implies q.to_set().contains(t) by {
            assert(claimed(tag, vs, t));
            let j = choose|j: int| 0 <= j < vs.len() && discriminant(tag, vs, j) == t;
            assert(q[j] == t);
        }
        vstd::seq_lib::seq_to_set_is_finite(q);
        lemma_len_subset(range, q.to_set());
        q.lemma_cardinality_of_set();
    }
}

proof fn lemma_le_value_bound(s: Seq<u8>)
    ensures
        le_value(s) < pow256(s.len()),
    decreases s.len(),
{
    if s.len() > 0 {
        lemma_le_value_bound(s.drop_first());
        let x = le_value(s.drop_first());
        let p = pow256(s.drop_first().len());
        assert(s[0] + 256 * x < 256 * p) by (nonlinear_arith)
            requires
                x < p,
                s[0] < 256,
        ;
    }
}

proof fn lemma_pow256_mask(k: IntKind)
    ensures
        pow256(k.width()) == k.mask() + 1,
{
    reveal_with_fuel(pow256, 17);
}

proof fn lemma_variant_found(tag: IntKind, vs: Seq<Variant>, j: int, n: int, t: int, b: Seq<u8>)
    requires
        0 <= j < n <= vs.len(),
        discriminant(tag, vs, j) == t,
    ensures
        variant_check(tag, vs, n, t, b) is Some,
    decreases n,
{
    if j < n - 1 {
        lemma_variant_found(tag, vs, j, n - 1, t, b);
    }
}

/// An always-valid shape accepts every bit pattern of its size.
pub proof fn lemma_nicheless_accepts(s: Shape, b: Seq<u8>)
    requires
        well_formed(s),
        nicheless(s),
        b.len() >= size_of(s),
    ensures
        check(s, b) == Ok::<(), ErrorView>(()),
    decreases s, 2int,
{
    match s {
        Shape::Struct { fields, align } => {
            lemma_fields_nonneg(fields@, fields@.len() as int, 0);
            lemma_align_up(
                fields_end(fields@, fields@.len() as int, 0),
                max(fields_align(fields@, fields@.len() as int), align as int),
            );
            lemma_fields_accept(fields@, fields@.len() as int, 0, b);
        },
        Shape::Enum { tag, variants, align, .. } => {
            let vs = variants@;
            let n = vs.len() as int;
            let w = tag.width() as int;
            lemma_variants_nonneg(vs, n, tag);
            lemma_align_up(variants_size(vs, n, tag), max(variants_align(vs, n, tag), align as int));
            lemma_variant_fits(vs, 0, n, tag);
            lemma_fields_nonneg(vs[0].fields@, vs[0].fields@.len() as int, w);
            let t = le_value(b.subrange(0, w)) as int;
            lemma_le_value_bound(b.subrange(0, w));
            lemma_pow256_mask(tag);
            assert(claimed(tag, vs, t));
            let j = choose|j: int| 0 <= j < vs.len() && discriminant(tag, vs, j) == t;
            lemma_variant_found(tag, vs, j, n, t, b);
            lemma_variants_accept(tag, vs, n, t, b);
        },
        _ => {},
    }
}

proof fn lemma_fields_accept(fs: Seq<Shape>, n: int, start: int, b: Seq<u8>)
    requires
        start >= 0,
        fields_wf(fs, n, start),
        fields_nicheless(fs, n),
        fields_end(fs, n, start) <= b.len(),
    ensures
        check_fields(fs, n, start, b) == Ok::<(), ErrorView>(()),
    decreases fs, n,
{
    if 0 < n <= fs.len() {
        lemma_size_nonneg(fs[n - 1]);
        lemma_fields_nonneg(fs, n - 1, start);
        lemma_align_up(fields_end(fs, n - 1, start), align_of(fs[n - 1]));
        lemma_fields_accept(fs, n - 1, start, b);
        lemma_nicheless_accepts(fs[n - 1], field_bytes(fs, n - 1, start, b));
    }
}

proof fn lemma_variants_accept(tag: IntKind, vs: Seq<Variant>, n: int, t: int, b: Seq<u8>)
    requires
        variants_wf(vs, n, tag),
        variants_nicheless(vs, n),
        variants_size(vs, n, tag) <= b.len(),
    ensures
        variant_check(tag, vs, n, t, b) is None || variant_check(tag, vs, n, t, b) == Some(
            Ok::<(), ErrorView>(()),
        ),
    decreases vs, n,
{
    if 0 < n <= vs.len() {
        lemma_variants_accept(tag, vs, n - 1, t, b);
        lemma_variant_fits(vs, n - 1, n, tag);
        lemma_fields_accept(
            vs[n - 1].fields@,
            vs[n - 1].fields@.len() as int,
            tag.width() as int,
            b,
        );
    }
}

} // verus!
