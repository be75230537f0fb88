use vstd::prelude::*;

use crate::bits::{copy_range, zeros};
use crate::check::{check, check_at, result_view};
use crate::error::{Error, ErrorView};
use crate::niche::{lemma_nicheless_accepts, nicheless};
use crate::shape::{size_of, well_formed, Shape};

verus! {

/// A block of bytes standing for a value that may not be well defined:
/// every bit pattern of the right size is a block.
pub struct MaybeInvalid {
    bytes: Vec<u8>,
}

impl View for MaybeInvalid {
    type V = Seq<u8>;

    closed spec fn view(&self) -> Seq<u8> {
        self.bytes@
    }
}

/// The bytes of a well-defined value of a shape: they pass the shape's check.
pub struct Value {
    bytes: Vec<u8>,
    shape: Ghost<Shape>,
}

impl View for Value {
    type V = Seq<u8>;

    closed spec fn view(&self) -> Seq<u8> {
        self.bytes@
    }
}

impl Value {
    /// The shape this value is well defined for.
    pub closed spec fn shape(&self) -> Shape {
        self.shape@
    }

    /// The bytes are a well-defined value of the shape. Every value this
    /// library hands out satisfies it.
    pub open spec fn well_defined(&self) -> bool {
        &&& well_formed(self.shape())
        &&& self@.len() == size_of(self.shape())
        &&& check(self.shape(), self@) == Ok::<(), ErrorView>(())
    }

    /// The bytes of the value, lowest address first.
    pub fn as_bytes(&self) -> (r: &[u8])
        ensures
            r@ == self@,
    {
        self.bytes.as_slice()
    }
}

/// Converting a well-defined value to a block and checking the block again
/// succeeds, and gives back the same bytes: the block of `into(v)` has the
/// bytes of `v`, which pass the check of `v`'s shape.
pub proof fn lemma_round_trip(v: Value, block: MaybeInvalid)
    requires
        v.well_defined(),
        block@ == v@,
    ensures
        well_formed(v.shape()),
        block@.len() == size_of(v.shape()),
        check(v.shape(), block@) == Ok::<(), ErrorView>(()),
{
}

impl MaybeInvalid {
    /// A block holding a well-defined value.
    pub fn new(valid: Value) -> (r: MaybeInvalid)
        ensures
            r@ == valid@,
    {
        MaybeInvalid { bytes: valid.bytes }
    }

    /// An all-zero block of the size of `shape`, which may not be a value of it.
    pub fn zeroed(shape: &Shape) -> (r: MaybeInvalid)
        requires
            well_formed(*shape),
        ensures
            r@ == zeros(size_of(*shape) as nat),
    {
        let n = shape.size();
        let mut bytes: Vec<u8> = Vec::new();
        let mut i: usize = 0;
        while i < n
            invariant
                i <= n,
                bytes@ == zeros(i as nat),
            decreases n - i,
        {
            bytes.push(0);
            i = i + 1;
            assert(bytes@ =~= zeros(i as nat));
        }
        MaybeInvalid { bytes }
    }

    /// A block holding the given bytes.
    pub fn from_bytes(bytes: &[u8]) -> (r: MaybeInvalid)
        ensures
            r@ == bytes@,
    {
        let r = MaybeInvalid { bytes: copy_range(bytes, 0, bytes.len()) };
        assert(bytes@.subrange(0, bytes@.len() as int) =~= bytes@);
        r
    }

    /// The bytes of the block, lowest address first.
    pub fn as_bytes(&self) -> (r: &[u8])
        ensures
            r@ == self@,
    {
        self.bytes.as_slice()
    }

    /// The value in a block of an always-valid shape, which needs no check.
    pub fn into_inner(self, shape: &Shape) -> (r: Value)
        requires
            well_formed(*shape),
            nicheless(*shape),
            self@.len() == size_of(*shape),
        ensures
            r@ == self@,
            r.shape() == *shape,
            r.well_defined(),
    {
        proof {
            lemma_nicheless_accepts(*shape, self@);
        }
        Value { bytes: self.bytes, shape: Ghost(*shape) }
    }
}

impl Shape {
    /// Checks that the bits of `superset` make a well-defined value of this
    /// shape: fields in declaration order, an enum's tag before its variant's
    /// fields, the first failure returned as it is.
    pub fn can_transmute(&self, superset: &MaybeInvalid) -> (r: Result<(), Error>)
        requires
            well_formed(*self),
            superset@.len() == size_of(*self),
        ensures
            result_view(r) == check(*self, superset@),
    {
        let r = check_at(self, superset.bytes.as_slice(), 0);
        assert(superset@.subrange(0, size_of(*self)) =~= superset@);
        r
    }
}

/// Converts a block to a value of `shape` where its bits pass the check.
pub fn try_from(shape: &Shape, value: MaybeInvalid) -> (r: Result<Value, Error>)
    requires
        well_formed(*shape),
        value@.len() == size_of(*shape),
    ensures
        match r {
            Ok(v) => check(*shape, value@) == Ok::<(), ErrorView>(()) && v@ == value@ && v.shape()
                == *shape && v.well_defined(),
            Err(e) => check(*shape, value@) == Err::<(), ErrorView>(e@),
        },
{
    match shape.can_transmute(&value) {
        Ok(()) => Ok(Value { bytes: value.bytes, shape: Ghost(*shape) }),
        Err(e) => Err(e),
    }
}

/// Converts a value to a block; always possible.
pub fn into(value: Value) -> (r: MaybeInvalid)
    ensures
        r@ == value@,
{
    MaybeInvalid::new(value)
}

} // verus!
