//! Checked reinterpretation of raw, possibly invalid bit patterns as
//! strongly typed values whose invariants hold by construction.
//!
//! A type taking part in a conversion is described by a [`Shape`]: a scalar,
//! a non-zero scalar, an option-like wrapper, a `repr(C)` struct or a
//! `repr(Int)` tagged union. The layout of a shape (sizes, alignments, field
//! offsets) follows the rules of the C-compatible representations, and a
//! block of bytes of that size is checked against it field by field and
//! variant by variant: [`try_from`] turns a [`MaybeInvalid`] block into a
//! [`Value`] where the check passes, and [`into`] turns a value back.

mod bits;
mod check;
mod error;
mod niche;
mod shape;
mod value;

pub use bits::{BitPattern, BitRanges};
pub use error::{Error, ErrorKind};
pub use niche::{Nicheless, OneNiche};
pub use shape::{discriminants, IntKind, Layout, Shape, Variant, MAX_ALIGN, MAX_SIZE};
pub use value::{into, try_from, MaybeInvalid, Value};
