use vstd::prelude::*;

use crate::bits::{BitPattern, BitRanges};

verus! {

/// What made a bit pattern unfit for its type.
#[derive(Debug, PartialEq, Eq)]
pub enum ErrorKind {
    /// A non-nullable pointer was null.
    NullPtr,
    /// No variant of an enum has the tag found; carries the tag's bits.
    InvalidEnumDiscriminant(BitPattern),
    /// A value outside its valid patterns; carries its bits and the valid ranges.
    InvalidBitPattern { bits: BitPattern, valid: BitRanges },
}

/// The mathematical value of an [`ErrorKind`].
pub enum KindView {
    NullPtr,
    InvalidEnumDiscriminant(Seq<u8>),
    InvalidBitPattern { bits: Seq<u8>, valid: Seq<(Seq<u8>, Seq<u8>)> },
}

impl View for ErrorKind {
    type V = KindView;

    open spec fn view(&self) -> KindView {
        match self {
            ErrorKind::NullPtr => KindView::NullPtr,
            ErrorKind::InvalidEnumDiscriminant(b) => KindView::InvalidEnumDiscriminant(b@),
            ErrorKind::InvalidBitPattern { bits, valid } => KindView::InvalidBitPattern {
                bits: bits@,
                valid: valid@,
            },
        }
    }
}

/// A failed check, with the names of the type the bits came from and of the
/// type they were checked for.
#[derive(Debug, PartialEq, Eq)]
pub struct Error {
    pub error: ErrorKind,
    pub from: &'static str,
    pub into: &'static str,
}

/// The mathematical value of an [`Error`].
pub struct ErrorView {
    pub error: KindView,
    pub from: &'static str,
    pub into: &'static str,
}

impl View for Error {
    type V = ErrorView;

    open spec fn view(&self) -> ErrorView {
        ErrorView { error: self.error@, from: self.from, into: self.into }
    }
}

impl Error {
    /// An error of the given kind, checking bits from `from` for `into`.
    pub fn new(error: ErrorKind, from: &'static str, into: &'static str) -> (r: Error)
        ensures
            r@ == (ErrorView { error: error@, from, into }),
    {
        Error { error, from, into }
    }
}

} // verus!
