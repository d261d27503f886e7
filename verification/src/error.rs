//! The error taxonomy of the assembler. Every stage fails fast: the first
//! error aborts the whole assembly run and is surfaced to the caller.

use vstd::prelude::*;

verus! {

/// Ghost mirror of [`Error`], used by contracts. Byte payloads appear as
/// `Seq<u8>` so that specification functions can build error values.
pub enum ErrV {
    /// Malformed source: the offending fragment.
    Parse(Seq<u8>),
    /// A numeric literal whose digits do not parse in their declared base.
    NumParse,
    /// A literal or packed field out of range: the value and its ceiling.
    ExceedBounds(u16, u16),
    /// Operand-count mismatch: the mnemonic, the expected and the found count.
    WrongNumArgs(crate::instruction::Mnemonic, usize, usize),
    /// An invariant violation that a well-formed front end never reaches.
    Internal(Seq<char>),
    /// A label defined twice: its name.
    DuplicateLabel(Seq<u8>),
    /// A reference to a label that no definition binds: its name.
    UnresolvedLabel(Seq<u8>),
}

/// An assembly failure. One bad statement aborts the whole run; nothing is
/// retried and no partial output is defined.
#[derive(Debug, PartialEq, Eq)]
pub enum Error {
    Parse(Vec<u8>),
    NumParse,
    ExceedBounds(u16, u16),
    WrongNumArgs(crate::instruction::Mnemonic, usize, usize),
    Internal(&'static str),
    DuplicateLabel(Vec<u8>),
    UnresolvedLabel(Vec<u8>),
}

impl View for Error {
    type V = ErrV;

    open spec fn view(&self) -> ErrV {
        match self {
            Error::Parse(t) => ErrV::Parse(t@),
            Error::NumParse => ErrV::NumParse,
            Error::ExceedBounds(v, m) => ErrV::ExceedBounds(*v, *m),
            Error::WrongNumArgs(m, e, f) => ErrV::WrongNumArgs(*m, *e, *f),
            Error::Internal(s) => ErrV::Internal(s@),
            Error::DuplicateLabel(n) => ErrV::DuplicateLabel(n@),
            Error::UnresolvedLabel(n) => ErrV::UnresolvedLabel(n@),
        }
    }
}

} // verus!
