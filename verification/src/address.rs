//! Address operands: symbolic labels and resolved 16-bit values.

use vstd::prelude::*;

use crate::error::{ErrV, Error};

verus! {

/// An address operand of a jump, call, system-call or load-index form.
///
/// An address is created as `Label` when the operand is a symbolic name and
/// transitions exactly once to `Short` during the resolution pass; addresses
/// written as numeric literals are `Short` from the start. Emitting a still
/// unresolved `Label` as bytes is always an error.
#[derive(Debug, Clone, PartialEq, Eq)]
pub enum Address {
    Label(Vec<u8>),
    Short(u16),
}

impl Address {
    /// The label name if the address is still symbolic, `None` once resolved.
    pub fn label_value(&self) -> (r: Option<&Vec<u8>>)
        ensures
            match self {
                Address::Label(s) => r matches Some(n) && n@ == s@,
                Address::Short(_) => r is None,
            },
    {
        match self {
            Address::Label(s) => Some(s),
            Address::Short(_) => None,
        }
    }

    /// The concrete address. A still unresolved label is an
    /// `UnresolvedLabel` error carrying the label's name.
    pub fn to_resolved(&self) -> (r: Result<u16, Error>)
        ensures
            match self {
                Address::Label(s) => (r matches Err(e) && e@ == ErrV::UnresolvedLabel(s@)),
                Address::Short(n) => r == Ok::<u16, Error>(*n),
            },
    {
        match self {
            Address::Label(s) => Err(Error::UnresolvedLabel(clone_bytes(s))),
            Address::Short(n) => Ok(*n),
        }
    }
}

/// A copy of a byte vector with the same contents.
pub fn clone_bytes(s: &Vec<u8>) -> (r: Vec<u8>)
    ensures
        r@ == s@,
{
    let r = s.clone();
    proof {
        assert(r@ =~= s@);
    }
    r
}

} // verus!
