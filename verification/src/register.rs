//! The sixteen general-purpose registers of the target machine.

use vstd::prelude::*;

use crate::error::Error;

verus! {

/// One of the sixteen 8-bit general-purpose registers, `v0` through `vf`.
/// A register is identified by its index `0..=15`; values outside that range
/// are a construction error, never a runtime state.
#[derive(Debug, Clone, Copy, PartialEq, Eq, Structural)]
pub enum Register {
    V0,
    V1,
    V2,
    V3,
    V4,
    V5,
    V6,
    V7,
    V8,
    V9,
    VA,
    VB,
    VC,
    VD,
    VE,
    VF,
}

impl Register {
    /// The index of the register: `V0` is 0, `VF` is 15.
    #[verifier::opaque]
    pub open spec fn idx(self) -> u8 {
        match self {
            Register::V0 => 0,
            Register::V1 => 1,
            Register::V2 => 2,
            Register::V3 => 3,
            Register::V4 => 4,
            Register::V5 => 5,
            Register::V6 => 6,
            Register::V7 => 7,
            Register::V8 => 8,
            Register::V9 => 9,
            Register::VA => 10,
            Register::VB => 11,
            Register::VC => 12,
            Register::VD => 13,
            Register::VE => 14,
            Register::VF => 15,
        }
    }

    /// A register index always fits in a nibble.
    pub broadcast proof fn lemma_idx_bound(self)
        ensures
            #[trigger] self.idx() <= 15,
    {
        reveal(Register::idx);
    }

    /// Registers with the same index are the same register.
    pub broadcast proof fn lemma_idx_injective(self, other: Register)
        ensures
            #[trigger] self.idx() == #[trigger] other.idx() ==> self == other,
    {
        reveal(Register::idx);
    }

    /// The register with the given index. Indices above 15 are rejected as an
    /// internal error: the classifier only ever produces indices `0..=15`, so
    /// this rejection is a defensive invariant check.
    pub fn try_from(value: u8) -> (r: Result<Register, Error>)
        ensures
            value <= 15 ==> (r matches Ok(reg) && reg.idx() == value),
            value > 15 ==> (r matches Err(e) && e@ matches crate::error::ErrV::Internal(_)),
    {
        proof {
            reveal(Register::idx);
        }
        match value {
            0 => Ok(Register::V0),
            1 => Ok(Register::V1),
            2 => Ok(Register::V2),
            3 => Ok(Register::V3),
            4 => Ok(Register::V4),
            5 => Ok(Register::V5),
            6 => Ok(Register::V6),
            7 => Ok(Register::V7),
            8 => Ok(Register::V8),
            9 => Ok(Register::V9),
            10 => Ok(Register::VA),
            11 => Ok(Register::VB),
            12 => Ok(Register::VC),
            13 => Ok(Register::VD),
            14 => Ok(Register::VE),
            15 => Ok(Register::VF),
            _ => Err(Error::Internal("register index out of range")),
        }
    }

    /// The index of the register as a byte, for encoding.
    pub fn as_u8(&self) -> (r: u8)
        ensures
            r == self.idx(),
            r <= 15,
    {
        proof {
            reveal(Register::idx);
        }
        match self {
            Register::V0 => 0,
            Register::V1 => 1,
            Register::V2 => 2,
            Register::V3 => 3,
            Register::V4 => 4,
            Register::V5 => 5,
            Register::V6 => 6,
            Register::V7 => 7,
            Register::V8 => 8,
            Register::V9 => 9,
            Register::VA => 10,
            Register::VB => 11,
            Register::VC => 12,
            Register::VD => 13,
            Register::VE => 14,
            Register::VF => 15,
        }
    }
}

/// The register with the given index; `VF` for any index above 15.
pub open spec fn spec_register(x: u8) -> Register {
    if x == 0 {
        Register::V0
    } else if x == 1 {
        Register::V1
    } else if x == 2 {
        Register::V2
    } else if x == 3 {
        Register::V3
    } else if x == 4 {
        Register::V4
    } else if x == 5 {
        Register::V5
    } else if x == 6 {
        Register::V6
    } else if x == 7 {
        Register::V7
    } else if x == 8 {
        Register::V8
    } else if x == 9 {
        Register::V9
    } else if x == 10 {
        Register::VA
    } else if x == 11 {
        Register::VB
    } else if x == 12 {
        Register::VC
    } else if x == 13 {
        Register::VD
    } else if x == 14 {
        Register::VE
    } else {
        Register::VF
    }
}

/// `spec_register` inverts `idx`: looking a register's own index back up
/// yields the same register.
pub broadcast proof fn lemma_register_idx_roundtrip(r: Register)
    ensures
        #[trigger] spec_register(r.idx()) == r,
{
    reveal(Register::idx);
}

} // verus!
