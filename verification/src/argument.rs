//! The operand classifier: turns one operand token into a typed value — a
//! register, a numeric immediate, a symbolic label, or one of the special
//! operand markers of the load and add forms.

use vstd::prelude::*;

use crate::error::{ErrV, Error};
use crate::parser::{
    digit_val, digit_value, lit_valid, lit_value, parse_imm, B_LBRACK, B_LOWER_V, B_LOWER_Z, B_0,
    B_9, B_RBRACK, B_UNDERSCORE, B_UPPER_B, B_UPPER_D, B_UPPER_F, B_UPPER_I, B_UPPER_K, B_UPPER_S,
    B_UPPER_T, B_UPPER_Z, B_LOWER_A, B_UPPER_A,
};
use crate::register::Register;

verus! {

/// The grammatical category of an operand token.
#[derive(Debug, Clone, Copy, PartialEq, Eq, Structural)]
pub enum Rule {
    /// `v` followed by one hexadecimal digit: a general-purpose register.
    Register,
    /// A radix-prefixed numeric literal.
    Immediate,
    /// An identifier: a symbolic address.
    Label,
    /// `I`, the index register.
    Index,
    /// `DT`, the delay timer.
    DelayTimer,
    /// `ST`, the sound timer.
    SoundTimer,
    /// `F`, the font sprite pointer marker.
    Font,
    /// `B`, the binary-coded-decimal marker.
    Bcd,
    /// `K`, the key-wait marker.
    Key,
    /// `[I]`, the memory block at the index register.
    Memory,
}

/// Ghost mirror of [`Argument`], used by contracts.
pub enum ArgV {
    /// A register operand: its index, always `0..=15`.
    Reg(u8),
    /// An immediate operand: its value, always `0..=0x0FFF`.
    Imm(u16),
    /// A symbolic address operand: the label name.
    Lbl(Seq<u8>),
    Index,
    DelayTimer,
    SoundTimer,
    Font,
    Bcd,
    Key,
    Memory,
}

/// One classified operand.
#[derive(Debug, Clone, PartialEq, Eq)]
pub enum Argument {
    Reg(Register),
    Imm(u16),
    Lbl(Vec<u8>),
    Index,
    DelayTimer,
    SoundTimer,
    Font,
    Bcd,
    Key,
    Memory,
}

impl View for Argument {
    type V = ArgV;

    open spec fn view(&self) -> ArgV {
        match self {
            Argument::Reg(r) => ArgV::Reg(r.idx()),
            Argument::Imm(v) => ArgV::Imm(*v),
            Argument::Lbl(n) => ArgV::Lbl(n@),
            Argument::Index => ArgV::Index,
            Argument::DelayTimer => ArgV::DelayTimer,
            Argument::SoundTimer => ArgV::SoundTimer,
            Argument::Font => ArgV::Font,
            Argument::Bcd => ArgV::Bcd,
            Argument::Key => ArgV::Key,
            Argument::Memory => ArgV::Memory,
        }
    }
}

impl DeepView for Argument {
    type V = ArgV;

    open spec fn deep_view(&self) -> ArgV {
        self.view()
    }
}

/// Whether `b` may start an identifier: a letter or an underscore.
pub open spec fn is_ident_start(b: u8) -> bool {
    ||| B_LOWER_A <= b <= B_LOWER_Z
    ||| B_UPPER_A <= b <= B_UPPER_Z
    ||| b == B_UNDERSCORE
}

/// Whether `b` may continue an identifier: a letter, digit or underscore.
pub open spec fn is_ident_char(b: u8) -> bool {
    is_ident_start(b) || B_0 <= b <= B_9
}

/// Whether `s` is a well-formed label name.
pub open spec fn wf_label(s: Seq<u8>) -> bool {
    &&& s.len() > 0
    &&& is_ident_start(s[0])
    &&& forall|i: int| 0 <= i < s.len() ==> is_ident_char(#[trigger] s[i])
}

/// How one operand token is classified.
///
/// The special markers `I`, `[I]`, `DT`, `ST`, `F`, `B` and `K` come first;
/// then `v` plus one hexadecimal digit makes a register; a token starting
/// with a decimal digit is an immediate with ceiling `0x0FFF` (the widest
/// operand class, the 12-bit address); any other identifier is a label; and
/// everything else is a syntax error carrying the token.
pub open spec fn spec_classify(t: Seq<u8>) -> Result<ArgV, ErrV> {
    if t =~= seq![B_UPPER_I] {
        Ok(ArgV::Index)
    } else if t =~= seq![B_LBRACK, B_UPPER_I, B_RBRACK] {
        Ok(ArgV::Memory)
    } else if t =~= seq![B_UPPER_D, B_UPPER_T] {
        Ok(ArgV::DelayTimer)
    } else if t =~= seq![B_UPPER_S, B_UPPER_T] {
        Ok(ArgV::SoundTimer)
    } else if t =~= seq![B_UPPER_F] {
        Ok(ArgV::Font)
    } else if t =~= seq![B_UPPER_B] {
        Ok(ArgV::Bcd)
    } else if t =~= seq![B_UPPER_K] {
        Ok(ArgV::Key)
    } else if t.len() == 2 && t[0] == B_LOWER_V && digit_val(t[1]) < 16 {
        Ok(ArgV::Reg(digit_val(t[1]) as u8))
    } else if t.len() > 0 && digit_val(t[0]) < 10 {
        if !lit_valid(t) || lit_value(t) > 0xFFFF {
            Err(ErrV::NumParse)
        } else if lit_value(t) > 0x0FFF {
            Err(ErrV::ExceedBounds(lit_value(t) as u16, 0x0FFF))
        } else {
            Ok(ArgV::Imm(lit_value(t) as u16))
        }
    } else if wf_label(t) {
        Ok(ArgV::Lbl(t))
    } else {
        Err(ErrV::Parse(t))
    }
}

/// Whether a classified operand is well formed: register indices fit in a
/// nibble and immediates fit in twelve bits.
pub open spec fn arg_wf(a: ArgV) -> bool {
    match a {
        ArgV::Reg(x) => x <= 15,
        ArgV::Imm(v) => v <= 0x0FFF,
        _ => true,
    }
}

/// Classification only produces well-formed operands.
pub proof fn lemma_classify_wf(t: Seq<u8>)
    ensures
        spec_classify(t) matches Ok(av) ==> arg_wf(av),
{
    if t.len() == 2 && t[0] == B_LOWER_V && digit_val(t[1]) < 16 {
        assert(digit_val(t[1]) >= 0);
    }
    crate::parser::lemma_digits_value_nonneg(crate::parser::spec_digits(t), crate::parser::spec_radix(t));
}


/// Register tokens classify exactly: `v` followed by one hexadecimal digit
/// (of either case) yields that digit as the register index, every index
/// the classifier yields lies in `0..=15`, and no other token classifies
/// as a register.
pub proof fn lemma_register_tokens(t: Seq<u8>)
    ensures
        t.len() == 2 && t[0] == B_LOWER_V && digit_val(t[1]) < 16 ==> spec_classify(t) == Ok::<
            ArgV,
            ErrV,
        >(ArgV::Reg(digit_val(t[1]) as u8)),
        spec_classify(t) matches Ok(ArgV::Reg(x)) ==> (0 <= x <= 15 && t.len() == 2 && t[0]
            == B_LOWER_V && x == digit_val(t[1])),
{
    if t.len() == 2 && t[0] == B_LOWER_V && digit_val(t[1]) < 16 {
        assert(!(t =~= seq![B_UPPER_I]));
        assert(!(t =~= seq![B_LBRACK, B_UPPER_I, B_RBRACK]));
        assert(!(t =~= seq![B_UPPER_D, B_UPPER_T]));
        assert(!(t =~= seq![B_UPPER_S, B_UPPER_T]));
        assert(!(t =~= seq![B_UPPER_F]));
        assert(!(t =~= seq![B_UPPER_B]));
        assert(!(t =~= seq![B_UPPER_K]));
        assert(digit_val(t[1]) >= 0);
    }
}

/// Whether `b` may continue an identifier.
fn ident_char(b: u8) -> (r: bool)
    ensures
        r == is_ident_char(b),
{
    (B_LOWER_A <= b && b <= B_LOWER_Z) || (B_UPPER_A <= b && b <= B_UPPER_Z) || b == B_UNDERSCORE
        || (B_0 <= b && b <= B_9)
}

/// Whether `s` is a well-formed label name.
pub fn check_label(s: &Vec<u8>) -> (r: bool)
    ensures
        r == wf_label(s@),
{
    if s.len() == 0 {
        return false;
    }
    let b0 = s[0];
    if !((B_LOWER_A <= b0 && b0 <= B_LOWER_Z) || (B_UPPER_A <= b0 && b0 <= B_UPPER_Z) || b0
        == B_UNDERSCORE) {
        return false;
    }
    let mut i: usize = 0;
    while i < s.len()
        invariant
            0 <= i <= s.len(),
            forall|j: int| 0 <= j < i ==> is_ident_char(#[trigger] s@[j]),
        decreases s.len() - i,
    {
        if !ident_char(s[i]) {
            return false;
        }
        i = i + 1;
    }
    true
}

impl Argument {
    /// Classifies one operand token, as [`spec_classify`] says.
    pub fn from_token(text: &Vec<u8>) -> (r: Result<Argument, Error>)
        ensures
            match spec_classify(text@) {
                Ok(av) => r matches Ok(a) && a@ == av,
                Err(ev) => r matches Err(e) && e@ == ev,
            },
    {
        if text.len() == 1 && text[0] == B_UPPER_I {
            Ok(Argument::Index)
        } else if text.len() == 3 && text[0] == B_LBRACK && text[1] == B_UPPER_I && text[2]
            == B_RBRACK {
            Ok(Argument::Memory)
        } else if text.len() == 2 && text[0] == B_UPPER_D && text[1] == B_UPPER_T {
            Ok(Argument::DelayTimer)
        } else if text.len() == 2 && text[0] == B_UPPER_S && text[1] == B_UPPER_T {
            Ok(Argument::SoundTimer)
        } else if text.len() == 1 && text[0] == B_UPPER_F {
            Ok(Argument::Font)
        } else if text.len() == 1 && text[0] == B_UPPER_B {
            Ok(Argument::Bcd)
        } else if text.len() == 1 && text[0] == B_UPPER_K {
            Ok(Argument::Key)
        } else if text.len() == 2 && text[0] == B_LOWER_V && digit_value(text[1]) < 16 {
            let d = digit_value(text[1]);
            match Register::try_from(d as u8) {
                Ok(reg) => Ok(Argument::Reg(reg)),
                Err(e) => Err(e),
            }
        } else if text.len() > 0 && digit_value(text[0]) < 10 {
            match parse_imm(text, 0x0FFF) {
                Ok(v) => Ok(Argument::Imm(v)),
                Err(e) => Err(e),
            }
        } else if check_label(text) {
            Ok(Argument::Lbl(crate::address::clone_bytes(text)))
        } else {
            Err(Error::Parse(crate::address::clone_bytes(text)))
        }
    }

    /// The grammatical category the operand was classified under.
    pub fn as_rule(&self) -> (r: Rule)
        ensures
            r == self.spec_rule(),
    {
        match self {
            Argument::Reg(_) => Rule::Register,
            Argument::Imm(_) => Rule::Immediate,
            Argument::Lbl(_) => Rule::Label,
            Argument::Index => Rule::Index,
            Argument::DelayTimer => Rule::DelayTimer,
            Argument::SoundTimer => Rule::SoundTimer,
            Argument::Font => Rule::Font,
            Argument::Bcd => Rule::Bcd,
            Argument::Key => Rule::Key,
            Argument::Memory => Rule::Memory,
        }
    }

    /// The category of the operand.
    pub open spec fn spec_rule(self) -> Rule {
        match self {
            Argument::Reg(_) => Rule::Register,
            Argument::Imm(_) => Rule::Immediate,
            Argument::Lbl(_) => Rule::Label,
            Argument::Index => Rule::Index,
            Argument::DelayTimer => Rule::DelayTimer,
            Argument::SoundTimer => Rule::SoundTimer,
            Argument::Font => Rule::Font,
            Argument::Bcd => Rule::Bcd,
            Argument::Key => Rule::Key,
            Argument::Memory => Rule::Memory,
        }
    }

    /// The numeric value of the operand: the index of a register, the value
    /// of an immediate, `None` for every other category.
    pub fn value(&self) -> (r: Option<u16>)
        ensures
            r == self.spec_value(),
    {
        match self {
            Argument::Reg(reg) => Some(reg.as_u8() as u16),
            Argument::Imm(v) => Some(*v),
            _ => None,
        }
    }

    /// The numeric value of the operand.
    pub open spec fn spec_value(self) -> Option<u16> {
        match self {
            Argument::Reg(reg) => Some(reg.idx() as u16),
            Argument::Imm(v) => Some(v),
            _ => None,
        }
    }
}

} // verus!
