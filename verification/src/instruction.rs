//! The instruction model: one variant per machine operation, each holding
//! its already-classified operands, with the 2-byte big-endian encoding of
//! every form.

use vstd::prelude::*;

use crate::address::{clone_bytes, Address};
use crate::argument::{arg_wf, ArgV, Argument};
use crate::error::{ErrV, Error};
use crate::register::{spec_register, Register};

verus! {


/// The textual name of an instruction form. The syntax matcher recognises
/// the name; the instruction model maps the name plus the classified
/// operand kinds to exactly one instruction variant.
#[derive(Debug, Clone, Copy, PartialEq, Eq, Structural)]
pub enum Mnemonic {
    Cls,
    Ret,
    Sys,
    Jp,
    Call,
    Se,
    Sne,
    Ld,
    Add,
    Or,
    And,
    Xor,
    Sub,
    Subn,
    Shr,
    Shl,
    Rnd,
    Drw,
    Skp,
    Sknp,
}

/// The operand count each mnemonic expects; `jp` also accepts a second
/// form with two operands (`jp v0, addr`).
pub open spec fn arity(m: Mnemonic) -> usize {
    match m {
        Mnemonic::Cls => 0,
        Mnemonic::Ret => 0,
        Mnemonic::Sys => 1,
        Mnemonic::Jp => 1,
        Mnemonic::Call => 1,
        Mnemonic::Shr => 1,
        Mnemonic::Shl => 1,
        Mnemonic::Skp => 1,
        Mnemonic::Sknp => 1,
        Mnemonic::Drw => 3,
        _ => 2,
    }
}

/// Whether `n` operands are an acceptable count for `m`.
pub open spec fn arity_ok(m: Mnemonic, n: int) -> bool {
    n == arity(m) || (m == Mnemonic::Jp && n == 2)
}

/// Shorthand for "the result is some internal error".
pub open spec fn internal_err(r: Result<Instruction, Error>) -> bool {
    r matches Err(e) && e@ matches ErrV::Internal(_)
}

/// One machine instruction. Each variant owns exactly the operands its form
/// requires. Instructions are immutable values except for the single
/// permitted mutation: replacing an unresolved address operand with a
/// resolved one (see [`Instruction::resolve_arg`]).
#[derive(Debug, Clone, PartialEq, Eq)]
pub enum Instruction {
    Sys {
        addr: Address,
    },
    Cls,
    Ret,
    JpAbs {
        addr: Address,
    },
    Call {
        addr: Address,
    },
    SeImm {
        reg: Register,
        imm: u8,
    },
    SneImm {
        reg: Register,
        imm: u8,
    },
    SeReg {
        reg0: Register,
        reg1: Register,
    },
    LdImm {
        reg: Register,
        imm: u8,
    },
    AddImm {
        reg: Register,
        imm: u8,
    },
    LdReg {
        dest: Register,
        src: Register,
    },
    Or {
        dest: Register,
        src: Register,
    },
    And {
        dest: Register,
        src: Register,
    },
    Xor {
        dest: Register,
        src: Register,
    },
    AddReg {
        dest: Register,
        src: Register,
    },
    Sub {
        dest: Register,
        src: Register,
    },
    Shr {
        reg: Register,
    },
    SubN {
        dest: Register,
        src: Register,
    },
    Shl {
        reg: Register,
    },
    SneReg {
        reg0: Register,
        reg1: Register,
    },
    LdAddr {
        addr: Address,
    },
    JpRel {
        addr: Address,
    },
    Rnd {
        reg: Register,
        imm: u8,
    },
    Drw {
        x: Register,
        y: Register,
        nibble: u8,
    },
    Skp {
        reg: Register,
    },
    Sknp {
        reg: Register,
    },
    LdReadDt {
        reg: Register,
    },
    LdKey {
        reg: Register,
    },
    LdSetDt {
        reg: Register,
    },
    LdSetSt {
        reg: Register,
    },
    AddI {
        reg: Register,
    },
    LdSprite {
        reg: Register,
    },
    LdBcd {
        reg: Register,
    },
    LdRegDump {
        reg: Register,
    },
    LdRegRead {
        reg: Register,
    },
}

impl Instruction {
    /// The address operand of the five address-bearing forms.
    pub open spec fn addr_of(self) -> Option<Address> {
        match self {
            Instruction::Sys { addr } => Some(addr),
            Instruction::JpAbs { addr } => Some(addr),
            Instruction::Call { addr } => Some(addr),
            Instruction::LdAddr { addr } => Some(addr),
            Instruction::JpRel { addr } => Some(addr),
            _ => None,
        }
    }

    /// Whether this form carries an address operand.
    pub open spec fn is_addr_form(self) -> bool {
        self.addr_of() is Some
    }

    /// The resolved address value; zero where none is resolved.
    pub open spec fn addr_val(self) -> u16 {
        match self.addr_of() {
            Some(Address::Short(n)) => n,
            _ => 0,
        }
    }

    /// Well-formedness: the draw row count fits in a nibble and a resolved
    /// address fits in the 12-bit address field. Construction establishes
    /// this and resolution preserves it.
    pub open spec fn wf(self) -> bool {
        &&& match self {
            Instruction::Drw { nibble, .. } => nibble <= 15,
            _ => true,
        }
        &&& match self.addr_of() {
            Some(Address::Short(n)) => n <= 0x0FFF,
            _ => true,
        }
    }

    /// Whether no operand is a still symbolic label.
    pub open spec fn resolved(self) -> bool {
        !(self.addr_of() matches Some(Address::Label(_)))
    }

    /// The name of the still unresolved label operand, if any.
    pub open spec fn unresolved_name(self) -> Option<Seq<u8>> {
        match self.addr_of() {
            Some(Address::Label(n)) => Some(n@),
            _ => None,
        }
    }

    /// The two bytes that encode a well-formed, resolved instruction: the
    /// high nibble of the first byte is the class discriminator, and the
    /// operands are packed nibble-wise below it.
    pub open spec fn spec_bytes(self) -> (u8, u8)
        recommends
            self.wf(),
            self.resolved(),
    {
        match self {
            Instruction::Sys { .. } => (((0x00 + self.addr_val() / 256) as u8), (self.addr_val() % 256) as u8),
            Instruction::Cls => (0x00 as u8, 0xE0 as u8),
            Instruction::Ret => (0x00 as u8, 0xEE as u8),
            Instruction::JpAbs { .. } => (((0x10 + self.addr_val() / 256) as u8), (self.addr_val() % 256) as u8),
            Instruction::Call { .. } => (((0x20 + self.addr_val() / 256) as u8), (self.addr_val() % 256) as u8),
            Instruction::SeImm { reg, imm } => (((0x30 + reg.idx()) as u8), imm),
            Instruction::SneImm { reg, imm } => (((0x40 + reg.idx()) as u8), imm),
            Instruction::SeReg { reg0, reg1 } => (((0x50 + reg0.idx()) as u8), (reg1.idx() * 16) as u8),
            Instruction::LdImm { reg, imm } => (((0x60 + reg.idx()) as u8), imm),
            Instruction::AddImm { reg, imm } => (((0x70 + reg.idx()) as u8), imm),
            Instruction::LdReg { dest, src } => (((0x80 + dest.idx()) as u8), (src.idx() * 16 + 0x00) as u8),
            Instruction::Or { dest, src } => (((0x80 + dest.idx()) as u8), (src.idx() * 16 + 0x01) as u8),
            Instruction::And { dest, src } => (((0x80 + dest.idx()) as u8), (src.idx() * 16 + 0x02) as u8),
            Instruction::Xor { dest, src } => (((0x80 + dest.idx()) as u8), (src.idx() * 16 + 0x03) as u8),
            Instruction::AddReg { dest, src } => (((0x80 + dest.idx()) as u8), (src.idx() * 16 + 0x04) as u8),
            Instruction::Sub { dest, src } => (((0x80 + dest.idx()) as u8), (src.idx() * 16 + 0x05) as u8),
            Instruction::Shr { reg } => (((0x80 + reg.idx()) as u8), 0x06 as u8),
            Instruction::SubN { dest, src } => (((0x80 + dest.idx()) as u8), (src.idx() * 16 + 0x07) as u8),
            Instruction::Shl { reg } => (((0x80 + reg.idx()) as u8), 0x0E as u8),
            Instruction::SneReg { reg0, reg1 } => (((0x90 + reg0.idx()) as u8), (reg1.idx() * 16) as u8),
            Instruction::LdAddr { .. } => (((0xA0 + self.addr_val() / 256) as u8), (self.addr_val() % 256) as u8),
            Instruction::JpRel { .. } => (((0xB0 + self.addr_val() / 256) as u8), (self.addr_val() % 256) as u8),
            Instruction::Rnd { reg, imm } => (((0xC0 + reg.idx()) as u8), imm),
            Instruction::Drw { x, y, nibble } => (((0xD0 + x.idx()) as u8), (y.idx() * 16 + nibble) as u8),
            Instruction::Skp { reg } => (((0xE0 + reg.idx()) as u8), 0x9E as u8),
            Instruction::Sknp { reg } => (((0xE0 + reg.idx()) as u8), 0xA1 as u8),
            Instruction::LdReadDt { reg } => (((0xF0 + reg.idx()) as u8), 0x07 as u8),
            Instruction::LdKey { reg } => (((0xF0 + reg.idx()) as u8), 0x0A as u8),
            Instruction::LdSetDt { reg } => (((0xF0 + reg.idx()) as u8), 0x15 as u8),
            Instruction::LdSetSt { reg } => (((0xF0 + reg.idx()) as u8), 0x18 as u8),
            Instruction::AddI { reg } => (((0xF0 + reg.idx()) as u8), 0x1E as u8),
            Instruction::LdSprite { reg } => (((0xF0 + reg.idx()) as u8), 0x29 as u8),
            Instruction::LdBcd { reg } => (((0xF0 + reg.idx()) as u8), 0x33 as u8),
            Instruction::LdRegDump { reg } => (((0xF0 + reg.idx()) as u8), 0x55 as u8),
            Instruction::LdRegRead { reg } => (((0xF0 + reg.idx()) as u8), 0x65 as u8),
        }
    }

    /// The documented class discriminator of each instruction form.
    pub open spec fn discriminator(self) -> u8 {
        match self {
            Instruction::Sys { .. } => 0x0,
            Instruction::Cls => 0x0,
            Instruction::Ret => 0x0,
            Instruction::JpAbs { .. } => 0x1,
            Instruction::Call { .. } => 0x2,
            Instruction::SeImm { .. } => 0x3,
            Instruction::SneImm { .. } => 0x4,
            Instruction::SeReg { .. } => 0x5,
            Instruction::LdImm { .. } => 0x6,
            Instruction::AddImm { .. } => 0x7,
            Instruction::LdReg { .. } => 0x8,
            Instruction::Or { .. } => 0x8,
            Instruction::And { .. } => 0x8,
            Instruction::Xor { .. } => 0x8,
            Instruction::AddReg { .. } => 0x8,
            Instruction::Sub { .. } => 0x8,
            Instruction::Shr { .. } => 0x8,
            Instruction::SubN { .. } => 0x8,
            Instruction::Shl { .. } => 0x8,
            Instruction::SneReg { .. } => 0x9,
            Instruction::LdAddr { .. } => 0xA,
            Instruction::JpRel { .. } => 0xB,
            Instruction::Rnd { .. } => 0xC,
            Instruction::Drw { .. } => 0xD,
            Instruction::Skp { .. } => 0xE,
            Instruction::Sknp { .. } => 0xE,
            Instruction::LdReadDt { .. } => 0xF,
            Instruction::LdKey { .. } => 0xF,
            Instruction::LdSetDt { .. } => 0xF,
            Instruction::LdSetSt { .. } => 0xF,
            Instruction::AddI { .. } => 0xF,
            Instruction::LdSprite { .. } => 0xF,
            Instruction::LdBcd { .. } => 0xF,
            Instruction::LdRegDump { .. } => 0xF,
            Instruction::LdRegRead { .. } => 0xF,
        }
    }

    /// The encoding of a well-formed, resolved instruction starts with its
    /// class discriminator as the high nibble of the first byte.
    #[verifier::rlimit(100)]
    pub proof fn lemma_bytes_discriminator(self)
        requires
            self.wf(),
            self.resolved(),
        ensures
            self.spec_bytes().0 / 16 == self.discriminator(),
    {
        broadcast use crate::register::Register::lemma_idx_bound;
    }


    /// Whether a system-call address coincides with the encoded words of
    /// the clear-screen or return forms, which also carry a zero
    /// discriminator.
    pub open spec fn sys_collides(self) -> bool {
        self matches Instruction::Sys { addr: Address::Short(a) } && (a == 0x0E0 || a == 0x0EE)
    }


    /// The position of each form in the instruction set, for the decoding
    /// argument below.
    pub open spec fn form_tag(self) -> int {
        match self {
            Instruction::Sys { .. } => 0,
            Instruction::Cls => 1,
            Instruction::Ret => 2,
            Instruction::JpAbs { .. } => 3,
            Instruction::Call { .. } => 4,
            Instruction::SeImm { .. } => 5,
            Instruction::SneImm { .. } => 6,
            Instruction::SeReg { .. } => 7,
            Instruction::LdImm { .. } => 8,
            Instruction::AddImm { .. } => 9,
            Instruction::LdReg { .. } => 10,
            Instruction::Or { .. } => 11,
            Instruction::And { .. } => 12,
            Instruction::Xor { .. } => 13,
            Instruction::AddReg { .. } => 14,
            Instruction::Sub { .. } => 15,
            Instruction::Shr { .. } => 16,
            Instruction::SubN { .. } => 17,
            Instruction::Shl { .. } => 18,
            Instruction::SneReg { .. } => 19,
            Instruction::LdAddr { .. } => 20,
            Instruction::JpRel { .. } => 21,
            Instruction::Rnd { .. } => 22,
            Instruction::Drw { .. } => 23,
            Instruction::Skp { .. } => 24,
            Instruction::Sknp { .. } => 25,
            Instruction::LdReadDt { .. } => 26,
            Instruction::LdKey { .. } => 27,
            Instruction::LdSetDt { .. } => 28,
            Instruction::LdSetSt { .. } => 29,
            Instruction::AddI { .. } => 30,
            Instruction::LdSprite { .. } => 31,
            Instruction::LdBcd { .. } => 32,
            Instruction::LdRegDump { .. } => 33,
            Instruction::LdRegRead { .. } => 34,
        }
    }

    /// The form an encoded word belongs to, read off the bytes alone: the
    /// discriminator nibble picks the class, and within a shared class the
    /// trailing code of the second byte picks the form. 35 marks a word
    /// that encodes no form.
    pub open spec fn spec_tag_from_bytes(w: (u8, u8)) -> int {
        let d = w.0 / 16;        if d == 0x0 {            if w.0 == 0x00 && w.1 == 0xE0 { 1 } else if w.0 == 0x00 && w.1 == 0xEE { 2 } else { 0 }        } else if d == 0x1 {
            3
        } else if d == 0x2 {
            4
        } else if d == 0x3 {
            5
        } else if d == 0x4 {
            6
        } else if d == 0x5 {
            7
        } else if d == 0x6 {
            8
        } else if d == 0x7 {
            9
        } else if d == 0x8 {
            let k = w.1 % 16;
            if k == 0 { 10 } else if k == 1 { 11 } else if k == 2 { 12 } else if k == 3 { 13 } else if k == 4 { 14 } else if k == 5 { 15 } else if k == 6 { 16 } else if k == 7 { 17 } else if k == 14 { 18 } else { 35 }
        } else if d == 0x9 {
            19
        } else if d == 0xA {
            20
        } else if d == 0xB {
            21
        } else if d == 0xC {
            22
        } else if d == 0xD {
            23
        } else if d == 0xE {
            if w.1 == 0x9E { 24 } else if w.1 == 0xA1 { 25 } else { 35 }
        } else if d == 0xF {
            if w.1 == 0x07 { 26 } else if w.1 == 0x0A { 27 } else if w.1 == 0x15 { 28 } else if w.1 == 0x18 { 29 } else if w.1 == 0x1E { 30 } else if w.1 == 0x29 { 31 } else if w.1 == 0x33 { 32 } else if w.1 == 0x55 { 33 } else if w.1 == 0x65 { 34 } else { 35 }
        }
 else {
            35
        }
    }

    /// The encoded word of a well-formed, resolved, non-colliding
    /// instruction determines its form.
    #[verifier::rlimit(100)]
    pub proof fn lemma_bytes_form(self)
        requires
            self.wf(),
            self.resolved(),
            !self.sys_collides(),
        ensures
            Instruction::spec_tag_from_bytes(self.spec_bytes()) == self.form_tag(),
    {
        broadcast use crate::register::Register::lemma_idx_bound;

        match self {
            Instruction::Sys { .. } => {
                assert(Instruction::spec_tag_from_bytes(self.spec_bytes()) == self.form_tag());
            },
            Instruction::Cls => {
                assert(Instruction::spec_tag_from_bytes(self.spec_bytes()) == self.form_tag());
            },
            Instruction::Ret => {
                assert(Instruction::spec_tag_from_bytes(self.spec_bytes()) == self.form_tag());
            },
            Instruction::JpAbs { .. } => {
                assert(Instruction::spec_tag_from_bytes(self.spec_bytes()) == self.form_tag());
            },
            Instruction::Call { .. } => {
                assert(Instruction::spec_tag_from_bytes(self.spec_bytes()) == self.form_tag());
            },
            Instruction::SeImm { .. } => {
                assert(Instruction::spec_tag_from_bytes(self.spec_bytes()) == self.form_tag());
            },
            Instruction::SneImm { .. } => {
                assert(Instruction::spec_tag_from_bytes(self.spec_bytes()) == self.form_tag());
            },
            Instruction::SeReg { .. } => {
                assert(Instruction::spec_tag_from_bytes(self.spec_bytes()) == self.form_tag());
            },
            Instruction::LdImm { .. } => {
                assert(Instruction::spec_tag_from_bytes(self.spec_bytes()) == self.form_tag());
            },
            Instruction::AddImm { .. } => {
                assert(Instruction::spec_tag_from_bytes(self.spec_bytes()) == self.form_tag());
            },
            Instruction::LdReg { .. } => {
                assert(Instruction::spec_tag_from_bytes(self.spec_bytes()) == self.form_tag());
            },
            Instruction::Or { .. } => {
                assert(Instruction::spec_tag_from_bytes(self.spec_bytes()) == self.form_tag());
            },
            Instruction::And { .. } => {
                assert(Instruction::spec_tag_from_bytes(self.spec_bytes()) == self.form_tag());
            },
            Instruction::Xor { .. } => {
                assert(Instruction::spec_tag_from_bytes(self.spec_bytes()) == self.form_tag());
            },
            Instruction::AddReg { .. } => {
                assert(Instruction::spec_tag_from_bytes(self.spec_bytes()) == self.form_tag());
            },
            Instruction::Sub { .. } => {
                assert(Instruction::spec_tag_from_bytes(self.spec_bytes()) == self.form_tag());
            },
            Instruction::Shr { .. } => {
                assert(Instruction::spec_tag_from_bytes(self.spec_bytes()) == self.form_tag());
            },
            Instruction::SubN { .. } => {
                assert(Instruction::spec_tag_from_bytes(self.spec_bytes()) == self.form_tag());
            },
            Instruction::Shl { .. } => {
                assert(Instruction::spec_tag_from_bytes(self.spec_bytes()) == self.form_tag());
            },
            Instruction::SneReg { .. } => {
                assert(Instruction::spec_tag_from_bytes(self.spec_bytes()) == self.form_tag());
            },
            Instruction::LdAddr { .. } => {
                assert(Instruction::spec_tag_from_bytes(self.spec_bytes()) == self.form_tag());
            },
            Instruction::JpRel { .. } => {
                assert(Instruction::spec_tag_from_bytes(self.spec_bytes()) == self.form_tag());
            },
            Instruction::Rnd { .. } => {
                assert(Instruction::spec_tag_from_bytes(self.spec_bytes()) == self.form_tag());
            },
            Instruction::Drw { .. } => {
                assert(Instruction::spec_tag_from_bytes(self.spec_bytes()) == self.form_tag());
            },
            Instruction::Skp { .. } => {
                assert(Instruction::spec_tag_from_bytes(self.spec_bytes()) == self.form_tag());
            },
            Instruction::Sknp { .. } => {
                assert(Instruction::spec_tag_from_bytes(self.spec_bytes()) == self.form_tag());
            },
            Instruction::LdReadDt { .. } => {
                assert(Instruction::spec_tag_from_bytes(self.spec_bytes()) == self.form_tag());
            },
            Instruction::LdKey { .. } => {
                assert(Instruction::spec_tag_from_bytes(self.spec_bytes()) == self.form_tag());
            },
            Instruction::LdSetDt { .. } => {
                assert(Instruction::spec_tag_from_bytes(self.spec_bytes()) == self.form_tag());
            },
            Instruction::LdSetSt { .. } => {
                assert(Instruction::spec_tag_from_bytes(self.spec_bytes()) == self.form_tag());
            },
            Instruction::AddI { .. } => {
                assert(Instruction::spec_tag_from_bytes(self.spec_bytes()) == self.form_tag());
            },
            Instruction::LdSprite { .. } => {
                assert(Instruction::spec_tag_from_bytes(self.spec_bytes()) == self.form_tag());
            },
            Instruction::LdBcd { .. } => {
                assert(Instruction::spec_tag_from_bytes(self.spec_bytes()) == self.form_tag());
            },
            Instruction::LdRegDump { .. } => {
                assert(Instruction::spec_tag_from_bytes(self.spec_bytes()) == self.form_tag());
            },
            Instruction::LdRegRead { .. } => {
                assert(Instruction::spec_tag_from_bytes(self.spec_bytes()) == self.form_tag());
            },
        }
    }

    /// The operand fields of a well-formed, resolved instruction can be
    /// read back off its encoded word.
    #[verifier::rlimit(100)]
    pub proof fn lemma_bytes_fields(self)
        requires
            self.wf(),
            self.resolved(),
        ensures
            ({
                let w = self.spec_bytes();
                match self {
                Instruction::Sys { addr } => addr == Address::Short(((w.0 % 16) * 256 + w.1) as u16),
                Instruction::Cls => true,
                Instruction::Ret => true,
                Instruction::JpAbs { addr } => addr == Address::Short(((w.0 % 16) * 256 + w.1) as u16),
                Instruction::Call { addr } => addr == Address::Short(((w.0 % 16) * 256 + w.1) as u16),
                Instruction::SeImm { reg, imm } => reg.idx() == w.0 % 16 && imm == w.1,
                Instruction::SneImm { reg, imm } => reg.idx() == w.0 % 16 && imm == w.1,
                Instruction::SeReg { reg0, reg1 } => reg0.idx() == w.0 % 16 && reg1.idx() == w.1 / 16,
                Instruction::LdImm { reg, imm } => reg.idx() == w.0 % 16 && imm == w.1,
                Instruction::AddImm { reg, imm } => reg.idx() == w.0 % 16 && imm == w.1,
                Instruction::LdReg { dest, src } => dest.idx() == w.0 % 16 && src.idx() == w.1 / 16,
                Instruction::Or { dest, src } => dest.idx() == w.0 % 16 && src.idx() == w.1 / 16,
                Instruction::And { dest, src } => dest.idx() == w.0 % 16 && src.idx() == w.1 / 16,
                Instruction::Xor { dest, src } => dest.idx() == w.0 % 16 && src.idx() == w.1 / 16,
                Instruction::AddReg { dest, src } => dest.idx() == w.0 % 16 && src.idx() == w.1 / 16,
                Instruction::Sub { dest, src } => dest.idx() == w.0 % 16 && src.idx() == w.1 / 16,
                Instruction::Shr { reg } => reg.idx() == w.0 % 16,
                Instruction::SubN { dest, src } => dest.idx() == w.0 % 16 && src.idx() == w.1 / 16,
                Instruction::Shl { reg } => reg.idx() == w.0 % 16,
                Instruction::SneReg { reg0, reg1 } => reg0.idx() == w.0 % 16 && reg1.idx() == w.1 / 16,
                Instruction::LdAddr { addr } => addr == Address::Short(((w.0 % 16) * 256 + w.1) as u16),
                Instruction::JpRel { addr } => addr == Address::Short(((w.0 % 16) * 256 + w.1) as u16),
                Instruction::Rnd { reg, imm } => reg.idx() == w.0 % 16 && imm == w.1,
                Instruction::Drw { x, y, nibble } => x.idx() == w.0 % 16 && y.idx() == w.1 / 16 && nibble == w.1 % 16,
                Instruction::Skp { reg } => reg.idx() == w.0 % 16,
                Instruction::Sknp { reg } => reg.idx() == w.0 % 16,
                Instruction::LdReadDt { reg } => reg.idx() == w.0 % 16,
                Instruction::LdKey { reg } => reg.idx() == w.0 % 16,
                Instruction::LdSetDt { reg } => reg.idx() == w.0 % 16,
                Instruction::LdSetSt { reg } => reg.idx() == w.0 % 16,
                Instruction::AddI { reg } => reg.idx() == w.0 % 16,
                Instruction::LdSprite { reg } => reg.idx() == w.0 % 16,
                Instruction::LdBcd { reg } => reg.idx() == w.0 % 16,
                Instruction::LdRegDump { reg } => reg.idx() == w.0 % 16,
                Instruction::LdRegRead { reg } => reg.idx() == w.0 % 16,
                }
            }),
    {
        broadcast use crate::register::Register::lemma_idx_bound;

    }

    /// Encoding is injective: two well-formed, resolved instructions with
    /// the same encoded word are the same instruction, so any correct
    /// decoder recovers the semantic instruction sequence from the emitted
    /// bytes. The system-call addresses `0x0E0` and `0x0EE` are left out:
    /// their words are exactly the clear-screen and return encodings.
    #[verifier::rlimit(100)]
    pub proof fn lemma_encoding_injective(i1: Instruction, i2: Instruction)
        requires
            i1.wf(),
            i1.resolved(),
            !i1.sys_collides(),
            i2.wf(),
            i2.resolved(),
            !i2.sys_collides(),
            i1.spec_bytes() == i2.spec_bytes(),
        ensures
            i1 == i2,
    {
        broadcast use crate::register::Register::lemma_idx_bound;
        broadcast use crate::register::Register::lemma_idx_injective;

        i1.lemma_bytes_form();
        i2.lemma_bytes_form();
        i1.lemma_bytes_fields();
        i2.lemma_bytes_fields();
        assert(i1.form_tag() == i2.form_tag());
        match i1 {
            Instruction::Sys { .. } => {
                assert(i1 == i2);
            },
            Instruction::Cls => {
                assert(i1 == i2);
            },
            Instruction::Ret => {
                assert(i1 == i2);
            },
            Instruction::JpAbs { .. } => {
                assert(i1 == i2);
            },
            Instruction::Call { .. } => {
                assert(i1 == i2);
            },
            Instruction::SeImm { .. } => {
                assert(i1 == i2);
            },
            Instruction::SneImm { .. } => {
                assert(i1 == i2);
            },
            Instruction::SeReg { .. } => {
                assert(i1 == i2);
            },
            Instruction::LdImm { .. } => {
                assert(i1 == i2);
            },
            Instruction::AddImm { .. } => {
                assert(i1 == i2);
            },
            Instruction::LdReg { .. } => {
                assert(i1 == i2);
            },
            Instruction::Or { .. } => {
                assert(i1 == i2);
            },
            Instruction::And { .. } => {
                assert(i1 == i2);
            },
            Instruction::Xor { .. } => {
                assert(i1 == i2);
            },
            Instruction::AddReg { .. } => {
                assert(i1 == i2);
            },
            Instruction::Sub { .. } => {
                assert(i1 == i2);
            },
            Instruction::Shr { .. } => {
                assert(i1 == i2);
            },
            Instruction::SubN { .. } => {
                assert(i1 == i2);
            },
            Instruction::Shl { .. } => {
                assert(i1 == i2);
            },
            Instruction::SneReg { .. } => {
                assert(i1 == i2);
            },
            Instruction::LdAddr { .. } => {
                assert(i1 == i2);
            },
            Instruction::JpRel { .. } => {
                assert(i1 == i2);
            },
            Instruction::Rnd { .. } => {
                assert(i1 == i2);
            },
            Instruction::Drw { .. } => {
                assert(i1 == i2);
            },
            Instruction::Skp { .. } => {
                assert(i1 == i2);
            },
            Instruction::Sknp { .. } => {
                assert(i1 == i2);
            },
            Instruction::LdReadDt { .. } => {
                assert(i1 == i2);
            },
            Instruction::LdKey { .. } => {
                assert(i1 == i2);
            },
            Instruction::LdSetDt { .. } => {
                assert(i1 == i2);
            },
            Instruction::LdSetSt { .. } => {
                assert(i1 == i2);
            },
            Instruction::AddI { .. } => {
                assert(i1 == i2);
            },
            Instruction::LdSprite { .. } => {
                assert(i1 == i2);
            },
            Instruction::LdBcd { .. } => {
                assert(i1 == i2);
            },
            Instruction::LdRegDump { .. } => {
                assert(i1 == i2);
            },
            Instruction::LdRegRead { .. } => {
                assert(i1 == i2);
            },
        }
    }

    /// The 2-byte big-endian encoding of the instruction. Operand ranges
    /// were enforced at construction, so the only failure of encoding
    /// itself is a still unresolved label operand.
    #[verifier::rlimit(100)]
    pub fn as_bytes(&self) -> (r: Result<(u8, u8), Error>)
        requires
            self.wf(),
        ensures
            self.resolved() ==> (r matches Ok(b) && b == self.spec_bytes()),
            !self.resolved() ==> (r matches Err(e) && self.unresolved_name() matches Some(n)
                && e@ == ErrV::UnresolvedLabel(n)),
    {
        match self {
            Instruction::Sys { addr } => match addr.to_resolved() {
                Ok(a) => return Ok(((0x00 + a / 256) as u8, (a % 256) as u8)),
                Err(e) => return Err(e),
            },
            Instruction::Cls => return Ok((0x00, 0xE0)),
            Instruction::Ret => return Ok((0x00, 0xEE)),
            Instruction::JpAbs { addr } => match addr.to_resolved() {
                Ok(a) => return Ok(((0x10 + a / 256) as u8, (a % 256) as u8)),
                Err(e) => return Err(e),
            },
            Instruction::Call { addr } => match addr.to_resolved() {
                Ok(a) => return Ok(((0x20 + a / 256) as u8, (a % 256) as u8)),
                Err(e) => return Err(e),
            },
            Instruction::SeImm { reg, imm } => return Ok((0x30 + reg.as_u8(), *imm)),
            Instruction::SneImm { reg, imm } => return Ok((0x40 + reg.as_u8(), *imm)),
            Instruction::SeReg { reg0, reg1 } => return Ok((0x50 + reg0.as_u8(), reg1.as_u8() * 16)),
            Instruction::LdImm { reg, imm } => return Ok((0x60 + reg.as_u8(), *imm)),
            Instruction::AddImm { reg, imm } => return Ok((0x70 + reg.as_u8(), *imm)),
            Instruction::LdReg { dest, src } => return Ok((0x80 + dest.as_u8(), src.as_u8() * 16 + 0x00)),
            Instruction::Or { dest, src } => return Ok((0x80 + dest.as_u8(), src.as_u8() * 16 + 0x01)),
            Instruction::And { dest, src } => return Ok((0x80 + dest.as_u8(), src.as_u8() * 16 + 0x02)),
            Instruction::Xor { dest, src } => return Ok((0x80 + dest.as_u8(), src.as_u8() * 16 + 0x03)),
            Instruction::AddReg { dest, src } => return Ok((0x80 + dest.as_u8(), src.as_u8() * 16 + 0x04)),
            Instruction::Sub { dest, src } => return Ok((0x80 + dest.as_u8(), src.as_u8() * 16 + 0x05)),
            Instruction::Shr { reg } => return Ok((0x80 + reg.as_u8(), 0x06)),
            Instruction::SubN { dest, src } => return Ok((0x80 + dest.as_u8(), src.as_u8() * 16 + 0x07)),
            Instruction::Shl { reg } => return Ok((0x80 + reg.as_u8(), 0x0E)),
            Instruction::SneReg { reg0, reg1 } => return Ok((0x90 + reg0.as_u8(), reg1.as_u8() * 16)),
            Instruction::LdAddr { addr } => match addr.to_resolved() {
                Ok(a) => return Ok(((0xA0 + a / 256) as u8, (a % 256) as u8)),
                Err(e) => return Err(e),
            },
            Instruction::JpRel { addr } => match addr.to_resolved() {
                Ok(a) => return Ok(((0xB0 + a / 256) as u8, (a % 256) as u8)),
                Err(e) => return Err(e),
            },
            Instruction::Rnd { reg, imm } => return Ok((0xC0 + reg.as_u8(), *imm)),
            Instruction::Drw { x, y, nibble } => return Ok((0xD0 + x.as_u8(), y.as_u8() * 16 + *nibble)),
            Instruction::Skp { reg } => return Ok((0xE0 + reg.as_u8(), 0x9E)),
            Instruction::Sknp { reg } => return Ok((0xE0 + reg.as_u8(), 0xA1)),
            Instruction::LdReadDt { reg } => return Ok((0xF0 + reg.as_u8(), 0x07)),
            Instruction::LdKey { reg } => return Ok((0xF0 + reg.as_u8(), 0x0A)),
            Instruction::LdSetDt { reg } => return Ok((0xF0 + reg.as_u8(), 0x15)),
            Instruction::LdSetSt { reg } => return Ok((0xF0 + reg.as_u8(), 0x18)),
            Instruction::AddI { reg } => return Ok((0xF0 + reg.as_u8(), 0x1E)),
            Instruction::LdSprite { reg } => return Ok((0xF0 + reg.as_u8(), 0x29)),
            Instruction::LdBcd { reg } => return Ok((0xF0 + reg.as_u8(), 0x33)),
            Instruction::LdRegDump { reg } => return Ok((0xF0 + reg.as_u8(), 0x55)),
            Instruction::LdRegRead { reg } => return Ok((0xF0 + reg.as_u8(), 0x65)),
        }
    }
}



/// The message of the internal error for an operand-kind combination that
/// no instruction form covers.
pub open spec fn no_form_msg() -> Seq<char> {
    "no instruction form matches the operand kinds"@
}

/// The error constructing an instruction raises, `None` when a form
/// matches and construction succeeds. The error mirrors
/// [`from_parts_post`]: a wrong operand count, an immediate beyond the
/// form's field width, or a kind combination no form covers.
pub open spec fn spec_inst_err(m: Mnemonic, avs: Seq<ArgV>) -> Option<ErrV> {
    if !arity_ok(m, avs.len() as int) {
        Some(ErrV::WrongNumArgs(m, arity(m), avs.len() as usize))
    } else {
        match m {
            Mnemonic::Cls => None,
            Mnemonic::Ret => None,
            Mnemonic::Sys => match avs[0] {
                ArgV::Imm(_) => None,
                ArgV::Lbl(_) => None,
                _ => Some(ErrV::Internal(no_form_msg())),
            },
            Mnemonic::Call => match avs[0] {
                ArgV::Imm(_) => None,
                ArgV::Lbl(_) => None,
                _ => Some(ErrV::Internal(no_form_msg())),
            },
            Mnemonic::Jp => if avs.len() == 1 {
                match avs[0] {
                    ArgV::Imm(_) => None,
                    ArgV::Lbl(_) => None,
                    _ => Some(ErrV::Internal(no_form_msg())),
                }
            } else {
                match (avs[0], avs[1]) {
                    (ArgV::Reg(x), ArgV::Imm(_)) => if x == 0 {
                        None
                    } else {
                        Some(ErrV::Internal(no_form_msg()))
                    },
                    (ArgV::Reg(x), ArgV::Lbl(_)) => if x == 0 {
                        None
                    } else {
                        Some(ErrV::Internal(no_form_msg()))
                    },
                    _ => Some(ErrV::Internal(no_form_msg())),
                }
            },
            Mnemonic::Se => match (avs[0], avs[1]) {
                (ArgV::Reg(_), ArgV::Reg(_)) => None,
                (ArgV::Reg(_), ArgV::Imm(v)) => if v <= 0xFF {
                    None
                } else {
                    Some(ErrV::ExceedBounds(v, 0xFF))
                },
                _ => Some(ErrV::Internal(no_form_msg())),
            },
            Mnemonic::Sne => match (avs[0], avs[1]) {
                (ArgV::Reg(_), ArgV::Reg(_)) => None,
                (ArgV::Reg(_), ArgV::Imm(v)) => if v <= 0xFF {
                    None
                } else {
                    Some(ErrV::ExceedBounds(v, 0xFF))
                },
                _ => Some(ErrV::Internal(no_form_msg())),
            },
            Mnemonic::Ld => match (avs[0], avs[1]) {
                (ArgV::Reg(_), ArgV::Reg(_)) => None,
                (ArgV::Reg(_), ArgV::Imm(v)) => if v <= 0xFF {
                    None
                } else {
                    Some(ErrV::ExceedBounds(v, 0xFF))
                },
                (ArgV::Reg(_), ArgV::DelayTimer) => None,
                (ArgV::Reg(_), ArgV::Key) => None,
                (ArgV::Reg(_), ArgV::Memory) => None,
                (ArgV::DelayTimer, ArgV::Reg(_)) => None,
                (ArgV::SoundTimer, ArgV::Reg(_)) => None,
                (ArgV::Font, ArgV::Reg(_)) => None,
                (ArgV::Bcd, ArgV::Reg(_)) => None,
                (ArgV::Memory, ArgV::Reg(_)) => None,
                (ArgV::Index, ArgV::Imm(_)) => None,
                (ArgV::Index, ArgV::Lbl(_)) => None,
                _ => Some(ErrV::Internal(no_form_msg())),
            },
            Mnemonic::Add => match (avs[0], avs[1]) {
                (ArgV::Reg(_), ArgV::Reg(_)) => None,
                (ArgV::Reg(_), ArgV::Imm(v)) => if v <= 0xFF {
                    None
                } else {
                    Some(ErrV::ExceedBounds(v, 0xFF))
                },
                (ArgV::Index, ArgV::Reg(_)) => None,
                _ => Some(ErrV::Internal(no_form_msg())),
            },
            Mnemonic::Or => match (avs[0], avs[1]) {
                (ArgV::Reg(_), ArgV::Reg(_)) => None,
                _ => Some(ErrV::Internal(no_form_msg())),
            },
            Mnemonic::And => match (avs[0], avs[1]) {
                (ArgV::Reg(_), ArgV::Reg(_)) => None,
                _ => Some(ErrV::Internal(no_form_msg())),
            },
            Mnemonic::Xor => match (avs[0], avs[1]) {
                (ArgV::Reg(_), ArgV::Reg(_)) => None,
                _ => Some(ErrV::Internal(no_form_msg())),
            },
            Mnemonic::Sub => match (avs[0], avs[1]) {
                (ArgV::Reg(_), ArgV::Reg(_)) => None,
                _ => Some(ErrV::Internal(no_form_msg())),
            },
            Mnemonic::Subn => match (avs[0], avs[1]) {
                (ArgV::Reg(_), ArgV::Reg(_)) => None,
                _ => Some(ErrV::Internal(no_form_msg())),
            },
            Mnemonic::Shr => match avs[0] {
                ArgV::Reg(_) => None,
                _ => Some(ErrV::Internal(no_form_msg())),
            },
            Mnemonic::Shl => match avs[0] {
                ArgV::Reg(_) => None,
                _ => Some(ErrV::Internal(no_form_msg())),
            },
            Mnemonic::Rnd => match (avs[0], avs[1]) {
                (ArgV::Reg(_), ArgV::Imm(v)) => if v <= 0xFF {
                    None
                } else {
                    Some(ErrV::ExceedBounds(v, 0xFF))
                },
                _ => Some(ErrV::Internal(no_form_msg())),
            },
            Mnemonic::Drw => match (avs[0], avs[1], avs[2]) {
                (ArgV::Reg(_), ArgV::Reg(_), ArgV::Imm(n)) => if n <= 0x0F {
                    None
                } else {
                    Some(ErrV::ExceedBounds(n, 0x0F))
                },
                _ => Some(ErrV::Internal(no_form_msg())),
            },
            Mnemonic::Skp => match avs[0] {
                ArgV::Reg(_) => None,
                _ => Some(ErrV::Internal(no_form_msg())),
            },
            Mnemonic::Sknp => match avs[0] {
                ArgV::Reg(_) => None,
                _ => Some(ErrV::Internal(no_form_msg())),
            },
        }
    }
}

/// What constructing an instruction from a mnemonic and its classified
/// operands must yield: the mapping from (mnemonic, operand-kind signature)
/// to instruction variant, with its error cases. An unacceptable operand
/// count is a `WrongNumArgs`; an immediate beyond the form's field width is
/// an `ExceedBounds`; a kind combination no form covers is an internal
/// error, since the grammar of the surface syntax never produces one.
pub open spec fn from_parts_post(m: Mnemonic, avs: Seq<ArgV>, r: Result<Instruction, Error>) -> bool {
    if !arity_ok(m, avs.len() as int) {
        r matches Err(e) && e@ == ErrV::WrongNumArgs(m, arity(m), avs.len() as usize)
    } else {
        match m {
            Mnemonic::Cls => r == Ok::<Instruction, Error>(Instruction::Cls),
            Mnemonic::Ret => r == Ok::<Instruction, Error>(Instruction::Ret),
            Mnemonic::Sys => match avs[0] {
                ArgV::Imm(a) => r == Ok::<Instruction, Error>(Instruction::Sys { addr: Address::Short(a) }),
                ArgV::Lbl(n) => r matches Ok(i) && (i matches Instruction::Sys { addr: Address::Label(nm) } && nm@ == n),
                _ => internal_err(r),
            },
            Mnemonic::Call => match avs[0] {
                ArgV::Imm(a) => r == Ok::<Instruction, Error>(Instruction::Call { addr: Address::Short(a) }),
                ArgV::Lbl(n) => r matches Ok(i) && (i matches Instruction::Call { addr: Address::Label(nm) } && nm@ == n),
                _ => internal_err(r),
            },
            Mnemonic::Jp => if avs.len() == 1 {
                match avs[0] {
                    ArgV::Imm(a) => r == Ok::<Instruction, Error>(Instruction::JpAbs { addr: Address::Short(a) }),
                    ArgV::Lbl(n) => r matches Ok(i) && (i matches Instruction::JpAbs { addr: Address::Label(nm) } && nm@ == n),
                    _ => internal_err(r),
                }
            } else {
                match (avs[0], avs[1]) {
                    (ArgV::Reg(x), ArgV::Imm(a)) => if x == 0 {
                        r == Ok::<Instruction, Error>(Instruction::JpRel { addr: Address::Short(a) })
                    } else {
                        internal_err(r)
                    },
                    (ArgV::Reg(x), ArgV::Lbl(n)) => if x == 0 {
                        r matches Ok(i) && (i matches Instruction::JpRel { addr: Address::Label(nm) } && nm@ == n)
                    } else {
                        internal_err(r)
                    },
                    _ => internal_err(r),
                }
            },
            Mnemonic::Se => match (avs[0], avs[1]) {
                (ArgV::Reg(x), ArgV::Reg(y)) => r == Ok::<Instruction, Error>(Instruction::SeReg {
                    reg0: spec_register(x),
                    reg1: spec_register(y),
                }),
                (ArgV::Reg(x), ArgV::Imm(v)) => if v <= 0xFF {
                    r == Ok::<Instruction, Error>(Instruction::SeImm { reg: spec_register(x), imm: v as u8 })
                } else {
                    r matches Err(e) && e@ == ErrV::ExceedBounds(v, 0xFF)
                },
                _ => internal_err(r),
            },
            Mnemonic::Sne => match (avs[0], avs[1]) {
                (ArgV::Reg(x), ArgV::Reg(y)) => r == Ok::<Instruction, Error>(Instruction::SneReg {
                    reg0: spec_register(x),
                    reg1: spec_register(y),
                }),
                (ArgV::Reg(x), ArgV::Imm(v)) => if v <= 0xFF {
                    r == Ok::<Instruction, Error>(Instruction::SneImm { reg: spec_register(x), imm: v as u8 })
                } else {
                    r matches Err(e) && e@ == ErrV::ExceedBounds(v, 0xFF)
                },
                _ => internal_err(r),
            },
            Mnemonic::Ld => match (avs[0], avs[1]) {
                (ArgV::Reg(x), ArgV::Reg(y)) => r == Ok::<Instruction, Error>(Instruction::LdReg {
                    dest: spec_register(x),
                    src: spec_register(y),
                }),
                (ArgV::Reg(x), ArgV::Imm(v)) => if v <= 0xFF {
                    r == Ok::<Instruction, Error>(Instruction::LdImm { reg: spec_register(x), imm: v as u8 })
                } else {
                    r matches Err(e) && e@ == ErrV::ExceedBounds(v, 0xFF)
                },
                (ArgV::Reg(x), ArgV::DelayTimer) => r == Ok::<Instruction, Error>(Instruction::LdReadDt {
                    reg: spec_register(x),
                }),
                (ArgV::Reg(x), ArgV::Key) => r == Ok::<Instruction, Error>(Instruction::LdKey {
                    reg: spec_register(x),
                }),
                (ArgV::Reg(x), ArgV::Memory) => r == Ok::<Instruction, Error>(Instruction::LdRegRead {
                    reg: spec_register(x),
                }),
                (ArgV::DelayTimer, ArgV::Reg(y)) => r == Ok::<Instruction, Error>(Instruction::LdSetDt {
                    reg: spec_register(y),
                }),
                (ArgV::SoundTimer, ArgV::Reg(y)) => r == Ok::<Instruction, Error>(Instruction::LdSetSt {
                    reg: spec_register(y),
                }),
                (ArgV::Font, ArgV::Reg(y)) => r == Ok::<Instruction, Error>(Instruction::LdSprite {
                    reg: spec_register(y),
                }),
                (ArgV::Bcd, ArgV::Reg(y)) => r == Ok::<Instruction, Error>(Instruction::LdBcd {
                    reg: spec_register(y),
                }),
                (ArgV::Memory, ArgV::Reg(y)) => r == Ok::<Instruction, Error>(Instruction::LdRegDump {
                    reg: spec_register(y),
                }),
                (ArgV::Index, ArgV::Imm(a)) => r == Ok::<Instruction, Error>(Instruction::LdAddr {
                    addr: Address::Short(a),
                }),
                (ArgV::Index, ArgV::Lbl(n)) => r matches Ok(i) && (i matches Instruction::LdAddr {
                    addr: Address::Label(nm),
                } && nm@ == n),
                _ => internal_err(r),
            },
            Mnemonic::Add => match (avs[0], avs[1]) {
                (ArgV::Reg(x), ArgV::Reg(y)) => r == Ok::<Instruction, Error>(Instruction::AddReg {
                    dest: spec_register(x),
                    src: spec_register(y),
                }),
                (ArgV::Reg(x), ArgV::Imm(v)) => if v <= 0xFF {
                    r == Ok::<Instruction, Error>(Instruction::AddImm { reg: spec_register(x), imm: v as u8 })
                } else {
                    r matches Err(e) && e@ == ErrV::ExceedBounds(v, 0xFF)
                },
                (ArgV::Index, ArgV::Reg(y)) => r == Ok::<Instruction, Error>(Instruction::AddI {
                    reg: spec_register(y),
                }),
                _ => internal_err(r),
            },
            Mnemonic::Or => match (avs[0], avs[1]) {
                (ArgV::Reg(x), ArgV::Reg(y)) => r == Ok::<Instruction, Error>(Instruction::Or {
                    dest: spec_register(x),
                    src: spec_register(y),
                }),
                _ => internal_err(r),
            },
            Mnemonic::And => match (avs[0], avs[1]) {
                (ArgV::Reg(x), ArgV::Reg(y)) => r == Ok::<Instruction, Error>(Instruction::And {
                    dest: spec_register(x),
                    src: spec_register(y),
                }),
                _ => internal_err(r),
            },
            Mnemonic::Xor => match (avs[0], avs[1]) {
                (ArgV::Reg(x), ArgV::Reg(y)) => r == Ok::<Instruction, Error>(Instruction::Xor {
                    dest: spec_register(x),
                    src: spec_register(y),
                }),
                _ => internal_err(r),
            },
            Mnemonic::Sub => match (avs[0], avs[1]) {
                (ArgV::Reg(x), ArgV::Reg(y)) => r == Ok::<Instruction, Error>(Instruction::Sub {
                    dest: spec_register(x),
                    src: spec_register(y),
                }),
                _ => internal_err(r),
            },
            Mnemonic::Subn => match (avs[0], avs[1]) {
                (ArgV::Reg(x), ArgV::Reg(y)) => r == Ok::<Instruction, Error>(Instruction::SubN {
                    dest: spec_register(x),
                    src: spec_register(y),
                }),
                _ => internal_err(r),
            },
            Mnemonic::Shr => match avs[0] {
                ArgV::Reg(x) => r == Ok::<Instruction, Error>(Instruction::Shr { reg: spec_register(x) }),
                _ => internal_err(r),
            },
            Mnemonic::Shl => match avs[0] {
                ArgV::Reg(x) => r == Ok::<Instruction, Error>(Instruction::Shl { reg: spec_register(x) }),
                _ => internal_err(r),
            },
            Mnemonic::Rnd => match (avs[0], avs[1]) {
                (ArgV::Reg(x), ArgV::Imm(v)) => if v <= 0xFF {
                    r == Ok::<Instruction, Error>(Instruction::Rnd { reg: spec_register(x), imm: v as u8 })
                } else {
                    r matches Err(e) && e@ == ErrV::ExceedBounds(v, 0xFF)
                },
                _ => internal_err(r),
            },
            Mnemonic::Drw => match (avs[0], avs[1], avs[2]) {
                (ArgV::Reg(x), ArgV::Reg(y), ArgV::Imm(n)) => if n <= 0x0F {
                    r == Ok::<Instruction, Error>(Instruction::Drw {
                        x: spec_register(x),
                        y: spec_register(y),
                        nibble: n as u8,
                    })
                } else {
                    r matches Err(e) && e@ == ErrV::ExceedBounds(n, 0x0F)
                },
                _ => internal_err(r),
            },
            Mnemonic::Skp => match avs[0] {
                ArgV::Reg(x) => r == Ok::<Instruction, Error>(Instruction::Skp { reg: spec_register(x) }),
                _ => internal_err(r),
            },
            Mnemonic::Sknp => match avs[0] {
                ArgV::Reg(x) => r == Ok::<Instruction, Error>(Instruction::Sknp { reg: spec_register(x) }),
                _ => internal_err(r),
            },
        }
    }
}


/// Rewrites a symbolic address to the given resolved value; rewriting an
/// already resolved address is an internal error and leaves it unchanged.
fn resolve_addr(addr: &mut Address, val: u16) -> (r: Result<(), Error>)
    ensures
        old(addr) matches Address::Label(_) ==> (r matches Ok(_) && *final(addr)
            == Address::Short(val)),
        old(addr) matches Address::Short(_) ==> (r matches Err(e) && e@ matches ErrV::Internal(_)
            && *final(addr) == *old(addr)),
{
    match addr {
        Address::Label(_) => {
            *addr = Address::Short(val);
            Ok(())
        },
        Address::Short(_) => Err(Error::Internal("tried to resolve an already resolved address")),
    }
}

impl Instruction {
    /// The label name of a still unresolved address operand; `None` for a
    /// resolved address and for every form without one.
    pub fn unresolved_arg(&self) -> (r: Option<&Vec<u8>>)
        ensures
            match r {
                Some(n) => self.unresolved_name() == Some(n@),
                None => self.unresolved_name() is None,
            },
    {
        match self {
            Instruction::Sys { addr } => addr.label_value(),
            Instruction::Call { addr } => addr.label_value(),
            Instruction::JpRel { addr } => addr.label_value(),
            Instruction::JpAbs { addr } => addr.label_value(),
            Instruction::LdAddr { addr } => addr.label_value(),
            _ => None,
        }
    }

    /// The single permitted mutation of an instruction: replace the
    /// symbolic label of an address-bearing form with the resolved address
    /// `val`. Resolving an already resolved address is an internal error;
    /// a form without an address operand is left untouched.
    pub fn resolve_arg(&mut self, val: u16) -> (r: Result<(), Error>)
        requires
            val <= 0x0FFF,
        ensures
            old(self).unresolved_name() is Some ==> (r matches Ok(_) && Instruction::resolves_to(
                *old(self),
                val,
                *final(self),
            )),
            old(self).is_addr_form() && old(self).unresolved_name() is None ==> (r matches Err(e)
                && e@ matches ErrV::Internal(_) && *final(self) == *old(self)),
            !old(self).is_addr_form() ==> (r matches Ok(_) && *final(self) == *old(self)),
            old(self).wf() ==> final(self).wf(),
    {
        match self {
            Instruction::Sys { addr } => resolve_addr(addr, val),
            Instruction::Call { addr } => resolve_addr(addr, val),
            Instruction::JpRel { addr } => resolve_addr(addr, val),
            Instruction::JpAbs { addr } => resolve_addr(addr, val),
            Instruction::LdAddr { addr } => resolve_addr(addr, val),
            _ => Ok(()),
        }
    }

    /// How resolution rewrites an instruction: the address operand of an
    /// address-bearing form becomes the resolved value, and nothing else
    /// changes.
    pub open spec fn resolves_to(pre: Instruction, val: u16, post: Instruction) -> bool {
        match pre {
            Instruction::Sys { .. } => post == (Instruction::Sys { addr: Address::Short(val) }),
            Instruction::Call { .. } => post == (Instruction::Call { addr: Address::Short(val) }),
            Instruction::JpRel { .. } => post == (Instruction::JpRel { addr: Address::Short(val) }),
            Instruction::JpAbs { .. } => post == (Instruction::JpAbs { addr: Address::Short(val) }),
            Instruction::LdAddr { .. } => post == (Instruction::LdAddr { addr: Address::Short(val) }),
            _ => post == pre,
        }
    }

    /// Builds the one instruction variant the mnemonic and the classified
    /// operand kinds select, as [`from_parts_post`] says.
    pub fn from_parts(m: Mnemonic, args: &Vec<Argument>) -> (r: Result<Instruction, Error>)
        requires
            forall|k: int| 0 <= k < args.deep_view().len() ==> arg_wf(#[trigger] args.deep_view()[k]),
        ensures
            from_parts_post(m, args.deep_view(), r),
            r matches Ok(i) ==> i.wf(),
            r is Err <==> spec_inst_err(m, args.deep_view()) is Some,
            r matches Err(e) ==> Some(e@) == spec_inst_err(m, args.deep_view()),
    {
        let ghost avs = args.deep_view();
        let n = args.len();
        let expected: usize = match m {
            Mnemonic::Cls => 0,
            Mnemonic::Ret => 0,
            Mnemonic::Sys => 1,
            Mnemonic::Jp => 1,
            Mnemonic::Call => 1,
            Mnemonic::Shr => 1,
            Mnemonic::Shl => 1,
            Mnemonic::Skp => 1,
            Mnemonic::Sknp => 1,
            Mnemonic::Drw => 3,
            _ => 2,
        };
        if !(n == expected || (matches!(m, Mnemonic::Jp) && n == 2)) {
            return Err(Error::WrongNumArgs(m, expected, n));
        }
        match m {
            Mnemonic::Cls => build_cls(args),
            Mnemonic::Ret => build_ret(args),
            Mnemonic::Sys => build_sys(args),
            Mnemonic::Jp => build_jp(args),
            Mnemonic::Call => build_call(args),
            Mnemonic::Shr => build_shr(args),
            Mnemonic::Shl => build_shl(args),
            Mnemonic::Skp => build_skp(args),
            Mnemonic::Sknp => build_sknp(args),
            Mnemonic::Drw => build_drw(args),
            Mnemonic::Se => build_se(args),
            Mnemonic::Sne => build_sne(args),
            Mnemonic::Ld => build_ld(args),
            Mnemonic::Add => build_add(args),
            Mnemonic::Or => build_or(args),
            Mnemonic::And => build_and(args),
            Mnemonic::Xor => build_xor(args),
            Mnemonic::Sub => build_sub(args),
            Mnemonic::Subn => build_subn(args),
            Mnemonic::Rnd => build_rnd(args),
        }
    }
}


/// Builds the instruction a `cls` statement selects.
fn build_cls(args: &Vec<Argument>) -> (r: Result<Instruction, Error>)
    requires
        forall|k: int| 0 <= k < args.deep_view().len() ==> arg_wf(#[trigger] args.deep_view()[k]),
        arity_ok(Mnemonic::Cls, args.deep_view().len() as int),
    ensures
        from_parts_post(Mnemonic::Cls, args.deep_view(), r),
        r matches Ok(i) ==> i.wf(),
        r is Err <==> spec_inst_err(Mnemonic::Cls, args.deep_view()) is Some,
        r matches Err(e) ==> Some(e@) == spec_inst_err(Mnemonic::Cls, args.deep_view()),
{
    proof {
        broadcast use crate::register::lemma_register_idx_roundtrip;

    }
    let ghost avs = args.deep_view();
    let n = args.len();
    {
                return Ok(Instruction::Cls)
            }
}


/// Builds the instruction a `ret` statement selects.
fn build_ret(args: &Vec<Argument>) -> (r: Result<Instruction, Error>)
    requires
        forall|k: int| 0 <= k < args.deep_view().len() ==> arg_wf(#[trigger] args.deep_view()[k]),
        arity_ok(Mnemonic::Ret, args.deep_view().len() as int),
    ensures
        from_parts_post(Mnemonic::Ret, args.deep_view(), r),
        r matches Ok(i) ==> i.wf(),
        r is Err <==> spec_inst_err(Mnemonic::Ret, args.deep_view()) is Some,
        r matches Err(e) ==> Some(e@) == spec_inst_err(Mnemonic::Ret, args.deep_view()),
{
    proof {
        broadcast use crate::register::lemma_register_idx_roundtrip;

    }
    let ghost avs = args.deep_view();
    let n = args.len();
    {
                return Ok(Instruction::Ret)
            }
}


/// Builds the instruction a `sys` statement selects.
fn build_sys(args: &Vec<Argument>) -> (r: Result<Instruction, Error>)
    requires
        forall|k: int| 0 <= k < args.deep_view().len() ==> arg_wf(#[trigger] args.deep_view()[k]),
        arity_ok(Mnemonic::Sys, args.deep_view().len() as int),
    ensures
        from_parts_post(Mnemonic::Sys, args.deep_view(), r),
        r matches Ok(i) ==> i.wf(),
        r is Err <==> spec_inst_err(Mnemonic::Sys, args.deep_view()) is Some,
        r matches Err(e) ==> Some(e@) == spec_inst_err(Mnemonic::Sys, args.deep_view()),
{
    proof {
        broadcast use crate::register::lemma_register_idx_roundtrip;

    }
    let ghost avs = args.deep_view();
    let n = args.len();
    {
                proof {
                    assert(avs[0] == args@[0].deep_view());
                }
                match &args[0] {
                    Argument::Imm(a) => return Ok(Instruction::Sys { addr: Address::Short(*a) }),
                    Argument::Lbl(nm) => return Ok(Instruction::Sys { addr: Address::Label(clone_bytes(nm)) }),
                    _ => return Err(Error::Internal("no instruction form matches the operand kinds")),
                }
            }
}


/// Builds the instruction a `jp` statement selects.
fn build_jp(args: &Vec<Argument>) -> (r: Result<Instruction, Error>)
    requires
        forall|k: int| 0 <= k < args.deep_view().len() ==> arg_wf(#[trigger] args.deep_view()[k]),
        arity_ok(Mnemonic::Jp, args.deep_view().len() as int),
    ensures
        from_parts_post(Mnemonic::Jp, args.deep_view(), r),
        r matches Ok(i) ==> i.wf(),
        r is Err <==> spec_inst_err(Mnemonic::Jp, args.deep_view()) is Some,
        r matches Err(e) ==> Some(e@) == spec_inst_err(Mnemonic::Jp, args.deep_view()),
{
    proof {
        broadcast use crate::register::lemma_register_idx_roundtrip;

    }
    let ghost avs = args.deep_view();
    let n = args.len();
    {
                proof {
                    assert(avs[0] == args@[0].deep_view());
                }
                if n == 1 {
                    match &args[0] {
                        Argument::Imm(a) => return Ok(Instruction::JpAbs { addr: Address::Short(*a) }),
                        Argument::Lbl(nm) => return Ok(Instruction::JpAbs {
                            addr: Address::Label(clone_bytes(nm)),
                        }),
                        _ => return Err(Error::Internal("no instruction form matches the operand kinds")),
                    }
                } else {
                    proof {
                        assert(avs[1] == args@[1].deep_view());
                    }
                    match (&args[0], &args[1]) {
                        (Argument::Reg(r0), Argument::Imm(a)) => {
                            if r0.as_u8() == 0 {
                                return Ok(Instruction::JpRel { addr: Address::Short(*a) })
                            } else {
                                Err(Error::Internal("no instruction form matches the operand kinds"))
                            }
                        },
                        (Argument::Reg(r0), Argument::Lbl(nm)) => {
                            if r0.as_u8() == 0 {
                                return Ok(Instruction::JpRel { addr: Address::Label(clone_bytes(nm)) })
                            } else {
                                Err(Error::Internal("no instruction form matches the operand kinds"))
                            }
                        },
                        _ => return Err(Error::Internal("no instruction form matches the operand kinds")),
                    }
                }
            }
}


/// Builds the instruction a `call` statement selects.
fn build_call(args: &Vec<Argument>) -> (r: Result<Instruction, Error>)
    requires
        forall|k: int| 0 <= k < args.deep_view().len() ==> arg_wf(#[trigger] args.deep_view()[k]),
        arity_ok(Mnemonic::Call, args.deep_view().len() as int),
    ensures
        from_parts_post(Mnemonic::Call, args.deep_view(), r),
        r matches Ok(i) ==> i.wf(),
        r is Err <==> spec_inst_err(Mnemonic::Call, args.deep_view()) is Some,
        r matches Err(e) ==> Some(e@) == spec_inst_err(Mnemonic::Call, args.deep_view()),
{
    proof {
        broadcast use crate::register::lemma_register_idx_roundtrip;

    }
    let ghost avs = args.deep_view();
    let n = args.len();
    {
                proof {
                    assert(avs[0] == args@[0].deep_view());
                }
                match &args[0] {
                    Argument::Imm(a) => return Ok(Instruction::Call { addr: Address::Short(*a) }),
                    Argument::Lbl(nm) => return Ok(Instruction::Call { addr: Address::Label(clone_bytes(nm)) }),
                    _ => return Err(Error::Internal("no instruction form matches the operand kinds")),
                }
            }
}


/// Builds the instruction a `shr` statement selects.
fn build_shr(args: &Vec<Argument>) -> (r: Result<Instruction, Error>)
    requires
        forall|k: int| 0 <= k < args.deep_view().len() ==> arg_wf(#[trigger] args.deep_view()[k]),
        arity_ok(Mnemonic::Shr, args.deep_view().len() as int),
    ensures
        from_parts_post(Mnemonic::Shr, args.deep_view(), r),
        r matches Ok(i) ==> i.wf(),
        r is Err <==> spec_inst_err(Mnemonic::Shr, args.deep_view()) is Some,
        r matches Err(e) ==> Some(e@) == spec_inst_err(Mnemonic::Shr, args.deep_view()),
{
    proof {
        broadcast use crate::register::lemma_register_idx_roundtrip;

    }
    let ghost avs = args.deep_view();
    let n = args.len();
    {
                proof {
                    assert(avs[0] == args@[0].deep_view());
                }
                match &args[0] {
                    Argument::Reg(r0) => return Ok(Instruction::Shr { reg: *r0 }),
                    _ => return Err(Error::Internal("no instruction form matches the operand kinds")),
                }
            }
}


/// Builds the instruction a `shl` statement selects.
fn build_shl(args: &Vec<Argument>) -> (r: Result<Instruction, Error>)
    requires
        forall|k: int| 0 <= k < args.deep_view().len() ==> arg_wf(#[trigger] args.deep_view()[k]),
        arity_ok(Mnemonic::Shl, args.deep_view().len() as int),
    ensures
        from_parts_post(Mnemonic::Shl, args.deep_view(), r),
        r matches Ok(i) ==> i.wf(),
        r is Err <==> spec_inst_err(Mnemonic::Shl, args.deep_view()) is Some,
        r matches Err(e) ==> Some(e@) == spec_inst_err(Mnemonic::Shl, args.deep_view()),
{
    proof {
        broadcast use crate::register::lemma_register_idx_roundtrip;

    }
    let ghost avs = args.deep_view();
    let n = args.len();
    {
                proof {
                    assert(avs[0] == args@[0].deep_view());
                }
                match &args[0] {
                    Argument::Reg(r0) => return Ok(Instruction::Shl { reg: *r0 }),
                    _ => return Err(Error::Internal("no instruction form matches the operand kinds")),
                }
            }
}


/// Builds the instruction a `skp` statement selects.
fn build_skp(args: &Vec<Argument>) -> (r: Result<Instruction, Error>)
    requires
        forall|k: int| 0 <= k < args.deep_view().len() ==> arg_wf(#[trigger] args.deep_view()[k]),
        arity_ok(Mnemonic::Skp, args.deep_view().len() as int),
    ensures
        from_parts_post(Mnemonic::Skp, args.deep_view(), r),
        r matches Ok(i) ==> i.wf(),
        r is Err <==> spec_inst_err(Mnemonic::Skp, args.deep_view()) is Some,
        r matches Err(e) ==> Some(e@) == spec_inst_err(Mnemonic::Skp, args.deep_view()),
{
    proof {
        broadcast use crate::register::lemma_register_idx_roundtrip;

    }
    let ghost avs = args.deep_view();
    let n = args.len();
    {
                proof {
                    assert(avs[0] == args@[0].deep_view());
                }
                match &args[0] {
                    Argument::Reg(r0) => return Ok(Instruction::Skp { reg: *r0 }),
                    _ => return Err(Error::Internal("no instruction form matches the operand kinds")),
                }
            }
}


/// Builds the instruction a `sknp` statement selects.
fn build_sknp(args: &Vec<Argument>) -> (r: Result<Instruction, Error>)
    requires
        forall|k: int| 0 <= k < args.deep_view().len() ==> arg_wf(#[trigger] args.deep_view()[k]),
        arity_ok(Mnemonic::Sknp, args.deep_view().len() as int),
    ensures
        from_parts_post(Mnemonic::Sknp, args.deep_view(), r),
        r matches Ok(i) ==> i.wf(),
        r is Err <==> spec_inst_err(Mnemonic::Sknp, args.deep_view()) is Some,
        r matches Err(e) ==> Some(e@) == spec_inst_err(Mnemonic::Sknp, args.deep_view()),
{
    proof {
        broadcast use crate::register::lemma_register_idx_roundtrip;

    }
    let ghost avs = args.deep_view();
    let n = args.len();
    {
                proof {
                    assert(avs[0] == args@[0].deep_view());
                }
                match &args[0] {
                    Argument::Reg(r0) => return Ok(Instruction::Sknp { reg: *r0 }),
                    _ => return Err(Error::Internal("no instruction form matches the operand kinds")),
                }
            }
}


/// Builds the instruction a `drw` statement selects.
fn build_drw(args: &Vec<Argument>) -> (r: Result<Instruction, Error>)
    requires
        forall|k: int| 0 <= k < args.deep_view().len() ==> arg_wf(#[trigger] args.deep_view()[k]),
        arity_ok(Mnemonic::Drw, args.deep_view().len() as int),
    ensures
        from_parts_post(Mnemonic::Drw, args.deep_view(), r),
        r matches Ok(i) ==> i.wf(),
        r is Err <==> spec_inst_err(Mnemonic::Drw, args.deep_view()) is Some,
        r matches Err(e) ==> Some(e@) == spec_inst_err(Mnemonic::Drw, args.deep_view()),
{
    proof {
        broadcast use crate::register::lemma_register_idx_roundtrip;

    }
    let ghost avs = args.deep_view();
    let n = args.len();
    {
                proof {
                    assert(avs[0] == args@[0].deep_view());
                    assert(avs[1] == args@[1].deep_view());
                    assert(avs[2] == args@[2].deep_view());
                }
                match (&args[0], &args[1], &args[2]) {
                    (Argument::Reg(r0), Argument::Reg(r1), Argument::Imm(v)) => {
                        if *v <= 0x0F {
                            return Ok(Instruction::Drw { x: *r0, y: *r1, nibble: *v as u8 })
                        } else {
                            return Err(Error::ExceedBounds(*v, 0x0F))
                        }
                    },
                    _ => return Err(Error::Internal("no instruction form matches the operand kinds")),
                }
            }
}


/// Builds the instruction a `se` statement selects.
fn build_se(args: &Vec<Argument>) -> (r: Result<Instruction, Error>)
    requires
        forall|k: int| 0 <= k < args.deep_view().len() ==> arg_wf(#[trigger] args.deep_view()[k]),
        arity_ok(Mnemonic::Se, args.deep_view().len() as int),
    ensures
        from_parts_post(Mnemonic::Se, args.deep_view(), r),
        r matches Ok(i) ==> i.wf(),
        r is Err <==> spec_inst_err(Mnemonic::Se, args.deep_view()) is Some,
        r matches Err(e) ==> Some(e@) == spec_inst_err(Mnemonic::Se, args.deep_view()),
{
    proof {
        broadcast use crate::register::lemma_register_idx_roundtrip;

    }
    let ghost avs = args.deep_view();
    let n = args.len();
    {
                proof {
                    assert(avs[0] == args@[0].deep_view());
                    assert(avs[1] == args@[1].deep_view());
                }
                match (&args[0], &args[1]) {
                    (Argument::Reg(r0), Argument::Reg(r1)) => return Ok(Instruction::SeReg {
                        reg0: *r0,
                        reg1: *r1,
                    }),
                    (Argument::Reg(r0), Argument::Imm(v)) => {
                        if *v <= 0xFF {
                            return Ok(Instruction::SeImm { reg: *r0, imm: *v as u8 })
                        } else {
                            return Err(Error::ExceedBounds(*v, 0xFF))
                        }
                    },
                    _ => return Err(Error::Internal("no instruction form matches the operand kinds")),
                }
            }
}


/// Builds the instruction a `sne` statement selects.
fn build_sne(args: &Vec<Argument>) -> (r: Result<Instruction, Error>)
    requires
        forall|k: int| 0 <= k < args.deep_view().len() ==> arg_wf(#[trigger] args.deep_view()[k]),
        arity_ok(Mnemonic::Sne, args.deep_view().len() as int),
    ensures
        from_parts_post(Mnemonic::Sne, args.deep_view(), r),
        r matches Ok(i) ==> i.wf(),
        r is Err <==> spec_inst_err(Mnemonic::Sne, args.deep_view()) is Some,
        r matches Err(e) ==> Some(e@) == spec_inst_err(Mnemonic::Sne, args.deep_view()),
{
    proof {
        broadcast use crate::register::lemma_register_idx_roundtrip;

    }
    let ghost avs = args.deep_view();
    let n = args.len();
    {
                proof {
                    assert(avs[0] == args@[0].deep_view());
                    assert(avs[1] == args@[1].deep_view());
                }
                match (&args[0], &args[1]) {
                    (Argument::Reg(r0), Argument::Reg(r1)) => return Ok(Instruction::SneReg {
                        reg0: *r0,
                        reg1: *r1,
                    }),
                    (Argument::Reg(r0), Argument::Imm(v)) => {
                        if *v <= 0xFF {
                            return Ok(Instruction::SneImm { reg: *r0, imm: *v as u8 })
                        } else {
                            return Err(Error::ExceedBounds(*v, 0xFF))
                        }
                    },
                    _ => return Err(Error::Internal("no instruction form matches the operand kinds")),
                }
            }
}


/// Builds the instruction a `ld` statement selects.
fn build_ld(args: &Vec<Argument>) -> (r: Result<Instruction, Error>)
    requires
        forall|k: int| 0 <= k < args.deep_view().len() ==> arg_wf(#[trigger] args.deep_view()[k]),
        arity_ok(Mnemonic::Ld, args.deep_view().len() as int),
    ensures
        from_parts_post(Mnemonic::Ld, args.deep_view(), r),
        r matches Ok(i) ==> i.wf(),
        r is Err <==> spec_inst_err(Mnemonic::Ld, args.deep_view()) is Some,
        r matches Err(e) ==> Some(e@) == spec_inst_err(Mnemonic::Ld, args.deep_view()),
{
    proof {
        broadcast use crate::register::lemma_register_idx_roundtrip;

    }
    let ghost avs = args.deep_view();
    let n = args.len();
    {
                proof {
                    assert(avs[0] == args@[0].deep_view());
                    assert(avs[1] == args@[1].deep_view());
                }
                match (&args[0], &args[1]) {
                    (Argument::Reg(r0), Argument::Reg(r1)) => return Ok(Instruction::LdReg {
                        dest: *r0,
                        src: *r1,
                    }),
                    (Argument::Reg(r0), Argument::Imm(v)) => {
                        if *v <= 0xFF {
                            return Ok(Instruction::LdImm { reg: *r0, imm: *v as u8 })
                        } else {
                            return Err(Error::ExceedBounds(*v, 0xFF))
                        }
                    },
                    (Argument::Reg(r0), Argument::DelayTimer) => return Ok(Instruction::LdReadDt { reg: *r0 }),
                    (Argument::Reg(r0), Argument::Key) => return Ok(Instruction::LdKey { reg: *r0 }),
                    (Argument::Reg(r0), Argument::Memory) => return Ok(Instruction::LdRegRead { reg: *r0 }),
                    (Argument::DelayTimer, Argument::Reg(r1)) => return Ok(Instruction::LdSetDt { reg: *r1 }),
                    (Argument::SoundTimer, Argument::Reg(r1)) => return Ok(Instruction::LdSetSt { reg: *r1 }),
                    (Argument::Font, Argument::Reg(r1)) => return Ok(Instruction::LdSprite { reg: *r1 }),
                    (Argument::Bcd, Argument::Reg(r1)) => return Ok(Instruction::LdBcd { reg: *r1 }),
                    (Argument::Memory, Argument::Reg(r1)) => return Ok(Instruction::LdRegDump { reg: *r1 }),
                    (Argument::Index, Argument::Imm(a)) => return Ok(Instruction::LdAddr {
                        addr: Address::Short(*a),
                    }),
                    (Argument::Index, Argument::Lbl(nm)) => return Ok(Instruction::LdAddr {
                        addr: Address::Label(clone_bytes(nm)),
                    }),
                    _ => return Err(Error::Internal("no instruction form matches the operand kinds")),
                }
            }
}


/// Builds the instruction a `add` statement selects.
fn build_add(args: &Vec<Argument>) -> (r: Result<Instruction, Error>)
    requires
        forall|k: int| 0 <= k < args.deep_view().len() ==> arg_wf(#[trigger] args.deep_view()[k]),
        arity_ok(Mnemonic::Add, args.deep_view().len() as int),
    ensures
        from_parts_post(Mnemonic::Add, args.deep_view(), r),
        r matches Ok(i) ==> i.wf(),
        r is Err <==> spec_inst_err(Mnemonic::Add, args.deep_view()) is Some,
        r matches Err(e) ==> Some(e@) == spec_inst_err(Mnemonic::Add, args.deep_view()),
{
    proof {
        broadcast use crate::register::lemma_register_idx_roundtrip;

    }
    let ghost avs = args.deep_view();
    let n = args.len();
    {
                proof {
                    assert(avs[0] == args@[0].deep_view());
                    assert(avs[1] == args@[1].deep_view());
                }
                match (&args[0], &args[1]) {
                    (Argument::Reg(r0), Argument::Reg(r1)) => return Ok(Instruction::AddReg {
                        dest: *r0,
                        src: *r1,
                    }),
                    (Argument::Reg(r0), Argument::Imm(v)) => {
                        if *v <= 0xFF {
                            return Ok(Instruction::AddImm { reg: *r0, imm: *v as u8 })
                        } else {
                            return Err(Error::ExceedBounds(*v, 0xFF))
                        }
                    },
                    (Argument::Index, Argument::Reg(r1)) => return Ok(Instruction::AddI { reg: *r1 }),
                    _ => return Err(Error::Internal("no instruction form matches the operand kinds")),
                }
            }
}


/// Builds the instruction a `or` statement selects.
fn build_or(args: &Vec<Argument>) -> (r: Result<Instruction, Error>)
    requires
        forall|k: int| 0 <= k < args.deep_view().len() ==> arg_wf(#[trigger] args.deep_view()[k]),
        arity_ok(Mnemonic::Or, args.deep_view().len() as int),
    ensures
        from_parts_post(Mnemonic::Or, args.deep_view(), r),
        r matches Ok(i) ==> i.wf(),
        r is Err <==> spec_inst_err(Mnemonic::Or, args.deep_view()) is Some,
        r matches Err(e) ==> Some(e@) == spec_inst_err(Mnemonic::Or, args.deep_view()),
{
    proof {
        broadcast use crate::register::lemma_register_idx_roundtrip;

    }
    let ghost avs = args.deep_view();
    let n = args.len();
    {
                proof {
                    assert(avs[0] == args@[0].deep_view());
                    assert(avs[1] == args@[1].deep_view());
                }
                match (&args[0], &args[1]) {
                    (Argument::Reg(r0), Argument::Reg(r1)) => return Ok(Instruction::Or {
                        dest: *r0,
                        src: *r1,
                    }),
                    _ => return Err(Error::Internal("no instruction form matches the operand kinds")),
                }
            }
}


/// Builds the instruction a `and` statement selects.
fn build_and(args: &Vec<Argument>) -> (r: Result<Instruction, Error>)
    requires
        forall|k: int| 0 <= k < args.deep_view().len() ==> arg_wf(#[trigger] args.deep_view()[k]),
        arity_ok(Mnemonic::And, args.deep_view().len() as int),
    ensures
        from_parts_post(Mnemonic::And, args.deep_view(), r),
        r matches Ok(i) ==> i.wf(),
        r is Err <==> spec_inst_err(Mnemonic::And, args.deep_view()) is Some,
        r matches Err(e) ==> Some(e@) == spec_inst_err(Mnemonic::And, args.deep_view()),
{
    proof {
        broadcast use crate::register::lemma_register_idx_roundtrip;

    }
    let ghost avs = args.deep_view();
    let n = args.len();
    {
                proof {
                    assert(avs[0] == args@[0].deep_view());
                    assert(avs[1] == args@[1].deep_view());
                }
                match (&args[0], &args[1]) {
                    (Argument::Reg(r0), Argument::Reg(r1)) => return Ok(Instruction::And {
                        dest: *r0,
                        src: *r1,
                    }),
                    _ => return Err(Error::Internal("no instruction form matches the operand kinds")),
                }
            }
}


/// Builds the instruction a `xor` statement selects.
fn build_xor(args: &Vec<Argument>) -> (r: Result<Instruction, Error>)
    requires
        forall|k: int| 0 <= k < args.deep_view().len() ==> arg_wf(#[trigger] args.deep_view()[k]),
        arity_ok(Mnemonic::Xor, args.deep_view().len() as int),
    ensures
        from_parts_post(Mnemonic::Xor, args.deep_view(), r),
        r matches Ok(i) ==> i.wf(),
        r is Err <==> spec_inst_err(Mnemonic::Xor, args.deep_view()) is Some,
        r matches Err(e) ==> Some(e@) == spec_inst_err(Mnemonic::Xor, args.deep_view()),
{
    proof {
        broadcast use crate::register::lemma_register_idx_roundtrip;

    }
    let ghost avs = args.deep_view();
    let n = args.len();
    {
                proof {
                    assert(avs[0] == args@[0].deep_view());
                    assert(avs[1] == args@[1].deep_view());
                }
                match (&args[0], &args[1]) {
                    (Argument::Reg(r0), Argument::Reg(r1)) => return Ok(Instruction::Xor {
                        dest: *r0,
                        src: *r1,
                    }),
                    _ => return Err(Error::Internal("no instruction form matches the operand kinds")),
                }
            }
}


/// Builds the instruction a `sub` statement selects.
fn build_sub(args: &Vec<Argument>) -> (r: Result<Instruction, Error>)
    requires
        forall|k: int| 0 <= k < args.deep_view().len() ==> arg_wf(#[trigger] args.deep_view()[k]),
        arity_ok(Mnemonic::Sub, args.deep_view().len() as int),
    ensures
        from_parts_post(Mnemonic::Sub, args.deep_view(), r),
        r matches Ok(i) ==> i.wf(),
        r is Err <==> spec_inst_err(Mnemonic::Sub, args.deep_view()) is Some,
        r matches Err(e) ==> Some(e@) == spec_inst_err(Mnemonic::Sub, args.deep_view()),
{
    proof {
        broadcast use crate::register::lemma_register_idx_roundtrip;

    }
    let ghost avs = args.deep_view();
    let n = args.len();
    {
                proof {
                    assert(avs[0] == args@[0].deep_view());
                    assert(avs[1] == args@[1].deep_view());
                }
                match (&args[0], &args[1]) {
                    (Argument::Reg(r0), Argument::Reg(r1)) => return Ok(Instruction::Sub {
                        dest: *r0,
                        src: *r1,
                    }),
                    _ => return Err(Error::Internal("no instruction form matches the operand kinds")),
                }
            }
}


/// Builds the instruction a `subn` statement selects.
fn build_subn(args: &Vec<Argument>) -> (r: Result<Instruction, Error>)
    requires
        forall|k: int| 0 <= k < args.deep_view().len() ==> arg_wf(#[trigger] args.deep_view()[k]),
        arity_ok(Mnemonic::Subn, args.deep_view().len() as int),
    ensures
        from_parts_post(Mnemonic::Subn, args.deep_view(), r),
        r matches Ok(i) ==> i.wf(),
        r is Err <==> spec_inst_err(Mnemonic::Subn, args.deep_view()) is Some,
        r matches Err(e) ==> Some(e@) == spec_inst_err(Mnemonic::Subn, args.deep_view()),
{
    proof {
        broadcast use crate::register::lemma_register_idx_roundtrip;

    }
    let ghost avs = args.deep_view();
    let n = args.len();
    {
                proof {
                    assert(avs[0] == args@[0].deep_view());
                    assert(avs[1] == args@[1].deep_view());
                }
                match (&args[0], &args[1]) {
                    (Argument::Reg(r0), Argument::Reg(r1)) => return Ok(Instruction::SubN {
                        dest: *r0,
                        src: *r1,
                    }),
                    _ => return Err(Error::Internal("no instruction form matches the operand kinds")),
                }
            }
}


/// Builds the instruction a `rnd` statement selects.
fn build_rnd(args: &Vec<Argument>) -> (r: Result<Instruction, Error>)
    requires
        forall|k: int| 0 <= k < args.deep_view().len() ==> arg_wf(#[trigger] args.deep_view()[k]),
        arity_ok(Mnemonic::Rnd, args.deep_view().len() as int),
    ensures
        from_parts_post(Mnemonic::Rnd, args.deep_view(), r),
        r matches Ok(i) ==> i.wf(),
        r is Err <==> spec_inst_err(Mnemonic::Rnd, args.deep_view()) is Some,
        r matches Err(e) ==> Some(e@) == spec_inst_err(Mnemonic::Rnd, args.deep_view()),
{
    proof {
        broadcast use crate::register::lemma_register_idx_roundtrip;

    }
    let ghost avs = args.deep_view();
    let n = args.len();
    {
                proof {
                    assert(avs[0] == args@[0].deep_view());
                    assert(avs[1] == args@[1].deep_view());
                }
                match (&args[0], &args[1]) {
                    (Argument::Reg(r0), Argument::Imm(v)) => {
                        if *v <= 0xFF {
                            return Ok(Instruction::Rnd { reg: *r0, imm: *v as u8 })
                        } else {
                            return Err(Error::ExceedBounds(*v, 0xFF))
                        }
                    },
                    _ => return Err(Error::Internal("no instruction form matches the operand kinds")),
                }
            }
}

} // verus!
