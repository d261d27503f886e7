//! The syntax matcher: radix-prefixed numeric literals and the line-oriented
//! surface grammar that turns source text into label and instruction items.

use vstd::prelude::*;

use crate::argument::{spec_classify, ArgV, Argument};
use crate::error::{ErrV, Error};
use crate::instruction::Mnemonic;

verus! {

/// Byte values of the characters the literal grammar reads.
pub const B_0: u8 = 48;

pub const B_9: u8 = 57;

pub const B_LOWER_A: u8 = 97;

pub const B_LOWER_B: u8 = 98;

pub const B_LOWER_F: u8 = 102;

pub const B_LOWER_X: u8 = 120;

pub const B_UPPER_A: u8 = 65;

pub const B_UPPER_F: u8 = 70;

pub const B_LOWER_V: u8 = 118;

pub const B_LOWER_Z: u8 = 122;

pub const B_UPPER_B: u8 = 66;

pub const B_UPPER_D: u8 = 68;

pub const B_UPPER_I: u8 = 73;

pub const B_UPPER_K: u8 = 75;

pub const B_UPPER_S: u8 = 83;

pub const B_UPPER_T: u8 = 84;

pub const B_UPPER_Z: u8 = 90;

pub const B_LBRACK: u8 = 91;

pub const B_RBRACK: u8 = 93;

pub const B_UNDERSCORE: u8 = 95;

pub const B_SPACE: u8 = 32;

pub const B_TAB: u8 = 9;

pub const B_CR: u8 = 13;

pub const B_LF: u8 = 10;

pub const B_COLON: u8 = 58;

pub const B_COMMA: u8 = 44;

pub const B_SEMI: u8 = 59;

pub const B_LOWER_C: u8 = 99;

pub const B_LOWER_D: u8 = 100;

pub const B_LOWER_E: u8 = 101;

pub const B_LOWER_H: u8 = 104;

pub const B_LOWER_J: u8 = 106;

pub const B_LOWER_K: u8 = 107;

pub const B_LOWER_L: u8 = 108;

pub const B_LOWER_N: u8 = 110;

pub const B_LOWER_O: u8 = 111;

pub const B_LOWER_P: u8 = 112;

pub const B_LOWER_R: u8 = 114;

pub const B_LOWER_S: u8 = 115;

pub const B_LOWER_T: u8 = 116;

pub const B_LOWER_U: u8 = 117;

pub const B_LOWER_W: u8 = 119;

pub const B_LOWER_Y: u8 = 121;

// ---------------------------------------------------------------------------
// Numeric literals
// ---------------------------------------------------------------------------

/// The value of one digit byte: `0`-`9`, `a`-`f` and `A`-`F` in their usual
/// meaning (hexadecimal digits are case-insensitive), and 16 for every other
/// byte, so that no byte outside those ranges is a valid digit in any base.
pub open spec fn digit_val(b: u8) -> int {
    if B_0 <= b <= B_9 {
        b - B_0
    } else if B_LOWER_A <= b <= B_LOWER_F {
        b - B_LOWER_A + 10
    } else if B_UPPER_A <= b <= B_UPPER_F {
        b - B_UPPER_A + 10
    } else {
        16
    }
}

/// Whether `b` is a digit of the given base.
pub open spec fn valid_digit(b: u8, radix: u16) -> bool {
    digit_val(b) < radix
}

/// Whether every byte of `s` is a digit of the given base.
pub open spec fn all_digits(s: Seq<u8>, radix: u16) -> bool {
    forall|i: int| 0 <= i < s.len() ==> valid_digit(s[i], radix)
}

/// The value of a digit string read left to right in the given base.
pub open spec fn digits_value(s: Seq<u8>, radix: u16) -> int
    decreases s.len(),
{
    if s.len() == 0 {
        0
    } else {
        digits_value(s.drop_last(), radix) * radix + digit_val(s.last())
    }
}

/// The base a literal declares by its prefix: `0x` hexadecimal, `0b` binary,
/// any other leading zero followed by more digits octal, everything else
/// (including the bare literal `0`) decimal.
pub open spec fn spec_radix(s: Seq<u8>) -> u16 {
    if s.len() >= 2 && s[0] == B_0 && s[1] == B_LOWER_X {
        16
    } else if s.len() >= 2 && s[0] == B_0 && s[1] == B_LOWER_B {
        2
    } else if s.len() >= 2 && s[0] == B_0 {
        8
    } else {
        10
    }
}

/// The digits of a literal once its radix prefix is stripped.
pub open spec fn spec_digits(s: Seq<u8>) -> Seq<u8> {
    if s.len() >= 2 && s[0] == B_0 && s[1] == B_LOWER_X {
        s.skip(2)
    } else if s.len() >= 2 && s[0] == B_0 && s[1] == B_LOWER_B {
        s.skip(2)
    } else if s.len() >= 2 && s[0] == B_0 {
        s.skip(1)
    } else {
        s
    }
}

/// Whether a literal has at least one digit and every digit fits its base.
pub open spec fn lit_valid(s: Seq<u8>) -> bool {
    spec_digits(s).len() > 0 && all_digits(spec_digits(s), spec_radix(s))
}

/// The numeric value a literal denotes.
pub open spec fn lit_value(s: Seq<u8>) -> int {
    digits_value(spec_digits(s), spec_radix(s))
}

/// A digit value is never negative.
pub proof fn lemma_digits_value_nonneg(s: Seq<u8>, radix: u16)
    requires
        radix >= 1,
    ensures
        digits_value(s, radix) >= 0,
    decreases s.len(),
{
    if s.len() > 0 {
        lemma_digits_value_nonneg(s.drop_last(), radix);
        assert(digits_value(s.drop_last(), radix) * radix >= 0) by (nonlinear_arith)
            requires
                digits_value(s.drop_last(), radix) >= 0,
                radix >= 1,
        ;
    }
}

/// Reading more digits never shrinks the value: the value of a prefix is a
/// lower bound for the value of the whole digit string.
proof fn lemma_digits_value_prefix_le(s: Seq<u8>, radix: u16, i: int)
    requires
        radix >= 2,
        0 <= i <= s.len(),
    ensures
        digits_value(s.take(i), radix) <= digits_value(s, radix),
    decreases s.len() - i,
{
    if i == s.len() {
        assert(s.take(i) =~= s);
    } else {
        assert(s.take(i + 1).drop_last() =~= s.take(i));
        assert(s.take(i + 1).last() == s[i]);
        lemma_digits_value_nonneg(s.take(i), radix);
        let v = digits_value(s.take(i), radix);
        assert(v * radix >= v) by (nonlinear_arith)
            requires
                v >= 0,
                radix >= 2,
        ;
        lemma_digits_value_prefix_le(s, radix, i + 1);
    }
}

/// The value of one digit byte, 16 for a byte that is no digit.
pub fn digit_value(b: u8) -> (d: u16)
    ensures
        d == digit_val(b),
{
    if B_0 <= b && b <= B_9 {
        (b - B_0) as u16
    } else if B_LOWER_A <= b && b <= B_LOWER_F {
        (b - B_LOWER_A) as u16 + 10
    } else if B_UPPER_A <= b && b <= B_UPPER_F {
        (b - B_UPPER_A) as u16 + 10
    } else {
        16
    }
}

/// Parses a radix-prefixed numeric literal into an integer no larger than
/// `max`, the ceiling the call site's operand class allows.
///
/// The literal is read in the base its prefix declares. Digits that do not
/// fit that base, a missing digit string, and values beyond the 16-bit
/// target width fail with `NumParse`; a well-formed value above `max` fails
/// with `ExceedBounds(value, max)`.
pub fn parse_imm(text: &Vec<u8>, max: u16) -> (r: Result<u16, Error>)
    ensures
        lit_valid(text@) && lit_value(text@) <= max ==> r == Ok::<u16, Error>(lit_value(text@) as u16),
        !lit_valid(text@) || lit_value(text@) > 0xFFFF ==> (r matches Err(e) && e@ == ErrV::NumParse),
        lit_valid(text@) && max < lit_value(text@) <= 0xFFFF ==> (r matches Err(e) && e@
            == ErrV::ExceedBounds(lit_value(text@) as u16, max)),
{
    let ghost s = text@;
    let radix: u16;
    let start: usize;
    if text.len() >= 2 && text[0] == B_0 && text[1] == B_LOWER_X {
        radix = 16;
        start = 2;
    } else if text.len() >= 2 && text[0] == B_0 && text[1] == B_LOWER_B {
        radix = 2;
        start = 2;
    } else if text.len() >= 2 && text[0] == B_0 {
        radix = 8;
        start = 1;
    } else {
        radix = 10;
        start = 0;
    }
    proof {
        assert(radix == spec_radix(s));
        assert(spec_digits(s) =~= s.skip(start as int));
    }
    if text.len() == start {
        return Err(Error::NumParse);
    }
    let ghost digits = spec_digits(s);
    let mut acc: u32 = 0;
    let mut i: usize = start;
    while i < text.len()
        invariant
            start <= i <= text.len(),
            radix == spec_radix(s),
            2 <= radix <= 16,
            digits == spec_digits(s),
            digits == s.skip(start as int),
            s == text@,
            acc <= 0xFFFF,
            acc == digits_value(digits.take(i - start), radix),
            all_digits(digits.take(i - start), radix),
        decreases text.len() - i,
    {
        let b = text[i];
        let d = digit_value(b);
        if d >= radix {
            assert(!valid_digit(digits[i - start], radix));
            return Err(Error::NumParse);
        }
        assert(acc * radix <= 0xFFFF * 16) by (nonlinear_arith)
            requires
                acc <= 0xFFFF,
                radix <= 16,
        ;
        acc = acc * (radix as u32) + (d as u32);
        proof {
            assert(digits.take(i + 1 - start).drop_last() =~= digits.take(i - start));
            assert(digits.take(i + 1 - start).last() == s[i as int]);
        }
        i = i + 1;
        if acc > 0xFFFF {
            proof {
                lemma_digits_value_prefix_le(digits, radix, i - start);
                assert(lit_value(s) > 0xFFFF);
            }
            return Err(Error::NumParse);
        }
    }
    proof {
        assert(digits.take(i - start) =~= digits);
    }
    let v = acc as u16;
    if v > max {
        Err(Error::ExceedBounds(v, max))
    } else {
        Ok(v)
    }
}


// ---------------------------------------------------------------------------
// The surface grammar
// ---------------------------------------------------------------------------

/// Whether `b` is horizontal whitespace (a space, a tab, or the carriage
/// return of a CRLF line ending).
pub open spec fn is_space(b: u8) -> bool {
    b == B_SPACE || b == B_TAB || b == B_CR
}

/// The index of the first occurrence of `b` in `s`, or `s.len()` if there
/// is none.
pub open spec fn find_byte(s: Seq<u8>, b: u8) -> nat
    decreases s.len(),
{
    if s.len() == 0 {
        0
    } else if s[0] == b {
        0
    } else {
        1 + find_byte(s.skip(1), b)
    }
}

/// `find_byte` points at the first occurrence.
pub proof fn lemma_find_byte(s: Seq<u8>, b: u8)
    ensures
        find_byte(s, b) <= s.len(),
        find_byte(s, b) < s.len() ==> s[find_byte(s, b) as int] == b,
        forall|j: int| 0 <= j < find_byte(s, b) ==> s[j] != b,
    decreases s.len(),
{
    if s.len() > 0 && s[0] != b {
        lemma_find_byte(s.skip(1), b);
        assert(s.skip(1) =~= s.subrange(1, s.len() as int));
        assert forall|j: int| 0 <= j < find_byte(s, b) implies s[j] != b by {
            if j > 0 {
                assert(s.skip(1)[j - 1] == s[j]);
            }
        }
    }
}

/// The index of the first whitespace byte in `s`, or `s.len()`.
pub open spec fn find_space(s: Seq<u8>) -> nat
    decreases s.len(),
{
    if s.len() == 0 {
        0
    } else if is_space(s[0]) {
        0
    } else {
        1 + find_space(s.skip(1))
    }
}

/// `find_space` points at the first whitespace byte.
pub proof fn lemma_find_space(s: Seq<u8>)
    ensures
        find_space(s) <= s.len(),
        find_space(s) < s.len() ==> is_space(s[find_space(s) as int]),
        forall|j: int| 0 <= j < find_space(s) ==> !is_space(s[j]),
    decreases s.len(),
{
    if s.len() > 0 && !is_space(s[0]) {
        lemma_find_space(s.skip(1));
        assert forall|j: int| 0 <= j < find_space(s) implies !is_space(s[j]) by {
            if j > 0 {
                assert(s.skip(1)[j - 1] == s[j]);
            }
        }
    }
}

/// The chunks of `s` between occurrences of the separator `b`: splitting
/// always yields one more chunk than there are separators.
pub open spec fn split_byte(s: Seq<u8>, b: u8) -> Seq<Seq<u8>>
    decreases s.len(),
{
    if s.len() == 0 {
        seq![seq![]]
    } else if s[0] == b {
        seq![seq![]].add(split_byte(s.skip(1), b))
    } else {
        let rest = split_byte(s.skip(1), b);
        seq![seq![s[0]].add(rest[0])].add(rest.skip(1))
    }
}

/// Splitting yields at least one chunk.
pub proof fn lemma_split_byte_len(s: Seq<u8>, b: u8)
    ensures
        split_byte(s, b).len() >= 1,
    decreases s.len(),
{
    if s.len() > 0 {
        lemma_split_byte_len(s.skip(1), b);
    }
}

/// `s` without its leading whitespace.
pub open spec fn trim_front(s: Seq<u8>) -> Seq<u8>
    decreases s.len(),
{
    if s.len() > 0 && is_space(s[0]) {
        trim_front(s.skip(1))
    } else {
        s
    }
}

/// `s` without its trailing whitespace.
pub open spec fn trim_back(s: Seq<u8>) -> Seq<u8>
    decreases s.len(),
{
    if s.len() > 0 && is_space(s.last()) {
        trim_back(s.drop_last())
    } else {
        s
    }
}

/// `s` without leading and trailing whitespace.
pub open spec fn trim(s: Seq<u8>) -> Seq<u8> {
    trim_back(trim_front(s))
}

/// `s` up to its first comment marker: a `;` silences the rest of a line.
pub open spec fn strip_comment(s: Seq<u8>) -> Seq<u8> {
    s.take(find_byte(s, B_SEMI) as int)
}


/// The mnemonic a word names, if any.
pub open spec fn spec_mnemonic(s: Seq<u8>) -> Option<Mnemonic> {
    if s =~= seq![B_LOWER_C, B_LOWER_L, B_LOWER_S] {
        Some(Mnemonic::Cls)
    } else if s =~= seq![B_LOWER_R, B_LOWER_E, B_LOWER_T] {
        Some(Mnemonic::Ret)
    } else if s =~= seq![B_LOWER_S, B_LOWER_Y, B_LOWER_S] {
        Some(Mnemonic::Sys)
    } else if s =~= seq![B_LOWER_J, B_LOWER_P] {
        Some(Mnemonic::Jp)
    } else if s =~= seq![B_LOWER_C, B_LOWER_A, B_LOWER_L, B_LOWER_L] {
        Some(Mnemonic::Call)
    } else if s =~= seq![B_LOWER_S, B_LOWER_E] {
        Some(Mnemonic::Se)
    } else if s =~= seq![B_LOWER_S, B_LOWER_N, B_LOWER_E] {
        Some(Mnemonic::Sne)
    } else if s =~= seq![B_LOWER_L, B_LOWER_D] {
        Some(Mnemonic::Ld)
    } else if s =~= seq![B_LOWER_A, B_LOWER_D, B_LOWER_D] {
        Some(Mnemonic::Add)
    } else if s =~= seq![B_LOWER_O, B_LOWER_R] {
        Some(Mnemonic::Or)
    } else if s =~= seq![B_LOWER_A, B_LOWER_N, B_LOWER_D] {
        Some(Mnemonic::And)
    } else if s =~= seq![B_LOWER_X, B_LOWER_O, B_LOWER_R] {
        Some(Mnemonic::Xor)
    } else if s =~= seq![B_LOWER_S, B_LOWER_U, B_LOWER_B] {
        Some(Mnemonic::Sub)
    } else if s =~= seq![B_LOWER_S, B_LOWER_U, B_LOWER_B, B_LOWER_N] {
        Some(Mnemonic::Subn)
    } else if s =~= seq![B_LOWER_S, B_LOWER_H, B_LOWER_R] {
        Some(Mnemonic::Shr)
    } else if s =~= seq![B_LOWER_S, B_LOWER_H, B_LOWER_L] {
        Some(Mnemonic::Shl)
    } else if s =~= seq![B_LOWER_R, B_LOWER_N, B_LOWER_D] {
        Some(Mnemonic::Rnd)
    } else if s =~= seq![B_LOWER_D, B_LOWER_R, B_LOWER_W] {
        Some(Mnemonic::Drw)
    } else if s =~= seq![B_LOWER_S, B_LOWER_K, B_LOWER_P] {
        Some(Mnemonic::Skp)
    } else if s =~= seq![B_LOWER_S, B_LOWER_K, B_LOWER_N, B_LOWER_P] {
        Some(Mnemonic::Sknp)
    } else {
        None
    }
}

/// One item of the syntax tree: a label definition or an instruction
/// statement with its mnemonic and classified operands.
#[derive(Debug, Clone, PartialEq, Eq)]
pub enum Item {
    Label(Vec<u8>),
    Inst(Mnemonic, Vec<Argument>),
}

/// Ghost mirror of [`Item`], used by contracts.
pub enum ItemV {
    Label(Seq<u8>),
    Inst(Mnemonic, Seq<ArgV>),
}

impl View for Item {
    type V = ItemV;

    open spec fn view(&self) -> ItemV {
        match self {
            Item::Label(n) => ItemV::Label(n@),
            Item::Inst(m, args) => ItemV::Inst(*m, args.deep_view()),
        }
    }
}

impl DeepView for Item {
    type V = ItemV;

    open spec fn deep_view(&self) -> ItemV {
        self.view()
    }
}

/// Classifies a comma-separated operand token list, each token trimmed,
/// stopping at the first failure.
pub open spec fn classify_all(toks: Seq<Seq<u8>>) -> Result<Seq<ArgV>, ErrV>
    decreases toks.len(),
{
    if toks.len() == 0 {
        Ok(seq![])
    } else {
        match spec_classify(trim(toks[0])) {
            Err(e) => Err(e),
            Ok(av) => match classify_all(toks.skip(1)) {
                Err(e) => Err(e),
                Ok(rest) => Ok(seq![av].add(rest)),
            },
        }
    }
}

/// The instruction items of one statement: nothing for a blank statement,
/// else one instruction whose mnemonic is the first word and whose
/// operands are the comma-separated tokens after it. An unknown mnemonic
/// is a syntax error carrying the word.
pub open spec fn spec_stmt(s: Seq<u8>) -> Result<Seq<ItemV>, ErrV> {
    let t = trim(s);
    if t.len() == 0 {
        Ok(seq![])
    } else {
        let j = find_space(t) as int;
        let mword = t.take(j);
        match spec_mnemonic(mword) {
            None => Err(ErrV::Parse(mword)),
            Some(m) => {
                let rest = trim(t.skip(j));
                if rest.len() == 0 {
                    Ok(seq![ItemV::Inst(m, seq![])])
                } else {
                    match classify_all(split_byte(rest, B_COMMA)) {
                        Err(e) => Err(e),
                        Ok(avs) => Ok(seq![ItemV::Inst(m, avs)]),
                    }
                }
            },
        }
    }
}

/// The items of one source line: comments are stripped, an optional
/// `name:` label definition comes first (its name must be a well-formed
/// identifier), and the rest of the line is an optional statement.
pub open spec fn spec_line(l: Seq<u8>) -> Result<Seq<ItemV>, ErrV> {
    let c = strip_comment(l);
    let k = find_byte(c, B_COLON) as int;
    if k < c.len() {
        let name = trim(c.take(k));
        if crate::argument::wf_label(name) {
            match spec_stmt(c.skip(k + 1)) {
                Err(e) => Err(e),
                Ok(items) => Ok(seq![ItemV::Label(name)].add(items)),
            }
        } else {
            Err(ErrV::Parse(name))
        }
    } else {
        spec_stmt(c)
    }
}

/// The items of a sequence of lines, in source order, stopping at the
/// first failing line.
pub open spec fn spec_items(ls: Seq<Seq<u8>>) -> Result<Seq<ItemV>, ErrV>
    decreases ls.len(),
{
    if ls.len() == 0 {
        Ok(seq![])
    } else {
        match spec_line(ls[0]) {
            Err(e) => Err(e),
            Ok(head) => match spec_items(ls.skip(1)) {
                Err(e) => Err(e),
                Ok(rest) => Ok(head.add(rest)),
            },
        }
    }
}

/// The items of a whole source text: its newline-separated lines, parsed
/// in order.
pub open spec fn items_of_text(t: Seq<u8>) -> Result<Seq<ItemV>, ErrV> {
    spec_items(split_byte(t, B_LF))
}

/// The mnemonic a word names, if any.
pub fn lookup_mnemonic(w: &Vec<u8>) -> (r: Option<Mnemonic>)
    ensures
        r == spec_mnemonic(w@),
{
    if w.len() == 3 && w[0] == B_LOWER_C && w[1] == B_LOWER_L && w[2] == B_LOWER_S {
        Some(Mnemonic::Cls)
    } else if w.len() == 3 && w[0] == B_LOWER_R && w[1] == B_LOWER_E && w[2] == B_LOWER_T {
        Some(Mnemonic::Ret)
    } else if w.len() == 3 && w[0] == B_LOWER_S && w[1] == B_LOWER_Y && w[2] == B_LOWER_S {
        Some(Mnemonic::Sys)
    } else if w.len() == 2 && w[0] == B_LOWER_J && w[1] == B_LOWER_P {
        Some(Mnemonic::Jp)
    } else if w.len() == 4 && w[0] == B_LOWER_C && w[1] == B_LOWER_A && w[2] == B_LOWER_L && w[3] == B_LOWER_L {
        Some(Mnemonic::Call)
    } else if w.len() == 2 && w[0] == B_LOWER_S && w[1] == B_LOWER_E {
        Some(Mnemonic::Se)
    } else if w.len() == 3 && w[0] == B_LOWER_S && w[1] == B_LOWER_N && w[2] == B_LOWER_E {
        Some(Mnemonic::Sne)
    } else if w.len() == 2 && w[0] == B_LOWER_L && w[1] == B_LOWER_D {
        Some(Mnemonic::Ld)
    } else if w.len() == 3 && w[0] == B_LOWER_A && w[1] == B_LOWER_D && w[2] == B_LOWER_D {
        Some(Mnemonic::Add)
    } else if w.len() == 2 && w[0] == B_LOWER_O && w[1] == B_LOWER_R {
        Some(Mnemonic::Or)
    } else if w.len() == 3 && w[0] == B_LOWER_A && w[1] == B_LOWER_N && w[2] == B_LOWER_D {
        Some(Mnemonic::And)
    } else if w.len() == 3 && w[0] == B_LOWER_X && w[1] == B_LOWER_O && w[2] == B_LOWER_R {
        Some(Mnemonic::Xor)
    } else if w.len() == 3 && w[0] == B_LOWER_S && w[1] == B_LOWER_U && w[2] == B_LOWER_B {
        Some(Mnemonic::Sub)
    } else if w.len() == 4 && w[0] == B_LOWER_S && w[1] == B_LOWER_U && w[2] == B_LOWER_B && w[3] == B_LOWER_N {
        Some(Mnemonic::Subn)
    } else if w.len() == 3 && w[0] == B_LOWER_S && w[1] == B_LOWER_H && w[2] == B_LOWER_R {
        Some(Mnemonic::Shr)
    } else if w.len() == 3 && w[0] == B_LOWER_S && w[1] == B_LOWER_H && w[2] == B_LOWER_L {
        Some(Mnemonic::Shl)
    } else if w.len() == 3 && w[0] == B_LOWER_R && w[1] == B_LOWER_N && w[2] == B_LOWER_D {
        Some(Mnemonic::Rnd)
    } else if w.len() == 3 && w[0] == B_LOWER_D && w[1] == B_LOWER_R && w[2] == B_LOWER_W {
        Some(Mnemonic::Drw)
    } else if w.len() == 3 && w[0] == B_LOWER_S && w[1] == B_LOWER_K && w[2] == B_LOWER_P {
        Some(Mnemonic::Skp)
    } else if w.len() == 4 && w[0] == B_LOWER_S && w[1] == B_LOWER_K && w[2] == B_LOWER_N && w[3] == B_LOWER_P {
        Some(Mnemonic::Sknp)
    } else {
        None
    }
}


/// A copy of `v[from..to]`.
fn sub_vec(v: &Vec<u8>, from: usize, to: usize) -> (r: Vec<u8>)
    requires
        from <= to <= v@.len(),
    ensures
        r@ == v@.subrange(from as int, to as int),
{
    let mut r: Vec<u8> = Vec::new();
    let mut i: usize = from;
    while i < to
        invariant
            from <= i <= to <= v@.len(),
            r@ == v@.subrange(from as int, i as int),
        decreases to - i,
    {
        r.push(v[i]);
        proof {
            assert(v@.subrange(from as int, i + 1) =~= v@.subrange(from as int, i as int).push(
                v@[i as int],
            ));
        }
        i = i + 1;
    }
    r
}

/// The index of the first occurrence of `b` in `v`, or `v.len()`.
fn find_byte_vec(v: &Vec<u8>, b: u8) -> (i: usize)
    ensures
        i == find_byte(v@, b),
{
    let mut i: usize = 0;
    while i < v.len()
        invariant
            0 <= i <= v@.len(),
            forall|j: int| 0 <= j < i ==> v@[j] != b,
        decreases v@.len() - i,
    {
        if v[i] == b {
            proof {
                lemma_find_byte(v@, b);
            }
            return i;
        }
        i = i + 1;
    }
    proof {
        lemma_find_byte(v@, b);
    }
    i
}

/// The index of the first whitespace byte in `v`, or `v.len()`.
fn find_space_vec(v: &Vec<u8>) -> (i: usize)
    ensures
        i == find_space(v@),
{
    let mut i: usize = 0;
    while i < v.len()
        invariant
            0 <= i <= v@.len(),
            forall|j: int| 0 <= j < i ==> !is_space(#[trigger] v@[j]),
        decreases v@.len() - i,
    {
        let c = v[i];
        if c == B_SPACE || c == B_TAB || c == B_CR {
            proof {
                lemma_find_space(v@);
            }
            return i;
        }
        i = i + 1;
    }
    proof {
        lemma_find_space(v@);
    }
    i
}


/// Whether `b` is horizontal whitespace.
fn space_byte(b: u8) -> (r: bool)
    ensures
        r == is_space(b),
{
    b == B_SPACE || b == B_TAB || b == B_CR
}

/// A copy of `v` without leading and trailing whitespace.
fn trim_vec(v: &Vec<u8>) -> (r: Vec<u8>)
    ensures
        r@ == trim(v@),
{
    let mut i: usize = 0;
    proof {
        assert(v@.skip(0) =~= v@);
    }
    while i < v.len() && space_byte(v[i])
        invariant
            0 <= i <= v@.len(),
            trim_front(v@) == trim_front(v@.skip(i as int)),
        decreases v@.len() - i,
    {
        proof {
            assert(v@.skip(i as int)[0] == v@[i as int]);
            assert(v@.skip(i as int).skip(1) =~= v@.skip(i + 1));
        }
        i = i + 1;
    }
    proof {
        if i < v@.len() {
            assert(v@.skip(i as int)[0] == v@[i as int]);
        }
        assert(trim_front(v@) == v@.skip(i as int));
    }
    let ghost tf = trim_front(v@);
    let mut j: usize = v.len();
    proof {
        assert(v@.subrange(i as int, v@.len() as int) =~= v@.skip(i as int));
    }
    while j > i && space_byte(v[j - 1])
        invariant
            i <= j <= v@.len(),
            tf == v@.skip(i as int),
            trim_back(tf) == trim_back(v@.subrange(i as int, j as int)),
        decreases j,
    {
        proof {
            let cur = v@.subrange(i as int, j as int);
            assert(cur.last() == v@[j - 1]);
            assert(cur.drop_last() =~= v@.subrange(i as int, j - 1));
        }
        j = j - 1;
    }
    proof {
        let cur = v@.subrange(i as int, j as int);
        if j > i {
            assert(cur.last() == v@[j - 1]);
        }
        assert(trim_back(cur) == cur);
        assert(tf =~= v@.subrange(i as int, v@.len() as int));
    }
    sub_vec(v, i, j)
}

/// The chunks of `v` between occurrences of the separator `b`.
fn split_vec(v: &Vec<u8>, b: u8) -> (r: Vec<Vec<u8>>)
    ensures
        r.deep_view() == split_byte(v@, b),
{
    let mut out: Vec<Vec<u8>> = Vec::new();
    let mut cur: Vec<u8> = Vec::new();
    let mut i: usize = 0;
    proof {
        assert(v@.skip(0) =~= v@);
        lemma_split_byte_len(v@, b);
        assert(out.deep_view() =~= Seq::<Seq<u8>>::empty());
        assert(cur@.add(split_byte(v@, b)[0]) =~= split_byte(v@, b)[0]);
        assert(split_byte(v@, b) =~= out.deep_view().add(
            seq![cur@.add(split_byte(v@, b)[0])].add(split_byte(v@, b).skip(1)),
        ));
    }
    while i < v.len()
        invariant
            0 <= i <= v@.len(),
            split_byte(v@, b) =~= out.deep_view().add(
                seq![cur@.add(split_byte(v@.skip(i as int), b)[0])].add(
                    split_byte(v@.skip(i as int), b).skip(1),
                ),
            ),
        decreases v@.len() - i,
    {
        proof {
            let rest = v@.skip(i as int);
            assert(rest[0] == v@[i as int]);
            assert(rest.skip(1) =~= v@.skip(i + 1));
            lemma_split_byte_len(v@.skip(i + 1), b);
        }
        let c = v[i];
        if c == b {
            let ghost out0 = out@;
            let ghost out0dv = out.deep_view();
            let ghost cur0 = cur@;
            let done = cur;
            cur = Vec::new();
            out.push(done);
            proof {
                let rest2 = split_byte(v@.skip(i + 1), b);
                assert forall|k: int| 0 <= k < out0.len() implies out.deep_view()[k] == out0dv[k] by {
                    assert(out@[k] == out0[k]);
                }
                assert(out@.len() == out0.len() + 1);
                assert(out.deep_view()[out0.len() as int] == out@[out0.len() as int].deep_view());
                assert(out@[out0.len() as int]@ == cur0);
                assert(out@[out0.len() as int].deep_view() =~= cur0);
                assert(out.deep_view() =~= out0dv.push(cur0));
                assert(cur@.add(rest2[0]) =~= rest2[0]);
                assert(cur0.add(seq![]) =~= cur0);
                assert(split_byte(v@, b) =~= out.deep_view().add(
                    seq![cur@.add(rest2[0])].add(rest2.skip(1)),
                ));
            }
        } else {
            let ghost cur0 = cur@;
            cur.push(c);
            proof {
                let rest2 = split_byte(v@.skip(i + 1), b);
                assert(cur@ =~= cur0.push(c));
                assert(cur@.add(rest2[0]) =~= cur0.add(seq![c].add(rest2[0])));
                assert(split_byte(v@, b) =~= out.deep_view().add(
                    seq![cur@.add(rest2[0])].add(rest2.skip(1)),
                ));
            }
        }
        i = i + 1;
    }
    proof {
        assert(v@.skip(i as int) =~= Seq::<u8>::empty());
        assert(cur@.add(split_byte(v@.skip(i as int), b)[0]) =~= cur@);
    }
    let ghost out0 = out@;
    let ghost out0dv = out.deep_view();
    let ghost cur0 = cur@;
    out.push(cur);
    proof {
        assert forall|k: int| 0 <= k < out0.len() implies out.deep_view()[k] == out0dv[k] by {
            assert(out@[k] == out0[k]);
        }
        assert(out@.len() == out0.len() + 1);
        assert(out.deep_view()[out0.len() as int] == out@[out0.len() as int].deep_view());
        assert(out@[out0.len() as int]@ == cur0);
        assert(out@[out0.len() as int].deep_view() =~= cur0);
        assert(out.deep_view() =~= out0dv.push(cur0));
        assert(split_byte(v@, b) =~= out.deep_view());
    }
    out
}


/// The deep view of a vector is the sequence of its elements' deep views.
pub proof fn lemma_deep_view_elems<T: DeepView>(v: &Vec<T>)
    ensures
        v.deep_view().len() == v@.len(),
        forall|k: int| 0 <= k < v@.len() ==> v.deep_view()[k] == #[trigger] v@[k].deep_view(),
{
}

/// Classifies the operand tokens of one statement, left to right, stopping
/// at the first failure, as [`classify_all`] says.
fn classify_args(toks: &Vec<Vec<u8>>) -> (r: Result<Vec<Argument>, Error>)
    ensures
        match classify_all(toks.deep_view()) {
            Ok(avs) => r matches Ok(v) && v.deep_view() == avs,
            Err(e) => r matches Err(err) && err@ == e,
        },
{
    let ghost full = toks.deep_view();
    let mut out: Vec<Argument> = Vec::new();
    let mut i: usize = 0;
    proof {
        lemma_deep_view_elems(toks);
        assert(full.skip(0) =~= full);
        assert(out.deep_view() =~= Seq::<ArgV>::empty());
    }
    while i < toks.len()
        invariant
            0 <= i <= toks@.len(),
            full == toks.deep_view(),
            full.len() == toks@.len(),
            forall|k: int| 0 <= k < toks@.len() ==> full[k] == #[trigger] toks@[k].deep_view(),
            ({
                let tail = classify_all(full.skip(i as int));
                match classify_all(full) {
                    Ok(avs) => tail matches Ok(rest) && avs =~= out.deep_view().add(rest),
                    Err(e) => !(tail is Err) ==> false,
                }
            }),
            classify_all(full) matches Err(e) ==> classify_all(full.skip(i as int)) == Err::<
                Seq<ArgV>,
                ErrV,
            >(e),
        decreases toks@.len() - i,
    {
        proof {
            assert(full.skip(i as int)[0] == full[i as int]);
            assert(full.skip(i as int).skip(1) =~= full.skip(i + 1));
            assert(toks@[i as int].deep_view() =~= toks@[i as int]@);
        }
        let t = trim_vec(&toks[i]);
        match Argument::from_token(&t) {
            Err(e) => {
                return Err(e);
            },
            Ok(a) => {
                let ghost out0 = out@;
                let ghost out0dv = out.deep_view();
                out.push(a);
                proof {
                    assert forall|k: int| 0 <= k < out0.len() implies out.deep_view()[k]
                        == out0dv[k] by {
                        assert(out@[k] == out0[k]);
                    }
                    assert(out@.len() == out0.len() + 1);
                    assert(out.deep_view()[out0.len() as int] == out@[
                        out0.len() as int
                    ].deep_view());
                    assert(out.deep_view() =~= out0dv.push(a@));
                }
            },
        }
        i = i + 1;
    }
    proof {
        assert(full.skip(i as int) =~= Seq::<Seq<u8>>::empty());
        assert(out.deep_view().add(Seq::<ArgV>::empty()) =~= out.deep_view());
    }
    Ok(out)
}

/// Parses one statement: nothing for a blank statement, else one
/// instruction item, as [`spec_stmt`] says.
fn parse_stmt(s: &Vec<u8>) -> (r: Result<Vec<Item>, Error>)
    ensures
        match spec_stmt(s@) {
            Ok(items) => r matches Ok(v) && v.deep_view() == items,
            Err(e) => r matches Err(err) && err@ == e,
        },
{
    let t = trim_vec(s);
    if t.len() == 0 {
        let out: Vec<Item> = Vec::new();
        proof {
            assert(out.deep_view() =~= Seq::<ItemV>::empty());
        }
        return Ok(out);
    }
    let j = find_space_vec(&t);
    proof {
        lemma_find_space(t@);
        assert(t@.subrange(0, j as int) =~= t@.take(j as int));
    }
    let mword = sub_vec(&t, 0, j);
    match lookup_mnemonic(&mword) {
        None => Err(Error::Parse(mword)),
        Some(m) => {
            proof {
                assert(t@.subrange(j as int, t@.len() as int) =~= t@.skip(j as int));
            }
            let restv = sub_vec(&t, j, t.len());
            let rest = trim_vec(&restv);
            if rest.len() == 0 {
                let mut out: Vec<Item> = Vec::new();
                let args: Vec<Argument> = Vec::new();
                proof {
                    assert(args.deep_view() =~= Seq::<ArgV>::empty());
                }
                out.push(Item::Inst(m, args));
                proof {
                    assert(out@.len() == 1);
                    assert(out.deep_view()[0] == out@[0].deep_view());
                    assert(out.deep_view() =~= seq![ItemV::Inst(m, seq![])]);
                }
                Ok(out)
            } else {
                let toks = split_vec(&rest, B_COMMA);
                match classify_args(&toks) {
                    Err(e) => Err(e),
                    Ok(args) => {
                        let ghost avs = args.deep_view();
                        let mut out: Vec<Item> = Vec::new();
                        out.push(Item::Inst(m, args));
                        proof {
                            assert(out@.len() == 1);
                            assert(out.deep_view()[0] == out@[0].deep_view());
                            assert(out.deep_view() =~= seq![ItemV::Inst(m, avs)]);
                        }
                        Ok(out)
                    },
                }
            }
        },
    }
}

/// Parses one source line: its comment stripped, an optional label
/// definition, an optional statement, as [`spec_line`] says.
fn parse_line(l: &Vec<u8>) -> (r: Result<Vec<Item>, Error>)
    ensures
        match spec_line(l@) {
            Ok(items) => r matches Ok(v) && v.deep_view() == items,
            Err(e) => r matches Err(err) && err@ == e,
        },
{
    let semi = find_byte_vec(l, B_SEMI);
    proof {
        lemma_find_byte(l@, B_SEMI);
        assert(l@.subrange(0, semi as int) =~= l@.take(semi as int));
    }
    let c = sub_vec(l, 0, semi);
    let k = find_byte_vec(&c, B_COLON);
    proof {
        lemma_find_byte(c@, B_COLON);
    }
    if k < c.len() {
        proof {
            assert(c@.subrange(0, k as int) =~= c@.take(k as int));
        }
        let namev = sub_vec(&c, 0, k);
        let name = trim_vec(&namev);
        if crate::argument::check_label(&name) {
            proof {
                assert(c@.subrange(k + 1, c@.len() as int) =~= c@.skip(k + 1));
            }
            let restv = sub_vec(&c, k + 1, c.len());
            match parse_stmt(&restv) {
                Err(e) => Err(e),
                Ok(items) => {
                    let mut out: Vec<Item> = Vec::new();
                    out.push(Item::Label(name));
                    let mut items = items;
                    let ghost out1 = out@;
                    let ghost out1dv = out.deep_view();
                    let ghost items0 = items@;
                    let ghost itemsdv = items.deep_view();
                    proof {
                        lemma_deep_view_elems(&items);
                        assert(out1dv =~= seq![ItemV::Label(trim(c@.take(k as int)))]);
                    }
                    out.append(&mut items);
                    proof {
                        lemma_deep_view_elems(&out);
                        assert(out@ == out1.add(items0));
                        assert forall|x: int| 0 <= x < out@.len() implies out.deep_view()[x]
                            == out1dv.add(itemsdv)[x] by {
                            if x < out1.len() {
                                assert(out@[x] == out1[x]);
                            } else {
                                assert(out@[x] == items0[x - out1.len()]);
                                assert(itemsdv[x - out1.len()] == items0[x - out1.len()].deep_view());
                            }
                        }
                        assert(out.deep_view() =~= out1dv.add(itemsdv));
                    }
                    Ok(out)
                },
            }
        } else {
            Err(Error::Parse(name))
        }
    } else {
        parse_stmt(&c)
    }
}


/// The syntax matcher: the sole authority on the surface syntax. It turns
/// raw text into the typed items the assembler consumes.
#[derive(Debug)]
pub struct Parser;

impl Parser {
    /// Parses UTF-8 source text into its label and instruction items, line
    /// by line, as [`items_of_text`] says: the first malformed line aborts
    /// the parse with its error.
    pub fn parse(text: &Vec<u8>) -> (r: Result<Vec<Item>, Error>)
        ensures
            match items_of_text(text@) {
                Ok(its) => r matches Ok(v) && v.deep_view() == its,
                Err(e) => r matches Err(err) && err@ == e,
            },
    {
        let lines = split_vec(text, B_LF);
        let ghost ls = lines.deep_view();
        let mut out: Vec<Item> = Vec::new();
        let mut i: usize = 0;
        proof {
            lemma_deep_view_elems(&lines);
            assert(ls.skip(0) =~= ls);
            assert(out.deep_view() =~= Seq::<ItemV>::empty());
        }
        while i < lines.len()
            invariant
                0 <= i <= lines@.len(),
                ls == lines.deep_view(),
                ls == split_byte(text@, B_LF),
                ls.len() == lines@.len(),
                forall|k: int| 0 <= k < lines@.len() ==> ls[k] == #[trigger] lines@[k].deep_view(),
                ({
                    let tail = spec_items(ls.skip(i as int));
                    match spec_items(ls) {
                        Ok(its) => tail matches Ok(rest) && its =~= out.deep_view().add(rest),
                        Err(e) => tail == Err::<Seq<ItemV>, ErrV>(e),
                    }
                }),
            decreases lines@.len() - i,
        {
            proof {
                assert(ls.skip(i as int)[0] == ls[i as int]);
                assert(ls.skip(i as int).skip(1) =~= ls.skip(i + 1));
                assert(lines@[i as int].deep_view() =~= lines@[i as int]@);
            }
            match parse_line(&lines[i]) {
                Err(e) => {
                    return Err(e);
                },
                Ok(items) => {
                    let mut items = items;
                    let ghost out0 = out@;
                    let ghost out0dv = out.deep_view();
                    let ghost items0 = items@;
                    let ghost itemsdv = items.deep_view();
                    proof {
                        lemma_deep_view_elems(&items);
                    }
                    out.append(&mut items);
                    proof {
                        lemma_deep_view_elems(&out);
                        assert(out@ == out0.add(items0));
                        assert forall|x: int| 0 <= x < out@.len() implies out.deep_view()[x]
                            == out0dv.add(itemsdv)[x] by {
                            if x < out0.len() {
                                assert(out@[x] == out0[x]);
                            } else {
                                assert(out@[x] == items0[x - out0.len()]);
                                assert(itemsdv[x - out0.len()] == items0[
                                    x - out0.len()
                                ].deep_view());
                            }
                        }
                        assert(out.deep_view() =~= out0dv.add(itemsdv));
                    }
                },
            }
            i = i + 1;
        }
        proof {
            assert(ls.skip(i as int) =~= Seq::<Seq<u8>>::empty());
            assert(out.deep_view().add(Seq::<ItemV>::empty()) =~= out.deep_view());
        }
        Ok(out)
    }
}


/// Whether an item's classified operands satisfy the classifier's
/// well-formedness bounds.
pub open spec fn item_wf(it: ItemV) -> bool {
    match it {
        ItemV::Inst(_, avs) => forall|j: int|
            0 <= j < avs.len() ==> crate::argument::arg_wf(#[trigger] avs[j]),
        ItemV::Label(_) => true,
    }
}

/// Whether every item's operands are well formed.
pub open spec fn items_args_wf(items: Seq<ItemV>) -> bool {
    forall|k: int| 0 <= k < items.len() ==> item_wf(#[trigger] items[k])
}

/// Classification only yields well-formed operand lists.
pub proof fn lemma_classify_all_wf(toks: Seq<Seq<u8>>)
    ensures
        classify_all(toks) matches Ok(avs) ==> forall|j: int|
            0 <= j < avs.len() ==> crate::argument::arg_wf(#[trigger] avs[j]),
    decreases toks.len(),
{
    if toks.len() > 0 {
        crate::argument::lemma_classify_wf(trim(toks[0]));
        lemma_classify_all_wf(toks.skip(1));
        match classify_all(toks) {
            Ok(avs) => {
                let first = match spec_classify(trim(toks[0])) {
                    Ok(av) => av,
                    Err(_) => arbitrary(),
                };
                let rest = match classify_all(toks.skip(1)) {
                    Ok(r) => r,
                    Err(_) => arbitrary(),
                };
                assert(avs == seq![first].add(rest));
                assert forall|j: int| 0 <= j < avs.len() implies crate::argument::arg_wf(
                    #[trigger] avs[j],
                ) by {
                    if j == 0 {
                        assert(avs[0] == first);
                    } else {
                        assert(avs[j] == rest[j - 1]);
                    }
                }
            },
            Err(_) => {},
        }
    }
}

/// A parsed statement's items are well formed.
pub proof fn lemma_stmt_wf(s: Seq<u8>)
    ensures
        spec_stmt(s) matches Ok(items) ==> forall|k: int|
            0 <= k < items.len() ==> item_wf(#[trigger] items[k]),
{
    let t = trim(s);
    if t.len() > 0 {
        let j = find_space(t) as int;
        if spec_mnemonic(t.take(j)) is Some {
            let rest = trim(t.skip(j));
            if rest.len() > 0 {
                lemma_classify_all_wf(split_byte(rest, B_COMMA));
            }
        }
    }
}

/// A parsed line's items are well formed.
pub proof fn lemma_line_wf(l: Seq<u8>)
    ensures
        spec_line(l) matches Ok(items) ==> forall|k: int|
            0 <= k < items.len() ==> item_wf(#[trigger] items[k]),
{
    let c = strip_comment(l);
    let k = find_byte(c, B_COLON) as int;
    if k < c.len() {
        lemma_stmt_wf(c.skip(k + 1));
    } else {
        lemma_stmt_wf(c);
    }
}

/// Every item the syntax matcher produces is well formed.
pub proof fn lemma_items_wf(ls: Seq<Seq<u8>>)
    ensures
        spec_items(ls) matches Ok(items) ==> items_args_wf(items),
    decreases ls.len(),
{
    if ls.len() > 0 {
        lemma_line_wf(ls[0]);
        lemma_items_wf(ls.skip(1));
        match spec_items(ls) {
            Ok(items) => {
                let head = match spec_line(ls[0]) {
                    Ok(h) => h,
                    Err(_) => arbitrary(),
                };
                let rest = match spec_items(ls.skip(1)) {
                    Ok(r) => r,
                    Err(_) => arbitrary(),
                };
                assert(items == head.add(rest));
                assert forall|k: int| 0 <= k < items.len() implies item_wf(
                    #[trigger] items[k],
                ) by {
                    if k < head.len() {
                        assert(items[k] == head[k]);
                    } else {
                        assert(items[k] == rest[k - head.len()]);
                    }
                }
            },
            Err(_) => {},
        }
    }
}

/// The items of a well-formed source text carry only well-formed operands.
pub proof fn lemma_text_items_wf(t: Seq<u8>)
    ensures
        items_of_text(t) matches Ok(items) ==> items_args_wf(items),
{
    lemma_items_wf(split_byte(t, B_LF));
}

} // verus!
