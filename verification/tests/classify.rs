//! Tests of the operand classifier.

use chip8_asm::argument::{Argument, Rule};
use chip8_asm::error::Error;
use chip8_asm::register::Register;

fn classify(text: &str) -> Result<Argument, Error> {
    Argument::from_token(&text.as_bytes().to_vec())
}

#[test]
fn test_immediate() {
    for arg in &["10", "0x10", "0b01010", "0724"] {
        let a = classify(arg).unwrap();
        assert_eq!(a.as_rule(), Rule::Immediate);
    }
    assert_eq!(classify("10").unwrap().value(), Some(10));
    assert_eq!(classify("0x10").unwrap().value(), Some(16));
    assert_eq!(classify("0b01010").unwrap().value(), Some(10));
    assert_eq!(classify("0724").unwrap().value(), Some(0o724));
}

#[test]
fn test_register() {
    let digits = "0123456789abcdef";
    for (i, d) in digits.chars().enumerate() {
        let tok = format!("v{}", d);
        let a = classify(&tok).unwrap();
        assert_eq!(a.as_rule(), Rule::Register);
        assert_eq!(a.value(), Some(i as u16));
    }
    // hexadecimal digits are case-insensitive
    for (i, d) in "ABCDEF".chars().enumerate() {
        let tok = format!("v{}", d);
        let a = classify(&tok).unwrap();
        assert_eq!(a.as_rule(), Rule::Register);
        assert_eq!(a.value(), Some(10 + i as u16));
    }
}

#[test]
fn test_special() {
    for arg in &["I", "[I]", "DT", "ST", "F", "B"] {
        let a = classify(arg).unwrap();
        assert_eq!(a.value(), None);
    }
    assert_eq!(classify("I").unwrap().as_rule(), Rule::Index);
    assert_eq!(classify("[I]").unwrap().as_rule(), Rule::Memory);
    assert_eq!(classify("DT").unwrap().as_rule(), Rule::DelayTimer);
    assert_eq!(classify("ST").unwrap().as_rule(), Rule::SoundTimer);
    assert_eq!(classify("F").unwrap().as_rule(), Rule::Font);
    assert_eq!(classify("B").unwrap().as_rule(), Rule::Bcd);
    assert_eq!(classify("K").unwrap().as_rule(), Rule::Key);
}

#[test]
fn labels_classify() {
    for arg in &["loop_start", "_x", "skip", "vx", "v10"] {
        let a = classify(arg).unwrap();
        assert_eq!(a.as_rule(), Rule::Label);
        assert_eq!(a.value(), None);
    }
}

#[test]
fn malformed_tokens_are_syntax_errors() {
    for arg in &["", "]I[", "v 0", "!"] {
        let e = classify(arg).unwrap_err();
        assert_eq!(e, Error::Parse(arg.as_bytes().to_vec()));
    }
}

#[test]
fn register_index_out_of_range_is_internal() {
    assert!(matches!(Register::try_from(16), Err(Error::Internal(_))));
    assert!(matches!(Register::try_from(255), Err(Error::Internal(_))));
    for i in 0..=15u8 {
        let r = Register::try_from(i).unwrap();
        assert_eq!(r.as_u8(), i);
    }
}
