//! End-to-end tests of the assembler driver.

use chip8_asm::assembler::{assemble, Assembler};
use chip8_asm::error::Error;
use chip8_asm::parser::Parser;

fn run(source: &str) -> Result<Vec<u8>, Error> {
    assemble(&source.as_bytes().to_vec())
}

#[test]
fn test_assemble() {
    let progs = [
        // one statement of nearly every form
        "sys 0x300\ncls\nret\njp 0x345\ncall 0x456\nse v1, 0x22\nsne v2, 0x33\n\
         se v3, v4\nld v5, 0x66\nadd v6, 0x77\nld v7, v8\nor v1, v2\nand v3, v4\n\
         xor v5, v6\nadd v7, v8\nsub v9, va\nshr v1\nsubn v2, v3\nshl v4\nsne v5, v6\n\
         ld I, 0x678\njp v0, 0x234\nrnd v1, 0x44\ndrw v2, v3, 0x5\nskp v4\nsknp v5\n\
         ld v6, DT\nld v7, K\nld DT, v8\nld ST, v9\nadd I, va\nld F, vb\nld B, vc\n\
         ld [I], vd\nld ve, [I]\n",
        // labels, forward and backward references, comments
        "start: cls ; clear\njp main\nloop: add v0, 0x01\njp loop\nmain: ld v0, 0x00\njp start\n",
    ];
    for text in progs {
        let parsed = Parser::parse(&text.as_bytes().to_vec()).unwrap();
        let built = Assembler::build(&parsed).unwrap();
        let bin = built.write_bin().unwrap();
        assert!(bin.len() % 2 == 0);
        assert!(!bin.is_empty());
    }
}

#[test]
fn cls_ret_assembles_to_fixed_words() {
    assert_eq!(run("cls\nret\n").unwrap(), vec![0x00, 0xE0, 0x00, 0xEE]);
}

#[test]
fn load_and_add_immediates() {
    assert_eq!(run("ld v0, 0x10\nadd v0, 0x05\n").unwrap(), vec![0x60, 0x10, 0x70, 0x05]);
}

#[test]
fn forward_jump_resolves_to_0x204() {
    // with origin 0x200 the third statement sits at 0x204,
    // so the jump word is 0x1000 | 0x204
    assert_eq!(
        run("jp skip\nadd v0, 0x01\nskip: cls\n").unwrap(),
        vec![0x12, 0x04, 0x70, 0x01, 0x00, 0xE0]
    );
}

#[test]
fn backward_and_forward_references_resolve_alike() {
    // the definition of `l` sits after two instructions in both programs,
    // so the referencing word is the same wherever the reference stands
    let fwd = run("sys l\ncls\nl: ret\n").unwrap();
    let bwd = run("cls\nsys l\nl: ret\n").unwrap();
    assert_eq!(&fwd[0..2], &[0x02, 0x04]);
    assert_eq!(&bwd[2..4], &[0x02, 0x04]);
}

#[test]
fn duplicate_label_fails_and_yields_no_output() {
    let r = run("l: cls\nl: ret\n");
    assert_eq!(r, Err(Error::DuplicateLabel(b"l".to_vec())));
}

#[test]
fn undefined_label_fails_and_yields_no_output() {
    let r = run("jp nowhere\ncls\n");
    assert_eq!(r, Err(Error::UnresolvedLabel(b"nowhere".to_vec())));
}

#[test]
fn label_alone_on_a_line_binds_the_next_instruction() {
    assert_eq!(
        run("cls\nhere:\njp here\n").unwrap(),
        vec![0x00, 0xE0, 0x12, 0x02]
    );
}

#[test]
fn numeric_jump_targets_need_no_label() {
    assert_eq!(run("jp 0x200\n").unwrap(), vec![0x12, 0x00]);
}

#[test]
fn wrong_operand_count_is_reported() {
    match run("drw v0, v1\n") {
        Err(Error::WrongNumArgs(_, expected, found)) => {
            assert_eq!(expected, 3);
            assert_eq!(found, 2);
        }
        other => panic!("expected WrongNumArgs, got {:?}", other),
    }
}

#[test]
fn byte_immediate_out_of_range() {
    assert_eq!(run("ld v0, 0x100\n").unwrap_err(), Error::ExceedBounds(256, 255));
    assert_eq!(run("rnd v1, 300\n").unwrap_err(), Error::ExceedBounds(300, 255));
}

#[test]
fn draw_row_count_out_of_range() {
    assert_eq!(run("drw v0, v1, 16\n").unwrap_err(), Error::ExceedBounds(16, 15));
}

#[test]
fn unknown_mnemonic_is_a_syntax_error() {
    assert_eq!(run("frob v0\n").unwrap_err(), Error::Parse(b"frob".to_vec()));
}

#[test]
fn bad_operand_kinds_are_internal() {
    assert!(matches!(run("ld K, v0\n").unwrap_err(), Error::Internal(_)));
    assert!(matches!(run("add B, v0\n").unwrap_err(), Error::Internal(_)));
}

#[test]
fn bad_literal_digits_fail_number_format() {
    assert_eq!(run("ld v0, 0xZZ\n").unwrap_err(), Error::NumParse);
}

#[test]
fn comments_and_blank_lines_are_ignored() {
    assert_eq!(
        run("; a whole comment line\n\n   cls   ; trailing\n\nret\n").unwrap(),
        vec![0x00, 0xE0, 0x00, 0xEE]
    );
}

#[test]
fn missing_final_newline_is_accepted() {
    assert_eq!(run("cls").unwrap(), vec![0x00, 0xE0]);
}

#[test]
fn crlf_line_endings_are_accepted() {
    assert_eq!(run("cls\r\nret\r\n").unwrap(), vec![0x00, 0xE0, 0x00, 0xEE]);
}

#[test]
fn tabs_separate_like_spaces() {
    assert_eq!(run("\tld\tv0,\t0x10\n").unwrap(), vec![0x60, 0x10]);
}
