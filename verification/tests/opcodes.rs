//! One test per instruction form: each statement assembles to its
//! documented 2-byte word, whose high nibble is the form's class
//! discriminator.

use chip8_asm::assembler::assemble;

fn word(source: &str) -> [u8; 2] {
    let mut text = source.as_bytes().to_vec();
    text.push(b'\n');
    let bin = assemble(&text).unwrap();
    assert_eq!(bin.len(), 2);
    [bin[0], bin[1]]
}

#[test]
fn every_form_encodes_with_its_discriminator() {
    let cases: &[(&str, [u8; 2])] = &[
        ("sys 0x300", [0x03, 0x00]),
        ("cls", [0x00, 0xE0]),
        ("ret", [0x00, 0xEE]),
        ("jp 0x345", [0x13, 0x45]),
        ("call 0x456", [0x24, 0x56]),
        ("se v1, 0x22", [0x31, 0x22]),
        ("sne v2, 0x33", [0x42, 0x33]),
        ("se v3, v4", [0x53, 0x40]),
        ("ld v5, 0x66", [0x65, 0x66]),
        ("add v6, 0x77", [0x76, 0x77]),
        ("ld v7, v8", [0x87, 0x80]),
        ("or v1, v2", [0x81, 0x21]),
        ("and v3, v4", [0x83, 0x42]),
        ("xor v5, v6", [0x85, 0x63]),
        ("add v7, v8", [0x87, 0x84]),
        ("sub v9, va", [0x89, 0xA5]),
        ("shr v1", [0x81, 0x06]),
        ("subn v2, v3", [0x82, 0x37]),
        ("shl v4", [0x84, 0x0E]),
        ("sne v5, v6", [0x95, 0x60]),
        ("ld I, 0x678", [0xA6, 0x78]),
        ("jp v0, 0x234", [0xB2, 0x34]),
        ("rnd v1, 0x44", [0xC1, 0x44]),
        ("drw v2, v3, 0x5", [0xD2, 0x35]),
        ("skp v4", [0xE4, 0x9E]),
        ("sknp v5", [0xE5, 0xA1]),
        ("ld v6, DT", [0xF6, 0x07]),
        ("ld v7, K", [0xF7, 0x0A]),
        ("ld DT, v8", [0xF8, 0x15]),
        ("ld ST, v9", [0xF9, 0x18]),
        ("add I, va", [0xFA, 0x1E]),
        ("ld F, vb", [0xFB, 0x29]),
        ("ld B, vc", [0xFC, 0x33]),
        ("ld [I], vd", [0xFD, 0x55]),
        ("ld ve, [I]", [0xFE, 0x65]),
    ];
    assert_eq!(cases.len(), 35);
    for (source, expected) in cases {
        let got = word(source);
        assert_eq!(&got, expected, "encoding of `{}`", source);
        assert_eq!(got[0] >> 4, expected[0] >> 4, "discriminator of `{}`", source);
    }
}

#[test]
fn shared_discriminator_groups_stay_distinct() {
    // the arithmetic and logic forms share class 8 and differ in the
    // trailing code of the second byte
    let codes: Vec<u8> = [
        "ld v0, v1", "or v0, v1", "and v0, v1", "xor v0, v1", "add v0, v1", "sub v0, v1",
        "shr v0", "subn v0, v1", "shl v0",
    ]
    .iter()
    .map(|s| word(s)[1] & 0x0F)
    .collect();
    assert_eq!(codes, vec![0x0, 0x1, 0x2, 0x3, 0x4, 0x5, 0x6, 0x7, 0xE]);
}
