use iridium_assembler::bytes::words_to_bytes;
use iridium_assembler::error::AsmErrorKind;
use iridium_assembler::expand::substitute_pseudoinstrs;
use iridium_assembler::labels::{generate_label_table, substitute_labels, LabelTable};
use iridium_assembler::pipeline::assemble_lines;
use iridium_assembler::validate::validate_assembly_lines;

#[test]
#[should_panic]
fn test_non_existent_label_operand() {
    let mut _lines = vec!["MOVI $r1, @nowhere".to_owned()];
    _lines = _lines.into_iter().filter(|line| !line.is_empty()).collect();
    validate_assembly_lines(&_lines).unwrap();

    _lines = substitute_pseudoinstrs(&_lines).unwrap();

    let label_table = generate_label_table(&_lines).unwrap();
    _lines = substitute_labels(&_lines, &label_table).unwrap();
}

// Duplicate label definitions always fail, wherever the two lines stand.
#[test]
fn duplicate_labels_fail() {
    let lines = vec![
        "here: NOP".to_owned(),
        "NOP".to_owned(),
        "here: NOP".to_owned(),
    ];
    let e = generate_label_table(&lines).unwrap_err();
    assert_eq!(e.kind, AsmErrorKind::DuplicateLabel);

    let lines2 = vec![
        "NOP".to_owned(),
        "x: NOP".to_owned(),
        "y: NOP".to_owned(),
        "x: NOP".to_owned(),
    ];
    let e2 = generate_label_table(&lines2).unwrap_err();
    assert_eq!(e2.kind, AsmErrorKind::DuplicateLabel);
}

#[test]
fn label_table_records_indices() {
    let lines = vec![
        "start: ADDI $r0, $zero, 5".to_owned(),
        "ADD $r0, $r0, $r0".to_owned(),
        "end: NOP".to_owned(),
    ];
    let t = generate_label_table(&lines).unwrap();
    assert_eq!(t.lookup("start"), Some(0));
    assert_eq!(t.lookup("end"), Some(2));
    assert_eq!(t.lookup("absent"), None);
}

// A label in an `ADDI` immediate takes the address's low six bits:
// 70 & 0x3F is 6.
#[test]
fn addi_label_takes_low_bits() {
    let table = LabelTable { names: vec!["L".to_string()], addrs: vec![70] };
    let lines = substitute_labels(&vec!["ADDI $r0, $r0, @L".to_owned()], &table).unwrap();
    assert_eq!(lines[0], "ADDI $r0, $r0, 6");
}

// A label in a `LUI` immediate takes the address's upper ten bits.
#[test]
fn lui_label_takes_high_bits() {
    let table = LabelTable { names: vec!["L".to_string()], addrs: vec![70] };
    let lines = substitute_labels(&vec!["LUI $r5, @L".to_owned()], &table).unwrap();
    assert_eq!(lines[0], "LUI $r5, 1");
}

// A label anywhere else substitutes the raw address.
#[test]
fn jal_label_takes_raw_address() {
    let table = LabelTable { names: vec!["L".to_string()], addrs: vec![70] };
    let lines = substitute_labels(&vec!["JAL $r1, $r2, @L".to_owned()], &table).unwrap();
    assert_eq!(lines[0], "JAL $r1, $r2, 70");
}

// End to end: two instructions, one label, two words.
#[test]
fn assemble_two_lines() {
    let lines = vec![
        "start: ADDI $r0, $zero, 5".to_owned(),
        "ADD $r0, $r0, $r0".to_owned(),
    ];
    let t = generate_label_table(&lines).unwrap();
    assert_eq!(t.lookup("start"), Some(0));
    let words = assemble_lines(&lines).unwrap();
    // First word: opcode 0x2000, reg_a $r0 (1) << 10, reg_b $zero (0) << 7,
    // immediate 5.  Second: opcode 0, all three registers $r0 (1).
    assert_eq!(words, vec![0x2405_u16, 0x0490_u16]);
}

// End to end with pseudo-instructions and a backward label reference.
#[test]
fn assemble_with_expansion_and_labels() {
    let lines = vec![
        "start: ADDI $r0, $zero, 5".to_owned(),
        "".to_owned(),
        "MOVI $r1, @start".to_owned(),
        "BEQ $r0, $r1, $zero".to_owned(),
    ];
    let words = assemble_lines(&lines).unwrap();
    // MOVI expands to ADDI $r1, $zero, 0 and LUI $r1, 0: label start is 0.
    assert_eq!(words.len(), 4);
    assert_eq!(words[0], 0x2405);
    assert_eq!(words[1], 0x2800);
    assert_eq!(words[2], 0x6800);
    assert_eq!(words[3], 0xC500);
}

#[test]
fn assemble_unresolved_label_fails() {
    let e = assemble_lines(&vec!["MOVI $r1, @nowhere".to_owned()]).unwrap_err();
    assert_eq!(e.kind, AsmErrorKind::UnresolvedLabel);
}

#[test]
fn assemble_duplicate_label_fails() {
    let e = assemble_lines(&vec!["a: NOP".to_owned(), "a: NOP".to_owned()]).unwrap_err();
    assert_eq!(e.kind, AsmErrorKind::DuplicateLabel);
}

// Words persist as two bytes each, high byte first.
#[test]
fn words_serialize_big_endian() {
    let bytes = words_to_bytes(&vec![0x1234_u16, 0xABCD_u16]);
    assert_eq!(bytes, vec![0x12_u8, 0x34, 0xAB, 0xCD]);
    assert_eq!(words_to_bytes(&vec![]).len(), 0);
}
