use iridium_assembler::validate::validate_assembly_lines;
use iridium_assembler::error::AsmErrorKind;

#[test]
#[should_panic]
fn test_invalid_rrr() {
    let lines = vec!["ADD $zero $r1 $r1".to_owned()];
    validate_assembly_lines(&lines).unwrap();
}

#[test]
#[should_panic]
fn test_unsigned_imm_too_large() {
    let lines = vec!["ADDI $r0, $r1, 100000".to_owned()];
    validate_assembly_lines(&lines).unwrap();
}

#[test]
#[should_panic]
fn test_signed_imm_too_large() {
    let lines = vec!["ADDI $r0, $r1, 100".to_owned()];
    validate_assembly_lines(&lines).unwrap();
}

#[test]
#[should_panic]
fn test_non_ascii_char_fill() {
    let lines = vec![".fill 'д'".to_owned()];
    validate_assembly_lines(&lines).unwrap();
}

#[test]
#[should_panic]
fn test_invalid_fill_integer() {
    let lines = vec![".fill -100000".to_owned()];
    validate_assembly_lines(&lines).unwrap();
}

#[test]
#[should_panic]
fn test_invalid_syscall_code() {
    let lines = vec![".syscall 18".to_owned()];
    validate_assembly_lines(&lines).unwrap();
}

#[test]
#[should_panic]
fn test_label_with_space() {
    let lines = vec!["hello world: ADD $r0, $r1, $r2".to_owned()];
    validate_assembly_lines(&lines).unwrap();
}

#[test]
#[should_panic]
fn test_label_with_non_alphabet_char() {
    let lines = vec!["he**world: ADD $r0, $r1, $r2".to_owned()];
    validate_assembly_lines(&lines).unwrap();
}

#[test]
#[should_panic]
fn test_invalid_lli() {
    let lines = vec!["LLI $r0, 86".to_owned()];
    validate_assembly_lines(&lines).unwrap();
}

// One line of every recognized form goes through validation whole.
#[test]
fn all_forms_validate() {
    let lines = vec![
        "start: ADD $r0, $zero, $r1".to_owned(),
        "NAND $r2, $r3, $r4".to_owned(),
        "BEQ $r5, $zero, $r6".to_owned(),
        "ADDI $r1, $zero, -64".to_owned(),
        "SW $r1, $r2, 30".to_owned(),
        "LW $r6, $r5, -10".to_owned(),
        "loop: LUI $r0, 500".to_owned(),
        "JAL $r5, $r6".to_owned(),
        "NOP".to_owned(),
        "LLI $r0, 63".to_owned(),
        "MOVI $r1, 0xF830".to_owned(),
        "MOVI $r2, @start".to_owned(),
        ".fill 'a'".to_owned(),
        "data: .fill -7".to_owned(),
        ".space 4 [1, 0x2, 0b11]".to_owned(),
        ".text \"hi\"".to_owned(),
        ".syscall 7".to_owned(),
        "".to_owned(),
    ];
    validate_assembly_lines(&lines).unwrap();
}

#[test]
fn unrecognized_line_kind() {
    let e = validate_assembly_lines(&vec!["bogus line".to_owned()]).unwrap_err();
    assert_eq!(e.kind, AsmErrorKind::Unrecognized);
}

// A label reference is rejected where only a plain literal is allowed.
#[test]
fn fill_rejects_label_reference() {
    let e = validate_assembly_lines(&vec![".fill @somewhere".to_owned()]).unwrap_err();
    assert_eq!(e.kind, AsmErrorKind::Unrecognized);
}
