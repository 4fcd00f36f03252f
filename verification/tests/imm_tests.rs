use iridium_assembler::imm::{get_imm_from_instr, validate_space};
use iridium_assembler::literal::convert_to_i64;
use iridium_assembler::error::AsmErrorKind;

#[test]
fn test_get_imm_from_instr() {
    let mut imm = get_imm_from_instr("ADDI $r0, $r1, 10", 7, true, true, true).unwrap();
    assert_eq!(imm.unwrap(), 10);

    imm = get_imm_from_instr("ADDI $r0, $r1, -10", 7, true, true, true).unwrap();
    assert_eq!(imm.unwrap(), -10);

    imm = get_imm_from_instr("ADDI $r0, $r1, 0x03A", 7, true, true, true).unwrap();
    assert_eq!(imm.unwrap(), 0x3A);

    imm = get_imm_from_instr("ADDI $r0, $r1, 0b011010", 7, true, true, true).unwrap();
    assert_eq!(imm.unwrap(), 0b11010);

    imm = get_imm_from_instr(".fill 'a'", 16, true, true, false).unwrap();
    assert_eq!(imm.unwrap(), 97);

    imm = get_imm_from_instr("ADDI $r0, $r1, @label", 16, true, true, true).unwrap();
    assert_eq!(imm, None);
}

#[test]
#[should_panic]
fn test_invalid_label_imm() {
    let imm = get_imm_from_instr("ADDI $r0, $r1, @label", 16, true, true, false).unwrap();
    assert_eq!(imm, None);
}

#[test]
#[should_panic]
fn test_negative_unsigned_imm() {
    let _imm = get_imm_from_instr("ADDI $r0, $r1, -10", 7, false, false, true).unwrap();
}

#[test]
#[should_panic]
fn unsigned_imm_out_of_range() {
    let _imm = get_imm_from_instr("ADDI $r0, $r1, 128", 7, false, false, true).unwrap();
}

#[test]
#[should_panic]
fn signed_imm_to_large() {
    let _imm = get_imm_from_instr("ADDI $r0, $r1, 64", 7, true, false, true).unwrap();
}

#[test]
#[should_panic]
fn signed_imm_too_small() {
    let _imm = get_imm_from_instr("ADDI $r0, $r1, -65", 7, true, false, true).unwrap();
}

// The signed 7-bit field's lower bound itself is accepted.
#[test]
fn signed_imm_lower_bound_ok() {
    let imm = get_imm_from_instr("ADDI $r0, $r1, -64", 7, true, false, true).unwrap();
    assert_eq!(imm.unwrap(), -64);
    let e = get_imm_from_instr("ADDI $r0, $r1, 128", 7, true, false, true).unwrap_err();
    assert_eq!(e.kind, AsmErrorKind::ImmRange);
}

#[test]
fn test_validate_space() {
    validate_space(".space 10 [100, 200, 0xFF, 0b001100, 'a', 'b']").unwrap();
}

#[test]
#[should_panic]
fn test_validate_invalid_space() {
    validate_space(".space 10 [100, 200, 0xFFFFF, 0b001100, 'a', 'b']").unwrap();
}

#[test]
#[should_panic]
fn test_array_too_small() {
    validate_space(".space 3 [100, 200, 50, 20]").unwrap();
}

#[test]
fn space_error_kinds() {
    let e = validate_space(".space 3 [100, 200, 50, 20]").unwrap_err();
    assert_eq!(e.kind, AsmErrorKind::SpaceTooLong);
    let e = validate_space(".space 10 [100000]").unwrap_err();
    assert_eq!(e.kind, AsmErrorKind::ImmRange);
    let e = validate_space(".space ['a']").unwrap_err();
    assert_eq!(e.kind, AsmErrorKind::BadLiteral);
}

#[test]
fn test_convert_to_i64() {
    assert_eq!(convert_to_i64("100").unwrap(), 100);
    assert_eq!(convert_to_i64("-100").unwrap(), -100);
    assert_eq!(convert_to_i64("0x0F4").unwrap(), 244);
    assert_eq!(convert_to_i64("0b0110").unwrap(), 6);
    assert_eq!(convert_to_i64("'c'").unwrap(), 99);
    assert_eq!(convert_to_i64("'&''").unwrap(), 38);
}

#[test]
#[should_panic]
fn test_convert_to_i64_non_ascii_char() {
    assert_eq!(convert_to_i64("'Ж'").unwrap(), 100);
}

#[test]
#[should_panic]
fn test_convert_to_i64_malformed_char() {
    assert_eq!(convert_to_i64("a'").unwrap(), 100);
}

#[test]
fn convert_to_i64_rejects_junk() {
    let e = convert_to_i64("0x").unwrap_err();
    assert_eq!(e.kind, AsmErrorKind::BadLiteral);
    let e = convert_to_i64("").unwrap_err();
    assert_eq!(e.kind, AsmErrorKind::BadLiteral);
    assert_eq!(convert_to_i64("+42").unwrap(), 42);
}
