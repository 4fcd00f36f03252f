use iridium_assembler::encode::convert_instr_to_binary;
use iridium_assembler::error::AsmErrorKind;

#[test]
fn test_convert_to_binary() {
    assert_eq!(convert_instr_to_binary(&"ADD  $r0, $zero, $r1".to_owned()).unwrap(), 0x0420_u16);
    assert_eq!(convert_instr_to_binary(&"NAND $r2, $r3,   $r4".to_owned()).unwrap(), 0x4E50_u16);
    assert_eq!(convert_instr_to_binary(&"BEQ  $r5, $zero, $r6".to_owned()).unwrap(), 0xD870_u16);

    assert_eq!(convert_instr_to_binary(&"ADDI $r1, $zero,  7".to_owned()).unwrap(), 0x2807_u16);
    assert_eq!(convert_instr_to_binary(&"ADDI $r1, $zero, -7".to_owned()).unwrap(), 0x2879_u16);
    assert_eq!(convert_instr_to_binary(&"SW   $r1, $r2,   30".to_owned()).unwrap(), 0x899E_u16);
    assert_eq!(convert_instr_to_binary(&"LW   $r6, $r5,  -10".to_owned()).unwrap(), 0xBF76_u16);

    assert_eq!(convert_instr_to_binary(&"0x0455".to_owned()).unwrap(), 0x0455_u16);
    assert_eq!(convert_instr_to_binary(&"10000".to_owned()).unwrap(), 0x2710_u16);

    assert_eq!(convert_instr_to_binary(&"LUI $r0, 500".to_owned()).unwrap(), 0x65F4_u16);

    assert_eq!(convert_instr_to_binary(&".syscall 5".to_owned()).unwrap(), 0xF405_u16);
    assert_eq!(convert_instr_to_binary(&"JAL $r5, $r6".to_owned()).unwrap(), 0xFB80_u16);
}

#[test]
#[should_panic]
fn test_convert_invalid_instr_to_binary() {
    convert_instr_to_binary(&"INVALID  $r0, $zero, $r1".to_owned()).unwrap();
}

#[test]
#[should_panic]
fn test_convert_invalid_register_to_binary() {
    convert_instr_to_binary(&"ADD  $r0, $r9, $r1".to_owned()).unwrap();
}

// An ASCII character fill encodes to the character's code.
#[test]
fn fill_char_encodes_ordinal() {
    assert_eq!(convert_instr_to_binary(&".fill 'a'".to_owned()).unwrap(), 0x0061_u16);
}

#[test]
fn fill_hex_word_passes_through() {
    assert_eq!(convert_instr_to_binary(&".fill 0xFFFE".to_owned()).unwrap(), 0xFFFE_u16);
    assert_eq!(convert_instr_to_binary(&"start: .fill 0x0064".to_owned()).unwrap(), 0x0064_u16);
}

// The bit fields of a three-register word decode back to the register
// indices, and the top bits to the operation.
#[test]
fn rrr_fields_decode() {
    let w = convert_instr_to_binary(&"BEQ $r5, $zero, $r6".to_owned()).unwrap();
    assert_eq!(w >> 13, 0xC000_u16 >> 13);
    assert_eq!((w >> 10) & 7, 6);
    assert_eq!((w >> 7) & 7, 0);
    assert_eq!((w >> 4) & 7, 7);
}

// A signed immediate in range survives encoding and field extraction.
#[test]
fn rri_imm_roundtrip_values() {
    let w = convert_instr_to_binary(&"ADDI $r1, $zero, -7".to_owned()).unwrap();
    let f = w & 0x7F;
    let back = if f >= 64 { f as i32 - 128 } else { f as i32 };
    assert_eq!(back, -7);

    let w = convert_instr_to_binary(&"LUI $r0, 500".to_owned()).unwrap();
    assert_eq!(w & 0x3FF, 500);
}

#[test]
fn encode_error_kinds() {
    let e = convert_instr_to_binary(&"ADD  $r0, $r9, $r1".to_owned()).unwrap_err();
    assert_eq!(e.kind, AsmErrorKind::OperandCount);
    let e = convert_instr_to_binary(&"INVALID  $r0, $zero, $r1".to_owned()).unwrap_err();
    assert_eq!(e.kind, AsmErrorKind::Unrecognized);
    let e = convert_instr_to_binary(&"NOP".to_owned()).unwrap_err();
    assert_eq!(e.kind, AsmErrorKind::Unrecognized);
    let e = convert_instr_to_binary(&"ADDI $r0, $r0, @L".to_owned()).unwrap_err();
    assert_eq!(e.kind, AsmErrorKind::LabelNotAllowed);
    let e = convert_instr_to_binary(&".fill -7".to_owned()).unwrap_err();
    assert_eq!(e.kind, AsmErrorKind::ImmRange);
}
