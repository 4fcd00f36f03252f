use iridium_assembler::expand::{substitute_pseudoinstrs, get_imm_for_pseudoinstr};
use iridium_assembler::validate::validate_assembly_lines;
use iridium_assembler::error::AsmErrorKind;

#[test]
fn test_text_sub() {
    let mut lines = vec!["tag: .text \"Hell@ \"w0rld!\"".to_owned()];
    validate_assembly_lines(&lines).unwrap();
    lines = substitute_pseudoinstrs(&lines).unwrap();

    assert_eq!(lines[0], "tag: .fill 0x0048");
    assert_eq!(lines[2], ".fill 0x006C");
    assert_eq!(lines[4], ".fill 0x0040");
    assert_eq!(lines[5], ".fill 0x0020");
    assert_eq!(lines[6], ".fill 0x0022");
    assert_eq!(lines[12], ".fill 0x0021");
    assert_eq!(lines[13], ".fill 0x0000");
    assert_eq!(lines.len(), 14);
}

// A `NOP` becomes the canonical add of the zero register, its label kept.
#[test]
fn nop_expansion_keeps_label() {
    let lines = substitute_pseudoinstrs(
        &vec!["labelB: NOP".to_owned(), "NOP".to_owned()],
    ).unwrap();
    assert_eq!(lines[0], "labelB: ADD $zero, $zero, $zero");
    assert_eq!(lines[1], "ADD $zero, $zero, $zero");
    assert_eq!(lines.len(), 2);
}

// `LLI` accumulates into its own register.
#[test]
fn lli_expansion() {
    let lines = substitute_pseudoinstrs(&vec!["LLI $r1, 20".to_owned()]).unwrap();
    assert_eq!(lines[0], "ADDI $r1, $r1, 20");
    assert_eq!(lines.len(), 1);
}

// A numeric `MOVI` splits into the value's low six bits via `ADDI` and its
// upper ten bits via `LUI`: 0xF830 is 48 + 64 * 992.
#[test]
fn movi_split_numeric() {
    let lines = substitute_pseudoinstrs(
        &vec!["labelC: MOVI $r1, 0xF830".to_owned()],
    ).unwrap();
    assert_eq!(lines[0], "labelC: ADDI $r1, $zero, 48");
    assert_eq!(lines[1], "LUI $r1, 992");
    assert_eq!(lines.len(), 2);
}

// A label `MOVI` carries the reference verbatim into both halves.
#[test]
fn movi_split_label() {
    let lines = substitute_pseudoinstrs(&vec!["MOVI $r0, @start".to_owned()]).unwrap();
    assert_eq!(lines[0], "ADDI $r0, $zero, @start");
    assert_eq!(lines[1], "LUI $r0, @start");
    assert_eq!(lines.len(), 2);
}

// `.space` pads the words beyond the listed values with zero, and keeps the
// label on the first word.
#[test]
fn space_expansion_pads_with_zero() {
    let lines = substitute_pseudoinstrs(
        &vec!["start: .space 5 [0x64, 0xFFFE, 'a']".to_owned()],
    ).unwrap();
    assert_eq!(lines[0], "start: .fill 0x0064");
    assert_eq!(lines[1], ".fill 0xFFFE");
    assert_eq!(lines[2], ".fill 0x0061");
    assert_eq!(lines[3], ".fill 0x0000");
    assert_eq!(lines[4], ".fill 0x0000");
    assert_eq!(lines.len(), 5);
}

// `.space` with more values than its count fails outright.
#[test]
fn space_expansion_overfull_fails() {
    let e = substitute_pseudoinstrs(&vec![".space 3 [1, 2, 3, 4]".to_owned()]).unwrap_err();
    assert_eq!(e.kind, AsmErrorKind::SpaceTooLong);
}

// `.text` appends a zero terminator after the characters.
#[test]
fn text_expansion_terminates() {
    let lines = substitute_pseudoinstrs(&vec![".text \"hi\"".to_owned()]).unwrap();
    assert_eq!(lines[0], ".fill 0x0068");
    assert_eq!(lines[1], ".fill 0x0069");
    assert_eq!(lines[2], ".fill 0x0000");
    assert_eq!(lines.len(), 3);
}

#[test]
fn pseudo_imm_text() {
    let s = get_imm_for_pseudoinstr(&"MOVI $r1, 0xF830".to_owned(), 16).unwrap();
    assert_eq!(s, "-2000");
    let s = get_imm_for_pseudoinstr(&"MOVI $r1, @nowhere".to_owned(), 16).unwrap();
    assert_eq!(s, "@nowhere");
    let s = get_imm_for_pseudoinstr(&"LLI $r0, 20".to_owned(), 6).unwrap();
    assert_eq!(s, "20");
}

// A pseudo-instruction whose immediate does not fit its field fails at
// expansion too.
#[test]
fn lli_expansion_out_of_range_fails() {
    let e = substitute_pseudoinstrs(&vec!["LLI $r0, 86".to_owned()]).unwrap_err();
    assert_eq!(e.kind, AsmErrorKind::ImmRange);
}
