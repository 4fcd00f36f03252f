//! Final bit-field encoding of a fully resolved, label-free, non-pseudo line
//! into its 16-bit machine word.
use vstd::prelude::*;
use crate::error::{AsmError, AsmErrorKind};
use crate::forms::{
    LineForm, Mnemonic, spec_classify, classify, spec_match_rrr, match_rrr, spec_match_rri,
    match_rri, spec_match_ri, match_ri, spec_match_jal2, match_jal2, spec_match_syscall,
    match_syscall, spec_match_word, match_word, spec_leading_mnemonic, leading_mnemonic,
};
use crate::imm::{spec_get_imm, get_imm_from_instr};
use crate::scan::to_chars;

verus! {

/// The 16-bit opcode field of a mnemonic: its 4-bit value in the word's top
/// bits.
pub open spec fn opcode_of(mn: Mnemonic) -> u16 {
    match mn {
        Mnemonic::Add => 0x0000,
        Mnemonic::Addi => 0x2000,
        Mnemonic::Nand => 0x4000,
        Mnemonic::Lui => 0x6000,
        Mnemonic::Sw => 0x8000,
        Mnemonic::Lw => 0xA000,
        Mnemonic::Beq => 0xC000,
        Mnemonic::Jal => 0xE000,
    }
}

pub fn opcode_val(mn: Mnemonic) -> (r: u16)
    ensures
        r == opcode_of(mn),
{
    match mn {
        Mnemonic::Add => 0x0000,
        Mnemonic::Addi => 0x2000,
        Mnemonic::Nand => 0x4000,
        Mnemonic::Lui => 0x6000,
        Mnemonic::Sw => 0x8000,
        Mnemonic::Lw => 0xA000,
        Mnemonic::Beq => 0xC000,
        Mnemonic::Jal => 0xE000,
    }
}

/// A signed immediate's 7-bit two's-complement field value.
pub open spec fn imm7_field(val: int) -> int {
    if val < 0 {
        val + 128
    } else {
        val
    }
}

/// A signed 16-bit value's unsigned reading.
pub open spec fn imm16_field(val: int) -> int {
    if val < 0 {
        val + 65536
    } else {
        val
    }
}

/// The word of a three-register instruction.
pub open spec fn rrr_word(op: u16, a: u16, b: u16, c: u16) -> u16 {
    op | (a << 10) | (b << 7) | (c << 4)
}

/// The word of a two-register instruction, immediate field included.
pub open spec fn rri_word(op: u16, a: u16, b: u16, imm: u16) -> u16 {
    op | (a << 10) | (b << 7) | imm
}

/// The word of a `LUI` instruction.
pub open spec fn ri_word(a: u16, imm: u16) -> u16 {
    0x6000 | (a << 10) | imm
}

/// The encoding of one line, as `convert_instr_to_binary` lays out.
///
/// A three-register line packs opcode, then the three register indices at
/// bits 10–12, 7–9 and 4–6.  A two-register-plus-immediate line packs two
/// registers and a 7-bit two's-complement immediate, except that a `JAL`
/// written in that shape ignores the immediate.  `LUI` packs one register
/// and a 10-bit immediate.  `JAL` packs two registers.  `.syscall d` packs
/// the fixed pattern `0xF400` plus the digit.  A `.fill` line or a bare
/// literal passes its 16-bit value through.  A line that opens with a known
/// mnemonic but fits no form has its operands wrong; anything else is
/// unrecognized.
pub open spec fn spec_encode_line(s: Seq<char>) -> Result<u16, AsmErrorKind> {
    match spec_classify(s) {
        LineForm::Rrr => {
            let (mn, a, b, c) = spec_match_rrr(s)->0;
            Ok(rrr_word(opcode_of(mn), a as u16, b as u16, c as u16))
        },
        LineForm::Rri => {
            let (mn, a, b) = spec_match_rri(s)->0;
            if mn == Mnemonic::Jal {
                Ok(rri_word(0xE000, a as u16, b as u16, 0))
            } else {
                match spec_get_imm(s, 7, true, false, false) {
                    Ok(Some(val)) => Ok(
                        rri_word(opcode_of(mn), a as u16, b as u16, imm7_field(val) as u16),
                    ),
                    Ok(None) => Err(AsmErrorKind::NoImmediate),
                    Err(k) => Err(k),
                }
            }
        },
        LineForm::Ri => {
            let a = spec_match_ri(s)->0;
            match spec_get_imm(s, 10, false, false, false) {
                Ok(Some(val)) => Ok(ri_word(a as u16, val as u16)),
                Ok(None) => Err(AsmErrorKind::NoImmediate),
                Err(k) => Err(k),
            }
        },
        LineForm::Jal2 => {
            let (a, b) = spec_match_jal2(s)->0;
            Ok(rri_word(0xE000, a as u16, b as u16, 0))
        },
        LineForm::Syscall => {
            let d = spec_match_syscall(s)->0;
            Ok((0xF400 + d) as u16)
        },
        LineForm::Fill => match spec_get_imm(s, 16, false, true, false) {
            Ok(Some(val)) => Ok(imm16_field(val) as u16),
            Ok(None) => Err(AsmErrorKind::NoImmediate),
            Err(k) => Err(k),
        },
        LineForm::Invalid => {
            if spec_match_word(s) {
                match spec_get_imm(s, 16, false, true, false) {
                    Ok(Some(val)) => Ok(imm16_field(val) as u16),
                    Ok(None) => Err(AsmErrorKind::NoImmediate),
                    Err(k) => Err(k),
                }
            } else if spec_leading_mnemonic(s) {
                Err(AsmErrorKind::OperandCount)
            } else {
                Err(AsmErrorKind::Unrecognized)
            }
        },
        _ => Err(AsmErrorKind::Unrecognized),
    }
}

/// Takes a fully resolved, label-free, non-pseudo line and produces its
/// 16-bit encoding, as `spec_encode_line` lays out.
pub fn convert_instr_to_binary(instr: &String) -> (r: Result<u16, AsmError>)
    ensures
        match spec_encode_line(instr@) {
            Ok(w) => r is Ok && r->Ok_0 == w,
            Err(k) => r is Err && r->Err_0.kind == k,
        },
{
    let line = instr.as_str();
    let v = to_chars(line);
    match classify(&v) {
        LineForm::Rrr => {
            let (mn, a, b, c) = match match_rrr(&v) {
                Some(p) => p,
                None => {
                    proof {
                        assert(false);
                    }
                    return Err(AsmError::new(AsmErrorKind::Unrecognized, line));
                },
            };
            Ok(opcode_val(mn) | (a << 10) | (b << 7) | (c << 4))
        },
        LineForm::Rri => {
            let (mn, a, b) = match match_rri(&v) {
                Some(p) => p,
                None => {
                    proof {
                        assert(false);
                    }
                    return Err(AsmError::new(AsmErrorKind::Unrecognized, line));
                },
            };
            if mn == Mnemonic::Jal {
                return Ok(0xE000 | (a << 10) | (b << 7) | 0);
            }
            match get_imm_from_instr(line, 7, true, false, false) {
                Ok(Some(val)) => {
                    let f: u16 = if val < 0 {
                        (val + 128) as u16
                    } else {
                        val as u16
                    };
                    Ok(opcode_val(mn) | (a << 10) | (b << 7) | f)
                },
                Ok(None) => Err(AsmError::new(AsmErrorKind::NoImmediate, line)),
                Err(e) => Err(e),
            }
        },
        LineForm::Ri => {
            let a = match match_ri(&v) {
                Some(p) => p,
                None => {
                    proof {
                        assert(false);
                    }
                    return Err(AsmError::new(AsmErrorKind::Unrecognized, line));
                },
            };
            match get_imm_from_instr(line, 10, false, false, false) {
                Ok(Some(val)) => Ok(0x6000 | (a << 10) | (val as u16)),
                Ok(None) => Err(AsmError::new(AsmErrorKind::NoImmediate, line)),
                Err(e) => Err(e),
            }
        },
        LineForm::Jal2 => {
            let (a, b) = match match_jal2(&v) {
                Some(p) => p,
                None => {
                    proof {
                        assert(false);
                    }
                    return Err(AsmError::new(AsmErrorKind::Unrecognized, line));
                },
            };
            Ok(0xE000 | (a << 10) | (b << 7) | 0)
        },
        LineForm::Syscall => {
            let d = match match_syscall(&v) {
                Some(p) => p,
                None => {
                    proof {
                        assert(false);
                    }
                    return Err(AsmError::new(AsmErrorKind::Unrecognized, line));
                },
            };
            Ok(0xF400 + d)
        },
        LineForm::Fill => fill_word(line),
        LineForm::Invalid => {
            if match_word(&v) {
                fill_word(line)
            } else if leading_mnemonic(&v) {
                Err(AsmError::new(AsmErrorKind::OperandCount, line))
            } else {
                Err(AsmError::new(AsmErrorKind::Unrecognized, line))
            }
        },
        _ => Err(AsmError::new(AsmErrorKind::Unrecognized, line)),
    }
}

/// The 16-bit value of a fill or bare-literal line.
fn fill_word(line: &str) -> (r: Result<u16, AsmError>)
    ensures
        match spec_get_imm(line@, 16, false, true, false) {
            Ok(Some(val)) => r is Ok && r->Ok_0 == imm16_field(val),
            Ok(None) => r is Err && r->Err_0.kind == AsmErrorKind::NoImmediate,
            Err(k) => r is Err && r->Err_0.kind == k,
        },
{
    match get_imm_from_instr(line, 16, false, true, false) {
        Ok(Some(val)) => {
            let w: u16 = if val < 0 {
                ((val as i32) + 65536) as u16
            } else {
                val as u16
            };
            Ok(w)
        },
        Ok(None) => Err(AsmError::new(AsmErrorKind::NoImmediate, line)),
        Err(e) => Err(e),
    }
}

} // verus!
