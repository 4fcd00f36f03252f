//! The instruction grammar: one matcher per recognized textual form.
//!
//! Every matcher works on a whole line.  A line may start with a `name:`
//! label tag, and any form but `.text` and `.syscall` may end with blanks and
//! a `#` comment.
use vstd::prelude::*;
use crate::chars::{
    is_blank, is_digit, is_label_char, is_ascii_char, blank, digit, label_char, ascii_char,
    digit_value,
};
use crate::scan::{
    spec_skip_blanks, skip_blanks, spec_skip_digits, skip_digits, spec_skip_label_chars,
    skip_label_chars, spec_scan_register, scan_register, spec_scan_number, scan_number,
    spec_scan_char_lit, scan_char_lit, spec_label_tag_end, label_tag_end,
};
use crate::imm::{spec_scan_elem, ElemTok};

verus! {

/// Mnemonic of a real instruction that takes part in encoding.
#[derive(Clone, Copy, Debug, PartialEq, Eq, Structural)]
pub enum Mnemonic {
    Add,
    Addi,
    Nand,
    Lui,
    Sw,
    Lw,
    Beq,
    Jal,
}

/// Position just after the line's leading `name:` label tag, or 0.
pub open spec fn after_label(s: Seq<char>) -> int {
    match spec_label_tag_end(s) {
        Some(e) => e,
        None => 0,
    }
}

pub fn after_label_at(v: &Vec<char>) -> (r: usize)
    ensures
        r == after_label(v@),
        r <= v.len(),
{
    match label_tag_end(v) {
        Some(e) => e,
        None => 0,
    }
}

/// From `i` on, only blanks remain, possibly followed by a `#` comment.
pub open spec fn tail_ok(s: Seq<char>, i: int) -> bool {
    let j = spec_skip_blanks(s, i);
    j == s.len() || (0 <= j < s.len() && s[j] == '#')
}

pub fn tail_ok_at(v: &Vec<char>, i: usize) -> (r: bool)
    requires
        i <= v.len(),
    ensures
        r == tail_ok(v@, i as int),
{
    let j = skip_blanks(v, i);
    j == v.len() || v[j] == '#'
}

/// An immediate operand token at `j`: a `@name` label reference, or a numeric
/// token (whose sign is rejected when `allow_sign` is false).  Returns the
/// position after the token.
pub open spec fn spec_imm_tok_end(s: Seq<char>, j: int, allow_sign: bool) -> Option<int> {
    if 0 <= j < s.len() && s[j] == '@' && j + 1 < s.len() && is_label_char(s[j + 1]) {
        Some(spec_skip_label_chars(s, j + 1))
    } else if !allow_sign && 0 <= j < s.len() && (s[j] == '+' || s[j] == '-') {
        None
    } else {
        match spec_scan_number(s, j) {
            Some((val, e)) => Some(e),
            None => None,
        }
    }
}

pub fn imm_tok_end(v: &Vec<char>, j: usize, allow_sign: bool) -> (r: Option<usize>)
    requires
        j <= v.len(),
    ensures
        match spec_imm_tok_end(v@, j as int, allow_sign) {
            Some(e) => r == Some(e as usize) && j <= e <= v.len(),
            None => r is None,
        },
{
    if j < v.len() && v[j] == '@' && j + 1 < v.len() && label_char(v[j + 1]) {
        Some(skip_label_chars(v, j + 1))
    } else if !allow_sign && j < v.len() && (v[j] == '+' || v[j] == '-') {
        None
    } else {
        proof {
            crate::imm::lemma_scan_number_props(v@, j as int);
        }
        match scan_number(v, j) {
            Some((_val, e)) => Some(e),
            None => None,
        }
    }
}

/// Three-register form: `ADD`, `NAND` or `BEQ` with exactly three register
/// operands.  Returns the mnemonic and the three register indices.
pub open spec fn spec_match_rrr(s: Seq<char>) -> Option<(Mnemonic, int, int, int)> {
    let i0 = spec_skip_blanks(s, after_label(s));
    let m: Option<(Mnemonic, int)> = if i0 + 3 <= s.len() && s[i0] == 'A' && s[i0 + 1] == 'D'
        && s[i0 + 2] == 'D' {
        Some((Mnemonic::Add, i0 + 3))
    } else if i0 + 4 <= s.len() && s[i0] == 'N' && s[i0 + 1] == 'A' && s[i0 + 2] == 'N' && s[i0
        + 3] == 'D' {
        Some((Mnemonic::Nand, i0 + 4))
    } else if i0 + 3 <= s.len() && s[i0] == 'B' && s[i0 + 1] == 'E' && s[i0 + 2] == 'Q' {
        Some((Mnemonic::Beq, i0 + 3))
    } else {
        None
    };
    match m {
        Some((mn, m)) => {
            if m < s.len() && is_blank(s[m]) {
                let i1 = spec_skip_blanks(s, m);
                match spec_scan_register(s, i1) {
                    Some((r1, e1)) => {
                        if e1 < s.len() && s[e1] == ',' {
                            let i2 = spec_skip_blanks(s, e1 + 1);
                            match spec_scan_register(s, i2) {
                                Some((r2, e2)) => {
                                    if e2 < s.len() && s[e2] == ',' {
                                        let i3 = spec_skip_blanks(s, e2 + 1);
                                        match spec_scan_register(s, i3) {
                                            Some((r3, e3)) => {
                                                if tail_ok(s, e3) {
                                                    Some((mn, r1, r2, r3))
                                                } else {
                                                    None
                                                }
                                            },
                                            None => None,
                                        }
                                    } else {
                                        None
                                    }
                                },
                                None => None,
                            }
                        } else {
                            None
                        }
                    },
                    None => None,
                }
            } else {
                None
            }
        },
        None => None,
    }
}

pub fn match_rrr(v: &Vec<char>) -> (r: Option<(Mnemonic, u16, u16, u16)>)
    ensures
        match spec_match_rrr(v@) {
            Some((mn, a, b, c)) => r == Some((mn, a as u16, b as u16, c as u16)) && 0 <= a <= 7 && 0
                <= b <= 7 && 0 <= c <= 7,
            None => r is None,
        },
{
    let i0 = skip_blanks(v, after_label_at(v));
    let m: Option<(Mnemonic, usize)> = if v.len() - i0 >= 3 && v[i0] == 'A' && v[i0 + 1] == 'D'
        && v[i0 + 2] == 'D' {
        Some((Mnemonic::Add, i0 + 3))
    } else if v.len() - i0 >= 4 && v[i0] == 'N' && v[i0 + 1] == 'A' && v[i0 + 2] == 'N' && v[i0
        + 3] == 'D' {
        Some((Mnemonic::Nand, i0 + 4))
    } else if v.len() - i0 >= 3 && v[i0] == 'B' && v[i0 + 1] == 'E' && v[i0 + 2] == 'Q' {
        Some((Mnemonic::Beq, i0 + 3))
    } else {
        None
    };
    let (mn, m) = match m {
        Some(p) => p,
        None => {
            return None;
        },
    };
    if !(m < v.len() && blank(v[m])) {
        return None;
    }
    let i1 = skip_blanks(v, m);
    let (r1, e1) = match scan_register(v, i1) {
        Some(p) => p,
        None => {
            return None;
        },
    };
    if !(e1 < v.len() && v[e1] == ',') {
        return None;
    }
    let i2 = skip_blanks(v, e1 + 1);
    let (r2, e2) = match scan_register(v, i2) {
        Some(p) => p,
        None => {
            return None;
        },
    };
    if !(e2 < v.len() && v[e2] == ',') {
        return None;
    }
    let i3 = skip_blanks(v, e2 + 1);
    let (r3, e3) = match scan_register(v, i3) {
        Some(p) => p,
        None => {
            return None;
        },
    };
    if !tail_ok_at(v, e3) {
        return None;
    }
    Some((mn, r1, r2, r3))
}

/// Two-register-plus-immediate form: `ADDI`, `SW`, `LW` or `JAL` with two
/// registers and one immediate or label operand.
pub open spec fn spec_match_rri(s: Seq<char>) -> Option<(Mnemonic, int, int)> {
    let i0 = spec_skip_blanks(s, after_label(s));
    let m: Option<(Mnemonic, int)> = if i0 + 4 <= s.len() && s[i0] == 'A' && s[i0 + 1] == 'D'
        && s[i0 + 2] == 'D' && s[i0 + 3] == 'I' {
        Some((Mnemonic::Addi, i0 + 4))
    } else if i0 + 2 <= s.len() && s[i0] == 'S' && s[i0 + 1] == 'W' {
        Some((Mnemonic::Sw, i0 + 2))
    } else if i0 + 2 <= s.len() && s[i0] == 'L' && s[i0 + 1] == 'W' {
        Some((Mnemonic::Lw, i0 + 2))
    } else if i0 + 3 <= s.len() && s[i0] == 'J' && s[i0 + 1] == 'A' && s[i0 + 2] == 'L' {
        Some((Mnemonic::Jal, i0 + 3))
    } else {
        None
    };
    match m {
        Some((mn, m)) => {
            if m < s.len() && is_blank(s[m]) {
                let i1 = spec_skip_blanks(s, m);
                match spec_scan_register(s, i1) {
                    Some((r1, e1)) => {
                        if e1 < s.len() && s[e1] == ',' {
                            let i2 = spec_skip_blanks(s, e1 + 1);
                            match spec_scan_register(s, i2) {
                                Some((r2, e2)) => {
                                    if e2 < s.len() && s[e2] == ',' {
                                        let i3 = spec_skip_blanks(s, e2 + 1);
                                        match spec_imm_tok_end(s, i3, true) {
                                            Some(e3) => {
                                                if tail_ok(s, e3) {
                                                    Some((mn, r1, r2))
                                                } else {
                                                    None
                                                }
                                            },
                                            None => None,
                                        }
                                    } else {
                                        None
                                    }
                                },
                                None => None,
                            }
                        } else {
                            None
                        }
                    },
                    None => None,
                }
            } else {
                None
            }
        },
        None => None,
    }
}

pub fn match_rri(v: &Vec<char>) -> (r: Option<(Mnemonic, u16, u16)>)
    ensures
        match spec_match_rri(v@) {
            Some((mn, a, b)) => r == Some((mn, a as u16, b as u16)) && 0 <= a <= 7 && 0 <= b <= 7,
            None => r is None,
        },
{
    let i0 = skip_blanks(v, after_label_at(v));
    let m: Option<(Mnemonic, usize)> = if v.len() - i0 >= 4 && v[i0] == 'A' && v[i0 + 1] == 'D'
        && v[i0 + 2] == 'D' && v[i0 + 3] == 'I' {
        Some((Mnemonic::Addi, i0 + 4))
    } else if v.len() - i0 >= 2 && v[i0] == 'S' && v[i0 + 1] == 'W' {
        Some((Mnemonic::Sw, i0 + 2))
    } else if v.len() - i0 >= 2 && v[i0] == 'L' && v[i0 + 1] == 'W' {
        Some((Mnemonic::Lw, i0 + 2))
    } else if v.len() - i0 >= 3 && v[i0] == 'J' && v[i0 + 1] == 'A' && v[i0 + 2] == 'L' {
        Some((Mnemonic::Jal, i0 + 3))
    } else {
        None
    };
    let (mn, m) = match m {
        Some(p) => p,
        None => {
            return None;
        },
    };
    if !(m < v.len() && blank(v[m])) {
        return None;
    }
    let i1 = skip_blanks(v, m);
    let (r1, e1) = match scan_register(v, i1) {
        Some(p) => p,
        None => {
            return None;
        },
    };
    if !(e1 < v.len() && v[e1] == ',') {
        return None;
    }
    let i2 = skip_blanks(v, e1 + 1);
    let (r2, e2) = match scan_register(v, i2) {
        Some(p) => p,
        None => {
            return None;
        },
    };
    if !(e2 < v.len() && v[e2] == ',') {
        return None;
    }
    let i3 = skip_blanks(v, e2 + 1);
    let e3 = match imm_tok_end(v, i3, true) {
        Some(e) => e,
        None => {
            return None;
        },
    };
    if !tail_ok_at(v, e3) {
        return None;
    }
    Some((mn, r1, r2))
}

/// One-register-plus-immediate form: `LUI` with a register and an unsigned
/// immediate or label operand.
pub open spec fn spec_match_ri(s: Seq<char>) -> Option<int> {
    let i0 = spec_skip_blanks(s, after_label(s));
    if i0 + 3 <= s.len() && s[i0] == 'L' && s[i0 + 1] == 'U' && s[i0 + 2] == 'I' {
        let i1 = spec_skip_blanks(s, i0 + 3);
        match spec_scan_register(s, i1) {
            Some((r1, e1)) => {
                if e1 < s.len() && s[e1] == ',' {
                    let i2 = spec_skip_blanks(s, e1 + 1);
                    match spec_imm_tok_end(s, i2, false) {
                        Some(e2) => {
                            if tail_ok(s, e2) {
                                Some(r1)
                            } else {
                                None
                            }
                        },
                        None => None,
                    }
                } else {
                    None
                }
            },
            None => None,
        }
    } else {
        None
    }
}

pub fn match_ri(v: &Vec<char>) -> (r: Option<u16>)
    ensures
        match spec_match_ri(v@) {
            Some(a) => r == Some(a as u16) && 0 <= a <= 7,
            None => r is None,
        },
{
    let i0 = skip_blanks(v, after_label_at(v));
    if !(v.len() - i0 >= 3 && v[i0] == 'L' && v[i0 + 1] == 'U' && v[i0 + 2] == 'I') {
        return None;
    }
    let i1 = skip_blanks(v, i0 + 3);
    let (r1, e1) = match scan_register(v, i1) {
        Some(p) => p,
        None => {
            return None;
        },
    };
    if !(e1 < v.len() && v[e1] == ',') {
        return None;
    }
    let i2 = skip_blanks(v, e1 + 1);
    let e2 = match imm_tok_end(v, i2, false) {
        Some(e) => e,
        None => {
            return None;
        },
    };
    if !tail_ok_at(v, e2) {
        return None;
    }
    Some(r1)
}

/// Two-register form: `JAL` with two register operands and no immediate.
pub open spec fn spec_match_jal2(s: Seq<char>) -> Option<(int, int)> {
    let i0 = spec_skip_blanks(s, after_label(s));
    if i0 + 3 <= s.len() && s[i0] == 'J' && s[i0 + 1] == 'A' && s[i0 + 2] == 'L' {
        let i1 = spec_skip_blanks(s, i0 + 3);
        match spec_scan_register(s, i1) {
            Some((r1, e1)) => {
                if e1 < s.len() && s[e1] == ',' {
                    let i2 = spec_skip_blanks(s, e1 + 1);
                    match spec_scan_register(s, i2) {
                        Some((r2, e2)) => {
                            if tail_ok(s, e2) {
                                Some((r1, r2))
                            } else {
                                None
                            }
                        },
                        None => None,
                    }
                } else {
                    None
                }
            },
            None => None,
        }
    } else {
        None
    }
}

pub fn match_jal2(v: &Vec<char>) -> (r: Option<(u16, u16)>)
    ensures
        match spec_match_jal2(v@) {
            Some((a, b)) => r == Some((a as u16, b as u16)) && 0 <= a <= 7 && 0 <= b <= 7,
            None => r is None,
        },
{
    let i0 = skip_blanks(v, after_label_at(v));
    if !(v.len() - i0 >= 3 && v[i0] == 'J' && v[i0 + 1] == 'A' && v[i0 + 2] == 'L') {
        return None;
    }
    let i1 = skip_blanks(v, i0 + 3);
    let (r1, e1) = match scan_register(v, i1) {
        Some(p) => p,
        None => {
            return None;
        },
    };
    if !(e1 < v.len() && v[e1] == ',') {
        return None;
    }
    let i2 = skip_blanks(v, e1 + 1);
    let (r2, e2) = match scan_register(v, i2) {
        Some(p) => p,
        None => {
            return None;
        },
    };
    if !tail_ok_at(v, e2) {
        return None;
    }
    Some((r1, r2))
}

/// No-operand pseudo form: `NOP`.
pub open spec fn spec_match_nop(s: Seq<char>) -> bool {
    let i0 = spec_skip_blanks(s, after_label(s));
    i0 + 3 <= s.len() && s[i0] == 'N' && s[i0 + 1] == 'O' && s[i0 + 2] == 'P' && tail_ok(
        s,
        i0 + 3,
    )
}

pub fn match_nop(v: &Vec<char>) -> (r: bool)
    ensures
        r == spec_match_nop(v@),
{
    let i0 = skip_blanks(v, after_label_at(v));
    v.len() - i0 >= 3 && v[i0] == 'N' && v[i0 + 1] == 'O' && v[i0 + 2] == 'P' && tail_ok_at(
        v,
        i0 + 3,
    )
}

/// Register-immediate pseudo form: `LLI` or `MOVI` with a register and an
/// unsigned immediate or label operand.  Returns whether the mnemonic is
/// `LLI` and the register index.
pub open spec fn spec_match_data(s: Seq<char>) -> Option<(bool, int)> {
    let i0 = spec_skip_blanks(s, after_label(s));
    let m: Option<(bool, int)> = if i0 + 3 <= s.len() && s[i0] == 'L' && s[i0 + 1] == 'L' && s[i0
        + 2] == 'I' {
        Some((true, i0 + 3))
    } else if i0 + 4 <= s.len() && s[i0] == 'M' && s[i0 + 1] == 'O' && s[i0 + 2] == 'V' && s[i0
        + 3] == 'I' {
        Some((false, i0 + 4))
    } else {
        None
    };
    match m {
        Some((lli, m)) => {
            let i1 = spec_skip_blanks(s, m);
            match spec_scan_register(s, i1) {
                Some((r1, e1)) => {
                    if e1 < s.len() && s[e1] == ',' {
                        let i2 = spec_skip_blanks(s, e1 + 1);
                        match spec_imm_tok_end(s, i2, false) {
                            Some(e2) => {
                                if tail_ok(s, e2) {
                                    Some((lli, r1))
                                } else {
                                    None
                                }
                            },
                            None => None,
                        }
                    } else {
                        None
                    }
                },
                None => None,
            }
        },
        None => None,
    }
}

pub fn match_data(v: &Vec<char>) -> (r: Option<(bool, u16)>)
    ensures
        match spec_match_data(v@) {
            Some((lli, a)) => r == Some((lli, a as u16)) && 0 <= a <= 7,
            None => r is None,
        },
{
    let i0 = skip_blanks(v, after_label_at(v));
    let m: Option<(bool, usize)> = if v.len() - i0 >= 3 && v[i0] == 'L' && v[i0 + 1] == 'L' && v[i0
        + 2] == 'I' {
        Some((true, i0 + 3))
    } else if v.len() - i0 >= 4 && v[i0] == 'M' && v[i0 + 1] == 'O' && v[i0 + 2] == 'V' && v[i0
        + 3] == 'I' {
        Some((false, i0 + 4))
    } else {
        None
    };
    let (lli, m) = match m {
        Some(p) => p,
        None => {
            return None;
        },
    };
    let i1 = skip_blanks(v, m);
    let (r1, e1) = match scan_register(v, i1) {
        Some(p) => p,
        None => {
            return None;
        },
    };
    if !(e1 < v.len() && v[e1] == ',') {
        return None;
    }
    let i2 = skip_blanks(v, e1 + 1);
    let e2 = match imm_tok_end(v, i2, false) {
        Some(e) => e,
        None => {
            return None;
        },
    };
    if !tail_ok_at(v, e2) {
        return None;
    }
    Some((lli, r1))
}

/// Fill directive: `.fill` with one numeric or character literal.
pub open spec fn spec_match_fill(s: Seq<char>) -> bool {
    let i0 = spec_skip_blanks(s, after_label(s));
    if i0 + 5 <= s.len() && s[i0] == '.' && s[i0 + 1] == 'f' && s[i0 + 2] == 'i' && s[i0 + 3]
        == 'l' && s[i0 + 4] == 'l' {
        let i1 = spec_skip_blanks(s, i0 + 5);
        match spec_scan_char_lit(s, i1) {
            Some((c, e)) => tail_ok(s, e),
            None => match spec_scan_number(s, i1) {
                Some((val, e)) => tail_ok(s, e),
                None => false,
            },
        }
    } else {
        false
    }
}

pub fn match_fill(v: &Vec<char>) -> (r: bool)
    ensures
        r == spec_match_fill(v@),
{
    let i0 = skip_blanks(v, after_label_at(v));
    if !(v.len() - i0 >= 5 && v[i0] == '.' && v[i0 + 1] == 'f' && v[i0 + 2] == 'i' && v[i0 + 3]
        == 'l' && v[i0 + 4] == 'l') {
        return false;
    }
    let i1 = skip_blanks(v, i0 + 5);
    proof {
        crate::imm::lemma_scan_number_props(v@, i1 as int);
    }
    match scan_char_lit(v, i1) {
        Some((_c, e)) => tail_ok_at(v, e),
        None => {
            match scan_number(v, i1) {
                Some((_val, e)) => tail_ok_at(v, e),
                None => false,
            }
        },
    }
}

/// The tail of a `.space` element list, after an element: blanks then `]`,
/// or a comma and another element, repeatedly.  Returns the position after
/// the closing bracket.
pub open spec fn spec_space_list_rest(s: Seq<char>, j: int) -> Option<int>
    decreases s.len() - j,
{
    if !(0 <= j <= s.len()) {
        None
    } else {
        let k = spec_skip_blanks(s, j);
        if k < s.len() && s[k] == ']' {
            Some(k + 1)
        } else if k < s.len() && s[k] == ',' {
            let k2 = spec_skip_blanks(s, k + 1);
            match spec_scan_elem(s, k2) {
                Some((t, e)) => spec_space_list_rest(
                    s,
                    if j + 1 <= e <= s.len() {
                        e
                    } else {
                        j + 1
                    },
                ),
                None => None,
            }
        } else {
            None
        }
    }
}

fn space_list_rest(v: &Vec<char>, j: usize) -> (r: Option<usize>)
    requires
        j <= v.len(),
    ensures
        match spec_space_list_rest(v@, j as int) {
            Some(e) => r == Some(e as usize) && 0 <= e <= v.len(),
            None => r is None,
        },
    decreases v.len() - j,
{
    let k = skip_blanks(v, j);
    if k < v.len() && v[k] == ']' {
        Some(k + 1)
    } else if k < v.len() && v[k] == ',' {
        let k2 = skip_blanks(v, k + 1);
        match crate::imm::scan_elem(v, k2) {
            Some((_t, e)) => space_list_rest(v, e),
            None => None,
        }
    } else {
        None
    }
}

/// Space directive: `.space` with a decimal count and a bracketed list of
/// numeric or character literals.
pub open spec fn spec_match_space(s: Seq<char>) -> bool {
    let i0 = spec_skip_blanks(s, after_label(s));
    if i0 + 6 <= s.len() && s[i0] == '.' && s[i0 + 1] == 's' && s[i0 + 2] == 'p' && s[i0 + 3]
        == 'a' && s[i0 + 4] == 'c' && s[i0 + 5] == 'e' {
        let m = i0 + 6;
        if m < s.len() && is_blank(s[m]) {
            let i1 = spec_skip_blanks(s, m);
            if i1 < s.len() && is_digit(s[i1]) {
                let d_end = spec_skip_digits(s, i1, 10);
                if d_end < s.len() && is_blank(s[d_end]) {
                    let i2 = spec_skip_blanks(s, d_end);
                    if i2 < s.len() && s[i2] == '[' {
                        let k = spec_skip_blanks(s, i2 + 1);
                        if k < s.len() && s[k] == ']' {
                            tail_ok(s, k + 1)
                        } else {
                            match spec_scan_elem(s, k) {
                                Some((t, e)) => match spec_space_list_rest(s, e) {
                                    Some(end) => tail_ok(s, end),
                                    None => false,
                                },
                                None => false,
                            }
                        }
                    } else {
                        false
                    }
                } else {
                    false
                }
            } else {
                false
            }
        } else {
            false
        }
    } else {
        false
    }
}

pub fn match_space(v: &Vec<char>) -> (r: bool)
    ensures
        r == spec_match_space(v@),
{
    let i0 = skip_blanks(v, after_label_at(v));
    if !(v.len() - i0 >= 6 && v[i0] == '.' && v[i0 + 1] == 's' && v[i0 + 2] == 'p' && v[i0 + 3]
        == 'a' && v[i0 + 4] == 'c' && v[i0 + 5] == 'e') {
        return false;
    }
    let m = i0 + 6;
    if !(m < v.len() && blank(v[m])) {
        return false;
    }
    let i1 = skip_blanks(v, m);
    if !(i1 < v.len() && digit(v[i1])) {
        return false;
    }
    let d_end = skip_digits(v, i1, 10);
    if !(d_end < v.len() && blank(v[d_end])) {
        return false;
    }
    let i2 = skip_blanks(v, d_end);
    if !(i2 < v.len() && v[i2] == '[') {
        return false;
    }
    let k = skip_blanks(v, i2 + 1);
    if k < v.len() && v[k] == ']' {
        return tail_ok_at(v, k + 1);
    }
    match crate::imm::scan_elem(v, k) {
        Some((_t, e)) => {
            match space_list_rest(v, e) {
                Some(end) => tail_ok_at(v, end),
                None => false,
            }
        },
        None => false,
    }
}

/// All of `s[a..b)` are ASCII characters.
pub open spec fn ascii_run(s: Seq<char>, a: int, b: int) -> bool {
    &&& 0 <= a
    &&& b <= s.len()
    &&& forall|k: int| a <= k < b ==> #[trigger] is_ascii_char(s[k])
}

pub fn ascii_range(v: &Vec<char>, a: usize, b: usize) -> (r: bool)
    requires
        a <= v.len(),
        b <= v.len(),
    ensures
        r == ascii_run(v@, a as int, b as int),
{
    let mut k = a;
    while k < b
        invariant
            a <= k,
            k <= v.len(),
            b <= v.len(),
            forall|t: int| a <= t < k ==> #[trigger] is_ascii_char(v@[t]),
        decreases b - k,
    {
        if !ascii_char(v[k]) {
            proof {
                assert(!is_ascii_char(v@[k as int]));
            }
            return false;
        }
        k = k + 1;
    }
    true
}

/// Text directive: `.text` followed by a double-quoted, non-empty, all-ASCII
/// string that ends the line.  Returns the content's bounds: the characters
/// strictly between the opening quote and the line's final quote.
pub open spec fn spec_match_text(s: Seq<char>) -> Option<(int, int)> {
    let i0 = spec_skip_blanks(s, after_label(s));
    if i0 + 5 <= s.len() && s[i0] == '.' && s[i0 + 1] == 't' && s[i0 + 2] == 'e' && s[i0 + 3]
        == 'x' && s[i0 + 4] == 't' {
        let m = i0 + 5;
        if m < s.len() && is_blank(s[m]) {
            let j = spec_skip_blanks(s, m);
            if j < s.len() && s[j] == '"' && s.len() >= j + 3 && s[s.len() - 1] == '"'
                && ascii_run(s, j + 1, s.len() - 1) {
                Some((j + 1, s.len() - 1))
            } else {
                None
            }
        } else {
            None
        }
    } else {
        None
    }
}

pub fn match_text(v: &Vec<char>) -> (r: Option<(usize, usize)>)
    ensures
        match spec_match_text(v@) {
            Some((a, b)) => r == Some((a as usize, b as usize)) && 0 < a <= b < v.len(),
            None => r is None,
        },
{
    let i0 = skip_blanks(v, after_label_at(v));
    if !(v.len() - i0 >= 5 && v[i0] == '.' && v[i0 + 1] == 't' && v[i0 + 2] == 'e' && v[i0 + 3]
        == 'x' && v[i0 + 4] == 't') {
        return None;
    }
    let m = i0 + 5;
    if !(m < v.len() && blank(v[m])) {
        return None;
    }
    let j = skip_blanks(v, m);
    if j < v.len() && v[j] == '"' && v.len() - j >= 3 && v[v.len() - 1] == '"' && ascii_range(
        v,
        j + 1,
        v.len() - 1,
    ) {
        Some((j + 1, v.len() - 1))
    } else {
        None
    }
}

/// Syscall directive: `.syscall`, one space, and one digit 0 through 7,
/// ending the line.
pub open spec fn spec_match_syscall(s: Seq<char>) -> Option<int> {
    let i0 = spec_skip_blanks(s, after_label(s));
    if i0 + 8 <= s.len() && s[i0] == '.' && s[i0 + 1] == 's' && s[i0 + 2] == 'y' && s[i0 + 3]
        == 's' && s[i0 + 4] == 'c' && s[i0 + 5] == 'a' && s[i0 + 6] == 'l' && s[i0 + 7] == 'l' {
        let m = i0 + 8;
        if m + 2 == s.len() && s[m] == ' ' && '0' <= s[m + 1] && s[m + 1] <= '7' {
            Some(s[m + 1] as int - '0' as int)
        } else {
            None
        }
    } else {
        None
    }
}

pub fn match_syscall(v: &Vec<char>) -> (r: Option<u16>)
    ensures
        match spec_match_syscall(v@) {
            Some(d) => r == Some(d as u16) && 0 <= d <= 7,
            None => r is None,
        },
{
    let i0 = skip_blanks(v, after_label_at(v));
    if !(v.len() - i0 >= 8 && v[i0] == '.' && v[i0 + 1] == 's' && v[i0 + 2] == 'y' && v[i0 + 3]
        == 's' && v[i0 + 4] == 'c' && v[i0 + 5] == 'a' && v[i0 + 6] == 'l' && v[i0 + 7] == 'l') {
        return None;
    }
    let m = i0 + 8;
    if v.len() - m == 2 && v[m] == ' ' && '0' <= v[m + 1] && v[m + 1] <= '7' {
        Some(digit_value(v[m + 1]) as u16)
    } else {
        None
    }
}

/// The recognized textual forms, in the priority order they are tried.
#[derive(Clone, Copy, Debug, PartialEq, Eq, Structural)]
pub enum LineForm {
    Empty,
    Rrr,
    Rri,
    Ri,
    Jal2,
    Nop,
    Data,
    Fill,
    Space,
    Text,
    Syscall,
    Invalid,
}

/// Which form a line belongs to: the matchers are tried in a fixed priority
/// order, three-register first, and the first that accepts the line decides.
pub open spec fn spec_classify(s: Seq<char>) -> LineForm {
    if s.len() == 0 {
        LineForm::Empty
    } else if spec_match_rrr(s) is Some {
        LineForm::Rrr
    } else if spec_match_rri(s) is Some {
        LineForm::Rri
    } else if spec_match_ri(s) is Some {
        LineForm::Ri
    } else if spec_match_jal2(s) is Some {
        LineForm::Jal2
    } else if spec_match_nop(s) {
        LineForm::Nop
    } else if spec_match_data(s) is Some {
        LineForm::Data
    } else if spec_match_fill(s) {
        LineForm::Fill
    } else if spec_match_space(s) {
        LineForm::Space
    } else if spec_match_text(s) is Some {
        LineForm::Text
    } else if spec_match_syscall(s) is Some {
        LineForm::Syscall
    } else {
        LineForm::Invalid
    }
}

pub fn classify(v: &Vec<char>) -> (r: LineForm)
    ensures
        r == spec_classify(v@),
{
    if v.len() == 0 {
        LineForm::Empty
    } else if match_rrr(v).is_some() {
        LineForm::Rrr
    } else if match_rri(v).is_some() {
        LineForm::Rri
    } else if match_ri(v).is_some() {
        LineForm::Ri
    } else if match_jal2(v).is_some() {
        LineForm::Jal2
    } else if match_nop(v) {
        LineForm::Nop
    } else if match_data(v).is_some() {
        LineForm::Data
    } else if match_fill(v) {
        LineForm::Fill
    } else if match_space(v) {
        LineForm::Space
    } else if match_text(v).is_some() {
        LineForm::Text
    } else if match_syscall(v).is_some() {
        LineForm::Syscall
    } else {
        LineForm::Invalid
    }
}

/// A bare data word: a line that is purely a numeric or character literal,
/// after an optional label tag.
pub open spec fn spec_match_word(s: Seq<char>) -> bool {
    let i0 = spec_skip_blanks(s, after_label(s));
    match spec_scan_char_lit(s, i0) {
        Some((c, e)) => tail_ok(s, e),
        None => match spec_scan_number(s, i0) {
            Some((val, e)) => tail_ok(s, e),
            None => false,
        },
    }
}

pub fn match_word(v: &Vec<char>) -> (r: bool)
    ensures
        r == spec_match_word(v@),
{
    let i0 = skip_blanks(v, after_label_at(v));
    proof {
        crate::imm::lemma_scan_number_props(v@, i0 as int);
    }
    match scan_char_lit(v, i0) {
        Some((_c, e)) => tail_ok_at(v, e),
        None => {
            match scan_number(v, i0) {
                Some((_val, e)) => tail_ok_at(v, e),
                None => false,
            }
        },
    }
}

/// The line opens (after any label tag) with a real instruction mnemonic or
/// the `.syscall` directive, whatever follows.
pub open spec fn spec_leading_mnemonic(s: Seq<char>) -> bool {
    let i0 = spec_skip_blanks(s, after_label(s));
    ||| (i0 + 3 <= s.len() && s[i0] == 'A' && s[i0 + 1] == 'D' && s[i0 + 2] == 'D')
    ||| (i0 + 4 <= s.len() && s[i0] == 'N' && s[i0 + 1] == 'A' && s[i0 + 2] == 'N' && s[i0 + 3]
        == 'D')
    ||| (i0 + 3 <= s.len() && s[i0] == 'L' && s[i0 + 1] == 'U' && s[i0 + 2] == 'I')
    ||| (i0 + 2 <= s.len() && s[i0] == 'S' && s[i0 + 1] == 'W')
    ||| (i0 + 2 <= s.len() && s[i0] == 'L' && s[i0 + 1] == 'W')
    ||| (i0 + 3 <= s.len() && s[i0] == 'B' && s[i0 + 1] == 'E' && s[i0 + 2] == 'Q')
    ||| (i0 + 3 <= s.len() && s[i0] == 'J' && s[i0 + 1] == 'A' && s[i0 + 2] == 'L')
    ||| (i0 + 8 <= s.len() && s[i0] == '.' && s[i0 + 1] == 's' && s[i0 + 2] == 'y' && s[i0 + 3]
        == 's' && s[i0 + 4] == 'c' && s[i0 + 5] == 'a' && s[i0 + 6] == 'l' && s[i0 + 7] == 'l')
}

pub fn leading_mnemonic(v: &Vec<char>) -> (r: bool)
    ensures
        r == spec_leading_mnemonic(v@),
{
    let i0 = skip_blanks(v, after_label_at(v));
    ((v.len() - i0 >= 3 && v[i0] == 'A' && v[i0 + 1] == 'D' && v[i0 + 2] == 'D') || (v.len() - i0
        >= 4 && v[i0] == 'N' && v[i0 + 1] == 'A' && v[i0 + 2] == 'N' && v[i0 + 3] == 'D') || (
    v.len() - i0 >= 3 && v[i0] == 'L' && v[i0 + 1] == 'U' && v[i0 + 2] == 'I') || (v.len() - i0
        >= 2 && v[i0] == 'S' && v[i0 + 1] == 'W') || (v.len() - i0 >= 2 && v[i0] == 'L' && v[i0
        + 1] == 'W') || (v.len() - i0 >= 3 && v[i0] == 'B' && v[i0 + 1] == 'E' && v[i0 + 2] == 'Q')
        || (v.len() - i0 >= 3 && v[i0] == 'J' && v[i0 + 1] == 'A' && v[i0 + 2] == 'L') || (v.len()
        - i0 >= 8 && v[i0] == '.' && v[i0 + 1] == 's' && v[i0 + 2] == 'y' && v[i0 + 3] == 's'
        && v[i0 + 4] == 'c' && v[i0 + 5] == 'a' && v[i0 + 6] == 'l' && v[i0 + 7] == 'l'))
}

} // verus!
