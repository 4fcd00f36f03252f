//! Extraction and range validation of immediate operands.
use vstd::prelude::*;
use crate::error::{AsmError, AsmErrorKind};
use crate::scan::{
    max_literal, spec_find_char_lit, find_char_lit, spec_find_label_arg, find_label_arg,
    spec_find_number, find_number, spec_scan_number, scan_number, spec_scan_char_lit,
    scan_char_lit, to_chars,
};
use crate::chars::{is_bin_digit, is_hex_digit};

verus! {

/// Two to the power `b` (1 for non-positive `b`).
pub open spec fn p2(b: int) -> int
    decreases b,
{
    if b <= 0 {
        1
    } else {
        2 * p2(b - 1)
    }
}

pub proof fn lemma_p2_pos(b: int)
    ensures
        p2(b) >= 1,
    decreases b,
{
    if b > 0 {
        lemma_p2_pos(b - 1);
    }
}

pub proof fn lemma_p2_mono(a: int, b: int)
    requires
        a <= b,
    ensures
        p2(a) <= p2(b),
    decreases b - a,
{
    if a < b {
        lemma_p2_mono(a, b - 1);
        lemma_p2_pos(b - 1);
    }
}

/// Two to the power `bits`, as a machine integer.
pub fn pow2_i64(bits: u32) -> (r: i64)
    requires
        bits <= 16,
    ensures
        r == p2(bits as int),
        1 <= r <= 65536,
{
    proof {
        reveal_with_fuel(p2, 18);
        assert(p2(16) == 65536);
        assert(p2(15) == 32768);
    }
    let mut r: i64 = 1;
    let mut k: u32 = 0;
    while k < bits
        invariant
            k <= bits <= 16,
            r == p2(k as int),
            1 <= r <= 65536,
        decreases bits - k,
    {
        proof {
            lemma_p2_mono(k as int, 15);
            assert(p2(15) == 32768) by {
                reveal_with_fuel(p2, 18);
            }
        }
        r = r * 2;
        k = k + 1;
        proof {
            lemma_p2_pos(k as int);
            lemma_p2_mono(k as int, 16);
            assert(p2(16) == 65536) by {
                reveal_with_fuel(p2, 18);
            }
        }
    }
    r
}

/// A 16-bit two's-complement reading of `v`.
pub open spec fn to_i16_wrap(v: int) -> int {
    if v > 32767 {
        v - 65536
    } else {
        v
    }
}

/// What `get_imm_from_instr` returns: the first immediate found in the line.
///
/// A line holding a label reference yields `Ok(None)` when labels are accepted
/// and an error otherwise.  Otherwise the first numeric token that starts the
/// line or follows a blank is taken; when there is none and character literals
/// are accepted, the first single-quoted ASCII character is taken instead,
/// without a range check, as its code.  A numeric value is checked against the
/// field's range: `[0, 2^bits - 1]` unsigned, `[-2^bits/2, 2^bits/2 - 1]`
/// signed.
pub open spec fn spec_get_imm(
    s: Seq<char>,
    bits: int,
    signed: bool,
    accept_char: bool,
    accept_label: bool,
) -> Result<Option<int>, AsmErrorKind> {
    if spec_find_label_arg(s, 0) is Some {
        if accept_label {
            Ok(None)
        } else {
            Err(AsmErrorKind::LabelNotAllowed)
        }
    } else {
        match spec_find_number(s, 0) {
            Some((val, st, end)) => {
                if val > max_literal() || val < -max_literal() {
                    Err(AsmErrorKind::BadLiteral)
                } else if !signed && (val < 0 || val > p2(bits) - 1) {
                    Err(AsmErrorKind::ImmRange)
                } else if signed && (val < -(p2(bits) / 2) || val > p2(bits) / 2 - 1) {
                    Err(AsmErrorKind::ImmRange)
                } else {
                    Ok(Some(to_i16_wrap(val)))
                }
            },
            None => {
                if accept_char {
                    match spec_find_char_lit(s, 0) {
                        Some((c, st, end)) => Ok(Some(c)),
                        None => Err(AsmErrorKind::NoImmediate),
                    }
                } else {
                    Err(AsmErrorKind::NoImmediate)
                }
            },
        }
    }
}

/// Takes an instruction and the number of bits its immediate field has.
/// Returns the immediate it finds, `Ok(None)` for an accepted label
/// reference, or an error as `spec_get_imm` lays out.
pub fn get_imm_from_instr(
    instr: &str,
    bits: u32,
    signed: bool,
    accept_char: bool,
    accept_label: bool,
) -> (r: Result<Option<i16>, AsmError>)
    requires
        1 <= bits <= 16,
    ensures
        match spec_get_imm(instr@, bits as int, signed, accept_char, accept_label) {
            Ok(Some(val)) => r is Ok && r->Ok_0 is Some && r->Ok_0->0 == val && -32768 <= val
                <= 32767,
            Ok(None) => r == Ok::<Option<i16>, AsmError>(None),
            Err(k) => r is Err && r->Err_0.kind == k,
        },
{
    let v = to_chars(instr);
    match find_label_arg(&v, 0) {
        Some(_) => {
            if accept_label {
                return Ok(None);
            }
            return Err(AsmError::new(AsmErrorKind::LabelNotAllowed, instr));
        },
        None => {},
    }
    match find_number(&v, 0) {
        Some((val_opt, _st, _end)) => {
            let val: i64 = match val_opt {
                Some(val) => val,
                None => {
                    return Err(AsmError::new(AsmErrorKind::BadLiteral, instr));
                },
            };
            let pw = pow2_i64(bits);
            if !signed && (val < 0 || val > pw - 1) {
                return Err(AsmError::new(AsmErrorKind::ImmRange, instr));
            }
            if signed && (val < -(pw / 2) || val > pw / 2 - 1) {
                return Err(AsmError::new(AsmErrorKind::ImmRange, instr));
            }
            proof {
                lemma_p2_mono(bits as int, 16);
                assert(p2(16) == 65536) by {
                    reveal_with_fuel(p2, 18);
                }
            }
            if val > 32767 {
                Ok(Some((val - 65536) as i16))
            } else {
                Ok(Some(val as i16))
            }
        },
        None => {
            if accept_char {
                match find_char_lit(&v, 0) {
                    Some((c, _st, _end)) => Ok(Some(c as i16)),
                    None => Err(AsmError::new(AsmErrorKind::NoImmediate, instr)),
                }
            } else {
                Err(AsmError::new(AsmErrorKind::NoImmediate, instr))
            }
        },
    }
}

/// A value listed in a `.space` directive (or its leading count): a numeric
/// token, `dec` when written in plain decimal, or a character literal.
pub enum ElemTok {
    Num { dec: bool, val: int },
    Chr { code: int },
}

/// The element token at position `p`, if one starts there: a numeric token,
/// or failing that a character literal.
pub open spec fn spec_scan_elem(s: Seq<char>, p: int) -> Option<(ElemTok, int)> {
    match spec_scan_number(s, p) {
        Some((val, e)) => {
            let dec = !((p + 2 < s.len() && s[p] == '0' && s[p + 1] == 'b' && is_bin_digit(
                s[p + 2],
            )) || (p + 2 < s.len() && s[p] == '0' && s[p + 1] == 'x' && is_hex_digit(s[p + 2])));
            Some((ElemTok::Num { dec, val }, e))
        },
        None => match spec_scan_char_lit(s, p) {
            Some((c, e)) => Some((ElemTok::Chr { code: c }, e)),
            None => None,
        },
    }
}

/// All element tokens of `s` from position `p` on, scanning left to right and
/// resuming after each token's end.
pub open spec fn spec_elems(s: Seq<char>, p: int) -> Seq<ElemTok>
    decreases s.len() - p,
{
    if !(0 <= p < s.len()) {
        Seq::empty()
    } else {
        match spec_scan_elem(s, p) {
            Some((t, e)) => seq![t] + spec_elems(
                s,
                if p + 1 <= e <= s.len() {
                    e
                } else {
                    p + 1
                },
            ),
            None => spec_elems(s, p + 1),
        }
    }
}

/// A numeric element whose value does not fit 16 unsigned bits.
pub open spec fn elem_bad(t: ElemTok) -> bool {
    match t {
        ElemTok::Num { dec, val } => val > 65535,
        ElemTok::Chr { .. } => false,
    }
}

/// What `validate_space` returns.  The first element token must be a plain
/// decimal count.  Listing more elements than the count declares is an error,
/// as is any numeric element over 65535.
pub open spec fn spec_validate_space(s: Seq<char>) -> Result<(), AsmErrorKind> {
    let toks = spec_elems(s, 0);
    if toks.len() == 0 {
        Err(AsmErrorKind::BadLiteral)
    } else if !(toks[0] is Num && toks[0]->dec && -max_literal() <= toks[0]->val
        <= max_literal()) {
        Err(AsmErrorKind::BadLiteral)
    } else {
        let n = toks[0]->val;
        if n + 1 >= 0 && toks.len() > n + 1 {
            Err(AsmErrorKind::SpaceTooLong)
        } else if exists|k: int| 0 <= k < toks.len() && elem_bad(#[trigger] toks[k]) {
            Err(AsmErrorKind::ImmRange)
        } else {
            Ok(())
        }
    }
}

/// Executable representation of one element token.
#[derive(Clone, Copy)]
pub struct ElemScan {
    pub is_char: bool,
    pub is_dec: bool,
    pub value: Option<i64>,
    pub bad: bool,
}

/// `es` faithfully represents the token `t`.
pub open spec fn elem_rep(es: ElemScan, t: ElemTok) -> bool {
    match t {
        ElemTok::Num { dec, val } => {
            &&& !es.is_char
            &&& es.is_dec == dec
            &&& es.bad == (val > 65535)
            &&& (if -max_literal() <= val <= max_literal() {
                es.value == Some(val as i64)
            } else {
                es.value is None
            })
        },
        ElemTok::Chr { code } => {
            &&& es.is_char
            &&& !es.bad
            &&& 0 <= code <= 127
            &&& es.value == Some(code as i64)
        },
    }
}

/// Bounds and sign facts about a numeric token.
pub proof fn lemma_scan_number_props(s: Seq<char>, p: int)
    requires
        0 <= p <= s.len(),
    ensures
        match spec_scan_number(s, p) {
            Some((val, e)) => p < s.len() && p < e <= s.len() && (s[p] == '-' ==> val <= 0) && (s[p]
                != '-' ==> val >= 0),
            None => true,
        },
{
    if p + 2 < s.len() && s[p] == '0' && s[p + 1] == 'b' && is_bin_digit(s[p + 2]) {
        crate::scan::lemma_skip_digits_run(s, p + 2, 2);
        let e = crate::scan::spec_skip_digits(s, p + 2, 2);
        crate::scan::lemma_run_val_nonneg(s, p + 2, e, 2);
    } else if p + 2 < s.len() && s[p] == '0' && s[p + 1] == 'x' && is_hex_digit(s[p + 2]) {
        crate::scan::lemma_skip_digits_run(s, p + 2, 16);
        let e = crate::scan::spec_skip_digits(s, p + 2, 16);
        crate::scan::lemma_run_val_nonneg(s, p + 2, e, 16);
    } else {
        if 0 <= p < s.len() && (s[p] == '+' || s[p] == '-') {
            if p + 1 < s.len() && crate::chars::is_digit(s[p + 1]) {
                crate::scan::lemma_skip_digits_run(s, p + 1, 10);
                let e = crate::scan::spec_skip_digits(s, p + 1, 10);
                crate::scan::lemma_run_val_nonneg(s, p + 1, e, 10);
                assert(crate::scan::digit_ok(s[p + 1], 10));
                assert(e == crate::scan::spec_skip_digits(s, p + 2, 10));
                crate::scan::lemma_skip_digits_run(s, p + 2, 10);
                assert(e >= p + 2);
            }
        } else {
            if p < s.len() && crate::chars::is_digit(s[p]) {
                crate::scan::lemma_skip_digits_run(s, p, 10);
                let e = crate::scan::spec_skip_digits(s, p, 10);
                crate::scan::lemma_run_val_nonneg(s, p, e, 10);
                assert(crate::scan::digit_ok(s[p], 10));
                assert(e == crate::scan::spec_skip_digits(s, p + 1, 10));
                crate::scan::lemma_skip_digits_run(s, p + 1, 10);
                assert(e >= p + 1);
            }
        }
    }
}

/// The element token at `p`, executably.
pub fn scan_elem(v: &Vec<char>, p: usize) -> (r: Option<(ElemScan, usize)>)
    requires
        p <= v.len(),
    ensures
        match spec_scan_elem(v@, p as int) {
            Some((t, e)) => {
                &&& r is Some
                &&& (r->0).1 == e
                &&& p < e <= v.len()
                &&& elem_rep((r->0).0, t)
            },
            None => r is None,
        },
{
    proof {
        lemma_scan_number_props(v@, p as int);
    }
    match scan_number(v, p) {
        Some((val_opt, e)) => {
            let not_dec = (v.len() - p > 2 && v[p] == '0' && v[p + 1] == 'b' && crate::chars::bin_digit(
                v[p + 2],
            )) || (v.len() - p > 2 && v[p] == '0' && v[p + 1] == 'x' && crate::chars::hex_digit(
                v[p + 2],
            ));
            let (value, bad): (Option<i64>, bool) = match val_opt {
                Some(x) => (Some(x), x > 65535),
                None => (None, v[p] != '-'),
            };
            Some((ElemScan { is_char: false, is_dec: !not_dec, value, bad }, e))
        },
        None => {
            match scan_char_lit(v, p) {
                Some((c, e)) => Some(
                    (ElemScan { is_char: true, is_dec: false, value: Some(c as i64), bad: false },
                    e),
                ),
                None => None,
            }
        },
    }
}

/// Validates a `.space` directive: the declared count must be a plain decimal
/// number, the list may not be longer than the count, and every listed number
/// must fit 16 unsigned bits.
pub fn validate_space(instr: &str) -> (r: Result<(), AsmError>)
    ensures
        match spec_validate_space(instr@) {
            Ok(()) => r is Ok,
            Err(k) => r is Err && r->Err_0.kind == k,
        },
{
    let v = to_chars(instr);
    let ghost s = instr@;
    let ghost toks = spec_elems(s, 0);
    let mut p: usize = 0;
    let mut cnt: usize = 0;
    let mut first: Option<ElemScan> = None;
    let mut bad = false;
    let ghost mut done: Seq<ElemTok> = Seq::empty();
    proof {
        assert(toks =~= done + spec_elems(s, 0));
    }
    while p < v.len()
        invariant
            0 <= p <= v.len(),
            v@ == s,
            toks == spec_elems(s, 0),
            toks =~= done + spec_elems(s, p as int),
            cnt == done.len(),
            done.len() <= p,
            match first {
                Some(f) => done.len() > 0 && elem_rep(f, done[0]),
                None => done.len() == 0,
            },
            bad == exists|k: int| 0 <= k < done.len() && elem_bad(#[trigger] done[k]),
        decreases v.len() - p,
    {
        match scan_elem(&v, p) {
            Some((es, e)) => {
                let ghost t = (spec_scan_elem(s, p as int)->0).0;
                let ghost prev = done;
                if first.is_none() {
                    first = Some(es);
                }
                if es.bad {
                    bad = true;
                }
                let ghost p0 = p;
                cnt = cnt + 1;
                p = e;
                proof {
                    done = prev + seq![t];
                    assert(es.bad == elem_bad(t));
                    assert(spec_elems(s, p0 as int) =~= seq![t] + spec_elems(s, e as int));
                    assert(toks =~= done + spec_elems(s, p as int));
                    assert(done[prev.len() as int] == t);
                    if prev.len() > 0 {
                        assert(done[0] == prev[0]);
                    }
                    if bad {
                        if es.bad {
                            assert(elem_bad(done[prev.len() as int]));
                        } else {
                            let k0 = choose|k: int|
                                0 <= k < prev.len() && elem_bad(#[trigger] prev[k]);
                            assert(done[k0] == prev[k0]);
                            assert(elem_bad(done[k0]));
                        }
                        assert(exists|k: int| 0 <= k < done.len() && elem_bad(#[trigger] done[k]));
                    } else {
                        assert forall|k: int|
                            0 <= k < done.len() implies !elem_bad(#[trigger] done[k]) by {
                            if k < prev.len() {
                                assert(done[k] == prev[k]);
                                assert(!(exists|j: int|
                                    0 <= j < prev.len() && elem_bad(#[trigger] prev[j])));
                                assert(!elem_bad(prev[k]));
                            } else {
                                assert(done[k] == t);
                            }
                        }
                    }
                }
            },
            None => {
                proof {
                    assert(spec_elems(s, p as int) =~= spec_elems(s, p as int + 1));
                }
                p = p + 1;
            },
        }
    }
    proof {
        assert(spec_elems(s, p as int) =~= Seq::<ElemTok>::empty());
        assert(toks =~= done);
    }
    let f = match first {
        Some(f) => f,
        None => {
            return Err(AsmError::new(AsmErrorKind::BadLiteral, instr));
        },
    };
    if f.is_char || !f.is_dec {
        return Err(AsmError::new(AsmErrorKind::BadLiteral, instr));
    }
    let n: i64 = match f.value {
        Some(x) => x,
        None => {
            return Err(AsmError::new(AsmErrorKind::BadLiteral, instr));
        },
    };
    let nn: i128 = n as i128 + 1;
    if nn >= 0 && (cnt as u128) > (nn as u128) {
        return Err(AsmError::new(AsmErrorKind::SpaceTooLong, instr));
    }
    if bad {
        return Err(AsmError::new(AsmErrorKind::ImmRange, instr));
    }
    Ok(())
}

} // verus!
