//! Pseudo-instruction expansion: rewrites `NOP`, `LLI`, `MOVI`, `.space` and
//! `.text` lines into real instructions and fill words, keeping any label on
//! the first line of an expansion.
use vstd::prelude::*;
use crate::chars::is_ascii_char;
use crate::error::{AsmError, AsmErrorKind};
use crate::fmt::{
    dec_str, hex4, spec_reg_name, append_dec_i32, append_hex4, reg_name,
};
use crate::forms::{
    LineForm, spec_classify, classify, spec_match_data, match_data, spec_match_text, match_text,
    ascii_run,
};
use crate::imm::{
    spec_get_imm, get_imm_from_instr, spec_elems, ElemTok, elem_rep, ElemScan, scan_elem,
    spec_scan_elem,
};
use crate::scan::{
    max_literal, spec_find_label_arg, find_label_arg, spec_label_tag_end, label_tag_end, to_chars,
};

verus! {

/// The line's label tag, colon and one following space included, or nothing.
pub open spec fn label_tag_seq(s: Seq<char>) -> Seq<char> {
    match spec_label_tag_end(s) {
        Some(e) => s.subrange(0, e) + seq![' '],
        None => Seq::<char>::empty(),
    }
}

/// Appends the line's label tag (with a trailing space) to `out`.
fn append_label_tag(out: &mut String, line: &str, v: &Vec<char>)
    requires
        v@ == line@,
    ensures
        final(out)@ == old(out)@ + label_tag_seq(line@),
{
    match label_tag_end(v) {
        Some(e) => {
            out.append(line.substring_char(0, e));
            proof {
                reveal_strlit(" ");
                assert(" "@ =~= seq![' ']);
            }
            out.append(" ");
            proof {
                assert(final(out)@ =~= old(out)@ + label_tag_seq(line@));
            }
        },
        None => {
            proof {
                assert(final(out)@ =~= old(out)@ + label_tag_seq(line@));
            }
        },
    }
}

/// The value `x` reduced to its 16 low bits.
pub fn wrap_u16(x: i64) -> (r: u16)
    ensures
        r == (x as int) % 65536,
{
    if x == i64::MIN {
        proof {
            vstd::arithmetic::div_mod::lemma_fundamental_div_mod_converse(
                x as int,
                65536,
                -140737488355328,
                0,
            );
        }
        0
    } else if x >= 0 {
        let m = x % 65536;
        m as u16
    } else {
        let nx = -x;
        let r0 = nx % 65536;
        proof {
            vstd::arithmetic::div_mod::lemma_fundamental_div_mod(nx as int, 65536);
            if r0 == 0 {
                vstd::arithmetic::div_mod::lemma_fundamental_div_mod_converse(
                    x as int,
                    65536,
                    -(nx as int / 65536),
                    0,
                );
            } else {
                vstd::arithmetic::div_mod::lemma_fundamental_div_mod_converse(
                    x as int,
                    65536,
                    -(nx as int / 65536) - 1,
                    65536 - r0 as int,
                );
            }
        }
        if r0 == 0 {
            0
        } else {
            (65536 - r0) as u16
        }
    }
}

/// What the expander takes from a pseudo-instruction's operand: the decimal
/// rendering of its numeric immediate, or the label reference's own text.
pub open spec fn spec_pseudo_imm(s: Seq<char>, bits: int) -> Result<Seq<char>, AsmErrorKind> {
    match spec_get_imm(s, bits, false, false, true) {
        Ok(Some(val)) => Ok(dec_str(val)),
        Ok(None) => match spec_find_label_arg(s, 0) {
            Some((st, end)) => Ok(s.subrange(st, end)),
            None => Err(AsmErrorKind::NoImmediate),
        },
        Err(k) => Err(k),
    }
}

fn pseudo_imm(line: &str, bits: u32) -> (r: Result<String, AsmError>)
    requires
        1 <= bits <= 16,
    ensures
        match spec_pseudo_imm(line@, bits as int) {
            Ok(im) => r is Ok && r->Ok_0@ == im,
            Err(k) => r is Err && r->Err_0.kind == k,
        },
{
    match get_imm_from_instr(line, bits, false, false, true) {
        Ok(Some(val)) => {
            let mut s = String::new();
            append_dec_i32(&mut s, val as i32);
            Ok(s)
        },
        Ok(None) => {
            let v = to_chars(line);
            match find_label_arg(&v, 0) {
                Some((st, end)) => Ok(String::from_str(line.substring_char(st, end))),
                None => Err(AsmError::new(AsmErrorKind::NoImmediate, line)),
            }
        },
        Err(e) => Err(e),
    }
}

/// Takes a pseudo-instruction and the bit width its immediate may use, and
/// returns the operand's text for the expansion: a decimal number, or the
/// label reference verbatim.
pub fn get_imm_for_pseudoinstr(instr: &String, bits: u32) -> (r: Result<String, AsmError>)
    requires
        1 <= bits <= 16,
    ensures
        match spec_pseudo_imm(instr@, bits as int) {
            Ok(im) => r is Ok && r->Ok_0@ == im,
            Err(k) => r is Err && r->Err_0.kind == k,
        },
{
    pseudo_imm(instr.as_str(), bits)
}

/// `ADDI reg, ` — the head of an expanded add-immediate instruction.
pub open spec fn addi_pre(r: int) -> Seq<char> {
    seq!['A', 'D', 'D', 'I', ' '] + spec_reg_name(r) + seq![',', ' ']
}

/// `LUI reg, ` — the head of an expanded load-upper-immediate instruction.
pub open spec fn lui_pre(r: int) -> Seq<char> {
    seq!['L', 'U', 'I', ' '] + spec_reg_name(r) + seq![',', ' ']
}

/// `.fill 0x` followed by the four hexadecimal digits of `w`.
pub open spec fn fill_line(w: int) -> Seq<char> {
    seq!['.', 'f', 'i', 'l', 'l', ' ', '0', 'x'] + hex4(w)
}

/// The unsigned 16-bit value whose two's-complement reading is `val`.
pub open spec fn u16_of_i16(val: int) -> int {
    if val < 0 {
        val + 65536
    } else {
        val
    }
}

/// A listed element's 16-bit value: a number reduced to its low 16 bits, or
/// a character's code.
pub open spec fn elem_w(t: ElemTok) -> int {
    match t {
        ElemTok::Num { dec, val } => val % 65536,
        ElemTok::Chr { code } => code,
    }
}

/// A numeric element too large for the literal accumulator.
pub open spec fn elem_huge(t: ElemTok) -> bool {
    match t {
        ElemTok::Num { dec, val } => !(-max_literal() <= val <= max_literal()),
        ElemTok::Chr { code } => false,
    }
}

/// Word `i` of an expanded `.space` directive: the listed values in order,
/// zero beyond them; the label tag goes on the first word.
pub open spec fn space_line(s: Seq<char>, toks: Seq<ElemTok>, i: int) -> Seq<char> {
    (if i == 0 {
        label_tag_seq(s)
    } else {
        Seq::<char>::empty()
    }) + fill_line(
        if i + 1 < toks.len() {
            elem_w(toks[i + 1])
        } else {
            0
        },
    )
}

/// Word `i` of an expanded `.text` directive: one fill word per character of
/// the quoted content `s[a..b)`, then a zero terminator; the label tag goes
/// on the first word.
pub open spec fn text_line(s: Seq<char>, a: int, b: int, i: int) -> Seq<char> {
    (if i == 0 {
        label_tag_seq(s)
    } else {
        Seq::<char>::empty()
    }) + fill_line(
        if a + i < b {
            s[a + i] as int
        } else {
            0
        },
    )
}

/// The replacement of an expanded `NOP`: an add of the zero register into
/// itself.
pub open spec fn nop_line(s: Seq<char>) -> Seq<char> {
    label_tag_seq(s) + seq!['A', 'D', 'D', ' '] + spec_reg_name(0) + seq![',', ' ']
        + spec_reg_name(0) + seq![',', ' '] + spec_reg_name(0)
}

/// What expanding one line produces, as `substitute_pseudoinstrs` lays out:
/// `NOP` becomes one real add; `LLI reg, imm` accumulates into the register;
/// `MOVI reg, imm` becomes an `ADDI` of the value's low 6 bits and a `LUI`
/// of its upper 10 bits, a label reference carried verbatim into both;
/// `.space` becomes its declared number of fill words, listed values first,
/// zeros after; `.text` becomes one fill word per character plus a zero
/// terminator; every other line passes through unchanged.
pub open spec fn spec_expand_line(s: Seq<char>) -> Result<Seq<Seq<char>>, AsmErrorKind> {
    match spec_classify(s) {
        LineForm::Nop => Ok(seq![nop_line(s)]),
        LineForm::Data => {
            let (lli, r) = spec_match_data(s)->0;
            if lli {
                match spec_pseudo_imm(s, 6) {
                    Ok(im) => Ok(
                        seq![
                            label_tag_seq(s) + addi_pre(r) + spec_reg_name(r) + seq![',', ' ']
                                + im,
                        ],
                    ),
                    Err(k) => Err(k),
                }
            } else {
                match spec_get_imm(s, 16, false, false, true) {
                    Ok(Some(val)) => {
                        let w = u16_of_i16(val);
                        Ok(
                            seq![
                                label_tag_seq(s) + addi_pre(r) + spec_reg_name(0)
                                    + seq![',', ' '] + dec_str(w % 64),
                                lui_pre(r) + dec_str(w / 64),
                            ],
                        )
                    },
                    Ok(None) => match spec_find_label_arg(s, 0) {
                        Some((st, end)) => {
                            let nm = s.subrange(st, end);
                            Ok(
                                seq![
                                    label_tag_seq(s) + addi_pre(r) + spec_reg_name(0)
                                        + seq![',', ' '] + nm,
                                    lui_pre(r) + nm,
                                ],
                            )
                        },
                        None => Err(AsmErrorKind::NoImmediate),
                    },
                    Err(k) => Err(k),
                }
            }
        },
        LineForm::Space => {
            let toks = spec_elems(s, 0);
            if !(toks.len() >= 1 && toks[0] is Num && 0 <= toks[0]->val <= 65535) {
                Err(AsmErrorKind::BadLiteral)
            } else if exists|i: int| 1 <= i < toks.len() && elem_huge(#[trigger] toks[i]) {
                Err(AsmErrorKind::BadLiteral)
            } else if toks.len() > toks[0]->val + 1 {
                Err(AsmErrorKind::SpaceTooLong)
            } else {
                Ok(Seq::new(toks[0]->val as nat, |i: int| space_line(s, toks, i)))
            }
        },
        LineForm::Text => {
            let (a, b) = spec_match_text(s)->0;
            Ok(Seq::new((b - a + 1) as nat, |i: int| text_line(s, a, b, i)))
        },
        _ => Ok(seq![s]),
    }
}

/// Relies on ascii_converter::string_to_decimals: one byte per character of
/// the string, each the character's code, in order; it fails if and only if
/// some character is not ASCII.
#[verifier::external_body]
fn ascii_codes(s: &str) -> (r: Option<Vec<u8>>)
    ensures
        match r {
            Some(cs) => cs@.len() == s@.len() && forall|i: int|
                0 <= i < s@.len() ==> #[trigger] cs@[i] == s@[i] as u8 && is_ascii_char(s@[i]),
            None => exists|i: int| 0 <= i < s@.len() && !is_ascii_char(#[trigger] s@[i]),
        },
{
    match ascii_converter::string_to_decimals(s) {
        Ok(cs) => Some(cs),
        Err(_) => None,
    }
}

/// Expands one line as `spec_expand_line` lays out.
pub fn expand_line(line: &str) -> (r: Result<Vec<String>, AsmError>)
    ensures
        match spec_expand_line(line@) {
            Ok(out) => r is Ok && r->Ok_0.deep_view() == out,
            Err(k) => r is Err && r->Err_0.kind == k,
        },
{
    let v = to_chars(line);
    let ghost s = line@;
    match classify(&v) {
        LineForm::Nop => {
            let mut t = String::new();
            append_label_tag(&mut t, line, &v);
            proof {
                reveal_strlit("ADD ");
                reveal_strlit(", ");
                assert("ADD "@ =~= seq!['A', 'D', 'D', ' ']);
                assert(", "@ =~= seq![',', ' ']);
            }
            t.append("ADD ");
            t.append(reg_name(0));
            t.append(", ");
            t.append(reg_name(0));
            t.append(", ");
            t.append(reg_name(0));
            proof {
                assert(t@ =~= nop_line(s));
            }
            let mut out: Vec<String> = Vec::new();
            out.push(t);
            proof {
                assert(out.deep_view() =~= seq![nop_line(s)]);
            }
            Ok(out)
        },
        LineForm::Data => {
            let (lli, r) = match match_data(&v) {
                Some(p) => p,
                None => {
                    proof {
                        assert(false);
                    }
                    return Err(AsmError::new(AsmErrorKind::Unrecognized, line));
                },
            };
            proof {
                reveal_strlit("ADDI ");
                reveal_strlit("LUI ");
                reveal_strlit(", ");
                assert("ADDI "@ =~= seq!['A', 'D', 'D', 'I', ' ']);
                assert("LUI "@ =~= seq!['L', 'U', 'I', ' ']);
                assert(", "@ =~= seq![',', ' ']);
            }
            if lli {
                let im = match pseudo_imm(line, 6) {
                    Ok(im) => im,
                    Err(e) => {
                        return Err(e);
                    },
                };
                let mut t = String::new();
                append_label_tag(&mut t, line, &v);
                t.append("ADDI ");
                t.append(reg_name(r));
                t.append(", ");
                t.append(reg_name(r));
                t.append(", ");
                t.append(im.as_str());
                proof {
                    assert(t@ =~= label_tag_seq(s) + addi_pre(r as int) + spec_reg_name(r as int)
                        + seq![',', ' '] + spec_pseudo_imm(s, 6)->Ok_0);
                }
                let mut out: Vec<String> = Vec::new();
                out.push(t);
                proof {
                    assert(out.deep_view() =~= spec_expand_line(s)->Ok_0);
                }
                Ok(out)
            } else {
                match get_imm_from_instr(line, 16, false, false, true) {
                    Ok(Some(val)) => {
                        let w: u16 = if val < 0 {
                            (val as i32 + 65536) as u16
                        } else {
                            val as u16
                        };
                        let lower: u16 = w % 64;
                        let upper: u16 = w / 64;
                        let mut t1 = String::new();
                        append_label_tag(&mut t1, line, &v);
                        t1.append("ADDI ");
                        t1.append(reg_name(r));
                        t1.append(", ");
                        t1.append(reg_name(0));
                        t1.append(", ");
                        append_dec_i32(&mut t1, lower as i32);
                        let mut t2 = String::new();
                        t2.append("LUI ");
                        t2.append(reg_name(r));
                        t2.append(", ");
                        append_dec_i32(&mut t2, upper as i32);
                        proof {
                            let ghost wv = u16_of_i16(
                                spec_get_imm(s, 16, false, false, true)->Ok_0->0,
                            );
                            assert(w == wv);
                            assert(t1@ =~= label_tag_seq(s) + addi_pre(r as int) + spec_reg_name(0)
                                + seq![',', ' '] + dec_str(wv % 64));
                            assert(t2@ =~= lui_pre(r as int) + dec_str(wv / 64));
                        }
                        let mut out: Vec<String> = Vec::new();
                        out.push(t1);
                        out.push(t2);
                        proof {
                            assert(out.deep_view() =~= spec_expand_line(s)->Ok_0);
                        }
                        Ok(out)
                    },
                    Ok(None) => {
                        let (st, end) = match find_label_arg(&v, 0) {
                            Some(p) => p,
                            None => {
                                proof {
                                    assert(false);
                                }
                                return Err(AsmError::new(AsmErrorKind::NoImmediate, line));
                            },
                        };
                        let nm = line.substring_char(st, end);
                        let mut t1 = String::new();
                        append_label_tag(&mut t1, line, &v);
                        t1.append("ADDI ");
                        t1.append(reg_name(r));
                        t1.append(", ");
                        t1.append(reg_name(0));
                        t1.append(", ");
                        t1.append(nm);
                        let mut t2 = String::new();
                        t2.append("LUI ");
                        t2.append(reg_name(r));
                        t2.append(", ");
                        t2.append(nm);
                        proof {
                            let ghost nms = s.subrange(st as int, end as int);
                            assert(t1@ =~= label_tag_seq(s) + addi_pre(r as int) + spec_reg_name(0)
                                + seq![',', ' '] + nms);
                            assert(t2@ =~= lui_pre(r as int) + nms);
                        }
                        let mut out: Vec<String> = Vec::new();
                        out.push(t1);
                        out.push(t2);
                        proof {
                            assert(out.deep_view() =~= spec_expand_line(s)->Ok_0);
                        }
                        Ok(out)
                    },
                    Err(e) => Err(e),
                }
            }
        },
        LineForm::Space => expand_space(line, &v),
        LineForm::Text => expand_text(line, &v),
        _ => {
            let mut out: Vec<String> = Vec::new();
            out.push(String::from_str(line));
            proof {
                assert(out.deep_view() =~= seq![s]);
            }
            Ok(out)
        },
    }
}

/// Expands a `.space` directive into its fill words.
fn expand_space(line: &str, v: &Vec<char>) -> (r: Result<Vec<String>, AsmError>)
    requires
        v@ == line@,
        spec_classify(line@) == LineForm::Space,
    ensures
        match spec_expand_line(line@) {
            Ok(out) => r is Ok && r->Ok_0.deep_view() == out,
            Err(k) => r is Err && r->Err_0.kind == k,
        },
{
    let ghost s = line@;
    let ghost toks = spec_elems(s, 0);
    let mut p: usize = 0;
    let mut cnt: usize = 0;
    let mut first: Option<ElemScan> = None;
    let mut vals: Vec<u16> = Vec::new();
    let mut any_huge = false;
    let ghost mut done: Seq<ElemTok> = Seq::empty();
    proof {
        assert(toks =~= done + spec_elems(s, 0));
    }
    while p < v.len()
        invariant
            0 <= p <= v.len(),
            v@ == s,
            v@ == line@,
            toks == spec_elems(s, 0),
            toks =~= done + spec_elems(s, p as int),
            cnt == done.len(),
            done.len() <= p,
            match first {
                Some(f) => done.len() > 0 && elem_rep(f, done[0]),
                None => done.len() == 0,
            },
            any_huge == exists|k: int| 1 <= k < done.len() && elem_huge(#[trigger] done[k]),
            vals@.len() == (if done.len() >= 1 {
                done.len() - 1
            } else {
                0
            }),
            forall|k: int|
                0 <= k < vals@.len() && !elem_huge(done[k + 1]) ==> #[trigger] vals@[k] == elem_w(
                    done[k + 1],
                ),
        decreases v.len() - p,
    {
        match scan_elem(v, p) {
            Some((es, e)) => {
                let ghost t = (spec_scan_elem(s, p as int)->0).0;
                let ghost prev = done;
                let ghost p0 = p;
                let is_first = first.is_none();
                if is_first {
                    first = Some(es);
                } else {
                    let w: u16 = match es.value {
                        Some(x) => wrap_u16(x),
                        None => {
                            any_huge = true;
                            0
                        },
                    };
                    vals.push(w);
                }
                cnt = cnt + 1;
                p = e;
                proof {
                    done = prev + seq![t];
                    assert(spec_elems(s, p0 as int) =~= seq![t] + spec_elems(s, e as int));
                    assert(toks =~= done + spec_elems(s, p as int));
                    assert(done[prev.len() as int] == t);
                    if prev.len() > 0 {
                        assert(done[0] == prev[0]);
                    }
                    if !is_first {
                        assert(elem_huge(t) <==> es.value is None);
                        if es.value is Some {
                            assert(vals@[vals@.len() - 1] == elem_w(t)) by {
                                match t {
                                    ElemTok::Num { dec, val } => {
                                        assert(es.value == Some(val as i64));
                                    },
                                    ElemTok::Chr { code } => {
                                        assert(es.value == Some(code as i64));
                                        vstd::arithmetic::div_mod::lemma_small_mod(
                                            code as nat,
                                            65536,
                                        );
                                    },
                                }
                            }
                        }
                    }
                    assert(any_huge == exists|k: int|
                        1 <= k < done.len() && elem_huge(#[trigger] done[k])) by {
                        if any_huge {
                            if !is_first && es.value is None {
                                assert(elem_huge(done[done.len() - 1]));
                            } else {
                                let k0 = choose|k: int|
                                    1 <= k < prev.len() && elem_huge(#[trigger] prev[k]);
                                assert(done[k0] == prev[k0]);
                                assert(elem_huge(done[k0]));
                            }
                        } else {
                            assert forall|k: int|
                                1 <= k < done.len() implies !elem_huge(#[trigger] done[k]) by {
                                if k < prev.len() {
                                    assert(done[k] == prev[k]);
                                    assert(!(exists|j: int|
                                        1 <= j < prev.len() && elem_huge(#[trigger] prev[j])));
                                    assert(!elem_huge(prev[k]));
                                } else {
                                    assert(done[k] == t);
                                }
                            }
                        }
                    }
                    assert(forall|k: int|
                        0 <= k < vals@.len() && !elem_huge(done[k + 1]) ==> #[trigger] vals@[k]
                            == elem_w(done[k + 1])) by {
                        assert forall|k: int|
                            0 <= k < vals@.len() && !elem_huge(done[k + 1]) implies #[trigger] vals@[k]
                            == elem_w(done[k + 1]) by {
                            if k + 1 < prev.len() {
                                assert(done[k + 1] == prev[k + 1]);
                            }
                        }
                    }
                }
            },
            None => {
                proof {
                    assert(spec_elems(s, p as int) =~= spec_elems(s, p as int + 1));
                }
                p = p + 1;
            },
        }
    }
    proof {
        assert(spec_elems(s, p as int) =~= Seq::<ElemTok>::empty());
        assert(toks =~= done);
    }
    let f = match first {
        Some(f) => f,
        None => {
            return Err(AsmError::new(AsmErrorKind::BadLiteral, line));
        },
    };
    if f.is_char {
        return Err(AsmError::new(AsmErrorKind::BadLiteral, line));
    }
    let n64: i64 = match f.value {
        Some(x) => x,
        None => {
            return Err(AsmError::new(AsmErrorKind::BadLiteral, line));
        },
    };
    if !(0 <= n64 && n64 <= 65535) {
        return Err(AsmError::new(AsmErrorKind::BadLiteral, line));
    }
    let n: usize = n64 as usize;
    if any_huge {
        return Err(AsmError::new(AsmErrorKind::BadLiteral, line));
    }
    if cnt > n + 1 {
        return Err(AsmError::new(AsmErrorKind::SpaceTooLong, line));
    }
    let mut out: Vec<String> = Vec::new();
    let mut i: usize = 0;
    while i < n
        invariant
            0 <= i <= n,
            v@ == s,
            v@ == line@,
            toks == spec_elems(s, 0),
            toks.len() >= 1,
            n == toks[0]->val,
            vals@.len() == toks.len() - 1,
            vals@.len() <= n,
            forall|k: int| 0 <= k < vals@.len() ==> #[trigger] vals@[k] == elem_w(toks[k + 1]),
            out.deep_view().len() == i,
            forall|k: int|
                0 <= k < i ==> #[trigger] out.deep_view()[k] == space_line(s, toks, k),
        decreases n - i,
    {
        let mut t = String::new();
        if i == 0 {
            append_label_tag(&mut t, line, v);
        }
        proof {
            reveal_strlit(".fill 0x");
            assert(".fill 0x"@ =~= seq!['.', 'f', 'i', 'l', 'l', ' ', '0', 'x']);
        }
        t.append(".fill 0x");
        let w: u16 = if i < vals.len() {
            vals[i]
        } else {
            0
        };
        append_hex4(&mut t, w);
        proof {
            assert(t@ =~= space_line(s, toks, i as int));
        }
        let ghost out0 = out.deep_view();
        let ghost tv = t@;
        out.push(t);
        proof {
            assert(out.deep_view() =~= out0.push(tv));
        }
        i = i + 1;
    }
    proof {
        assert(out.deep_view() =~= Seq::new(
            toks[0]->val as nat,
            |i: int| space_line(s, toks, i),
        ));
    }
    Ok(out)
}


/// Expands a `.text` directive into one fill word per character plus a
/// terminator.
fn expand_text(line: &str, v: &Vec<char>) -> (r: Result<Vec<String>, AsmError>)
    requires
        v@ == line@,
        spec_classify(line@) == LineForm::Text,
    ensures
        match spec_expand_line(line@) {
            Ok(out) => r is Ok && r->Ok_0.deep_view() == out,
            Err(k) => r is Err && r->Err_0.kind == k,
        },
{
    let ghost s = line@;
            let (a, b) = match match_text(v) {
                Some(p) => p,
                None => {
                    proof {
                        assert(false);
                    }
                    return Err(AsmError::new(AsmErrorKind::Unrecognized, line));
                },
            };
            let content = line.substring_char(a, b);
            let codes = match ascii_codes(content) {
                Some(cs) => cs,
                None => {
                    proof {
                        let ghost (sa, sb) = spec_match_text(s)->0;
                        assert(ascii_run(s, sa, sb));
                        let i0 = choose|i: int|
                            0 <= i < content@.len() && !is_ascii_char(#[trigger] content@[i]);
                        assert(content@[i0] == s[sa + i0]);
                        assert(false);
                    }
                    return Err(AsmError::new(AsmErrorKind::BadLiteral, line));
                },
            };
            let n = b - a;
            let mut out: Vec<String> = Vec::new();
            let mut i: usize = 0;
            proof {
                reveal_strlit(".fill 0x");
                assert(".fill 0x"@ =~= seq!['.', 'f', 'i', 'l', 'l', ' ', '0', 'x']);
            }
            while i < n
                invariant
                    0 <= i <= n,
                    n == b - a,
                    0 < a <= b < v.len(),
                    v@ == s,
                    v@ == line@,
                    spec_match_text(s) == Some((a as int, b as int)),
                    codes@.len() == b - a,
                    forall|k: int|
                        0 <= k < codes@.len() ==> #[trigger] codes@[k] == s[a + k] as u8
                            && is_ascii_char(s[a + k]),
                    out.deep_view().len() == i,
                    forall|k: int|
                        0 <= k < i ==> #[trigger] out.deep_view()[k] == text_line(
                            s,
                            a as int,
                            b as int,
                            k,
                        ),
                decreases n - i,
            {
                let mut t = String::new();
                if i == 0 {
                    append_label_tag(&mut t, line, v);
                }
                proof {
                    reveal_strlit(".fill 0x");
                    assert(".fill 0x"@ =~= seq!['.', 'f', 'i', 'l', 'l', ' ', '0', 'x']);
                }
                t.append(".fill 0x");
                append_hex4(&mut t, codes[i] as u16);
                proof {
                    assert(t@ =~= text_line(s, a as int, b as int, i as int));
                }
                let ghost out0 = out.deep_view();
                let ghost tv = t@;
                out.push(t);
                proof {
                    assert(out.deep_view() =~= out0.push(tv));
                }
                i = i + 1;
            }
            let mut t = String::new();
            proof {
                reveal_strlit(".fill 0x");
                assert(".fill 0x"@ =~= seq!['.', 'f', 'i', 'l', 'l', ' ', '0', 'x']);
            }
            t.append(".fill 0x");
            append_hex4(&mut t, 0);
            proof {
                assert(t@ =~= text_line(s, a as int, b as int, (b - a) as int));
            }
            let ghost out0 = out.deep_view();
            let ghost tv = t@;
            out.push(t);
            proof {
                assert(out.deep_view() =~= out0.push(tv));
                assert(out.deep_view() =~= Seq::new(
                    (b - a + 1) as nat,
                    |i: int| text_line(s, a as int, b as int, i),
                ));
            }
            Ok(out)
}

/// Expansion of a whole program: the concatenation of each line's expansion,
/// or the first failing line's error.
pub open spec fn spec_expand_lines(ls: Seq<Seq<char>>) -> Result<Seq<Seq<char>>, AsmErrorKind>
    decreases ls.len(),
{
    if ls.len() == 0 {
        Ok(Seq::empty())
    } else {
        match spec_expand_line(ls[0]) {
            Err(k) => Err(k),
            Ok(e) => match spec_expand_lines(ls.drop_first()) {
                Err(k) => Err(k),
                Ok(rest) => Ok(e + rest),
            },
        }
    }
}

/// Takes a program and replaces every pseudo-instruction with the one or
/// more real instructions and fill words it stands for, as
/// `spec_expand_line` lays out; all other lines pass through unchanged, in
/// order.
pub fn substitute_pseudoinstrs(lines: &Vec<String>) -> (r: Result<Vec<String>, AsmError>)
    ensures
        match spec_expand_lines(lines.deep_view()) {
            Ok(out) => r is Ok && r->Ok_0.deep_view() == out,
            Err(k) => r is Err && r->Err_0.kind == k,
        },
{
    let ghost dv = lines.deep_view();
    proof {
        assert(dv.skip(0) =~= dv);
    }
    let mut out: Vec<String> = Vec::new();
    let mut i: usize = 0;
    while i < lines.len()
        invariant
            0 <= i <= lines.len(),
            dv == lines.deep_view(),
            dv.len() == lines.len(),
            spec_expand_lines(dv) == (match spec_expand_lines(dv.skip(i as int)) {
                Ok(rest) => Ok::<Seq<Seq<char>>, AsmErrorKind>(out.deep_view() + rest),
                Err(k) => Err(k),
            }),
        decreases lines.len() - i,
    {
        let line: &String = &lines[i];
        proof {
            assert(dv[i as int] == line@);
            assert(dv.skip(i as int)[0] == dv[i as int]);
            assert(dv.skip(i as int).drop_first() =~= dv.skip(i as int + 1));
        }
        match expand_line(line.as_str()) {
            Ok(mut chunk) => {
                let ghost out0 = out.deep_view();
                let ghost ch = chunk.deep_view();
                out.append(&mut chunk);
                proof {
                    assert(out.deep_view() =~= out0 + ch);
                    if spec_expand_lines(dv.skip(i as int + 1)) is Ok {
                        assert((out0 + ch) + spec_expand_lines(dv.skip(i as int + 1))->Ok_0
                            =~= out0 + (ch + spec_expand_lines(dv.skip(i as int + 1))->Ok_0));
                    }
                }
            },
            Err(e) => {
                return Err(e);
            },
        }
        i = i + 1;
    }
    proof {
        assert(dv.skip(i as int) =~= Seq::<Seq<char>>::empty());
        assert(out.deep_view() + Seq::<Seq<char>>::empty() =~= out.deep_view());
    }
    Ok(out)
}

} // verus!
