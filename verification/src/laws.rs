//! Laws of the encoding and of the expansion: what the bit fields give back,
//! and what the pseudo-instruction rewrites preserve.
use vstd::prelude::*;
use crate::encode::{
    opcode_of, rrr_word, rri_word, ri_word, imm7_field, spec_encode_line,
};
use crate::expand::{
    spec_expand_line, u16_of_i16, elem_w, label_tag_seq, addi_pre, lui_pre,
};
use crate::forms::{LineForm, Mnemonic, spec_classify, spec_match_rrr, spec_match_data};
use crate::imm::{spec_get_imm, spec_validate_space, spec_elems, p2};

verus! {

/// The fields of a three-register word give back what was packed: the top
/// three bits recover the opcode's operation, and the fields at bits 10–12,
/// 7–9 and 4–6 recover the three register indices exactly.
pub proof fn lemma_rrr_word_decodes(op: u16, a: u16, b: u16, c: u16)
    requires
        op == 0x0000 || op == 0x4000 || op == 0xC000,
        a < 8,
        b < 8,
        c < 8,
    ensures
        (rrr_word(op, a, b, c) >> 13) == (op >> 13),
        ((rrr_word(op, a, b, c) >> 10) & 7) == a,
        ((rrr_word(op, a, b, c) >> 7) & 7) == b,
        ((rrr_word(op, a, b, c) >> 4) & 7) == c,
{
    assert((op | (a << 10) | (b << 7) | (c << 4)) >> 13 == op >> 13 && ((op | (a << 10) | (b << 7)
        | (c << 4)) >> 10) & 7 == a && ((op | (a << 10) | (b << 7) | (c << 4)) >> 7) & 7 == b && ((
    op | (a << 10) | (b << 7) | (c << 4)) >> 4) & 7 == c) by (bit_vector)
        requires
            op == 0x0000 || op == 0x4000 || op == 0xC000,
            a < 8,
            b < 8,
            c < 8,
    ;
}

/// When the first register index is below 4, even the word's top four bits
/// give the opcode nibble back whole.  (With a first register of 4 or more,
/// the register's high bit reaches into the fourth-from-top bit: decoding
/// must take the top three bits alone, as `lemma_rrr_word_decodes` states.)
pub proof fn lemma_rrr_word_top_nibble(op: u16, a: u16, b: u16, c: u16)
    requires
        op == 0x0000 || op == 0x4000 || op == 0xC000,
        a < 4,
        b < 8,
        c < 8,
    ensures
        (rrr_word(op, a, b, c) >> 12) == (op >> 12),
{
    assert((op | (a << 10) | (b << 7) | (c << 4)) >> 12 == op >> 12) by (bit_vector)
        requires
            op == 0x0000 || op == 0x4000 || op == 0xC000,
            a < 4,
            b < 8,
            c < 8,
    ;
}

/// Every valid three-register line encodes, and its word decodes back to
/// the mnemonic's operation and the line's three register indices.
pub proof fn lemma_rrr_line_decodes(s: Seq<char>)
    requires
        spec_classify(s) == LineForm::Rrr,
    ensures
        spec_encode_line(s) is Ok,
        ({
            let (mn, a, b, c) = spec_match_rrr(s)->0;
            let w = spec_encode_line(s)->Ok_0;
            &&& (w >> 13) == (opcode_of(mn) >> 13)
            &&& ((w >> 10) & 7) == a
            &&& ((w >> 7) & 7) == b
            &&& ((w >> 4) & 7) == c
        }),
{
    let (mn, a, b, c) = spec_match_rrr(s)->0;
    assert(mn == Mnemonic::Add || mn == Mnemonic::Nand || mn == Mnemonic::Beq);
    assert(0 <= a <= 7 && 0 <= b <= 7 && 0 <= c <= 7);
    lemma_rrr_word_decodes(opcode_of(mn), a as u16, b as u16, c as u16);
}

/// A signed immediate within the 7-bit range survives the round trip: the
/// encoded word's low seven bits, read back as two's complement, give the
/// value that was packed.
pub proof fn lemma_rri_imm_roundtrip(op: u16, a: u16, b: u16, v: int)
    requires
        op == 0x2000 || op == 0x8000 || op == 0xA000,
        a < 8,
        b < 8,
        -64 <= v <= 63,
    ensures
        ({
            let f = imm7_field(v) as u16;
            let g = rri_word(op, a, b, f) & 0x7F;
            (if g >= 64 {
                g - 128
            } else {
                g as int
            }) == v
        }),
{
    let f = imm7_field(v) as u16;
    assert(f < 128);
    assert((op | (a << 10) | (b << 7) | f) & 0x7F == f) by (bit_vector)
        requires
            op == 0x2000 || op == 0x8000 || op == 0xA000,
            a < 8,
            b < 8,
            f < 128,
    ;
}

/// An unsigned immediate within the 10-bit range survives the round trip
/// through a `LUI` word's low ten bits.
pub proof fn lemma_lui_imm_roundtrip(a: u16, v: u16)
    requires
        a < 8,
        v < 1024,
    ensures
        (ri_word(a, v) & 0x3FF) == v,
{
    assert((0x6000 | (a << 10) | v) & 0x3FF == v) by (bit_vector)
        requires
            a < 8,
            v < 1024,
    ;
}

/// A `MOVI` with a numeric 16-bit immediate expands to exactly two
/// instructions, and their two immediates — the value's low six bits and
/// its upper ten bits — reconstruct the value: `low + 64 * high` is the
/// immediate again.
pub proof fn lemma_movi_expansion_reconstructs(s: Seq<char>)
    requires
        spec_classify(s) == LineForm::Data,
        !(spec_match_data(s)->0).0,
        spec_get_imm(s, 16, false, false, true) matches Ok(Some(_)),
    ensures
        spec_expand_line(s) is Ok,
        spec_expand_line(s)->Ok_0.len() == 2,
        ({
            let val = spec_get_imm(s, 16, false, false, true)->Ok_0->0;
            let w = u16_of_i16(val);
            let r = (spec_match_data(s)->0).1;
            let out = spec_expand_line(s)->Ok_0;
            &&& 0 <= w <= 65535
            &&& (w % 64) + 64 * (w / 64) == w
            &&& w % 64 <= 63
            &&& w / 64 <= 1023
            &&& out[0] == label_tag_seq(s) + addi_pre(r) + crate::fmt::spec_reg_name(0)
                + seq![',', ' '] + crate::fmt::dec_str(w % 64)
            &&& out[1] == lui_pre(r) + crate::fmt::dec_str(w / 64)
        }),
{
    let val = spec_get_imm(s, 16, false, false, true)->Ok_0->0;
    assert(p2(16) == 65536) by {
        reveal_with_fuel(p2, 18);
    }
    assert(-32768 <= val <= 32767);
    let w = u16_of_i16(val);
    assert(0 <= w <= 65535);
    vstd::arithmetic::div_mod::lemma_fundamental_div_mod(w, 64);
}

/// A `.space` directive that validates with a non-negative count, every
/// listed value an in-range literal, expands to exactly its declared number
/// of fill words: the listed values first, in order, and zero for every
/// remaining word.
pub proof fn lemma_space_pads_with_zero(s: Seq<char>)
    requires
        spec_classify(s) == LineForm::Space,
        spec_validate_space(s) is Ok,
        spec_elems(s, 0)[0]->val >= 0,
        forall|i: int|
            1 <= i < spec_elems(s, 0).len() ==> !crate::expand::elem_huge(
                #[trigger] spec_elems(s, 0)[i],
            ),
    ensures
        spec_expand_line(s) is Ok,
        ({
            let toks = spec_elems(s, 0);
            let n = toks[0]->val;
            let out = spec_expand_line(s)->Ok_0;
            &&& out.len() == n
            &&& toks.len() - 1 <= n
            &&& forall|i: int|
                0 <= i < n && i + 1 < toks.len() ==> #[trigger] out[i] == (if i == 0 {
                    label_tag_seq(s)
                } else {
                    Seq::<char>::empty()
                }) + crate::expand::fill_line(elem_w(toks[i + 1]))
            &&& forall|i: int|
                toks.len() - 1 <= i < n ==> #[trigger] out[i] == (if i == 0 {
                    label_tag_seq(s)
                } else {
                    Seq::<char>::empty()
                }) + crate::expand::fill_line(0)
        }),
{
    let toks = spec_elems(s, 0);
    let n = toks[0]->val;
    assert(toks.len() >= 1 && toks[0] is Num && toks[0]->dec);
    assert(!(exists|k: int| 0 <= k < toks.len() && crate::imm::elem_bad(#[trigger] toks[k])));
    assert(n <= 65535) by {
        assert(!crate::imm::elem_bad(toks[0]));
    }
    assert(toks.len() <= n + 1);
    let out = spec_expand_line(s)->Ok_0;
    assert(out.len() == n);
}

/// A `.space` directive that lists more values than its count declares
/// fails, both at validation and at expansion.
pub proof fn lemma_space_overfull_fails(s: Seq<char>)
    requires
        spec_classify(s) == LineForm::Space,
        spec_elems(s, 0).len() >= 1,
        spec_elems(s, 0)[0] is Num,
        spec_elems(s, 0)[0]->dec,
        0 <= spec_elems(s, 0)[0]->val <= 65535,
        spec_elems(s, 0).len() > spec_elems(s, 0)[0]->val + 1,
        forall|i: int|
            1 <= i < spec_elems(s, 0).len() ==> !crate::expand::elem_huge(
                #[trigger] spec_elems(s, 0)[i],
            ),
    ensures
        spec_validate_space(s) == Err::<(), _>(crate::error::AsmErrorKind::SpaceTooLong),
        spec_expand_line(s) == Err::<Seq<Seq<char>>, _>(crate::error::AsmErrorKind::SpaceTooLong),
{
    assert(crate::scan::max_literal() >= 65535);
}

} // verus!
