//! Low-level scanning over a line's characters: blank runs, digit runs,
//! numeric tokens, register names, label tags and label references.
use vstd::prelude::*;
use crate::chars::{ascii_code, is_blank, is_digit, is_bin_digit, is_hex_digit, is_label_char, is_ascii_char, digit_val, hex_val, blank, digit, bin_digit, hex_digit, label_char, ascii_char, digit_value, hex_value};

verus! {

/// Index of the first non-blank character at or after `i`.
pub open spec fn spec_skip_blanks(s: Seq<char>, i: int) -> int
    decreases s.len() - i,
{
    if 0 <= i < s.len() && is_blank(s[i]) {
        spec_skip_blanks(s, i + 1)
    } else {
        i
    }
}

/// Whether `c` is a digit of the given radix (2, 10 or 16).
pub open spec fn digit_ok(c: char, radix: int) -> bool {
    if radix == 2 {
        is_bin_digit(c)
    } else if radix == 10 {
        is_digit(c)
    } else {
        is_hex_digit(c)
    }
}

/// Index of the first character at or after `i` that is not a digit of `radix`.
pub open spec fn spec_skip_digits(s: Seq<char>, i: int, radix: int) -> int
    decreases s.len() - i,
{
    if 0 <= i < s.len() && digit_ok(s[i], radix) {
        spec_skip_digits(s, i + 1, radix)
    } else {
        i
    }
}

/// Index of the first character at or after `i` that cannot appear in a label name.
pub open spec fn spec_skip_label_chars(s: Seq<char>, i: int) -> int
    decreases s.len() - i,
{
    if 0 <= i < s.len() && is_label_char(s[i]) {
        spec_skip_label_chars(s, i + 1)
    } else {
        i
    }
}

/// All of `s[i..j)` are digits of `radix` (and in bounds).
pub open spec fn digits_run(s: Seq<char>, i: int, j: int, radix: int) -> bool {
    &&& 0 <= i
    &&& j <= s.len()
    &&& forall|k: int| i <= k < j ==> #[trigger] digit_ok(s[k], radix)
}

/// Value of the digit run `s[i..j)` read in the given radix.
pub open spec fn run_val(s: Seq<char>, i: int, j: int, radix: int) -> int
    decreases j - i,
{
    if i >= j {
        0
    } else {
        run_val(s, i, j - 1, radix) * radix + hex_val(s[j - 1])
    }
}

pub proof fn lemma_run_val_nonneg(s: Seq<char>, i: int, j: int, radix: int)
    requires
        radix >= 2,
        digits_run(s, i, j, radix),
    ensures
        run_val(s, i, j, radix) >= 0,
    decreases j - i,
{
    if i < j {
        assert(digits_run(s, i, j - 1, radix));
        lemma_run_val_nonneg(s, i, j - 1, radix);
        assert(digit_ok(s[j - 1], radix));
        assert(hex_val(s[j - 1]) >= 0);
        assert(run_val(s, i, j - 1, radix) * radix >= 0) by (nonlinear_arith)
            requires
                run_val(s, i, j - 1, radix) >= 0,
                radix >= 2,
        ;
    }
}

pub proof fn lemma_run_val_mono(s: Seq<char>, i: int, j: int, j2: int, radix: int)
    requires
        radix >= 2,
        i <= j <= j2,
        digits_run(s, i, j2, radix),
    ensures
        run_val(s, i, j2, radix) >= run_val(s, i, j, radix),
    decreases j2 - j,
{
    if j < j2 {
        assert(digits_run(s, i, j2 - 1, radix));
        lemma_run_val_mono(s, i, j, j2 - 1, radix);
        lemma_run_val_nonneg(s, i, j2 - 1, radix);
        assert(digit_ok(s[j2 - 1], radix));
        assert(run_val(s, i, j2 - 1, radix) * radix >= run_val(s, i, j2 - 1, radix))
            by (nonlinear_arith)
            requires
                run_val(s, i, j2 - 1, radix) >= 0,
                radix >= 2,
        ;
        assert(hex_val(s[j2 - 1]) >= 0);
    }
}

pub fn skip_blanks(v: &Vec<char>, i: usize) -> (r: usize)
    requires
        i <= v.len(),
    ensures
        r == spec_skip_blanks(v@, i as int),
        i <= r <= v.len(),
    decreases v.len() - i,
{
    if i < v.len() && blank(v[i]) {
        skip_blanks(v, i + 1)
    } else {
        i
    }
}

pub fn skip_digits(v: &Vec<char>, i: usize, radix: u64) -> (r: usize)
    requires
        i <= v.len(),
        radix == 2 || radix == 10 || radix == 16,
    ensures
        r == spec_skip_digits(v@, i as int, radix as int),
        i <= r <= v.len(),
    decreases v.len() - i,
{
    if i < v.len() && (if radix == 2 {
        bin_digit(v[i])
    } else if radix == 10 {
        digit(v[i])
    } else {
        hex_digit(v[i])
    }) {
        skip_digits(v, i + 1, radix)
    } else {
        i
    }
}

pub fn skip_label_chars(v: &Vec<char>, i: usize) -> (r: usize)
    requires
        i <= v.len(),
    ensures
        r == spec_skip_label_chars(v@, i as int),
        i <= r <= v.len(),
    decreases v.len() - i,
{
    if i < v.len() && label_char(v[i]) {
        skip_label_chars(v, i + 1)
    } else {
        i
    }
}

/// Largest magnitude a literal may take before it is reported as malformed.
pub open spec fn max_literal() -> int {
    0x7FFF_FFFF_FFFF_FFFF
}

/// Value of the digit run `s[i..j)`, or `None` if it exceeds `max_literal()`.
pub fn run_value(v: &Vec<char>, start: usize, end: usize, radix: u64) -> (r: Option<u64>)
    requires
        start <= end <= v.len(),
        radix == 2 || radix == 10 || radix == 16,
        digits_run(v@, start as int, end as int, radix as int),
    ensures
        match r {
            Some(u) => u == run_val(v@, start as int, end as int, radix as int) && u
                <= max_literal(),
            None => run_val(v@, start as int, end as int, radix as int) > max_literal(),
        },
{
    let mut acc: u64 = 0;
    let mut k: usize = start;
    let cap: u64 = 0x7FFF_FFFF_FFFF_FFFF;
    while k < end
        invariant
            start <= k <= end <= v.len(),
            radix == 2 || radix == 10 || radix == 16,
            digits_run(v@, start as int, end as int, radix as int),
            acc as int == run_val(v@, start as int, k as int, radix as int),
            acc <= cap,
            cap == max_literal(),
        decreases end - k,
    {
        proof {
            assert(digit_ok(v@[k as int], radix as int));
        }
        let d: u64 = hex_value(v[k]) as u64;
        proof {
            assert(d == hex_val(v@[k as int]));
            assert(d < 16);
        }
        if acc > (cap - d) / radix {
            proof {
                assert(acc as int * radix as int + d as int > cap as int) by (nonlinear_arith)
                    requires
                        acc as int > (cap as int - d as int) / (radix as int),
                        radix == 2 || radix == 10 || radix == 16,
                        0 <= d < 16,
                        d <= cap,
                ;
                assert(run_val(v@, start as int, k as int + 1, radix as int) == acc as int
                    * radix as int + d as int);
                lemma_run_val_mono(v@, start as int, k as int + 1, end as int, radix as int);
            }
            return None;
        }
        proof {
            assert(acc as int * radix as int + d as int <= cap as int) by (nonlinear_arith)
                requires
                    acc as int <= (cap as int - d as int) / (radix as int),
                    radix == 2 || radix == 10 || radix == 16,
                    0 <= d < 16,
                    d <= cap,
            ;
        }
        acc = acc * radix + d;
        k = k + 1;
    }
    Some(acc)
}

/// A numeric token at position `i`: a `0b`-prefixed binary run, a `0x`-prefixed
/// hexadecimal run, or an optionally signed decimal run, tried in that order.
/// Returns the token's value and its end position.
pub open spec fn spec_scan_number(s: Seq<char>, i: int) -> Option<(int, int)> {
    if i + 2 < s.len() && s[i] == '0' && s[i + 1] == 'b' && is_bin_digit(s[i + 2]) {
        let e = spec_skip_digits(s, i + 2, 2);
        Some((run_val(s, i + 2, e, 2), e))
    } else if i + 2 < s.len() && s[i] == '0' && s[i + 1] == 'x' && is_hex_digit(s[i + 2]) {
        let e = spec_skip_digits(s, i + 2, 16);
        Some((run_val(s, i + 2, e, 16), e))
    } else {
        let (neg, j) = if 0 <= i < s.len() && (s[i] == '+' || s[i] == '-') {
            (s[i] == '-', i + 1)
        } else {
            (false, i)
        };
        if j < s.len() && is_digit(s[j]) {
            let e = spec_skip_digits(s, j, 10);
            let m = run_val(s, j, e, 10);
            Some(((if neg { -m } else { m }), e))
        } else {
            None
        }
    }
}

/// Executable form of `spec_scan_number`.  The value slot is `None` when the
/// token's magnitude exceeds `max_literal()`.
pub fn scan_number(v: &Vec<char>, i: usize) -> (r: Option<(Option<i64>, usize)>)
    requires
        i <= v.len(),
    ensures
        match spec_scan_number(v@, i as int) {
            Some((val, end)) => {
                &&& r is Some
                &&& (r->0).1 == end
                &&& (if -max_literal() <= val <= max_literal() {
                    (r->0).0 == Some(val as i64)
                } else {
                    (r->0).0 is None
                })
            },
            None => r is None,
        },
{
    if v.len() - i > 2 && v[i] == '0' && v[i + 1] == 'b' && bin_digit(v[i + 2]) {
        let e = skip_digits(v, i + 2, 2);
        proof {
            lemma_skip_digits_run(v@, i + 2, 2);
        }
        match run_value(v, i + 2, e, 2) {
            Some(u) => Some((Some(u as i64), e)),
            None => Some((None, e)),
        }
    } else if v.len() - i > 2 && v[i] == '0' && v[i + 1] == 'x' && hex_digit(v[i + 2]) {
        let e = skip_digits(v, i + 2, 16);
        proof {
            lemma_skip_digits_run(v@, i + 2, 16);
        }
        match run_value(v, i + 2, e, 16) {
            Some(u) => Some((Some(u as i64), e)),
            None => Some((None, e)),
        }
    } else {
        let (neg, j): (bool, usize) = if i < v.len() && (v[i] == '+' || v[i] == '-') {
            (v[i] == '-', i + 1)
        } else {
            (false, i)
        };
        if j < v.len() && digit(v[j]) {
            let e = skip_digits(v, j, 10);
            proof {
                lemma_skip_digits_run(v@, j as int, 10);
            }
            match run_value(v, j, e, 10) {
                Some(u) => {
                    if neg {
                        Some((Some(-(u as i64)), e))
                    } else {
                        Some((Some(u as i64), e))
                    }
                },
                None => Some((None, e)),
            }
        } else {
            None
        }
    }
}

/// Every character strictly between `i` and `spec_skip_digits(s, i, radix)` is a
/// digit of `radix`.
pub proof fn lemma_skip_digits_run(s: Seq<char>, i: int, radix: int)
    requires
        0 <= i <= s.len(),
    ensures
        i <= spec_skip_digits(s, i, radix) <= s.len(),
        digits_run(s, i, spec_skip_digits(s, i, radix), radix),
    decreases s.len() - i,
{
    if i < s.len() && digit_ok(s[i], radix) {
        lemma_skip_digits_run(s, i + 1, radix);
        assert(digits_run(s, i, spec_skip_digits(s, i, radix), radix));
    }
}

/// A single-quoted ASCII character literal at position `i`; its value is the
/// character's code.
pub open spec fn spec_scan_char_lit(s: Seq<char>, i: int) -> Option<(int, int)> {
    if 0 <= i && i + 2 < s.len() && s[i] == '\'' && s[i + 2] == '\'' && is_ascii_char(s[i + 1]) {
        Some((s[i + 1] as int, i + 3))
    } else {
        None
    }
}

pub fn scan_char_lit(v: &Vec<char>, i: usize) -> (r: Option<(u8, usize)>)
    requires
        i <= v.len(),
    ensures
        match spec_scan_char_lit(v@, i as int) {
            Some((val, end)) => r == Some((val as u8, end as usize)) && 0 <= val <= 127,
            None => r is None,
        },
{
    if v.len() - i > 2 && v[i] == '\'' && v[i + 2] == '\'' && ascii_char(v[i + 1]) {
        Some((ascii_code(v[i + 1]), i + 3))
    } else {
        None
    }
}

/// A register operand at position `i`: `$zero` is index 0, `$r0` through `$r6`
/// are indices 1 through 7.  Returns the index and the end position.
pub open spec fn spec_scan_register(s: Seq<char>, i: int) -> Option<(int, int)> {
    if 0 <= i && i + 4 < s.len() && s[i] == '$' && s[i + 1] == 'z' && s[i + 2] == 'e' && s[i + 3]
        == 'r' && s[i + 4] == 'o' {
        Some((0, i + 5))
    } else if 0 <= i && i + 2 < s.len() && s[i] == '$' && s[i + 1] == 'r' && '0' <= s[i + 2] && s[i
        + 2] <= '6' {
        Some((digit_val(s[i + 2]) + 1, i + 3))
    } else {
        None
    }
}

pub fn scan_register(v: &Vec<char>, i: usize) -> (r: Option<(u16, usize)>)
    requires
        i <= v.len(),
    ensures
        match spec_scan_register(v@, i as int) {
            Some((idx, end)) => r == Some((idx as u16, end as usize)) && 0 <= idx <= 7,
            None => r is None,
        },
{
    if v.len() - i > 4 && v[i] == '$' && v[i + 1] == 'z' && v[i + 2] == 'e' && v[i + 3] == 'r'
        && v[i + 4] == 'o' {
        Some((0, i + 5))
    } else if v.len() - i > 2 && v[i] == '$' && v[i + 1] == 'r' && '0' <= v[i + 2] && v[i + 2]
        <= '6' {
        Some(((digit_value(v[i + 2]) + 1) as u16, i + 3))
    } else {
        None
    }
}

/// The line's leading label tag `name:`, if present: returns the position just
/// after the colon; the name is `s[0 .. r - 1)`.
pub open spec fn spec_label_tag_end(s: Seq<char>) -> Option<int> {
    let k = spec_skip_label_chars(s, 0);
    if k >= 1 && k < s.len() && s[k] == ':' {
        Some(k + 1)
    } else {
        None
    }
}

pub fn label_tag_end(v: &Vec<char>) -> (r: Option<usize>)
    ensures
        match spec_label_tag_end(v@) {
            Some(e) => r == Some(e as usize) && 1 <= e <= v.len(),
            None => r is None,
        },
{
    let k = skip_label_chars(v, 0);
    if k >= 1 && k < v.len() && v[k] == ':' {
        Some(k + 1)
    } else {
        None
    }
}

/// First label reference `@name` at or after `i`: returns the position of the
/// `@` and the end of the name.
pub open spec fn spec_find_label_arg(s: Seq<char>, i: int) -> Option<(int, int)>
    decreases s.len() - i,
{
    if 0 <= i < s.len() {
        if s[i] == '@' && i + 1 < s.len() && is_label_char(s[i + 1]) {
            Some((i, spec_skip_label_chars(s, i + 1)))
        } else {
            spec_find_label_arg(s, i + 1)
        }
    } else {
        None
    }
}

pub fn find_label_arg(v: &Vec<char>, i: usize) -> (r: Option<(usize, usize)>)
    requires
        i <= v.len(),
    ensures
        match spec_find_label_arg(v@, i as int) {
            Some((st, end)) => r == Some((st as usize, end as usize)) && i <= st && st + 1 < end
                <= v.len(),
            None => r is None,
        },
    decreases v.len() - i,
{
    if i < v.len() {
        if v[i] == '@' && i + 1 < v.len() && label_char(v[i + 1]) {
            let e = skip_label_chars(v, i + 1);
            proof {
                lemma_skip_label_chars_run(v@, i + 2);
                assert(is_label_char(v@[i + 1]));
                assert(spec_skip_label_chars(v@, i + 1) == spec_skip_label_chars(v@, i + 2));
            }
            Some((i, e))
        } else {
            find_label_arg(v, i + 1)
        }
    } else {
        None
    }
}

/// Every character between `i` and `spec_skip_label_chars(s, i)` is a label
/// character, and the run is maximal.
pub proof fn lemma_skip_label_chars_run(s: Seq<char>, i: int)
    requires
        0 <= i <= s.len(),
    ensures
        i <= spec_skip_label_chars(s, i) <= s.len(),
        forall|k: int| i <= k < spec_skip_label_chars(s, i) ==> is_label_char(#[trigger] s[k]),
        i < spec_skip_label_chars(s, i) ==> is_label_char(s[i]),
    decreases s.len() - i,
{
    if i < s.len() && is_label_char(s[i]) {
        lemma_skip_label_chars_run(s, i + 1);
    }
}

/// First numeric token that starts the line or follows a blank, scanning left
/// to right: returns its value, start and end.
pub open spec fn spec_find_number(s: Seq<char>, p: int) -> Option<(int, int, int)>
    decreases s.len() - p,
{
    if 0 <= p <= s.len() {
        if (p == 0 || is_blank(s[p - 1])) && spec_scan_number(s, p) is Some {
            let (val, end) = spec_scan_number(s, p)->0;
            Some((val, p, end))
        } else if p < s.len() {
            spec_find_number(s, p + 1)
        } else {
            None
        }
    } else {
        None
    }
}

/// Executable form of `spec_find_number`; the value slot is `None` when the
/// token's magnitude exceeds `max_literal()`.
pub fn find_number(v: &Vec<char>, p: usize) -> (r: Option<(Option<i64>, usize, usize)>)
    requires
        p <= v.len(),
    ensures
        match spec_find_number(v@, p as int) {
            Some((val, st, end)) => {
                &&& r is Some
                &&& (r->0).1 == st
                &&& (r->0).2 == end
                &&& (if -max_literal() <= val <= max_literal() {
                    (r->0).0 == Some(val as i64)
                } else {
                    (r->0).0 is None
                })
            },
            None => r is None,
        },
    decreases v.len() - p,
{
    let anchored = p == 0 || blank(v[p - 1]);
    if anchored {
        match scan_number(v, p) {
            Some((val, end)) => {
                return Some((val, p, end));
            },
            None => {},
        }
    }
    if p < v.len() {
        find_number(v, p + 1)
    } else {
        None
    }
}

/// First single-quoted ASCII character literal at or after `p`.
pub open spec fn spec_find_char_lit(s: Seq<char>, p: int) -> Option<(int, int, int)>
    decreases s.len() - p,
{
    if 0 <= p < s.len() {
        if spec_scan_char_lit(s, p) is Some {
            let (val, end) = spec_scan_char_lit(s, p)->0;
            Some((val, p, end))
        } else {
            spec_find_char_lit(s, p + 1)
        }
    } else {
        None
    }
}

pub fn find_char_lit(v: &Vec<char>, p: usize) -> (r: Option<(u8, usize, usize)>)
    requires
        p <= v.len(),
    ensures
        match spec_find_char_lit(v@, p as int) {
            Some((val, st, end)) => r == Some((val as u8, st as usize, end as usize)) && 0 <= val
                <= 127,
            None => r is None,
        },
    decreases v.len() - p,
{
    if p < v.len() {
        match scan_char_lit(v, p) {
            Some((val, end)) => Some((val, p, end)),
            None => find_char_lit(v, p + 1),
        }
    } else {
        None
    }
}

/// The characters of `s`, one by one.
pub fn to_chars(s: &str) -> (v: Vec<char>)
    ensures
        v@ == s@,
{
    let n = s.unicode_len();
    let mut v: Vec<char> = Vec::new();
    let mut i: usize = 0;
    while i < n
        invariant
            n == s@.len(),
            i <= n,
            v@ == s@.subrange(0, i as int),
        decreases n - i,
    {
        v.push(s.get_char(i));
        proof {
            assert(v@ =~= s@.subrange(0, i + 1));
        }
        i = i + 1;
    }
    proof {
        assert(v@ =~= s@);
    }
    v
}

/// Character-by-character string equality.
pub fn str_eq(a: &str, b: &str) -> (r: bool)
    ensures
        r == (a@ == b@),
{
    let va = to_chars(a);
    let vb = to_chars(b);
    if va.len() != vb.len() {
        return false;
    }
    let mut i: usize = 0;
    while i < va.len()
        invariant
            0 <= i <= va@.len(),
            va@.len() == vb@.len(),
            va@ == a@,
            vb@ == b@,
            forall|k: int| 0 <= k < i ==> va@[k] == vb@[k],
        decreases va@.len() - i,
    {
        if va[i] != vb[i] {
            return false;
        }
        i = i + 1;
    }
    proof {
        assert(a@ =~= b@);
    }
    true
}

} // verus!
