//! Conversion of a literal token to its numeric value.
use vstd::prelude::*;
use crate::chars::{is_ascii_char, ascii_char, ascii_code};
use crate::error::{AsmError, AsmErrorKind};
use crate::scan::{
    digit_ok, digits_run, max_literal, run_val, run_value, spec_skip_digits, skip_digits,
    lemma_skip_digits_run, spec_find_char_lit, find_char_lit,
};

verus! {

/// `s` is `0x` followed by one or more hexadecimal digits.
pub open spec fn is_hex_form(s: Seq<char>) -> bool {
    s.len() >= 3 && s[0] == '0' && s[1] == 'x' && digits_run(s, 2, s.len() as int, 16)
}

/// `s` is `0b` followed by one or more binary digits.
pub open spec fn is_bin_form(s: Seq<char>) -> bool {
    s.len() >= 3 && s[0] == '0' && s[1] == 'b' && digits_run(s, 2, s.len() as int, 2)
}

/// `s` is an optional sign followed by one or more decimal digits.
pub open spec fn is_dec_form(s: Seq<char>) -> bool {
    if s.len() >= 1 && (s[0] == '+' || s[0] == '-') {
        s.len() >= 2 && digits_run(s, 1, s.len() as int, 10)
    } else {
        s.len() >= 1 && digits_run(s, 0, s.len() as int, 10)
    }
}

/// The numeric value a literal token denotes: a hexadecimal, binary or signed
/// decimal number, or — failing those — the code of the first single-quoted
/// ASCII character found in `s`, read at the token's second position.
/// `None` when the token is malformed or its magnitude exceeds `max_literal()`.
pub open spec fn spec_convert_to_i64(s: Seq<char>) -> Option<int> {
    if is_hex_form(s) {
        let m = run_val(s, 2, s.len() as int, 16);
        if m <= max_literal() {
            Some(m)
        } else {
            None
        }
    } else if is_bin_form(s) {
        let m = run_val(s, 2, s.len() as int, 2);
        if m <= max_literal() {
            Some(m)
        } else {
            None
        }
    } else if is_dec_form(s) {
        let neg = s[0] == '-';
        let lo: int = if s[0] == '+' || s[0] == '-' {
            1
        } else {
            0
        };
        let m = run_val(s, lo, s.len() as int, 10);
        if m <= max_literal() {
            Some(
                if neg {
                    -m
                } else {
                    m
                },
            )
        } else {
            None
        }
    } else if spec_find_char_lit(s, 0) is Some && s.len() >= 2 && is_ascii_char(s[1]) {
        Some(s[1] as int)
    } else {
        None
    }
}

/// If every character of `s[i..)` is a digit of `radix`, the digit run starting
/// at `i` extends to the end of `s`.
pub proof fn lemma_digits_to_end(s: Seq<char>, i: int, radix: int)
    requires
        i <= s.len(),
        digits_run(s, i, s.len() as int, radix),
    ensures
        spec_skip_digits(s, i, radix) == s.len(),
    decreases s.len() - i,
{
    if i < s.len() {
        assert(digit_ok(s[i], radix));
        assert(digits_run(s, i + 1, s.len() as int, radix));
        lemma_digits_to_end(s, i + 1, radix);
        assert(spec_skip_digits(s, i, radix) == spec_skip_digits(s, i + 1, radix));
    }
}

/// Takes a string formatted as a decimal (signed or unsigned), binary
/// (prefixed with `0b`) or hexadecimal (prefixed with `0x`) number and returns
/// its value; a single-quoted ASCII character yields the character's code.
/// Anything else, and any value too large for the accumulator, is an error.
pub fn convert_to_i64(raw_string: &str) -> (r: Result<i64, AsmError>)
    ensures
        match spec_convert_to_i64(raw_string@) {
            Some(v) => r is Ok && r->Ok_0 == v,
            None => r is Err && r->Err_0.kind == AsmErrorKind::BadLiteral,
        },
{
    let v = crate::scan::to_chars(raw_string);
    let ghost s = raw_string@;
    let n = v.len();
    if n >= 3 && v[0] == '0' && v[1] == 'x' && skip_digits(&v, 2, 16) == n {
        proof {
            lemma_skip_digits_run(s, 2, 16);
        }
        match run_value(&v, 2, n, 16) {
            Some(u) => Ok(u as i64),
            None => Err(AsmError::new(AsmErrorKind::BadLiteral, raw_string)),
        }
    } else if n >= 3 && v[0] == '0' && v[1] == 'b' && skip_digits(&v, 2, 2) == n {
        proof {
            lemma_skip_digits_run(s, 2, 2);
        }
        match run_value(&v, 2, n, 2) {
            Some(u) => Ok(u as i64),
            None => Err(AsmError::new(AsmErrorKind::BadLiteral, raw_string)),
        }
    } else {
        proof {
            if is_hex_form(s) {
                lemma_digits_to_end(s, 2, 16);
            }
            if is_bin_form(s) {
                lemma_digits_to_end(s, 2, 2);
            }
        }
        let (neg, lo): (bool, usize) = if n >= 1 && (v[0] == '+' || v[0] == '-') {
            (v[0] == '-', 1)
        } else {
            (false, 0)
        };
        if n > lo && skip_digits(&v, lo, 10) == n {
            proof {
                lemma_skip_digits_run(s, lo as int, 10);
            }
            match run_value(&v, lo, n, 10) {
                Some(u) => {
                    if neg {
                        Ok(-(u as i64))
                    } else {
                        Ok(u as i64)
                    }
                },
                None => Err(AsmError::new(AsmErrorKind::BadLiteral, raw_string)),
            }
        } else {
            proof {
                if is_dec_form(s) {
                    let l: int = if s[0] == '+' || s[0] == '-' {
                        1
                    } else {
                        0
                    };
                    lemma_digits_to_end(s, l, 10);
                }
            }
            match find_char_lit(&v, 0) {
                Some((_code, _st, _end)) => {
                    if n >= 2 && ascii_char(v[1]) {
                        Ok(ascii_code(v[1]) as i64)
                    } else {
                        Err(AsmError::new(AsmErrorKind::BadLiteral, raw_string))
                    }
                },
                None => Err(AsmError::new(AsmErrorKind::BadLiteral, raw_string)),
            }
        }
    }
}

} // verus!
