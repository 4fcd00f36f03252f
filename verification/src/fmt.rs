//! Rendering of numbers and register names back into assembly text.
use vstd::prelude::*;

verus! {

/// The digit character for a value 0 through 15, upper case.
pub open spec fn char_of_digit(d: int) -> char {
    if d == 0 {
        '0'
    } else if d == 1 {
        '1'
    } else if d == 2 {
        '2'
    } else if d == 3 {
        '3'
    } else if d == 4 {
        '4'
    } else if d == 5 {
        '5'
    } else if d == 6 {
        '6'
    } else if d == 7 {
        '7'
    } else if d == 8 {
        '8'
    } else if d == 9 {
        '9'
    } else if d == 10 {
        'A'
    } else if d == 11 {
        'B'
    } else if d == 12 {
        'C'
    } else if d == 13 {
        'D'
    } else if d == 14 {
        'E'
    } else {
        'F'
    }
}

/// The decimal digits of a non-negative number, most significant first.
pub open spec fn dec_digits(n: int) -> Seq<char>
    decreases n,
{
    if n < 10 {
        seq![char_of_digit(n)]
    } else {
        dec_digits(n / 10) + seq![char_of_digit(n % 10)]
    }
}

/// The decimal rendering of a number, with a leading minus when negative.
pub open spec fn dec_str(v: int) -> Seq<char> {
    if v < 0 {
        seq!['-'] + dec_digits(-v)
    } else {
        dec_digits(v)
    }
}

/// The four upper-case hexadecimal digits of a 16-bit value.
pub open spec fn hex4(n: int) -> Seq<char> {
    seq![
        char_of_digit(n / 4096 % 16),
        char_of_digit(n / 256 % 16),
        char_of_digit(n / 16 % 16),
        char_of_digit(n % 16),
    ]
}

/// The textual name of a register index: `$zero`, then `$r0` through `$r6`.
pub open spec fn spec_reg_name(i: int) -> Seq<char> {
    if i == 0 {
        seq!['$', 'z', 'e', 'r', 'o']
    } else {
        seq!['$', 'r', char_of_digit(i - 1)]
    }
}

/// The one-character string for a digit value 0 through 15.
pub fn digit_str(d: u8) -> (r: &'static str)
    requires
        d < 16,
    ensures
        r@ == seq![char_of_digit(d as int)],
{
    if d == 0 {
        proof {
            reveal_strlit("0");
            assert("0"@ =~= seq![char_of_digit(0)]);
        }
        "0"
    } else if d == 1 {
        proof {
            reveal_strlit("1");
            assert("1"@ =~= seq![char_of_digit(1)]);
        }
        "1"
    } else if d == 2 {
        proof {
            reveal_strlit("2");
            assert("2"@ =~= seq![char_of_digit(2)]);
        }
        "2"
    } else if d == 3 {
        proof {
            reveal_strlit("3");
            assert("3"@ =~= seq![char_of_digit(3)]);
        }
        "3"
    } else if d == 4 {
        proof {
            reveal_strlit("4");
            assert("4"@ =~= seq![char_of_digit(4)]);
        }
        "4"
    } else if d == 5 {
        proof {
            reveal_strlit("5");
            assert("5"@ =~= seq![char_of_digit(5)]);
        }
        "5"
    } else if d == 6 {
        proof {
            reveal_strlit("6");
            assert("6"@ =~= seq![char_of_digit(6)]);
        }
        "6"
    } else if d == 7 {
        proof {
            reveal_strlit("7");
            assert("7"@ =~= seq![char_of_digit(7)]);
        }
        "7"
    } else if d == 8 {
        proof {
            reveal_strlit("8");
            assert("8"@ =~= seq![char_of_digit(8)]);
        }
        "8"
    } else if d == 9 {
        proof {
            reveal_strlit("9");
            assert("9"@ =~= seq![char_of_digit(9)]);
        }
        "9"
    } else if d == 10 {
        proof {
            reveal_strlit("A");
            assert("A"@ =~= seq![char_of_digit(10)]);
        }
        "A"
    } else if d == 11 {
        proof {
            reveal_strlit("B");
            assert("B"@ =~= seq![char_of_digit(11)]);
        }
        "B"
    } else if d == 12 {
        proof {
            reveal_strlit("C");
            assert("C"@ =~= seq![char_of_digit(12)]);
        }
        "C"
    } else if d == 13 {
        proof {
            reveal_strlit("D");
            assert("D"@ =~= seq![char_of_digit(13)]);
        }
        "D"
    } else if d == 14 {
        proof {
            reveal_strlit("E");
            assert("E"@ =~= seq![char_of_digit(14)]);
        }
        "E"
    } else {
        proof {
            reveal_strlit("F");
            assert("F"@ =~= seq![char_of_digit(15)]);
        }
        "F"
    }
}

/// Appends the decimal digits of `n` to `s`.
pub fn append_dec_u32(s: &mut String, n: u32)
    ensures
        final(s)@ == old(s)@ + dec_digits(n as int),
    decreases n,
{
    if n < 10 {
        s.append(digit_str(n as u8));
        proof {
            assert(final(s)@ =~= old(s)@ + dec_digits(n as int));
        }
    } else {
        let ghost mid = s@;
        append_dec_u32(s, n / 10);
        s.append(digit_str((n % 10) as u8));
        proof {
            assert(final(s)@ =~= old(s)@ + dec_digits(n as int));
        }
    }
}

/// Appends the decimal rendering of `v`, sign included, to `s`.
pub fn append_dec_i32(s: &mut String, v: i32)
    ensures
        final(s)@ == old(s)@ + dec_str(v as int),
{
    if v < 0 {
        proof {
            reveal_strlit("-");
            assert("-"@ =~= seq!['-']);
        }
        s.append("-");
        let m: u32 = (-(v as i64)) as u32;
        append_dec_u32(s, m);
        proof {
            assert(final(s)@ =~= old(s)@ + dec_str(v as int));
        }
    } else {
        append_dec_u32(s, v as u32);
    }
}

/// Appends the four hexadecimal digits of `n` to `s`.
pub fn append_hex4(s: &mut String, n: u16)
    ensures
        final(s)@ == old(s)@ + hex4(n as int),
{
    s.append(digit_str((n / 4096 % 16) as u8));
    s.append(digit_str((n / 256 % 16) as u8));
    s.append(digit_str((n / 16 % 16) as u8));
    s.append(digit_str((n % 16) as u8));
    proof {
        assert(final(s)@ =~= old(s)@ + hex4(n as int));
    }
}

/// The register's textual name.
pub fn reg_name(idx: u16) -> (r: &'static str)
    requires
        idx <= 7,
    ensures
        r@ == spec_reg_name(idx as int),
{
    if idx == 0 {
        proof {
            reveal_strlit("$zero");
            assert("$zero"@ =~= spec_reg_name(0));
        }
        "$zero"
    } else if idx == 1 {
        proof {
            reveal_strlit("$r0");
            assert("$r0"@ =~= spec_reg_name(1));
        }
        "$r0"
    } else if idx == 2 {
        proof {
            reveal_strlit("$r1");
            assert("$r1"@ =~= spec_reg_name(2));
        }
        "$r1"
    } else if idx == 3 {
        proof {
            reveal_strlit("$r2");
            assert("$r2"@ =~= spec_reg_name(3));
        }
        "$r2"
    } else if idx == 4 {
        proof {
            reveal_strlit("$r3");
            assert("$r3"@ =~= spec_reg_name(4));
        }
        "$r3"
    } else if idx == 5 {
        proof {
            reveal_strlit("$r4");
            assert("$r4"@ =~= spec_reg_name(5));
        }
        "$r4"
    } else if idx == 6 {
        proof {
            reveal_strlit("$r5");
            assert("$r5"@ =~= spec_reg_name(6));
        }
        "$r5"
    } else {
        proof {
            reveal_strlit("$r6");
            assert("$r6"@ =~= spec_reg_name(7));
        }
        "$r6"
    }
}

} // verus!
