//! Line validation: every non-empty line must match a recognized form, and
//! its immediate must fit the form's bit field.
use vstd::prelude::*;
use crate::error::{AsmError, AsmErrorKind};
use crate::forms::{
    LineForm, spec_classify, classify, spec_match_data, match_data,
};
use crate::imm::{spec_get_imm, get_imm_from_instr, spec_validate_space, validate_space};
use crate::scan::to_chars;

verus! {

/// Validation of one line.  An empty line is skipped.  A line matching no
/// form is unrecognized.  The immediate checks per form: a signed 7-bit field
/// for the two-register-plus-immediate form, an unsigned 10-bit field for
/// `LUI`, unsigned 6 or 16 bits for `LLI` and `MOVI`, a signed 16-bit value
/// or a character for `.fill`, and the `.space` rules of
/// `spec_validate_space`.
pub open spec fn spec_validate_line(s: Seq<char>) -> Result<(), AsmErrorKind> {
    match spec_classify(s) {
        LineForm::Empty => Ok(()),
        LineForm::Rrr => Ok(()),
        LineForm::Rri => match spec_get_imm(s, 7, true, false, true) {
            Ok(_) => Ok(()),
            Err(k) => Err(k),
        },
        LineForm::Ri => match spec_get_imm(s, 10, false, false, true) {
            Ok(_) => Ok(()),
            Err(k) => Err(k),
        },
        LineForm::Jal2 => Ok(()),
        LineForm::Nop => Ok(()),
        LineForm::Data => {
            let lli = (spec_match_data(s)->0).0;
            match spec_get_imm(
                s,
                if lli {
                    6
                } else {
                    16
                },
                false,
                false,
                true,
            ) {
                Ok(_) => Ok(()),
                Err(k) => Err(k),
            }
        },
        LineForm::Fill => match spec_get_imm(s, 16, true, true, false) {
            Ok(_) => Ok(()),
            Err(k) => Err(k),
        },
        LineForm::Space => spec_validate_space(s),
        LineForm::Text => Ok(()),
        LineForm::Syscall => Ok(()),
        LineForm::Invalid => Err(AsmErrorKind::Unrecognized),
    }
}

/// Validation of a program: the first failing line decides the error.
pub open spec fn spec_validate_lines(ls: Seq<Seq<char>>) -> Result<(), AsmErrorKind>
    decreases ls.len(),
{
    if ls.len() == 0 {
        Ok(())
    } else {
        match spec_validate_line(ls[0]) {
            Err(k) => Err(k),
            Ok(()) => spec_validate_lines(ls.drop_first()),
        }
    }
}

/// Validates one line as `spec_validate_line` lays out.
pub fn validate_line(line: &str) -> (r: Result<(), AsmError>)
    ensures
        match spec_validate_line(line@) {
            Ok(()) => r is Ok,
            Err(k) => r is Err && r->Err_0.kind == k,
        },
{
    let v = to_chars(line);
    if v.len() == 0 {
        return Ok(());
    }
    if crate::forms::match_rrr(&v).is_some() {
        return Ok(());
    }
    if crate::forms::match_rri(&v).is_some() {
        return match get_imm_from_instr(line, 7, true, false, true) {
            Ok(_) => Ok(()),
            Err(e) => Err(e),
        };
    }
    if crate::forms::match_ri(&v).is_some() {
        return match get_imm_from_instr(line, 10, false, false, true) {
            Ok(_) => Ok(()),
            Err(e) => Err(e),
        };
    }
    if crate::forms::match_jal2(&v).is_some() {
        return Ok(());
    }
    if crate::forms::match_nop(&v) {
        return Ok(());
    }
    match match_data(&v) {
        Some((lli, _reg)) => {
            return match get_imm_from_instr(
                line,
                if lli {
                    6
                } else {
                    16
                },
                false,
                false,
                true,
            ) {
                Ok(_) => Ok(()),
                Err(e) => Err(e),
            };
        },
        None => {},
    }
    if crate::forms::match_fill(&v) {
        return match get_imm_from_instr(line, 16, true, true, false) {
            Ok(_) => Ok(()),
            Err(e) => Err(e),
        };
    }
    if crate::forms::match_space(&v) {
        return validate_space(line);
    }
    if crate::forms::match_text(&v).is_some() {
        return Ok(());
    }
    if crate::forms::match_syscall(&v).is_some() {
        return Ok(());
    }
    Err(AsmError::new(AsmErrorKind::Unrecognized, line))
}

/// Goes through each line of the program, skipping empty ones, and checks it
/// against the recognized instruction forms, validating immediate ranges as
/// it goes.  Fails on the first offending line.
pub fn validate_assembly_lines(lines: &Vec<String>) -> (r: Result<(), AsmError>)
    ensures
        match spec_validate_lines(lines.deep_view()) {
            Ok(()) => r is Ok,
            Err(k) => r is Err && r->Err_0.kind == k,
        },
{
    let ghost dv = lines.deep_view();
    proof {
        assert(dv.skip(0) =~= dv);
    }
    let mut i: usize = 0;
    while i < lines.len()
        invariant
            0 <= i <= lines.len(),
            dv == lines.deep_view(),
            dv.len() == lines.len(),
            spec_validate_lines(dv.skip(i as int)) == spec_validate_lines(dv),
        decreases lines.len() - i,
    {
        let line: &String = &lines[i];
        proof {
            assert(dv[i as int] == line@);
            assert(dv.skip(i as int)[0] == dv[i as int]);
        }
        match validate_line(line.as_str()) {
            Ok(()) => {},
            Err(e) => {
                return Err(e);
            },
        }
        proof {
            assert(dv.skip(i as int).drop_first() =~= dv.skip(i as int + 1));
        }
        i = i + 1;
    }
    proof {
        assert(dv.skip(i as int) =~= Seq::<Seq<char>>::empty());
    }
    Ok(())
}

/// A program validates exactly when each of its lines does.
pub proof fn lemma_validate_lines_ok_iff(ls: Seq<Seq<char>>)
    ensures
        spec_validate_lines(ls) is Ok <==> (forall|i: int|
            0 <= i < ls.len() ==> #[trigger] spec_validate_line(ls[i]) is Ok),
    decreases ls.len(),
{
    if ls.len() > 0 {
        lemma_validate_lines_ok_iff(ls.drop_first());
        if spec_validate_line(ls[0]) is Ok {
            assert forall|i: int|
                0 <= i < ls.len() && spec_validate_lines(ls) is Ok implies #[trigger] spec_validate_line(
                ls[i],
            ) is Ok by {
                if i > 0 {
                    assert(ls.drop_first()[i - 1] == ls[i]);
                }
            }
            if forall|i: int| 0 <= i < ls.len() ==> #[trigger] spec_validate_line(ls[i]) is Ok {
                assert forall|i: int|
                    0 <= i < ls.drop_first().len() implies #[trigger] spec_validate_line(
                    ls.drop_first()[i],
                ) is Ok by {
                    assert(ls.drop_first()[i] == ls[i + 1]);
                }
            }
        }
    }
}

/// A non-empty line that validates belongs to a recognized form.
pub proof fn lemma_validated_line_recognized(s: Seq<char>)
    requires
        s.len() > 0,
        spec_validate_line(s) is Ok,
    ensures
        spec_classify(s) != LineForm::Invalid,
        spec_classify(s) != LineForm::Empty,
{
}

} // verus!
