//! The assembly pipeline: validation, expansion, label resolution and
//! encoding, in order, over a whole program.
use vstd::prelude::*;
use crate::encode::{spec_encode_line, convert_instr_to_binary};
use crate::error::{AsmError, AsmErrorKind};
use crate::expand::{spec_expand_lines, substitute_pseudoinstrs};
use crate::labels::{
    spec_has_dup, spec_resolve_lines, generate_label_table, substitute_labels,
    lemma_substitute_lines_resolve,
};
use crate::validate::{spec_validate_lines, validate_assembly_lines};

verus! {

/// The program's non-empty lines, in order.
pub open spec fn spec_nonempty(ls: Seq<Seq<char>>) -> Seq<Seq<char>>
    decreases ls.len(),
{
    if ls.len() == 0 {
        Seq::empty()
    } else if ls[0].len() == 0 {
        spec_nonempty(ls.drop_first())
    } else {
        seq![ls[0]] + spec_nonempty(ls.drop_first())
    }
}

/// Encoding of a whole program: one word per line, the first failing line
/// deciding the error.
pub open spec fn spec_encode_lines(ls: Seq<Seq<char>>) -> Result<Seq<u16>, AsmErrorKind>
    decreases ls.len(),
{
    if ls.len() == 0 {
        Ok(Seq::empty())
    } else {
        match spec_encode_line(ls[0]) {
            Err(k) => Err(k),
            Ok(w) => match spec_encode_lines(ls.drop_first()) {
                Err(k) => Err(k),
                Ok(rest) => Ok(seq![w] + rest),
            },
        }
    }
}

/// The whole assembly of a program: validate every line, drop the empty
/// ones, expand the pseudo-instructions, resolve the labels against the
/// expanded program, and encode each resulting line into its word.  The
/// first failing stage decides the error.
pub open spec fn spec_assemble(ls: Seq<Seq<char>>) -> Result<Seq<u16>, AsmErrorKind> {
    match spec_validate_lines(ls) {
        Err(k) => Err(k),
        Ok(()) => {
            let ne = spec_nonempty(ls);
            match spec_expand_lines(ne) {
                Err(k) => Err(k),
                Ok(ex) => {
                    if ex.len() > 0x7FFF_FFFF {
                        Err(AsmErrorKind::TooLarge)
                    } else if spec_has_dup(ex) {
                        Err(AsmErrorKind::DuplicateLabel)
                    } else {
                        match spec_resolve_lines(ex, ex) {
                            Err(k) => Err(k),
                            Ok(rs) => spec_encode_lines(rs),
                        }
                    }
                },
            }
        },
    }
}

/// Assembles a program into its words, as `spec_assemble` lays out.
#[verifier::rlimit(50)]
#[verifier::loop_isolation(false)]
pub fn assemble_lines(lines: &Vec<String>) -> (r: Result<Vec<u16>, AsmError>)
    ensures
        match spec_assemble(lines.deep_view()) {
            Ok(ws) => r is Ok && r->Ok_0@ == ws,
            Err(k) => r is Err && r->Err_0.kind == k,
        },
{
    let ghost dv = lines.deep_view();
    match validate_assembly_lines(lines) {
        Ok(()) => {},
        Err(e) => {
            return Err(e);
        },
    }
    let mut ne: Vec<String> = Vec::new();
    let mut i: usize = 0;
    proof {
        assert(dv.skip(0) =~= dv);
    }
    while i < lines.len()
        invariant
            0 <= i <= lines.len(),
            dv == lines.deep_view(),
            dv.len() == lines.len(),
            spec_nonempty(dv) == ne.deep_view() + spec_nonempty(dv.skip(i as int)),
        decreases lines.len() - i,
    {
        let line: &String = &lines[i];
        proof {
            assert(dv[i as int] == line@);
            assert(dv.skip(i as int)[0] == dv[i as int]);
            assert(dv.skip(i as int).drop_first() =~= dv.skip(i as int + 1));
        }
        if !line.as_str().is_empty() {
            let ghost ne0 = ne.deep_view();
            ne.push(line.clone());
            proof {
                assert(ne.deep_view() =~= ne0.push(line@));
                assert(ne0 + (seq![line@] + spec_nonempty(dv.skip(i as int + 1))) =~= ne0.push(
                    line@,
                ) + spec_nonempty(dv.skip(i as int + 1)));
            }
        }
        i = i + 1;
    }
    proof {
        assert(dv.skip(i as int) =~= Seq::<Seq<char>>::empty());
        assert(ne.deep_view() + Seq::<Seq<char>>::empty() =~= ne.deep_view());
        assert(ne.deep_view() == spec_nonempty(dv));
    }
    let expanded = match substitute_pseudoinstrs(&ne) {
        Ok(x) => x,
        Err(e) => {
            return Err(e);
        },
    };
    let ghost ex = expanded.deep_view();
    if expanded.len() > 0x7FFF_FFFF {
        return Err(AsmError::new(AsmErrorKind::TooLarge, ""));
    }
    let table = match generate_label_table(&expanded) {
        Ok(t) => t,
        Err(e) => {
            return Err(e);
        },
    };
    let resolved = match substitute_labels(&expanded, &table) {
        Ok(rs) => rs,
        Err(e) => {
            proof {
                lemma_substitute_lines_resolve(table, ex, ex);
            }
            return Err(e);
        },
    };
    proof {
        lemma_substitute_lines_resolve(table, ex, ex);
    }
    let ghost rsv = resolved.deep_view();
    let mut words: Vec<u16> = Vec::new();
    let mut j: usize = 0;
    proof {
        assert(rsv.skip(0) =~= rsv);
    }
    while j < resolved.len()
        invariant
            0 <= j <= resolved.len(),
            rsv == resolved.deep_view(),
            rsv.len() == resolved.len(),
            spec_encode_lines(rsv) == (match spec_encode_lines(rsv.skip(j as int)) {
                Ok(rest) => Ok::<Seq<u16>, AsmErrorKind>(words@ + rest),
                Err(k) => Err(k),
            }),
        decreases resolved.len() - j,
    {
        let line: &String = &resolved[j];
        proof {
            assert(rsv[j as int] == line@);
            assert(rsv.skip(j as int)[0] == rsv[j as int]);
            assert(rsv.skip(j as int).drop_first() =~= rsv.skip(j as int + 1));
        }
        match convert_instr_to_binary(line) {
            Ok(w) => {
                let ghost w0 = words@;
                words.push(w);
                proof {
                    if spec_encode_lines(rsv.skip(j as int + 1)) is Ok {
                        let ghost rest = spec_encode_lines(rsv.skip(j as int + 1))->Ok_0;
                        assert(w0 + (seq![w] + rest) =~= w0.push(w) + rest);
                    }
                }
            },
            Err(e) => {
                proof {
                    assert(spec_encode_line(rsv[j as int]) is Err);
                    assert(rsv.skip(j as int).len() > 0);
                    assert(spec_encode_lines(rsv.skip(j as int)) is Err);
                    assert(spec_encode_lines(rsv) is Err);
                    assert(spec_encode_lines(rsv)->Err_0 == e.kind);
                }
                return Err(e);
            },
        }
        j = j + 1;
    }
    proof {
        assert(rsv.skip(j as int) =~= Seq::<Seq<char>>::empty());
        assert(words@ + Seq::<u16>::empty() =~= words@);
    }
    Ok(words)
}

/// Encoding gives one word per line: an assembled word's address is its
/// line's index in the resolved program, with no gaps and no reordering.
pub proof fn lemma_encode_lines_one_word_each(ls: Seq<Seq<char>>)
    requires
        spec_encode_lines(ls) is Ok,
    ensures
        spec_encode_lines(ls)->Ok_0.len() == ls.len(),
        forall|i: int|
            0 <= i < ls.len() ==> #[trigger] spec_encode_lines(ls)->Ok_0[i] == spec_encode_line(
                ls[i],
            )->Ok_0,
    decreases ls.len(),
{
    if ls.len() > 0 {
        lemma_encode_lines_one_word_each(ls.drop_first());
        assert forall|i: int|
            0 <= i < ls.len() implies #[trigger] spec_encode_lines(ls)->Ok_0[i]
            == spec_encode_line(ls[i])->Ok_0 by {
            if i > 0 {
                assert(ls.drop_first()[i - 1] == ls[i]);
                assert(spec_encode_lines(ls)->Ok_0[i] == spec_encode_lines(
                    ls.drop_first(),
                )->Ok_0[i - 1]);
            }
        }
    }
}

} // verus!
