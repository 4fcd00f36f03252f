//! The two-pass label resolver: a table from label names to word addresses,
//! and the substitution of label references by their resolved addresses.
use vstd::prelude::*;
use crate::error::{AsmError, AsmErrorKind};
use crate::fmt::{append_dec_i32, dec_str};
use crate::forms::{Mnemonic, spec_match_rri, match_rri, spec_match_ri, match_ri};
use crate::scan::{
    spec_find_label_arg, find_label_arg, spec_label_tag_end, label_tag_end, str_eq, to_chars,
};

verus! {

/// The name a line's leading label tag defines, without the colon.
pub open spec fn label_of(s: Seq<char>) -> Option<Seq<char>> {
    match spec_label_tag_end(s) {
        Some(e) => Some(s.subrange(0, e - 1)),
        None => None,
    }
}

/// Two lines of the program define the same label name.
pub open spec fn spec_has_dup(ls: Seq<Seq<char>>) -> bool {
    exists|i: int, j: int|
        0 <= i < j < ls.len() && #[trigger] label_of(ls[i]) is Some && label_of(ls[i])
            == #[trigger] label_of(ls[j])
}

/// A mapping from label names to word addresses, names unique.
#[derive(Debug)]
pub struct LabelTable {
    pub names: Vec<String>,
    pub addrs: Vec<i32>,
}

impl LabelTable {
    /// Number of entries.
    pub open spec fn spec_len(&self) -> int {
        self.names@.len() as int
    }

    /// Name of entry `i`.
    pub open spec fn name_at(&self, i: int) -> Seq<char> {
        self.names@[i]@
    }

    /// Address of entry `i`.
    pub open spec fn addr_at(&self, i: int) -> int {
        self.addrs@[i] as int
    }

    /// Well-formed: names and addresses pair up, names are distinct, and
    /// addresses are word indices, never negative.
    pub open spec fn wf(&self) -> bool {
        &&& self.names@.len() == self.addrs@.len()
        &&& forall|i: int, j: int|
            0 <= i < j < self.spec_len() ==> #[trigger] self.name_at(i) != #[trigger] self.name_at(
                j,
            )
        &&& forall|i: int| 0 <= i < self.spec_len() ==> 0 <= #[trigger] self.addr_at(i)
    }

    /// The address of the first entry named `nm` at or after `i`.
    pub open spec fn spec_lookup_from(&self, nm: Seq<char>, i: int) -> Option<int>
        decreases self.spec_len() - i,
    {
        if !(0 <= i < self.spec_len()) {
            None
        } else if self.name_at(i) == nm {
            Some(self.addr_at(i))
        } else {
            self.spec_lookup_from(nm, i + 1)
        }
    }

    /// The address bound to `nm`, if any.
    pub open spec fn spec_lookup(&self, nm: Seq<char>) -> Option<int> {
        self.spec_lookup_from(nm, 0)
    }

    pub open spec fn spec_contains(&self, nm: Seq<char>) -> bool {
        self.spec_lookup(nm) is Some
    }

    pub fn new() -> (r: LabelTable)
        ensures
            r.wf(),
            r.spec_len() == 0,
    {
        LabelTable { names: Vec::new(), addrs: Vec::new() }
    }

    /// Looks a name up, scanning the entries in order.
    pub fn lookup(&self, name: &str) -> (r: Option<i32>)
        requires
            self.names@.len() == self.addrs@.len(),
        ensures
            match self.spec_lookup(name@) {
                Some(a) => r is Some && r->0 == a,
                None => r is None,
            },
    {
        let mut i: usize = 0;
        while i < self.names.len()
            invariant
                0 <= i <= self.names@.len(),
                self.names@.len() == self.addrs@.len(),
                self.spec_lookup(name@) == self.spec_lookup_from(name@, i as int),
            decreases self.names@.len() - i,
        {
            if str_eq(self.names[i].as_str(), name) {
                return Some(self.addrs[i]);
            }
            i = i + 1;
        }
        None
    }
}

/// In a well-formed table, an entry named `nm` decides the lookup.
pub proof fn lemma_lookup_found(t: &LabelTable, k: int)
    requires
        t.wf(),
        0 <= k < t.spec_len(),
    ensures
        t.spec_lookup(t.name_at(k)) == Some(t.addr_at(k)),
{
    lemma_lookup_found_from(t, k, 0);
}

proof fn lemma_lookup_found_from(t: &LabelTable, k: int, i: int)
    requires
        t.wf(),
        0 <= i <= k < t.spec_len(),
    ensures
        t.spec_lookup_from(t.name_at(k), i) == Some(t.addr_at(k)),
    decreases t.spec_len() - i,
{
    if i < k {
        assert(t.name_at(i) != t.name_at(k));
        lemma_lookup_found_from(t, k, i + 1);
    }
}

/// A name on no entry has no lookup result.
pub proof fn lemma_lookup_absent(t: &LabelTable, nm: Seq<char>)
    requires
        forall|k: int| 0 <= k < t.spec_len() ==> #[trigger] t.name_at(k) != nm,
    ensures
        t.spec_lookup(nm) is None,
{
    lemma_lookup_absent_from(t, nm, 0);
}

proof fn lemma_lookup_absent_from(t: &LabelTable, nm: Seq<char>, i: int)
    requires
        forall|k: int| 0 <= k < t.spec_len() ==> #[trigger] t.name_at(k) != nm,
        0 <= i,
    ensures
        t.spec_lookup_from(nm, i) is None,
    decreases t.spec_len() - i,
{
    if i < t.spec_len() {
        lemma_lookup_absent_from(t, nm, i + 1);
    }
}

/// Entry `k` of the table records the label that line `j` of the first `n`
/// lines defines, at that line's index.
pub open spec fn entry_defined_before(
    t: LabelTable,
    ls: Seq<Seq<char>>,
    k: int,
    n: int,
) -> bool {
    exists|j: int|
        0 <= j < n && #[trigger] label_of(ls[j]) == Some(t.name_at(k)) && t.addr_at(k) == j
}

/// The label that line `j` defines is recorded in the table at address `j`.
pub open spec fn label_recorded(t: LabelTable, ls: Seq<Seq<char>>, j: int) -> bool {
    exists|k: int|
        0 <= k < t.spec_len() && #[trigger] t.name_at(k) == label_of(ls[j])->0 && t.addr_at(k)
            == j
}

/// The table records exactly the labels of `ls`: every labeled line is
/// found at its own index, and every entry comes from a labeled line.
pub open spec fn table_for(t: LabelTable, ls: Seq<Seq<char>>) -> bool {
    &&& t.wf()
    &&& forall|j: int|
        0 <= j < ls.len() && #[trigger] label_of(ls[j]) is Some ==> t.spec_lookup(
            label_of(ls[j])->0,
        ) == Some(j)
    &&& forall|k: int|
        0 <= k < t.spec_len() ==> #[trigger] entry_defined_before(t, ls, k, ls.len() as int)
}

/// Goes through the program in order and records each label tag's name at
/// the line's own index, its word address.  A name defined twice is an
/// error: the run fails exactly when two lines define the same name.
pub fn generate_label_table(lines: &Vec<String>) -> (r: Result<LabelTable, AsmError>)
    requires
        lines@.len() <= 0x7FFF_FFFF,
    ensures
        match r {
            Ok(t) => !spec_has_dup(lines.deep_view()) && table_for(t, lines.deep_view()),
            Err(e) => e.kind == AsmErrorKind::DuplicateLabel && spec_has_dup(lines.deep_view()),
        },
{
    let ghost dv = lines.deep_view();
    let mut t = LabelTable::new();
    let mut i: usize = 0;
    while i < lines.len()
        invariant
            0 <= i <= lines.len(),
            dv == lines.deep_view(),
            dv.len() == lines.len(),
            lines@.len() <= 0x7FFF_FFFF,
            t.wf(),
            forall|j: int|
                0 <= j < i && #[trigger] label_of(dv[j]) is Some ==> label_recorded(t, dv, j),
            forall|k: int|
                0 <= k < t.spec_len() ==> #[trigger] entry_defined_before(t, dv, k, i as int),
            forall|j1: int, j2: int|
                0 <= j1 < j2 < i ==> !(#[trigger] label_of(dv[j1]) is Some && label_of(dv[j1])
                    == #[trigger] label_of(dv[j2])),
        decreases lines.len() - i,
    {
        let line: &String = &lines[i];
        let v = to_chars(line.as_str());
        proof {
            assert(dv[i as int] == line@);
        }
        match label_tag_end(&v) {
            Some(e) => {
                let name = line.as_str().substring_char(0, e - 1);
                proof {
                    assert(name@ == label_of(dv[i as int])->0);
                }
                match t.lookup(name) {
                    Some(_) => {
                        proof {
                            assert(exists|k: int|
                                0 <= k < t.spec_len() && #[trigger] t.name_at(k) == name@) by {
                                if forall|k: int|
                                    0 <= k < t.spec_len() ==> #[trigger] t.name_at(k) != name@ {
                                    lemma_lookup_absent(&t, name@);
                                }
                            }
                            let k0 = choose|k: int|
                                0 <= k < t.spec_len() && #[trigger] t.name_at(k) == name@;
                            assert(entry_defined_before(t, dv, k0, i as int));
                            let j0 = choose|j: int|
                                0 <= j < i && #[trigger] label_of(dv[j]) == Some(t.name_at(k0))
                                    && t.addr_at(k0) == j;
                            assert(label_of(dv[j0]) == Some(name@));
                            assert(label_of(dv[i as int]) == Some(name@));
                            assert(spec_has_dup(dv));
                        }
                        return Err(AsmError::new(AsmErrorKind::DuplicateLabel, name));
                    },
                    None => {
                        let ghost t0 = t;
                        t.names.push(String::from_str(name));
                        t.addrs.push(i as i32);
                        proof {
                            assert(t.spec_len() == t0.spec_len() + 1);
                            assert(t.name_at(t0.spec_len()) == name@);
                            assert(t.addr_at(t0.spec_len()) == i as int);
                            assert(forall|k: int|
                                0 <= k < t0.spec_len() ==> #[trigger] t.name_at(k) == t0.name_at(
                                    k,
                                ) && t.addr_at(k) == t0.addr_at(k));
                            assert(t.wf()) by {
                                assert(t.names@.len() == t.addrs@.len());
                                assert forall|a: int|
                                    0 <= a < t.spec_len() implies 0 <= #[trigger] t.addr_at(
                                    a,
                                ) by {
                                    if a < t0.spec_len() {
                                        assert(0 <= t0.addr_at(a));
                                    }
                                }
                                assert forall|a: int, b: int|
                                    0 <= a < b < t.spec_len() implies #[trigger] t.name_at(a)
                                    != #[trigger] t.name_at(b) by {
                                    if b < t0.spec_len() {
                                        assert(t0.name_at(a) != t0.name_at(b));
                                    } else {
                                        assert(t.name_at(b) == name@);
                                        if t0.name_at(a) == name@ {
                                            lemma_lookup_found(&t0, a);
                                        }
                                    }
                                }
                            }
                            assert forall|j: int|
                                0 <= j < i + 1 && #[trigger] label_of(dv[j]) is Some implies label_recorded(
                                t,
                                dv,
                                j,
                            ) by {
                                if j < i {
                                    assert(label_recorded(t0, dv, j));
                                    let k = choose|k: int|
                                        0 <= k < t0.spec_len() && #[trigger] t0.name_at(k)
                                            == label_of(dv[j])->0 && t0.addr_at(k) == j;
                                    assert(t.name_at(k) == label_of(dv[j])->0 && t.addr_at(k)
                                        == j);
                                } else {
                                    assert(t.name_at(t0.spec_len()) == label_of(dv[j])->0
                                        && t.addr_at(t0.spec_len()) == j);
                                }
                            }
                            assert forall|k: int|
                                0 <= k < t.spec_len() implies #[trigger] entry_defined_before(
                                t,
                                dv,
                                k,
                                i + 1,
                            ) by {
                                if k < t0.spec_len() {
                                    assert(entry_defined_before(t0, dv, k, i as int));
                                    let j = choose|j: int|
                                        0 <= j < i && #[trigger] label_of(dv[j]) == Some(
                                            t0.name_at(k),
                                        ) && t0.addr_at(k) == j;
                                    assert(label_of(dv[j]) == Some(t.name_at(k)) && t.addr_at(k)
                                        == j);
                                } else {
                                    assert(label_of(dv[i as int]) == Some(t.name_at(k))
                                        && t.addr_at(k) == i as int);
                                }
                            }
                        }
                    },
                }
            },
            None => {
                proof {
                    assert forall|k: int|
                        0 <= k < t.spec_len() implies #[trigger] entry_defined_before(
                        t,
                        dv,
                        k,
                        i + 1,
                    ) by {
                        assert(entry_defined_before(t, dv, k, i as int));
                        let j = choose|j: int|
                            0 <= j < i && #[trigger] label_of(dv[j]) == Some(t.name_at(k))
                                && t.addr_at(k) == j;
                        assert(0 <= j < i + 1 && label_of(dv[j]) == Some(t.name_at(k))
                            && t.addr_at(k) == j);
                    }
                }
            },
        }
        i = i + 1;
    }
    proof {
        assert(!spec_has_dup(dv));
        assert forall|j: int|
            0 <= j < dv.len() && #[trigger] label_of(dv[j]) is Some implies t.spec_lookup(
            label_of(dv[j])->0,
        ) == Some(j) by {
            assert(label_recorded(t, dv, j));
            let k = choose|k: int|
                0 <= k < t.spec_len() && #[trigger] t.name_at(k) == label_of(dv[j])->0
                    && t.addr_at(k) == j;
            lemma_lookup_found(&t, k);
        }
    }
    Ok(t)
}

/// Substitution of one line's label reference, as `substitute_labels` lays
/// out: the first `@name` reference is replaced by the label's address,
/// transformed for the form's immediate field — the low 6 bits for an
/// `ADDI`, `LW` or `SW` line, the upper 10 bits for a `LUI` line, the raw
/// address otherwise.
pub open spec fn spec_substitute_line(s: Seq<char>, t: LabelTable) -> Result<
    Seq<char>,
    AsmErrorKind,
> {
    match spec_find_label_arg(s, 0) {
        None => Ok(s),
        Some((st, end)) => {
            let nm = s.subrange(st + 1, end);
            match t.spec_lookup(nm) {
                None => Err(AsmErrorKind::UnresolvedLabel),
                Some(addr) => {
                    let a2 = if spec_match_rri(s) is Some && ((spec_match_rri(s)->0).0
                        == Mnemonic::Addi || (spec_match_rri(s)->0).0 == Mnemonic::Sw || (
                    spec_match_rri(s)->0).0 == Mnemonic::Lw) {
                        addr % 64
                    } else if spec_match_ri(s) is Some {
                        (addr % 65536) / 64
                    } else {
                        addr
                    };
                    Ok(s.subrange(0, st) + dec_str(a2) + s.subrange(end, s.len() as int))
                },
            }
        },
    }
}

/// Substitution over a whole program: the first unresolved reference decides
/// the error.
pub open spec fn spec_substitute_lines(ls: Seq<Seq<char>>, t: LabelTable) -> Result<
    Seq<Seq<char>>,
    AsmErrorKind,
>
    decreases ls.len(),
{
    if ls.len() == 0 {
        Ok(Seq::empty())
    } else {
        match spec_substitute_line(ls[0], t) {
            Err(k) => Err(k),
            Ok(e) => match spec_substitute_lines(ls.drop_first(), t) {
                Err(k) => Err(k),
                Ok(rest) => Ok(seq![e] + rest),
            },
        }
    }
}

/// Substitutes the line's first label reference as `spec_substitute_line`
/// lays out.
fn substitute_line(line: &str, t: &LabelTable) -> (r: Result<String, AsmError>)
    requires
        t.wf(),
    ensures
        match spec_substitute_line(line@, *t) {
            Ok(out) => r is Ok && r->Ok_0@ == out,
            Err(k) => r is Err && r->Err_0.kind == k,
        },
{
    let v = to_chars(line);
    match find_label_arg(&v, 0) {
        None => Ok(String::from_str(line)),
        Some((st, end)) => {
            let nm = line.substring_char(st + 1, end);
            match t.lookup(nm) {
                None => Err(AsmError::new(AsmErrorKind::UnresolvedLabel, line)),
                Some(addr) => {
                    proof {
                        assert(t.spec_lookup(nm@) == Some(addr as int));
                        assert(exists|k: int|
                            0 <= k < t.spec_len() && #[trigger] t.name_at(k) == nm@) by {
                            if forall|k: int|
                                0 <= k < t.spec_len() ==> #[trigger] t.name_at(k) != nm@ {
                                lemma_lookup_absent(t, nm@);
                            }
                        }
                        let k0 = choose|k: int|
                            0 <= k < t.spec_len() && #[trigger] t.name_at(k) == nm@;
                        lemma_lookup_found(t, k0);
                        assert(addr as int == t.addr_at(k0));
                        assert(addr >= 0);
                    }
                    let a2: i32 = match match_rri(&v) {
                        Some((mn, _a, _b)) => {
                            if mn == Mnemonic::Addi || mn == Mnemonic::Sw || mn == Mnemonic::Lw {
                                addr % 64
                            } else if match_ri(&v).is_some() {
                                (addr % 65536) / 64
                            } else {
                                addr
                            }
                        },
                        None => {
                            if match_ri(&v).is_some() {
                                (addr % 65536) / 64
                            } else {
                                addr
                            }
                        },
                    };
                    let mut out = String::new();
                    out.append(line.substring_char(0, st));
                    append_dec_i32(&mut out, a2);
                    out.append(line.substring_char(end, v.len()));
                    proof {
                        assert(out@ =~= spec_substitute_line(line@, *t)->Ok_0);
                    }
                    Ok(out)
                },
            }
        },
    }
}

/// Goes through every line and replaces each first label reference with the
/// label's resolved address, transformed for the line's immediate field; a
/// reference to an undefined label fails the run.
pub fn substitute_labels(lines: &Vec<String>, label_table: &LabelTable) -> (r: Result<
    Vec<String>,
    AsmError,
>)
    requires
        label_table.wf(),
    ensures
        match spec_substitute_lines(lines.deep_view(), *label_table) {
            Ok(out) => r is Ok && r->Ok_0.deep_view() == out,
            Err(k) => r is Err && r->Err_0.kind == k,
        },
{
    let ghost dv = lines.deep_view();
    let ghost tt = *label_table;
    proof {
        assert(dv.skip(0) =~= dv);
    }
    let mut out: Vec<String> = Vec::new();
    let mut i: usize = 0;
    while i < lines.len()
        invariant
            0 <= i <= lines.len(),
            dv == lines.deep_view(),
            dv.len() == lines.len(),
            tt == *label_table,
            label_table.wf(),
            spec_substitute_lines(dv, tt) == (match spec_substitute_lines(dv.skip(i as int), tt) {
                Ok(rest) => Ok::<Seq<Seq<char>>, AsmErrorKind>(out.deep_view() + rest),
                Err(k) => Err(k),
            }),
        decreases lines.len() - i,
    {
        let line: &String = &lines[i];
        proof {
            assert(dv[i as int] == line@);
            assert(dv.skip(i as int)[0] == dv[i as int]);
            assert(dv.skip(i as int).drop_first() =~= dv.skip(i as int + 1));
        }
        match substitute_line(line.as_str(), label_table) {
            Ok(nl) => {
                let ghost out0 = out.deep_view();
                let ghost nv = nl@;
                out.push(nl);
                proof {
                    assert(out.deep_view() =~= out0.push(nv));
                    if spec_substitute_lines(dv.skip(i as int + 1), tt) is Ok {
                        let ghost rest = spec_substitute_lines(dv.skip(i as int + 1), tt)->Ok_0;
                        assert(out0 + (seq![nv] + rest) =~= out0.push(nv) + rest);
                    }
                }
            },
            Err(e) => {
                return Err(e);
            },
        }
        i = i + 1;
    }
    proof {
        assert(dv.skip(i as int) =~= Seq::<Seq<char>>::empty());
        assert(out.deep_view() + Seq::<Seq<char>>::empty() =~= out.deep_view());
    }
    Ok(out)
}

/// The address the program itself binds a name to: the index of the line
/// whose label tag defines it.
pub open spec fn spec_label_addr(env: Seq<Seq<char>>, nm: Seq<char>) -> Option<int> {
    if exists|j: int| 0 <= j < env.len() && #[trigger] label_of(env[j]) == Some(nm) {
        Some(choose|j: int| 0 <= j < env.len() && #[trigger] label_of(env[j]) == Some(nm))
    } else {
        None
    }
}

/// `spec_substitute_line`, with the program itself as the name environment.
pub open spec fn spec_resolve_line(env: Seq<Seq<char>>, s: Seq<char>) -> Result<
    Seq<char>,
    AsmErrorKind,
> {
    match spec_find_label_arg(s, 0) {
        None => Ok(s),
        Some((st, end)) => {
            let nm = s.subrange(st + 1, end);
            match spec_label_addr(env, nm) {
                None => Err(AsmErrorKind::UnresolvedLabel),
                Some(addr) => {
                    let a2 = if spec_match_rri(s) is Some && ((spec_match_rri(s)->0).0
                        == Mnemonic::Addi || (spec_match_rri(s)->0).0 == Mnemonic::Sw || (
                    spec_match_rri(s)->0).0 == Mnemonic::Lw) {
                        addr % 64
                    } else if spec_match_ri(s) is Some {
                        (addr % 65536) / 64
                    } else {
                        addr
                    };
                    Ok(s.subrange(0, st) + dec_str(a2) + s.subrange(end, s.len() as int))
                },
            }
        },
    }
}

/// `spec_substitute_lines`, with the program itself as the name environment.
pub open spec fn spec_resolve_lines(env: Seq<Seq<char>>, ls: Seq<Seq<char>>) -> Result<
    Seq<Seq<char>>,
    AsmErrorKind,
>
    decreases ls.len(),
{
    if ls.len() == 0 {
        Ok(Seq::empty())
    } else {
        match spec_resolve_line(env, ls[0]) {
            Err(k) => Err(k),
            Ok(e) => match spec_resolve_lines(env, ls.drop_first()) {
                Err(k) => Err(k),
                Ok(rest) => Ok(seq![e] + rest),
            },
        }
    }
}

/// A successful lookup names some entry.
proof fn lemma_lookup_some_entry_from(t: &LabelTable, nm: Seq<char>, i: int)
    requires
        t.spec_lookup_from(nm, i) is Some,
    ensures
        exists|k: int| 0 <= k < t.spec_len() && #[trigger] t.name_at(k) == nm,
    decreases t.spec_len() - i,
{
    if 0 <= i < t.spec_len() {
        if t.name_at(i) == nm {
        } else {
            lemma_lookup_some_entry_from(t, nm, i + 1);
        }
    }
}

/// A table built for a program looks names up exactly as the program binds
/// them.
pub proof fn lemma_table_lookup_is_env_addr(t: LabelTable, env: Seq<Seq<char>>, nm: Seq<char>)
    requires
        table_for(t, env),
    ensures
        t.spec_lookup(nm) == spec_label_addr(env, nm),
{
    if exists|j: int| 0 <= j < env.len() && #[trigger] label_of(env[j]) == Some(nm) {
        let j0 = choose|j: int| 0 <= j < env.len() && #[trigger] label_of(env[j]) == Some(nm);
        assert(label_of(env[j0]) is Some);
        assert(t.spec_lookup(label_of(env[j0])->0) == Some(j0));
    } else {
        if t.spec_lookup(nm) is Some {
            lemma_lookup_some_entry_from(&t, nm, 0);
            let k0 = choose|k: int| 0 <= k < t.spec_len() && #[trigger] t.name_at(k) == nm;
            assert(entry_defined_before(t, env, k0, env.len() as int));
            let j0 = choose|j: int|
                0 <= j < env.len() && #[trigger] label_of(env[j]) == Some(t.name_at(k0))
                    && t.addr_at(k0) == j;
            assert(label_of(env[j0]) == Some(nm));
            assert(false);
        }
    }
}

/// Substitution through such a table equals resolution against the program.
pub proof fn lemma_substitute_line_resolves(t: LabelTable, env: Seq<Seq<char>>, s: Seq<char>)
    requires
        table_for(t, env),
    ensures
        spec_substitute_line(s, t) == spec_resolve_line(env, s),
{
    match spec_find_label_arg(s, 0) {
        None => {},
        Some((st, end)) => {
            lemma_table_lookup_is_env_addr(t, env, s.subrange(st + 1, end));
        },
    }
}

pub proof fn lemma_substitute_lines_resolve(
    t: LabelTable,
    env: Seq<Seq<char>>,
    ls: Seq<Seq<char>>,
)
    requires
        table_for(t, env),
    ensures
        spec_substitute_lines(ls, t) == spec_resolve_lines(env, ls),
    decreases ls.len(),
{
    if ls.len() > 0 {
        lemma_substitute_line_resolves(t, env, ls[0]);
        lemma_substitute_lines_resolve(t, env, ls.drop_first());
    }
}

} // verus!
