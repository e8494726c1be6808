use vstd::prelude::*;

use crate::data_entry::{
    lemma_array_item_decreases, lemma_lookup_view, lemma_map_value_decreases, lemma_view_entries,
    lemma_view_items, lookup, DataEntry, IdMap, Term,
};
use crate::evaluation_error::{outcome, EvaluationError, EvaluationErrorKind, Fault, TraceInfo};
use crate::parse_tool::{parse_zid_string, str_eq, t_zid};
use crate::reference::{group_reference, zid, Reference};

verus! {

broadcast use group_reference;

/// The map's type tag `Z1K1` is the string `tag`.
pub open spec fn is_tagged(m: Seq<(Reference, Term)>, tag: Seq<char>) -> bool {
    lookup(m, zid(1, 1)) == Some(Term::Text(tag))
}

/// The argument that a placeholder (`Z18`) map stands for.
pub open spec fn placeholder_value(m: Seq<(Reference, Term)>, c: Seq<(Reference, Term)>) -> Result<
    Term,
    Fault,
> {
    match lookup(m, zid(18, 1)) {
        None => Err(Fault::MissingKey(zid(18, 1))),
        Some(kt) => match t_zid(kt) {
            Err(f) => Err(f),
            Ok(key) => match lookup(c, key) {
                Some(v) => Ok(v),
                None => Err(Fault::MissingKey(key)),
            },
        },
    }
}

/// `b` with every placeholder replaced by the argument of the call `c` that
/// it names; arguments are not searched in turn.
pub open spec fn subst(b: Term, c: Seq<(Reference, Term)>) -> Result<Term, Fault>
    decreases b,
{
    match b {
        Term::Text(s) => Ok(Term::Text(s)),
        Term::Dict(m) => if is_tagged(m, "Z18"@) {
            placeholder_value(m, c)
        } else {
            match subst_entries(m, c) {
                Ok(m2) => Ok(Term::Dict(m2)),
                Err(f) => Err(f),
            }
        },
        Term::List(l) => match subst_items(l, c) {
            Ok(l2) => Ok(Term::List(l2)),
            Err(f) => Err(f),
        },
    }
}

/// The values of `m`, in order, substituted; the first failure stops.
pub open spec fn subst_entries(m: Seq<(Reference, Term)>, c: Seq<(Reference, Term)>) -> Result<
    Seq<(Reference, Term)>,
    Fault,
>
    decreases m,
{
    if m.len() == 0 {
        Ok(Seq::empty())
    } else {
        match subst_entries(m.drop_last(), c) {
            Err(f) => Err(f),
            Ok(p) => match subst(m.last().1, c) {
                Err(f) => Err(f),
                Ok(v) => Ok(p.push((m.last().0, v))),
            },
        }
    }
}

/// The elements of `l`, in order, substituted; the first failure stops.
pub open spec fn subst_items(l: Seq<Term>, c: Seq<(Reference, Term)>) -> Result<Seq<Term>, Fault>
    decreases l,
{
    if l.len() == 0 {
        Ok(Seq::empty())
    } else {
        match subst_items(l.drop_last(), c) {
            Err(f) => Err(f),
            Ok(p) => match subst(l.last(), c) {
                Err(f) => Err(f),
                Ok(v) => Ok(p.push(v)),
            },
        }
    }
}


/// The path, innermost step first, to the place where substitution into `b`
/// fails: the map keys and array positions that lead to the faulty
/// placeholder, and the placeholder's own key `Z18K1` when that key does not
/// hold an identifier.
pub open spec fn subst_frames(b: Term, c: Seq<(Reference, Term)>) -> Seq<TraceInfo>
    decreases b,
{
    match b {
        Term::Text(_) => Seq::empty(),
        Term::Dict(m) => if is_tagged(m, "Z18"@) {
            match lookup(m, zid(18, 1)) {
                Some(kt) => if t_zid(kt) is Err {
                    seq![TraceInfo::InsideMap(zid(18, 1))]
                } else {
                    Seq::empty()
                },
                None => Seq::empty(),
            }
        } else {
            subst_entries_frames(m, c)
        },
        Term::List(l) => subst_items_frames(l, c),
    }
}

pub open spec fn subst_entries_frames(m: Seq<(Reference, Term)>, c: Seq<(Reference, Term)>) -> Seq<
    TraceInfo,
>
    decreases m,
{
    if m.len() == 0 {
        Seq::empty()
    } else if subst_entries(m.drop_last(), c) is Err {
        subst_entries_frames(m.drop_last(), c)
    } else {
        subst_frames(m.last().1, c).push(TraceInfo::InsideMap(m.last().0))
    }
}

pub open spec fn subst_items_frames(l: Seq<Term>, c: Seq<(Reference, Term)>) -> Seq<TraceInfo>
    decreases l,
{
    if l.len() == 0 {
        Seq::empty()
    } else if subst_items(l.drop_last(), c) is Err {
        subst_items_frames(l.drop_last(), c)
    } else {
        subst_frames(l.last(), c).push(TraceInfo::InsideArray((l.len() - 1) as usize))
    }
}

/// No map in `t` is a placeholder.
pub open spec fn no_placeholder(t: Term) -> bool
    decreases t,
{
    match t {
        Term::Text(_) => true,
        Term::Dict(m) => !is_tagged(m, "Z18"@) && entries_without_placeholder(m),
        Term::List(l) => items_without_placeholder(l),
    }
}

pub open spec fn entries_without_placeholder(m: Seq<(Reference, Term)>) -> bool
    decreases m,
{
    m.len() == 0 || (entries_without_placeholder(m.drop_last()) && no_placeholder(m.last().1))
}

pub open spec fn items_without_placeholder(l: Seq<Term>) -> bool
    decreases l,
{
    l.len() == 0 || (items_without_placeholder(l.drop_last()) && no_placeholder(l.last()))
}

/// What a placeholder is replaced by is one of the call's values.
proof fn lemma_lookup_in<V>(s: Seq<(Reference, V)>, k: Reference)
    ensures
        lookup(s, k) matches Some(v) ==> exists|i: int| 0 <= i < s.len() && s[i].1 == v,
{
    crate::data_entry::lemma_key_index_bounds(s, k);
}

/// Substitution leaves no placeholder behind, when the call's arguments
/// hold none themselves and none is the bare string `Z18` (which, put in the
/// place of a type tag, would make a placeholder).
pub proof fn lemma_subst_removes_placeholders(b: Term, c: Seq<(Reference, Term)>)
    requires
        forall|i: int| 0 <= i < c.len() ==> no_placeholder(#[trigger] c[i].1),
        forall|i: int| 0 <= i < c.len() ==> #[trigger] c[i].1 != Term::Text("Z18"@),
        subst(b, c) is Ok,
    ensures
        no_placeholder(subst(b, c)->Ok_0),
    decreases b,
{
    match b {
        Term::Text(_) => {},
        Term::Dict(m) => {
            if is_tagged(m, "Z18"@) {
                let kt = lookup(m, zid(18, 1))->Some_0;
                lemma_lookup_in(c, t_zid(kt)->Ok_0);
            } else {
                lemma_subst_entries_removes(m, c);
                let m2 = subst_entries(m, c)->Ok_0;
                assert(!is_tagged(m2, "Z18"@)) by {
                    lemma_subst_entries_keys(m, c);
                    crate::data_entry::lemma_key_index_same_keys(m, m2, zid(1, 1));
                    crate::data_entry::lemma_key_index_bounds(m, zid(1, 1));
                    let i = crate::data_entry::key_index(m, zid(1, 1));
                    if i >= 0 {
                        lemma_subst_entries_values(m, c, i);
                        let v = m[i].1;
                        if v is Text {
                            assert(subst(v, c) == Ok::<Term, Fault>(v));
                        } else if v matches Term::Dict(vm) && is_tagged(vm, "Z18"@) {
                            let vm = v->Dict_0;
                            let kt = lookup(vm, zid(18, 1))->Some_0;
                            lemma_lookup_in(c, t_zid(kt)->Ok_0);
                        } else {
                            assert(!(subst(v, c)->Ok_0 is Text)) by {
                                lemma_subst_not_text(v, c);
                            }
                        }
                    }
                }
            }
        },
        Term::List(l) => {
            lemma_subst_items_removes(l, c);
        },
    }
}

proof fn lemma_subst_not_text(v: Term, c: Seq<(Reference, Term)>)
    requires
        !(v is Text),
        !(v matches Term::Dict(m) && is_tagged(m, "Z18"@)),
        subst(v, c) is Ok,
    ensures
        !(subst(v, c)->Ok_0 is Text),
{
}

proof fn lemma_subst_entries_keys(m: Seq<(Reference, Term)>, c: Seq<(Reference, Term)>)
    requires
        subst_entries(m, c) is Ok,
    ensures
        subst_entries(m, c)->Ok_0.len() == m.len(),
        forall|i: int| 0 <= i < m.len() ==> (#[trigger] subst_entries(m, c)->Ok_0[i]).0 == m[i].0,
    decreases m.len(),
{
    if m.len() > 0 {
        lemma_subst_entries_keys(m.drop_last(), c);
        let p = subst_entries(m.drop_last(), c)->Ok_0;
        assert forall|i: int| 0 <= i < m.len() implies (#[trigger] subst_entries(m, c)->Ok_0[i]).0
            == m[i].0 by {
            if i < m.len() - 1 {
                assert(m.drop_last()[i] == m[i]);
                assert(subst_entries(m, c)->Ok_0[i] == p[i]);
            }
        }
    }
}

proof fn lemma_subst_entries_values(m: Seq<(Reference, Term)>, c: Seq<(Reference, Term)>, i: int)
    requires
        subst_entries(m, c) is Ok,
        0 <= i < m.len(),
    ensures
        subst(m[i].1, c) is Ok,
        subst_entries(m, c)->Ok_0[i].1 == subst(m[i].1, c)->Ok_0,
    decreases m.len(),
{
    lemma_subst_entries_keys(m.drop_last(), c);
    if i < m.len() - 1 {
        assert(m.drop_last()[i] == m[i]);
        lemma_subst_entries_values(m.drop_last(), c, i);
    }
}

proof fn lemma_subst_entries_removes(m: Seq<(Reference, Term)>, c: Seq<(Reference, Term)>)
    requires
        forall|i: int| 0 <= i < c.len() ==> no_placeholder(#[trigger] c[i].1),
        forall|i: int| 0 <= i < c.len() ==> #[trigger] c[i].1 != Term::Text("Z18"@),
        subst_entries(m, c) is Ok,
    ensures
        entries_without_placeholder(subst_entries(m, c)->Ok_0),
    decreases m,
{
    if m.len() > 0 {
        lemma_subst_entries_removes(m.drop_last(), c);
        lemma_subst_removes_placeholders(m.last().1, c);
        let p = subst_entries(m.drop_last(), c)->Ok_0;
        let r = subst_entries(m, c)->Ok_0;
        assert(r.drop_last() == p);
    }
}

proof fn lemma_subst_items_removes(l: Seq<Term>, c: Seq<(Reference, Term)>)
    requires
        forall|i: int| 0 <= i < c.len() ==> no_placeholder(#[trigger] c[i].1),
        forall|i: int| 0 <= i < c.len() ==> #[trigger] c[i].1 != Term::Text("Z18"@),
        subst_items(l, c) is Ok,
    ensures
        items_without_placeholder(subst_items(l, c)->Ok_0),
    decreases l,
{
    if l.len() > 0 {
        lemma_subst_items_removes(l.drop_last(), c);
        lemma_subst_removes_placeholders(l.last(), c);
        let p = subst_items(l.drop_last(), c)->Ok_0;
        let r = subst_items(l, c)->Ok_0;
        assert(r.drop_last() == p);
    }
}

/// Whether the map's type tag is the string `tag`.
pub fn has_tag(map: &IdMap, tag: &str) -> (r: bool)
    ensures
        r == is_tagged(map@, tag@),
{
    proof {
        lemma_lookup_view(map.spec_entries(), zid(1, 1));
    }
    match map.get(&Reference::zk(1, 1)) {
        Some(DataEntry::String(s)) => str_eq(s.as_str(), tag),
        _ => false,
    }
}

/// A copy of `source_entry` with every placeholder (`Z18`) replaced by the
/// argument of the call `to_replace` that it names.
pub fn recurse_and_replace_placeholder(source_entry: &DataEntry, to_replace: &IdMap) -> (r: Result<
    DataEntry,
    EvaluationError,
>)
    ensures
        outcome(r) == subst(source_entry@, to_replace@),
        r matches Err(e) ==> e.frames@ == subst_frames(source_entry@, to_replace@),
    decreases source_entry,
{
    match source_entry {
        DataEntry::String(s) => Ok(DataEntry::String(s.clone())),
        DataEntry::IdMap(map) => {
            if has_tag(map, "Z18") {
                proof {
                    lemma_lookup_view(map.spec_entries(), zid(18, 1));
                }
                let key_term = match map.get(&Reference::zk(18, 1)) {
                    Some(k) => k,
                    None => {
                        return Err(
                            EvaluationError::new(EvaluationErrorKind::MissingKey(Reference::zk(18, 1))),
                        );
                    },
                };
                let key = match parse_zid_string(key_term) {
                    Ok(k) => k,
                    Err(e) => {
                        return Err(
                            EvaluationError::new(e.trace_str("inside a Z18K1")).add_frame_constructor(
                                TraceInfo::InsideMap(Reference::zk(18, 1)),
                            ),
                        );
                    },
                };
                proof {
                    lemma_lookup_view(to_replace.spec_entries(), key);
                }
                return match to_replace.get(&key) {
                    Some(v) => Ok(v.duplicate()),
                    None => Err(EvaluationError::new(EvaluationErrorKind::MissingKey(key))),
                };
            }
            map.keys_sorted();
            proof {
                lemma_view_entries(map.spec_entries());
            }
            let ghost m = map@;
            let ghost c = to_replace@;
            let mut out = IdMap::new();
            let mut i: usize = 0;
            while i < map.len()
                invariant
                    *source_entry == DataEntry::IdMap(*map),
                    m == map@,
                    !is_tagged(m, "Z18"@),
                    c == to_replace@,
                    crate::data_entry::sorted_keys(map.spec_entries()),
                    i <= map.spec_entries().len(),
                    m.len() == map.spec_entries().len(),
                    forall|j: int| 0 <= j < m.len() ==> #[trigger] m[j] == (map.spec_entries()[j].0, map.spec_entries()[j].1@),
                    out.spec_entries().len() == i,
                    forall|j: int| 0 <= j < i ==> (#[trigger] out.spec_entries()[j]).0 == map.spec_entries()[j].0,
                    subst_entries(m.subrange(0, i as int), c) == Ok::<Seq<(Reference, Term)>, Fault>(out@),
                decreases map.spec_entries().len() - i,
            {
                let key = map.key_at(i);
                proof {
                    lemma_map_value_decreases(*source_entry, i as int);
                    if i > 0 {
                        assert(map.spec_entries()[i - 1].0.spec_lt(map.spec_entries()[i as int].0));
                    }
                    assert(m.subrange(0, i + 1).drop_last() == m.subrange(0, i as int));
                }
                let v = match recurse_and_replace_placeholder(map.value_at(i), to_replace) {
                    Ok(v) => v,
                    Err(e) => {
                        proof {
                            assert(m.subrange(0, i + 1).last() == m[i as int]);
                            assert(subst_entries(m.subrange(0, i + 1), c) is Err);
                            lemma_subst_entries_err(m, c, i + 1);
                        }
                        return Err(e.add_frame_constructor(TraceInfo::InsideMap(key)));
                    },
                };
                let ghost before = out.spec_entries();
                let ghost gv = v;
                out.push_last(key, v);
                proof {
                    lemma_view_entries_push(before, out.spec_entries(), key, gv);
                }
                i = i + 1;
            }
            proof {
                assert(m.subrange(0, i as int) == m);
            }
            Ok(DataEntry::IdMap(out))
        },
        DataEntry::Array(a) => {
            proof {
                lemma_view_items(a@);
            }
            let ghost l = source_entry@->List_0;
            let ghost c = to_replace@;
            let mut out: Vec<DataEntry> = Vec::new();
            let mut i: usize = 0;
            while i < a.len()
                invariant
                    *source_entry == DataEntry::Array(*a),
                    l == source_entry@->List_0,
                    c == to_replace@,
                    i <= a@.len(),
                    l.len() == a@.len(),
                    forall|j: int| 0 <= j < l.len() ==> #[trigger] l[j] == a@[j]@,
                    subst_items(l.subrange(0, i as int), c) == Ok::<Seq<Term>, Fault>(
                        crate::data_entry::view_items(out@),
                    ),
                decreases a@.len() - i,
            {
                proof {
                    lemma_array_item_decreases(*source_entry, i as int);
                    assert(l.subrange(0, i + 1).drop_last() == l.subrange(0, i as int));
                }
                let v = match recurse_and_replace_placeholder(&a[i], to_replace) {
                    Ok(v) => v,
                    Err(e) => {
                        proof {
                            lemma_subst_items_err(l, c, i + 1);
                        }
                        return Err(e.add_frame_constructor(TraceInfo::InsideArray(i)));
                    },
                };
                let ghost before = out@;
                out.push(v);
                proof {
                    assert(out@.drop_last() == before);
                }
                i = i + 1;
            }
            proof {
                assert(l.subrange(0, i as int) == l);
            }
            Ok(DataEntry::Array(out))
        },
    }
}

/// Appending an entry appends its value to the view.
proof fn lemma_view_entries_push(
    before: Seq<(Reference, DataEntry)>,
    after: Seq<(Reference, DataEntry)>,
    key: Reference,
    v: DataEntry,
)
    requires
        after == before.push((key, v)),
    ensures
        crate::data_entry::view_entries(after) == crate::data_entry::view_entries(before).push(
            (key, v@),
        ),
{
    assert(after.drop_last() == before);
}

/// Once a prefix of the entries fails, so do all the entries.
proof fn lemma_subst_entries_err(m: Seq<(Reference, Term)>, c: Seq<(Reference, Term)>, j: int)
    requires
        0 <= j <= m.len(),
        subst_entries(m.subrange(0, j), c) is Err,
    ensures
        subst_entries(m, c) == subst_entries(m.subrange(0, j), c),
        subst_entries_frames(m, c) == subst_entries_frames(m.subrange(0, j), c),
    decreases m.len() - j,
{
    if j < m.len() {
        assert(m.subrange(0, j + 1).drop_last() == m.subrange(0, j));
        lemma_subst_entries_err(m, c, j + 1);
    } else {
        assert(m.subrange(0, j) == m);
    }
}

proof fn lemma_subst_items_err(l: Seq<Term>, c: Seq<(Reference, Term)>, j: int)
    requires
        0 <= j <= l.len(),
        subst_items(l.subrange(0, j), c) is Err,
    ensures
        subst_items(l, c) == subst_items(l.subrange(0, j), c),
        subst_items_frames(l, c) == subst_items_frames(l.subrange(0, j), c),
    decreases l.len() - j,
{
    if j < l.len() {
        assert(l.subrange(0, j + 1).drop_last() == l.subrange(0, j));
        lemma_subst_items_err(l, c, j + 1);
    } else {
        assert(l.subrange(0, j) == l);
    }
}

} // verus!
