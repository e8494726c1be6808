use vstd::prelude::*;

use crate::evaluation_error::{EvaluationErrorKind, Fault};
use crate::reference::Reference;

verus! {

/// The mathematical value of a term: a string, a map from identifiers to
/// terms in the order of its keys, or an array.
pub ghost enum Term {
    Text(Seq<char>),
    Dict(Seq<(Reference, Term)>),
    List(Seq<Term>),
}

/// The position of the last entry with key `k`, or -1.
pub open spec fn key_index<V>(s: Seq<(Reference, V)>, k: Reference) -> int
    decreases s.len(),
{
    if s.len() == 0 {
        -1
    } else if s.last().0 == k {
        s.len() - 1
    } else {
        key_index(s.drop_last(), k)
    }
}

/// The value at key `k`.
pub open spec fn lookup<V>(s: Seq<(Reference, V)>, k: Reference) -> Option<V> {
    if key_index(s, k) >= 0 {
        Some(s[key_index(s, k)].1)
    } else {
        None
    }
}

/// The keys appear in strictly increasing order.
pub open spec fn sorted_keys<V>(s: Seq<(Reference, V)>) -> bool {
    forall|i: int, j: int| 0 <= i < j < s.len() ==> (#[trigger] s[i]).0.spec_lt((#[trigger] s[j]).0)
}

pub open spec fn keys_of<V>(s: Seq<(Reference, V)>) -> Seq<Reference> {
    s.map_values(|p: (Reference, V)| p.0)
}

pub proof fn lemma_key_index_bounds<V>(s: Seq<(Reference, V)>, k: Reference)
    ensures
        -1 <= key_index(s, k) < s.len(),
        key_index(s, k) >= 0 ==> s[key_index(s, k)].0 == k,
        key_index(s, k) < 0 ==> forall|i: int| 0 <= i < s.len() ==> s[i].0 != k,
    decreases s.len(),
{
    if s.len() > 0 && s.last().0 != k {
        lemma_key_index_bounds(s.drop_last(), k);
        if key_index(s, k) < 0 {
            assert forall|i: int| 0 <= i < s.len() implies s[i].0 != k by {
                if i < s.len() - 1 {
                    assert(s[i] == s.drop_last()[i]);
                }
            }
        }
    }
}

/// Two sequences with the same keys in the same places find a key at the
/// same place.
pub proof fn lemma_key_index_same_keys<V, W>(s: Seq<(Reference, V)>, t: Seq<(Reference, W)>, k: Reference)
    requires
        s.len() == t.len(),
        forall|i: int| 0 <= i < s.len() ==> s[i].0 == t[i].0,
    ensures
        key_index(s, k) == key_index(t, k),
    decreases s.len(),
{
    if s.len() > 0 {
        lemma_key_index_same_keys(s.drop_last(), t.drop_last(), k);
    }
}

/// In a sorted sequence, the key at a place is found at that place.
pub proof fn lemma_key_index_sorted<V>(s: Seq<(Reference, V)>, i: int)
    requires
        sorted_keys(s),
        0 <= i < s.len(),
    ensures
        key_index(s, s[i].0) == i,
    decreases s.len(),
{
    if i < s.len() - 1 {
        assert(s[i].0.spec_lt(s[s.len() - 1].0));
        assert(s[i].0 != s.last().0);
        assert(sorted_keys(s.drop_last()));
        assert(s.drop_last()[i] == s[i]);
        lemma_key_index_sorted(s.drop_last(), i);
    }
}


/// Where an entry with key `k` goes in a sorted sequence: after every key
/// smaller than `k`.
pub open spec fn insert_pos<V>(s: Seq<(Reference, V)>, k: Reference) -> int
    decreases s.len(),
{
    if s.len() == 0 {
        0
    } else if s[0].0.spec_lt(k) {
        1 + insert_pos(s.drop_first(), k)
    } else {
        0
    }
}

/// The sorted sequence `s` with `(k, v)` put in, in place of an entry with
/// key `k` if there is one.
pub open spec fn entries_insert<V>(s: Seq<(Reference, V)>, k: Reference, v: V) -> Seq<(Reference, V)> {
    let p = insert_pos(s, k);
    if 0 <= p < s.len() && s[p].0 == k {
        s.update(p, (k, v))
    } else {
        s.insert(p, (k, v))
    }
}

proof fn lemma_insert_pos<V>(s: Seq<(Reference, V)>, k: Reference, p: int)
    requires
        0 <= p <= s.len(),
        forall|j: int| 0 <= j < p ==> (#[trigger] s[j]).0.spec_lt(k),
        p == s.len() || !s[p].0.spec_lt(k),
    ensures
        insert_pos(s, k) == p,
    decreases p,
{
    if p > 0 {
        assert(s[0].0.spec_lt(k));
        assert forall|j: int| 0 <= j < p - 1 implies (#[trigger] s.drop_first()[j]).0.spec_lt(k) by {
            assert(s.drop_first()[j] == s[j + 1]);
        }
        lemma_insert_pos(s.drop_first(), k, p - 1);
    }
}

proof fn lemma_insert_pos_same_keys<V, W>(s: Seq<(Reference, V)>, t: Seq<(Reference, W)>, k: Reference)
    requires
        s.len() == t.len(),
        forall|i: int| 0 <= i < s.len() ==> s[i].0 == t[i].0,
    ensures
        insert_pos(s, k) == insert_pos(t, k),
        0 <= insert_pos(s, k) <= s.len(),
    decreases s.len(),
{
    if s.len() > 0 {
        assert forall|i: int| 0 <= i < s.drop_first().len() implies s.drop_first()[i].0 == t.drop_first()[i].0 by {
            assert(s.drop_first()[i] == s[i + 1]);
            assert(t.drop_first()[i] == t[i + 1]);
        }
        assert(s[0].0 == t[0].0);
        lemma_insert_pos_same_keys(s.drop_first(), t.drop_first(), k);
    }
}

/// Putting an entry in commutes with taking the values of the entries.
pub proof fn lemma_view_entries_insert(s: Seq<(Reference, DataEntry)>, k: Reference, v: DataEntry)
    ensures
        view_entries(entries_insert(s, k, v)) == entries_insert(view_entries(s), k, v@),
{
    let t = view_entries(s);
    lemma_view_entries(s);
    lemma_insert_pos_same_keys(s, t, k);
    let r = entries_insert(s, k, v);
    lemma_view_entries(r);
    assert(view_entries(r) =~= entries_insert(t, k, v@));
}

/// A map keyed by identifiers, kept sorted by key with no key twice.
#[derive(Debug, PartialEq)]
pub struct IdMap {
    entries: Vec<(Reference, DataEntry)>,
}

/// A term: a string, a map keyed by identifiers, or an array.
#[derive(Debug, PartialEq)]
pub enum DataEntry {
    String(String),
    IdMap(IdMap),
    Array(Vec<DataEntry>),
}

pub open spec fn view_entries(s: Seq<(Reference, DataEntry)>) -> Seq<(Reference, Term)>
    decreases s,
{
    if s.len() == 0 {
        Seq::empty()
    } else {
        view_entries(s.drop_last()).push((s.last().0, s.last().1.view()))
    }
}

pub open spec fn view_items(s: Seq<DataEntry>) -> Seq<Term>
    decreases s,
{
    if s.len() == 0 {
        Seq::empty()
    } else {
        view_items(s.drop_last()).push(s.last().view())
    }
}

pub proof fn lemma_view_entries(s: Seq<(Reference, DataEntry)>)
    ensures
        view_entries(s).len() == s.len(),
        forall|i: int|
            0 <= i < s.len() ==> #[trigger] view_entries(s)[i] == (s[i].0, s[i].1.view()),
    decreases s.len(),
{
    if s.len() > 0 {
        lemma_view_entries(s.drop_last());
        assert forall|i: int| 0 <= i < s.len() implies #[trigger] view_entries(s)[i] == (
            s[i].0,
            s[i].1.view(),
        ) by {
            if i < s.len() - 1 {
                assert(s.drop_last()[i] == s[i]);
            }
        }
    }
}

pub proof fn lemma_view_items(s: Seq<DataEntry>)
    ensures
        view_items(s).len() == s.len(),
        forall|i: int| 0 <= i < s.len() ==> #[trigger] view_items(s)[i] == s[i].view(),
    decreases s.len(),
{
    if s.len() > 0 {
        lemma_view_items(s.drop_last());
        assert forall|i: int| 0 <= i < s.len() implies #[trigger] view_items(s)[i]
            == s[i].view() by {
            if i < s.len() - 1 {
                assert(s.drop_last()[i] == s[i]);
            }
        }
    }
}

/// Looking a key up commutes with taking the values of the entries.
pub proof fn lemma_lookup_view(s: Seq<(Reference, DataEntry)>, k: Reference)
    ensures
        lookup(view_entries(s), k) == (match lookup(s, k) {
            Some(v) => Some(v.view()),
            None => None::<Term>,
        }),
{
    lemma_view_entries(s);
    lemma_key_index_same_keys(s, view_entries(s), k);
    lemma_key_index_bounds(s, k);
}

impl IdMap {
    #[verifier::type_invariant]
    pub open spec fn inv(self) -> bool {
        sorted_keys(self.spec_entries())
    }

    pub closed spec fn spec_entries(self) -> Seq<(Reference, DataEntry)> {
        self.entries@
    }

    pub open spec fn view(self) -> Seq<(Reference, Term)> {
        view_entries(self.spec_entries())
    }

    pub open spec fn spec_get(self, k: Reference) -> Option<DataEntry> {
        lookup(self.spec_entries(), k)
    }

    pub fn new() -> (r: IdMap)
        ensures
            r.spec_entries() == Seq::<(Reference, DataEntry)>::empty(),
    {
        IdMap { entries: Vec::new() }
    }

    pub fn len(&self) -> (r: usize)
        ensures
            r == self.spec_entries().len(),
    {
        self.entries.len()
    }

    /// The entries are sorted by key.
    pub fn keys_sorted(&self)
        ensures
            sorted_keys(self.spec_entries()),
    {
        proof {
            use_type_invariant(self);
        }
    }

    pub fn key_at(&self, i: usize) -> (r: Reference)
        requires
            i < self.spec_entries().len(),
        ensures
            r == self.spec_entries()[i as int].0,
    {
        self.entries[i].0
    }

    pub fn value_at(&self, i: usize) -> (r: &DataEntry)
        requires
            i < self.spec_entries().len(),
        ensures
            *r == self.spec_entries()[i as int].1,
    {
        &self.entries[i].1
    }

    /// Adds an entry after all others; its key must be greater than theirs.
    pub fn push_last(&mut self, key: Reference, value: DataEntry)
        requires
            old(self).spec_entries().len() == 0 || old(self).spec_entries().last().0.spec_lt(key),
        ensures
            final(self).spec_entries() == old(self).spec_entries().push((key, value)),
    {
        proof {
            use_type_invariant(&*self);
        }
        let ghost before = self.entries@;
        let mut entries: Vec<(Reference, DataEntry)> = Vec::new();
        std::mem::swap(&mut entries, &mut self.entries);
        entries.push((key, value));
        proof {
            assert forall|i: int, j: int| 0 <= i < j < entries@.len() implies (
            #[trigger] entries@[i]).0.spec_lt((#[trigger] entries@[j]).0) by {
                if j == entries@.len() - 1 && i < j {
                    assert(entries@[i] == before[i]);
                    if i < before.len() - 1 {
                        assert(before[i].0.spec_lt(before[before.len() - 1].0));
                    }
                }
            }
        }
        self.entries = entries;
    }

    /// The value at `key`.
    pub fn get(&self, key: &Reference) -> (r: Option<&DataEntry>)
        ensures
            r matches Some(v) ==> self.spec_get(*key) == Some(*v),
            r is None ==> self.spec_get(*key) is None,
    {
        proof {
            lemma_key_index_bounds(self.entries@, *key);
        }
        let mut i = self.entries.len();
        while i > 0
            invariant
                i <= self.entries@.len(),
                key_index(self.entries@, *key) < i,
            decreases i,
        {
            proof {
                lemma_key_index_last(self.entries@, *key, i as int);
            }
            if self.entries[i - 1].0 == *key {
                return Some(&self.entries[i - 1].1);
            }
            i = i - 1;
        }
        proof {
            lemma_key_index_bounds(self.entries@, *key);
        }
        None
    }

    /// Sets the value at `key`, in place of any value there before.
    pub fn insert(&mut self, key: Reference, value: DataEntry)
        ensures
            final(self).spec_entries() == entries_insert(old(self).spec_entries(), key, value),
            final(self).spec_get(key) == Some(value),
            forall|k: Reference| k != key ==> #[trigger] final(self).spec_get(k) == old(self).spec_get(k),
    {
        proof {
            use_type_invariant(&*self);
        }
        let ghost before = self.entries@;
        let mut entries: Vec<(Reference, DataEntry)> = Vec::new();
        std::mem::swap(&mut entries, &mut self.entries);
        let mut pos: usize = 0;
        while pos < entries.len() && entries[pos].0.less_than(&key)
            invariant
                entries@ == before,
                pos <= entries.len(),
                forall|j: int| 0 <= j < pos ==> (#[trigger] before[j]).0.spec_lt(key),
            decreases entries.len() - pos,
        {
            pos = pos + 1;
        }
        proof {
            lemma_insert_pos(before, key, pos as int);
        }
        if pos < entries.len() && entries[pos].0 == key {
            entries.set(pos, (key, value));
            proof {
                assert forall|i: int, j: int| 0 <= i < j < entries@.len() implies (
                #[trigger] entries@[i]).0.spec_lt((#[trigger] entries@[j]).0) by {
                    assert(before[i].0.spec_lt(before[j].0));
                    assert(entries@[i].0 == before[i].0);
                    assert(entries@[j].0 == before[j].0);
                }
                lemma_key_index_sorted(entries@, pos as int);
                assert forall|k: Reference| k != key implies #[trigger] lookup(entries@, k) == lookup(
                    before,
                    k,
                ) by {
                    lemma_key_index_bounds(before, k);
                    if key_index(before, k) >= 0 {
                        lemma_key_index_sorted(before, key_index(before, k));
                        lemma_key_index_sorted(entries@, key_index(before, k));
                    } else {
                        lemma_key_index_bounds(entries@, k);
                        if key_index(entries@, k) >= 0 {
                            assert(entries@[key_index(entries@, k)].0 == before[key_index(
                                entries@,
                                k,
                            )].0);
                        }
                    }
                }
            }
        } else {
            entries.insert(pos, (key, value));
            proof {
                if pos < before.len() {
                    let b = before[pos as int].0;
                    if b.z_part() == key.z_part() && b.k_part() == key.k_part() {
                        Reference::lemma_parts_determine(b, key);
                    }
                    assert(key.spec_lt(b));
                }
                assert forall|i: int, j: int| 0 <= i < j < entries@.len() implies (
                #[trigger] entries@[i]).0.spec_lt((#[trigger] entries@[j]).0) by {
                    if i < pos {
                        assert(entries@[i] == before[i]);
                    } else if i > pos {
                        assert(entries@[i] == before[i - 1]);
                    }
                    if j < pos {
                        assert(entries@[j] == before[j]);
                    } else if j > pos {
                        assert(entries@[j] == before[j - 1]);
                    }
                    if j < pos {
                        assert(before[i].0.spec_lt(before[j].0));
                    } else if j == pos {
                        assert(before[i].0.spec_lt(key));
                    } else if i == pos {
                        if j - 1 > pos {
                            assert(before[pos as int].0.spec_lt(before[j - 1].0));
                        }
                        assert(!before[pos as int].0.spec_lt(key));
                        assert(before[pos as int].0 != key);
                    } else if i < pos {
                        assert(before[i].0.spec_lt(before[j - 1].0));
                    } else {
                        assert(before[i - 1].0.spec_lt(before[j - 1].0));
                    }
                }
                lemma_key_index_sorted(entries@, pos as int);
                assert forall|k: Reference| k != key implies #[trigger] lookup(entries@, k) == lookup(
                    before,
                    k,
                ) by {
                    lemma_key_index_bounds(before, k);
                    lemma_key_index_bounds(entries@, k);
                    if key_index(before, k) >= 0 {
                        let i = key_index(before, k);
                        lemma_key_index_sorted(before, i);
                        if i < pos {
                            assert(entries@[i] == before[i]);
                            lemma_key_index_sorted(entries@, i);
                        } else {
                            assert(entries@[i + 1] == before[i]);
                            lemma_key_index_sorted(entries@, i + 1);
                        }
                    } else if key_index(entries@, k) >= 0 {
                        let i = key_index(entries@, k);
                        if i < pos {
                            assert(entries@[i] == before[i]);
                        } else if i > pos {
                            assert(entries@[i] == before[i - 1]);
                        }
                    }
                }
            }
        }
        self.entries = entries;
    }
}

pub proof fn lemma_key_index_step<V>(s: Seq<(Reference, V)>, k: Reference, i: int)
    requires
        0 < i <= s.len(),
        key_index(s, k) < i,
    ensures
        s[i - 1].0 == k ==> key_index(s, k) == i - 1,
        s[i - 1].0 != k ==> key_index(s, k) < i - 1,
{
    lemma_key_index_last(s, k, i);
}

proof fn lemma_key_index_last<V>(s: Seq<(Reference, V)>, k: Reference, i: int)
    requires
        0 < i <= s.len(),
        key_index(s, k) < i,
    ensures
        s[i - 1].0 == k ==> key_index(s, k) == i - 1,
        s[i - 1].0 != k ==> key_index(s, k) < i - 1,
    decreases s.len(),
{
    lemma_key_index_bounds(s, k);
    if i < s.len() {
        assert(s.last().0 != k);
        assert(s.drop_last()[i - 1] == s[i - 1]);
        lemma_key_index_last(s.drop_last(), k, i);
    }
}

impl DataEntry {
    pub open spec fn view(&self) -> Term
        decreases self,
    {
        match self {
            DataEntry::String(s) => Term::Text(s@),
            DataEntry::IdMap(m) => Term::Dict(view_entries(m.spec_entries())),
            DataEntry::Array(v) => Term::List(view_items(v@)),
        }
    }

    /// A copy of the term.
    pub fn duplicate(&self) -> (r: DataEntry)
        ensures
            r@ == self@,
        decreases self,
    {
        match self {
            DataEntry::String(s) => DataEntry::String(s.clone()),
            DataEntry::IdMap(m) => {
                proof {
                    use_type_invariant(m);
                    lemma_view_entries(m.spec_entries());
                }
                let mut out = IdMap::new();
                let mut i: usize = 0;
                while i < m.len()
                    invariant
                        *self == DataEntry::IdMap(*m),
                        i <= m.spec_entries().len(),
                        sorted_keys(m.spec_entries()),
                        out.spec_entries().len() == i,
                        forall|j: int| 0 <= j < i ==> (#[trigger] out.spec_entries()[j]).0 == m.spec_entries()[j].0,
                        forall|j: int| 0 <= j < i ==> (#[trigger] out.spec_entries()[j]).1@ == m.spec_entries()[j].1@,
                    decreases m.spec_entries().len() - i,
                {
                    proof {
                        assert(*self == DataEntry::IdMap(*m));
                        assert(decreases_to!(*self => (*self)->IdMap_0));
                        assert(decreases_to!(*m => m.entries));
                        assert(decreases_to!(m.entries => m.entries@));
                        assert(decreases_to!(m.entries@ => m.entries@[i as int]));
                        assert(decreases_to!(m.entries@[i as int] => m.entries@[i as int].1));
                        if i > 0 {
                            assert(m.spec_entries()[i - 1].0.spec_lt(m.spec_entries()[i as int].0));
                        }
                    }
                    let v = m.value_at(i).duplicate();
                    out.push_last(m.key_at(i), v);
                    i = i + 1;
                }
                proof {
                    lemma_view_entries(out.spec_entries());
                    assert(view_entries(out.spec_entries()) == view_entries(m.spec_entries()));
                }
                DataEntry::IdMap(out)
            },
            DataEntry::Array(v) => {
                proof {
                    lemma_view_items(v@);
                }
                let mut out: Vec<DataEntry> = Vec::new();
                let mut i: usize = 0;
                while i < v.len()
                    invariant
                        *self == DataEntry::Array(*v),
                        i <= v@.len(),
                        out@.len() == i,
                        forall|j: int| 0 <= j < i ==> (#[trigger] out@[j])@ == v@[j]@,
                    decreases v@.len() - i,
                {
                    proof {
                        assert(*self == DataEntry::Array(*v));
                        assert(decreases_to!(*self => (*self)->Array_0));
                        assert(decreases_to!(*v => v@));
                        assert(decreases_to!(v@ => v@[i as int]));
                    }
                    let d = v[i].duplicate();
                    out.push(d);
                    i = i + 1;
                }
                proof {
                    lemma_view_items(out@);
                    assert(view_items(out@) == view_items(v@));
                }
                DataEntry::Array(out)
            },
        }
    }
}


/// The entries of a map term.
pub open spec fn t_map(t: Term) -> Result<Seq<(Reference, Term)>, Fault> {
    match t {
        Term::Dict(m) => Ok(m),
        _ => Err(Fault::NotAMap),
    }
}

/// The elements of an array term.
pub open spec fn t_arr(t: Term) -> Result<Seq<Term>, Fault> {
    match t {
        Term::List(l) => Ok(l),
        _ => Err(Fault::NotAnArray),
    }
}

/// The characters of a string term.
pub open spec fn t_str(t: Term) -> Result<Seq<char>, Fault> {
    match t {
        Term::Text(s) => Ok(s),
        _ => Err(Fault::NotAString),
    }
}

/// The value at key `k` of a map term, which must be there.
pub open spec fn t_get(t: Term, k: Reference) -> Result<Term, Fault> {
    match t {
        Term::Dict(m) => match lookup(m, k) {
            Some(v) => Ok(v),
            None => Err(Fault::MissingKey(k)),
        },
        _ => Err(Fault::NotAMap),
    }
}

/// The value at key `k` of a map term, if any.
pub open spec fn t_get_opt(t: Term, k: Reference) -> Result<Option<Term>, Fault> {
    match t {
        Term::Dict(m) => Ok(lookup(m, k)),
        _ => Err(Fault::NotAMap),
    }
}

impl DataEntry {
    pub fn get_map(&self) -> (r: Result<&IdMap, EvaluationErrorKind>)
        ensures
            r matches Ok(m) ==> *self == DataEntry::IdMap(*m),
            r matches Err(e) ==> !(*self is IdMap) && e == EvaluationErrorKind::LowLevelNotAMap,
    {
        match self {
            DataEntry::IdMap(m) => Ok(m),
            _ => Err(EvaluationErrorKind::LowLevelNotAMap),
        }
    }

    pub fn get_array(&self) -> (r: Result<&Vec<DataEntry>, EvaluationErrorKind>)
        ensures
            r matches Ok(v) ==> *self == DataEntry::Array(*v),
            r matches Err(e) ==> !(*self is Array) && e == EvaluationErrorKind::LowLevelNotAnArray,
    {
        match self {
            DataEntry::Array(v) => Ok(v),
            _ => Err(EvaluationErrorKind::LowLevelNotAnArray),
        }
    }

    pub fn get_str(&self) -> (r: Result<&str, EvaluationErrorKind>)
        ensures
            r matches Ok(s) ==> t_str(self@) == Ok::<Seq<char>, Fault>(s@),
            r matches Err(e) ==> t_str(self@) == Err::<Seq<char>, Fault>(e.fault()) && e
                == EvaluationErrorKind::LowLevelNotAString,
    {
        match self {
            DataEntry::String(s) => Ok(s.as_str()),
            _ => Err(EvaluationErrorKind::LowLevelNotAString),
        }
    }

    /// The value at key `reference` of a map, which must be there.
    pub fn get_map_entry(&self, reference: &Reference) -> (r: Result<&DataEntry, EvaluationErrorKind>)
        ensures
            r matches Ok(v) ==> t_get(self@, *reference) == Ok::<Term, Fault>(v@) && *self is IdMap
                && self->IdMap_0.spec_get(*reference) == Some(*v),
            r matches Err(e) ==> t_get(self@, *reference) == Err::<Term, Fault>(e.fault()),
    {
        let m = self.get_map()?;
        proof {
            lemma_lookup_view(m.spec_entries(), *reference);
        }
        match m.get(reference) {
            Some(v) => Ok(v),
            None => Err(EvaluationErrorKind::MissingKey(*reference)),
        }
    }

    /// The value at key `reference` of a map, if any.
    pub fn get_map_entry_option(&self, reference: &Reference) -> (r: Result<
        Option<&DataEntry>,
        EvaluationErrorKind,
    >)
        ensures
            r matches Ok(Some(v)) ==> t_get_opt(self@, *reference) == Ok::<Option<Term>, Fault>(
                Some(v@),
            ) && *self is IdMap && self->IdMap_0.spec_get(*reference) == Some(*v),
            r matches Ok(None) ==> t_get_opt(self@, *reference) == Ok::<Option<Term>, Fault>(
                None,
            ),
            r matches Err(e) ==> t_get_opt(self@, *reference) == Err::<Option<Term>, Fault>(
                e.fault(),
            ),
    {
        let m = self.get_map()?;
        proof {
            lemma_lookup_view(m.spec_entries(), *reference);
        }
        Ok(m.get(reference))
    }
}


/// A map term is larger than each of its values.
pub proof fn lemma_map_value_decreases(d: DataEntry, i: int)
    requires
        d is IdMap,
        0 <= i < d->IdMap_0.spec_entries().len(),
    ensures
        decreases_to!(d => d->IdMap_0.spec_entries()[i].1),
{
    let m = d->IdMap_0;
    assert(decreases_to!(d => d->IdMap_0));
    assert(decreases_to!(m => m.entries));
    assert(decreases_to!(m.entries => m.entries@));
    assert(decreases_to!(m.entries@ => m.entries@[i]));
    assert(decreases_to!(m.entries@[i] => m.entries@[i].1));
}

/// An array term is larger than each of its elements.
pub proof fn lemma_array_item_decreases(d: DataEntry, i: int)
    requires
        d is Array,
        0 <= i < d->Array_0@.len(),
    ensures
        decreases_to!(d => d->Array_0@[i]),
{
    let v = d->Array_0;
    assert(decreases_to!(d => d->Array_0));
    assert(decreases_to!(v => v@));
    assert(decreases_to!(v@ => v@[i]));
}

impl Clone for DataEntry {
    fn clone(&self) -> (r: Self)
        ensures
            r@ == self@,
    {
        self.duplicate()
    }
}

} // verus!
