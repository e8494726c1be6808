use vstd::prelude::*;

use crate::data_entry::{
    lemma_map_value_decreases, lemma_view_entries, lemma_view_items, view_items,
    DataEntry, IdMap, Term,
};
use crate::evaluation_error::{EvaluationErrorKind, Fault};
use crate::reference::{group_reference, zid, Reference};
use crate::runner::Runner;

verus! {

broadcast use group_reference;

/// The type of a typed pair of an identifier and an object:
/// `Z882(Z39, Z2)`.
pub open spec fn pair_type() -> Term {
    Term::Dict(
        seq![
            (zid(1, 1), Term::Text("Z7"@)),
            (zid(7, 1), Term::Text("Z882"@)),
            (zid(882, 1), Term::Text("Z39"@)),
            (zid(882, 2), Term::Text("Z2"@)),
        ],
    )
}

/// The key reference (`Z39`) to `k`.
pub open spec fn key_object(k: Reference) -> Term {
    Term::Dict(seq![(zid(1, 1), Term::Text("Z39"@)), (zid(39, 1), Term::Text(k.spec_text()))])
}

/// The typed pair of key `k` and value `v`.
pub open spec fn pair_object(k: Reference, v: Term) -> Term {
    Term::Dict(seq![(zid(0, 1), key_object(k)), (zid(0, 2), v), (zid(1, 1), pair_type())])
}

pub open spec fn list_message() -> Seq<char> {
    "arrays inside a term to reify"@
}

/// The term as the running code reads it: a map becomes the typed list of
/// its key-value pairs, in key order; strings stay as they are.
pub open spec fn reified(t: Term) -> Result<Term, Fault>
    decreases t,
{
    match t {
        Term::Text(x) => Ok(Term::Text(x)),
        Term::List(_) => Err(Fault::Unimplemented(list_message())),
        Term::Dict(m) => match reified_entries(m) {
            Err(f) => Err(f),
            Ok(pairs) => Ok(Term::List(seq![pair_type()] + pairs)),
        },
    }
}

pub open spec fn reified_entries(m: Seq<(Reference, Term)>) -> Result<Seq<Term>, Fault>
    decreases m,
{
    if m.len() == 0 {
        Ok(Seq::empty())
    } else {
        match reified_entries(m.drop_last()) {
            Err(f) => Err(f),
            Ok(p) => match reified(m.last().1) {
                Err(f) => Err(f),
                Ok(v) => Ok(p.push(pair_object(m.last().0, v))),
            },
        }
    }
}

fn text(s: &str) -> (r: DataEntry)
    ensures
        r@ == Term::Text(s@),
{
    DataEntry::String(String::from_str(s))
}

fn pair_type_entry() -> (r: DataEntry)
    ensures
        r@ == pair_type(),
{
    let mut map = IdMap::new();
    map.push_last(Reference::zk(1, 1), text("Z7"));
    map.push_last(Reference::zk(7, 1), text("Z882"));
    map.push_last(Reference::zk(882, 1), text("Z39"));
    map.push_last(Reference::zk(882, 2), text("Z2"));
    proof {
        lemma_view_entries(map.spec_entries());
        assert(map@ =~= pair_type()->Dict_0);
    }
    DataEntry::IdMap(map)
}

fn pair_entry(k: Reference, v: DataEntry) -> (r: DataEntry)
    ensures
        r@ == pair_object(k, v@),
{
    let mut key = IdMap::new();
    key.push_last(Reference::zk(1, 1), text("Z39"));
    key.push_last(Reference::zk(39, 1), DataEntry::String(k.to_zid()));
    proof {
        lemma_view_entries(key.spec_entries());
        assert(key@ =~= key_object(k)->Dict_0);
    }
    let ghost gv = v;
    let mut pair = IdMap::new();
    pair.push_last(Reference::zk(0, 1), DataEntry::IdMap(key));
    pair.push_last(Reference::zk(0, 2), v);
    pair.push_last(Reference::zk(1, 1), pair_type_entry());
    proof {
        lemma_view_entries(pair.spec_entries());
        assert(pair@ =~= pair_object(k, gv@)->Dict_0);
    }
    DataEntry::IdMap(pair)
}

impl DataEntry {
    /// The term in the form the running code reads: maps become typed lists
    /// of typed pairs. Arrays are not handled and give `Unimplemented`.
    pub fn reify(&self, runner: &Runner) -> (r: Result<DataEntry, EvaluationErrorKind>)
        ensures
            r matches Ok(v) ==> reified(self@) == Ok::<Term, Fault>(v@),
            r matches Err(e) ==> reified(self@) == Err::<Term, Fault>(e.fault()),
        decreases self,
    {
        match self {
            DataEntry::String(v) => Ok(DataEntry::String(v.clone())),
            DataEntry::Array(_) => Err(
                EvaluationErrorKind::Unimplemented(String::from_str("arrays inside a term to reify")),
            ),
            DataEntry::IdMap(map) => {
                proof {
                    lemma_view_entries(map.spec_entries());
                }
                let ghost m = map@;
                let mut result: Vec<DataEntry> = Vec::new();
                result.push(pair_type_entry());
                proof {
                    lemma_view_items(result@);
                    assert(view_items(result@).drop_first() =~= Seq::<Term>::empty());
                    assert(m.subrange(0, 0) =~= Seq::<(Reference, Term)>::empty());
                }
                let mut i: usize = 0;
                while i < map.len()
                    invariant
                        *self == DataEntry::IdMap(*map),
                        m == map@,
                        i <= map.spec_entries().len(),
                        m.len() == map.spec_entries().len(),
                        forall|j: int|
                            0 <= j < m.len() ==> #[trigger] m[j] == (
                                map.spec_entries()[j].0,
                                map.spec_entries()[j].1@,
                            ),
                        result@.len() == i + 1,
                        view_items(result@)[0] == pair_type(),
                        reified_entries(m.subrange(0, i as int)) == Ok::<Seq<Term>, Fault>(
                            view_items(result@).drop_first(),
                        ),
                    decreases map.spec_entries().len() - i,
                {
                    let key = map.key_at(i);
                    proof {
                        lemma_map_value_decreases(*self, i as int);
                        assert(m.subrange(0, i + 1).drop_last() == m.subrange(0, i as int));
                        assert(m.subrange(0, i + 1).last() == m[i as int]);
                    }
                    let inner = match map.value_at(i).reify(runner) {
                        Ok(x) => x,
                        Err(e) => {
                            proof {
                                lemma_reified_entries_err(m, i + 1);
                            }
                            return Err(e.trace(key.to_zid()));
                        },
                    };
                    let ghost before = result@;
                    result.push(pair_entry(key, inner));
                    proof {
                        lemma_view_items(before);
                        lemma_view_items(result@);
                        assert(result@.drop_last() == before);
                        assert(view_items(result@).drop_first() =~= view_items(before).drop_first().push(
                            view_items(result@).last(),
                        ));
                    }
                    i = i + 1;
                }
                proof {
                    assert(m.subrange(0, i as int) == m);
                    lemma_view_items(result@);
                    assert(view_items(result@) =~= seq![pair_type()] + view_items(result@).drop_first());
                }
                Ok(DataEntry::Array(result))
            },
        }
    }
}

proof fn lemma_reified_entries_err(m: Seq<(Reference, Term)>, j: int)
    requires
        0 <= j <= m.len(),
        reified_entries(m.subrange(0, j)) is Err,
    ensures
        reified_entries(m) == reified_entries(m.subrange(0, j)),
    decreases m.len() - j,
{
    if j < m.len() {
        assert(m.subrange(0, j + 1).drop_last() == m.subrange(0, j));
        lemma_reified_entries_err(m, j + 1);
    } else {
        assert(m.subrange(0, j) == m);
    }
}

} // verus!
