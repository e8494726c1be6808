use std::marker::PhantomData;

use vstd::prelude::*;

use crate::data_entry::{lookup, t_get, t_str, DataEntry, IdMap, Term};
use crate::evaluation_error::{EvaluationErrorKind, Fault};
use crate::composition_tool::{has_tag, is_tagged};
use crate::global_datas::GlobalDatas;
use crate::runner::{s_object, Runner};
use crate::reference::{group_reference, text_chars, text_id, zid, Reference, Zid};

verus! {

broadcast use group_reference;

/// The identifier that a string term holds.
pub open spec fn t_zid(t: Term) -> Result<Reference, Fault> {
    match t_str(t) {
        Err(f) => Err(f),
        Ok(s) => match text_id(s) {
            Ok(r) => Ok(r),
            Err(e) => Err(Fault::ParseZid(e)),
        },
    }
}

/// Checks that the type tag `Z1K1` of a map term is `id`.
pub open spec fn t_check_type(t: Term, id: Reference) -> Result<(), Fault> {
    match t_get(t, zid(1, 1)) {
        Err(f) => Err(f),
        Ok(tag) => match t_zid(tag) {
            Err(f) => Err(f),
            Ok(r) => if r == id {
                Ok(())
            } else {
                Err(Fault::WrongType(r, id))
            },
        },
    }
}

/// The characters of a string object (`Z6`).
pub open spec fn t_string_type(t: Term) -> Result<Seq<char>, Fault> {
    match t_check_type(t, zid(6, 0)) {
        Err(f) => Err(f),
        Ok(_) => match t_get(t, zid(6, 1)) {
            Err(f) => Err(f),
            Ok(v) => t_str(v),
        },
    }
}

/// The characters of a plain string or of a string object.
pub open spec fn t_string_permissive(t: Term) -> Result<Seq<char>, Fault> {
    match t {
        Term::Text(s) => Ok(s),
        _ => t_string_type(t),
    }
}

/// The value of a boolean (`Z40`): its `Z40K1` is `Z41` for true and `Z42`
/// for false. Another text fails: as an identifier that is not a boolean
/// value, or as text that is no identifier at all.
pub open spec fn t_boolean(t: Term) -> Result<bool, Fault> {
    match t_get(t, zid(40, 1)) {
        Err(f) => Err(f),
        Ok(v) => match t_str(v) {
            Err(f) => Err(f),
            Ok(s) => if s == "Z41"@ {
                Ok(true)
            } else if s == "Z42"@ {
                Ok(false)
            } else {
                match text_id(s) {
                    Err(e) => Err(Fault::ParseZid(e)),
                    Ok(r) => Err(Fault::WrongType(r, zid(40, 0))),
                }
            },
        },
    }
}

/// The identifier and the payload of a persistent object (`Z2`).
pub open spec fn t_persistent(t: Term) -> Result<(Reference, Term), Fault> {
    match t_check_type(t, zid(2, 0)) {
        Err(f) => Err(f),
        Ok(_) => match t_get(t, zid(2, 1)) {
            Err(f) => Err(f),
            Ok(id_term) => match t_string_type(id_term) {
                Err(f) => Err(f),
                Ok(id_text) => match text_id(id_text) {
                    Err(e) => Err(Fault::ParseZid(e)),
                    Ok(id) => match t_get(t, zid(2, 2)) {
                        Err(f) => Err(f),
                        Ok(value) => match t_get(t, zid(2, 3)) {
                            Err(f) => Err(f),
                            Ok(_) => match t_get(t, zid(2, 4)) {
                                Err(f) => Err(f),
                                Ok(_) => match t_get(t, zid(2, 5)) {
                                    Err(f) => Err(f),
                                    Ok(_) => Ok((id, value)),
                                },
                            },
                        },
                    },
                },
            },
        },
    }
}

/// Whether two strings hold the same characters.
pub fn str_eq(a: &str, b: &str) -> (r: bool)
    ensures
        r == (a@ == b@),
{
    let ca = text_chars(a);
    let cb = text_chars(b);
    if ca.len() != cb.len() {
        return false;
    }
    let mut i: usize = 0;
    while i < ca.len()
        invariant
            ca@ == a@,
            cb@ == b@,
            ca.len() == cb.len(),
            i <= ca.len(),
            forall|j: int| 0 <= j < i ==> ca@[j] == cb@[j],
        decreases ca.len() - i,
    {
        if ca[i] != cb[i] {
            return false;
        }
        i = i + 1;
    }
    proof {
        assert(ca@ == cb@);
    }
    true
}


/// The identifier that a string term holds.
pub fn parse_zid_string(entry: &DataEntry) -> (r: Result<Zid, EvaluationErrorKind>)
    ensures
        r matches Ok(id) ==> t_zid(entry@) == Ok::<Reference, Fault>(id),
        r matches Err(e) ==> t_zid(entry@) == Err::<Reference, Fault>(e.fault()),
{
    let s = entry.get_str()?;
    match Reference::from_zid(s) {
        Ok(id) => Ok(id),
        Err(e) => Err(EvaluationErrorKind::ParseZID(e)),
    }
}

/// Fails unless the type tag `Z1K1` of the map is `id`.
pub fn check_type(entry: &DataEntry, id: Zid) -> (r: Result<(), EvaluationErrorKind>)
    ensures
        r is Ok ==> t_check_type(entry@, id) == Ok::<(), Fault>(()),
        r matches Err(e) ==> t_check_type(entry@, id) == Err::<(), Fault>(e.fault()),
{
    let tag = entry.get_map_entry(&Reference::zk(1, 1))?;
    let read_type = match parse_zid_string(tag) {
        Ok(r) => r,
        Err(e) => return Err(e.trace_str("parsing the type zid")),
    };
    if read_type != id {
        Err(EvaluationErrorKind::WrongType(read_type, id))
    } else {
        Ok(())
    }
}

/// The text of a string object (`Z6`).
pub fn parse_string_type(entry: &DataEntry) -> (r: Result<&str, EvaluationErrorKind>)
    ensures
        r matches Ok(s) ==> t_string_type(entry@) == Ok::<Seq<char>, Fault>(s@),
        r matches Err(e) ==> t_string_type(entry@) == Err::<Seq<char>, Fault>(e.fault()),
{
    check_type(entry, Reference::zk(6, 0))?;
    entry.get_map_entry(&Reference::zk(6, 1))?.get_str()
}

/// The text of a plain string, or else of a string object.
pub fn parse_string_permissive(entry: &DataEntry) -> (r: Result<&str, EvaluationErrorKind>)
    ensures
        r matches Ok(s) ==> t_string_permissive(entry@) == Ok::<Seq<char>, Fault>(s@),
        r matches Err(e) ==> t_string_permissive(entry@) == Err::<Seq<char>, Fault>(e.fault()),
{
    match entry.get_str() {
        Ok(v) => Ok(v),
        Err(_) => parse_string_type(entry),
    }
}

/// The string object (`Z6`) holding `input`.
pub fn raw_string_to_object_string(input: String) -> (r: DataEntry)
    ensures
        t_string_type(r@) == Ok::<Seq<char>, Fault>(input@),
        r@ == Term::Dict(seq![(zid(1, 1), Term::Text("Z6"@)), (zid(6, 1), Term::Text(input@))]),
{
    let ghost text = input@;
    let mut map = IdMap::new();
    let tag = String::from_str("Z6");
    let ghost tag_view = tag@;
    map.push_last(Reference::zk(1, 1), DataEntry::String(tag));
    map.push_last(Reference::zk(6, 1), DataEntry::String(input));
    let ghost m = seq![(zid(1, 1), Term::Text("Z6"@)), (zid(6, 1), Term::Text(text))];
    proof {
        crate::data_entry::lemma_view_entries(map.spec_entries());
        assert(tag_view == "Z6"@);
        assert(map.view() =~= m);
        assert(crate::data_entry::key_index(m, zid(1, 1)) == 0) by {
            assert(m.drop_last().last().0 == zid(1, 1));
            assert(zid(6, 1).z_part() != zid(1, 1).z_part());
            assert(m.drop_last().len() == 1);
            assert(crate::data_entry::key_index(m.drop_last(), zid(1, 1)) == 0);
            assert(m.last().0 != zid(1, 1));
        }
        assert(crate::data_entry::key_index(m, zid(6, 1)) == 1);
        crate::reference::lemma_text_z6();
    }
    let r = DataEntry::IdMap(map);
    r
}

/// The value of a boolean (`Z40`).
pub fn parse_boolean(entry: &DataEntry) -> (r: Result<bool, EvaluationErrorKind>)
    ensures
        r matches Ok(b) ==> t_boolean(entry@) == Ok::<bool, Fault>(b),
        r matches Err(e) ==> t_boolean(entry@) == Err::<bool, Fault>(e.fault()),
{
    let text = entry.get_map_entry(&Reference::zk(40, 1))?.get_str()?;
    if str_eq(text, "Z41") {
        Ok(true)
    } else if str_eq(text, "Z42") {
        Ok(false)
    } else {
        match Reference::from_zid(text) {
            Err(e) => Err(EvaluationErrorKind::ParseZID(e)),
            Ok(r) => Err(EvaluationErrorKind::WrongType(r, Reference::zk(40, 0))),
        }
    }
}

/// A persistent object (`Z2`): a term of the store with its identifier and
/// its metadata.
#[derive(Debug)]
pub struct WfPersistentObject<'l> {
    pub id: Zid,
    pub value: &'l DataEntry,
    pub labels: PotentialReference<'l, WfUntyped<'l>>,
    pub aliases: PotentialReference<'l, WfUntyped<'l>>,
    pub short_description: PotentialReference<'l, WfUntyped<'l>>,
}

impl<'l> WfParse<'l> for WfPersistentObject<'l> {
    open spec fn parse_result(entry: Term) -> Result<(), Fault> {
        match t_persistent(entry) {
            Err(f) => Err(f),
            Ok(_) => Ok(()),
        }
    }

    open spec fn reads(&self, entry: Term) -> bool {
        t_persistent(entry) == Ok::<(Reference, Term), Fault>((self.id, self.value@))
    }

    fn parse(entry: &'l DataEntry) -> (r: Result<Self, EvaluationErrorKind>) {
        check_type(entry, Reference::zk(2, 0))?;
        let id_text = match parse_string_type(entry.get_map_entry(&Reference::zk(2, 1))?) {
            Ok(t) => t,
            Err(e) => return Err(e.trace_str("parsing id")),
        };
        let id = match Reference::from_zid(id_text) {
            Ok(id) => id,
            Err(e) => return Err(EvaluationErrorKind::ParseZID(e).trace_str("parsing id")),
        };
        let value = entry.get_map_entry(&Reference::zk(2, 2))?;
        let labels = entry.get_map_potential_reference(&Reference::zk(2, 3))?;
        let aliases = entry.get_map_potential_reference(&Reference::zk(2, 4))?;
        let short_description = entry.get_map_potential_reference(&Reference::zk(2, 5))?;
        Ok(WfPersistentObject { id, value, labels, aliases, short_description })
    }
}

/// A view that reads a term as a domain entity.
pub trait WfParse<'l>: Sized {
    /// Whether `entry` reads as this view, or the fault met reading it.
    spec fn parse_result(entry: Term) -> Result<(), Fault>;

    /// The view holds what it read from `entry`.
    spec fn reads(&self, entry: Term) -> bool;

    fn parse(entry: &'l DataEntry) -> (r: Result<Self, EvaluationErrorKind>)
        ensures
            r is Ok <==> Self::parse_result(entry@) is Ok,
            r matches Err(e) ==> Self::parse_result(entry@) == Err::<(), Fault>(e.fault()),
            r matches Ok(v) ==> v.reads(entry@),
    ;
}

/// A term taken as it is.
#[derive(Debug)]
pub struct WfUntyped<'l> {
    pub entry: &'l DataEntry,
}

impl<'l> WfParse<'l> for WfUntyped<'l> {
    open spec fn parse_result(entry: Term) -> Result<(), Fault> {
        Ok(())
    }

    open spec fn reads(&self, entry: Term) -> bool {
        self.entry@ == entry
    }

    fn parse(entry: &'l DataEntry) -> (r: Result<Self, EvaluationErrorKind>) {
        Ok(WfUntyped { entry })
    }
}

/// A place that holds either a term or a reference to a persistent object
/// whose payload is the term: a string identifier, or a map tagged `Z9`
/// whose `Z9K1` is the identifier.
#[derive(Debug)]
pub struct PotentialReference<'l, T> {
    entry: &'l DataEntry,
    phantom: PhantomData<T>,
}

impl<'l, T: WfParse<'l>> WfParse<'l> for PotentialReference<'l, T> {
    open spec fn parse_result(entry: Term) -> Result<(), Fault> {
        Ok(())
    }

    open spec fn reads(&self, entry: Term) -> bool {
        self.cell()@ == entry
    }

    fn parse(entry: &'l DataEntry) -> (r: Result<Self, EvaluationErrorKind>) {
        Ok(PotentialReference::new(entry))
    }
}

impl<'l, T: WfParse<'l>> PotentialReference<'l, T> {
    /// The term of the place.
    pub closed spec fn cell(&self) -> DataEntry {
        *self.entry
    }

    pub fn new(entry: &'l DataEntry) -> (r: Self)
        ensures
            r.cell() == *entry,
    {
        PotentialReference { entry, phantom: PhantomData }
    }
}

/// The term that a place stands for, after at most one hop through the
/// store: a string is an identifier to look up, a map whose `Z1K1` is the
/// string `Z9` names the identifier at `Z9K1`, and anything else (an array,
/// any other map) stands for itself.
pub open spec fn resolve(s: GlobalDatas, t: Term) -> Result<Term, Fault> {
    match t {
        Term::List(_) => Ok(t),
        Term::Text(x) => match text_id(x) {
            Err(e) => Err(Fault::ParseZid(e)),
            Ok(id) => match s_object(s, id) {
                Err(f) => Err(f),
                Ok(obj) => Ok(obj.1),
            },
        },
        Term::Dict(m) => if is_tagged(m, "Z9"@) {
            match lookup(m, zid(9, 1)) {
                None => Err(Fault::MissingKey(zid(9, 1))),
                Some(target) => match t_zid(target) {
                    Err(f) => Err(f),
                    Ok(id) => match s_object(s, id) {
                        Err(f) => Err(f),
                        Ok(obj) => Ok(obj.1),
                    },
                },
            }
        } else {
            Ok(t)
        },
    }
}

/// The identifier that a place refers to: a string identifier, or a map
/// tagged `Z9`.
pub open spec fn t_reference(t: Term) -> Result<Reference, Fault> {
    match t {
        Term::List(_) => Err(Fault::NotAMap),
        Term::Text(x) => match text_id(x) {
            Err(e) => Err(Fault::ParseZid(e)),
            Ok(id) => Ok(id),
        },
        Term::Dict(m) => match t_check_type(t, zid(9, 0)) {
            Err(f) => Err(f),
            Ok(_) => match lookup(m, zid(9, 1)) {
                None => Err(Fault::MissingKey(zid(9, 1))),
                Some(target) => t_zid(target),
            },
        },
    }
}

impl<'l, T: WfParse<'l>> PotentialReference<'l, T> {
    /// Reads the place as `T`, after following a reference if it holds one.
    /// Function calls and placeholders are not followed.
    pub fn evaluate(&self, runner: &'l Runner) -> (r: Result<T, EvaluationErrorKind>)
        ensures
            resolve(runner.store(), self.cell()@) matches Err(f) ==> r matches Err(e) && e.fault()
                == f,
            resolve(runner.store(), self.cell()@) matches Ok(t) ==> (r is Ok <==> T::parse_result(t) is Ok)
                && (r matches Err(e) ==> T::parse_result(t) == Err::<(), Fault>(e.fault()))
                && (r matches Ok(v) ==> v.reads(t)),
    {
        match self.entry {
            DataEntry::Array(_) => T::parse(self.entry),
            DataEntry::String(text) => {
                let id = match Reference::from_zid(text.as_str()) {
                    Ok(id) => id,
                    Err(e) => return Err(EvaluationErrorKind::ParseZID(e)),
                };
                match runner.get_persistent_object(&id) {
                    Ok(p) => T::parse(p.value),
                    Err(e) => Err(e.root_kind),
                }
            },
            DataEntry::IdMap(map) => {
                proof {
                    crate::data_entry::lemma_lookup_view(map.spec_entries(), zid(9, 1));
                }
                if has_tag(map, "Z9") {
                    let target = match map.get(&Reference::zk(9, 1)) {
                        Some(t) => t,
                        None => return Err(EvaluationErrorKind::MissingKey(Reference::zk(9, 1))),
                    };
                    let id = parse_zid_string(target)?;
                    match runner.get_persistent_object(&id) {
                        Ok(p) => T::parse(p.value),
                        Err(e) => Err(e.root_kind),
                    }
                } else {
                    T::parse(self.entry)
                }
            },
        }
    }

    /// The identifier that the place refers to.
    pub fn get_reference(&self) -> (r: Result<Zid, EvaluationErrorKind>)
        ensures
            r matches Ok(id) ==> t_reference(self.cell()@) == Ok::<Reference, Fault>(id),
            r matches Err(e) ==> t_reference(self.cell()@) == Err::<Reference, Fault>(e.fault()),
    {
        match self.entry {
            DataEntry::Array(_) => Err(EvaluationErrorKind::LowLevelNotAMap),
            DataEntry::String(text) => match Reference::from_zid(text.as_str()) {
                Ok(id) => Ok(id),
                Err(e) => Err(EvaluationErrorKind::ParseZID(e)),
            },
            DataEntry::IdMap(map) => {
                check_type(self.entry, Reference::zk(9, 0))?;
                proof {
                    crate::data_entry::lemma_lookup_view(map.spec_entries(), zid(9, 1));
                }
                match map.get(&Reference::zk(9, 1)) {
                    Some(t) => parse_zid_string(t),
                    None => Err(EvaluationErrorKind::MissingKey(Reference::zk(9, 1))),
                }
            },
        }
    }
}


/// `rest`, once the map term `t` is seen to hold key `k`.
pub open spec fn t_require(t: Term, k: Reference, rest: Result<(), Fault>) -> Result<(), Fault> {
    match t_get(t, k) {
        Err(f) => Err(f),
        Ok(_) => rest,
    }
}

impl DataEntry {
    /// The place at key `reference` of a map, which must be there.
    pub fn get_map_potential_reference<'l, T: WfParse<'l>>(&'l self, reference: &Zid) -> (r: Result<
        PotentialReference<'l, T>,
        EvaluationErrorKind,
    >)
        ensures
            r matches Ok(p) ==> t_get(self@, *reference) == Ok::<Term, Fault>(p.cell()@),
            r matches Err(e) ==> t_get(self@, *reference) == Err::<Term, Fault>(e.fault()),
    {
        let v = self.get_map_entry(reference)?;
        Ok(PotentialReference::new(v))
    }

    /// The place at key `reference` of a map, if the key is there.
    pub fn get_map_potential_reference_option<'l, T: WfParse<'l>>(
        &'l self,
        reference: &Zid,
    ) -> (r: Result<Option<PotentialReference<'l, T>>, EvaluationErrorKind>)
        ensures
            r matches Ok(Some(p)) ==> crate::data_entry::t_get_opt(self@, *reference) == Ok::<
                Option<Term>,
                Fault,
            >(Some(p.cell()@)),
            r matches Ok(None) ==> crate::data_entry::t_get_opt(self@, *reference) == Ok::<
                Option<Term>,
                Fault,
            >(None),
            r matches Err(e) ==> crate::data_entry::t_get_opt(self@, *reference) == Err::<
                Option<Term>,
                Fault,
            >(e.fault()),
    {
        if let Some(v) = self.get_map_entry_option(reference)? {
            Ok(Some(PotentialReference::new(v)))
        } else {
            Ok(None)
        }
    }
}

/// The term at key `k` of the map term `t` (when it is there).
pub open spec fn at(t: Term, k: Reference) -> Term {
    t_get(t, k)->Ok_0
}

/// The term of an optional place.
pub open spec fn opt_cell<'l, T: WfParse<'l>>(o: Option<PotentialReference<'l, T>>) -> Option<Term> {
    match o {
        Some(p) => Some(p.cell()@),
        None => None,
    }
}

/// The entries of a function call that are arguments: all but `Z1K1` and
/// `Z7K1`, in order.
pub open spec fn call_args(m: Seq<(Reference, Term)>) -> Seq<(Reference, Term)>
    decreases m.len(),
{
    if m.len() == 0 {
        Seq::empty()
    } else if m.last().0 == zid(1, 1) || m.last().0 == zid(7, 1) {
        call_args(m.drop_last())
    } else {
        call_args(m.drop_last()).push(m.last())
    }
}

pub open spec fn arg_terms<'a>(s: Seq<(Reference, &'a DataEntry)>) -> Seq<(Reference, Term)>
    decreases s.len(),
{
    if s.len() == 0 {
        Seq::empty()
    } else {
        arg_terms(s.drop_last()).push((s.last().0, s.last().1@))
    }
}

/// An implementation (`Z14`).
#[derive(Debug)]
pub struct WfImplementation<'l> {
    pub function: PotentialReference<'l, WfFunction<'l>>,
    pub composition: Option<PotentialReference<'l, WfUntyped<'l>>>,
    pub code: Option<PotentialReference<'l, WfUntyped<'l>>>,
    pub builtin: Option<PotentialReference<'l, WfUntyped<'l>>>,
}

impl<'l> WfParse<'l> for WfImplementation<'l> {
    open spec fn parse_result(entry: Term) -> Result<(), Fault> {
        t_require(entry, zid(14, 1), Ok(()))
    }

    open spec fn reads(&self, entry: Term) -> bool {
        &&& self.function.cell()@ == at(entry, zid(14, 1))
        &&& opt_cell(self.composition) == crate::data_entry::t_get_opt(entry, zid(14, 2))->Ok_0
        &&& opt_cell(self.code) == crate::data_entry::t_get_opt(entry, zid(14, 3))->Ok_0
        &&& opt_cell(self.builtin) == crate::data_entry::t_get_opt(entry, zid(14, 4))->Ok_0
    }

    fn parse(entry: &'l DataEntry) -> (r: Result<Self, EvaluationErrorKind>) {
        Ok(WfImplementation {
            function: entry.get_map_potential_reference(&Reference::zk(14, 1))?,
            composition: entry.get_map_potential_reference_option(&Reference::zk(14, 2))?,
            code: entry.get_map_potential_reference_option(&Reference::zk(14, 3))?,
            builtin: entry.get_map_potential_reference_option(&Reference::zk(14, 4))?,
        })
    }
}

/// A function (`Z8`).
#[derive(Debug)]
pub struct WfFunction<'l> {
    pub arguments: PotentialReference<'l, WfUntyped<'l>>,
    pub return_type: PotentialReference<'l, WfUntyped<'l>>,
    pub testers: PotentialReference<'l, WfUntyped<'l>>,
    pub implementations: PotentialReference<'l, WfUntyped<'l>>,
    /// The function itself, as a place (read it as a function with `WfFunction::parse`).
    pub identity: PotentialReference<'l, WfUntyped<'l>>,
}

impl<'l> WfParse<'l> for WfFunction<'l> {
    open spec fn parse_result(entry: Term) -> Result<(), Fault> {
        t_require(
            entry,
            zid(8, 1),
            t_require(
                entry,
                zid(8, 2),
                t_require(entry, zid(8, 3), t_require(entry, zid(8, 4), t_require(entry, zid(8, 5), Ok(())))),
            ),
        )
    }

    open spec fn reads(&self, entry: Term) -> bool {
        &&& self.arguments.cell()@ == at(entry, zid(8, 1))
        &&& self.return_type.cell()@ == at(entry, zid(8, 2))
        &&& self.testers.cell()@ == at(entry, zid(8, 3))
        &&& self.implementations.cell()@ == at(entry, zid(8, 4))
        &&& self.identity.cell()@ == at(entry, zid(8, 5))
    }

    fn parse(entry: &'l DataEntry) -> (r: Result<Self, EvaluationErrorKind>) {
        Ok(WfFunction {
            arguments: entry.get_map_potential_reference(&Reference::zk(8, 1))?,
            return_type: entry.get_map_potential_reference(&Reference::zk(8, 2))?,
            testers: entry.get_map_potential_reference(&Reference::zk(8, 3))?,
            implementations: entry.get_map_potential_reference(&Reference::zk(8, 4))?,
            identity: entry.get_map_potential_reference(&Reference::zk(8, 5))?,
        })
    }
}

/// A test case (`Z20`).
#[derive(Debug)]
pub struct WfTestCase<'l> {
    pub function: PotentialReference<'l, WfFunction<'l>>,
    pub call: PotentialReference<'l, WfFunctionCall<'l>>,
    pub result_validation: PotentialReference<'l, WfFunctionCall<'l>>,
}

impl<'l> WfParse<'l> for WfTestCase<'l> {
    open spec fn parse_result(entry: Term) -> Result<(), Fault> {
        t_require(entry, zid(20, 1), t_require(entry, zid(20, 2), t_require(entry, zid(20, 3), Ok(()))))
    }

    open spec fn reads(&self, entry: Term) -> bool {
        &&& self.function.cell()@ == at(entry, zid(20, 1))
        &&& self.call.cell()@ == at(entry, zid(20, 2))
        &&& self.result_validation.cell()@ == at(entry, zid(20, 3))
    }

    fn parse(entry: &'l DataEntry) -> (r: Result<Self, EvaluationErrorKind>) {
        Ok(WfTestCase {
            function: entry.get_map_potential_reference(&Reference::zk(20, 1))?,
            call: entry.get_map_potential_reference(&Reference::zk(20, 2))?,
            result_validation: entry.get_map_potential_reference(&Reference::zk(20, 3))?,
        })
    }
}

/// A function call (`Z7`): its function, and every other key of the map
/// (but the type tag) as an argument, in key order.
#[derive(Debug)]
pub struct WfFunctionCall<'l> {
    pub function: PotentialReference<'l, WfFunction<'l>>,
    pub args: Vec<(Zid, &'l DataEntry)>,
}

impl<'l> WfFunctionCall<'l> {
    /// The argument at `key`.
    pub fn get_arg(&self, key: &Zid) -> (r: Result<&'l DataEntry, EvaluationErrorKind>)
        ensures
            r matches Ok(v) ==> lookup(self.args@, *key) == Some(v),
            r matches Err(e) ==> lookup(self.args@, *key) is None && e
                == EvaluationErrorKind::MissingKey(*key),
    {
        proof {
            crate::data_entry::lemma_key_index_bounds(self.args@, *key);
        }
        let mut i = self.args.len();
        while i > 0
            invariant
                i <= self.args@.len(),
                crate::data_entry::key_index(self.args@, *key) < i,
            decreases i,
        {
            proof {
                crate::data_entry::lemma_key_index_step(self.args@, *key, i as int);
            }
            if self.args[i - 1].0 == *key {
                return Ok(self.args[i - 1].1);
            }
            i = i - 1;
        }
        Err(EvaluationErrorKind::MissingKey(*key))
    }
}

impl<'l> WfParse<'l> for WfFunctionCall<'l> {
    open spec fn parse_result(entry: Term) -> Result<(), Fault> {
        t_require(entry, zid(7, 1), Ok(()))
    }

    open spec fn reads(&self, entry: Term) -> bool {
        &&& self.function.cell()@ == at(entry, zid(7, 1))
        &&& arg_terms(self.args@) == call_args(entry->Dict_0)
    }

    fn parse(entry: &'l DataEntry) -> (r: Result<Self, EvaluationErrorKind>) {
        let function = entry.get_map_potential_reference(&Reference::zk(7, 1))?;
        let map = entry.get_map()?;
        proof {
            crate::data_entry::lemma_view_entries(map.spec_entries());
        }
        let ghost m = map@;
        let mut args: Vec<(Zid, &'l DataEntry)> = Vec::new();
        let mut i: usize = 0;
        while i < map.len()
            invariant
                i <= map.spec_entries().len(),
                m == map@,
                m.len() == map.spec_entries().len(),
                forall|j: int|
                    0 <= j < m.len() ==> #[trigger] m[j] == (
                        map.spec_entries()[j].0,
                        map.spec_entries()[j].1@,
                    ),
                arg_terms(args@) == call_args(m.subrange(0, i as int)),
            decreases map.spec_entries().len() - i,
        {
            let key = map.key_at(i);
            proof {
                assert(m.subrange(0, i + 1).drop_last() == m.subrange(0, i as int));
                assert(m.subrange(0, i + 1).last() == m[i as int]);
            }
            if key != Reference::zk(1, 1) && key != Reference::zk(7, 1) {
                let ghost before = args@;
                args.push((key, map.value_at(i)));
                proof {
                    assert(args@.drop_last() == before);
                }
            }
            i = i + 1;
        }
        proof {
            assert(m.subrange(0, i as int) == m);
        }
        Ok(WfFunctionCall { function, args })
    }
}

/// A type (`Z4`).
#[derive(Debug)]
pub struct WfType<'l> {
    /// The type itself, as a place (read it as a type with `WfType::parse`).
    pub identity: PotentialReference<'l, WfUntyped<'l>>,
    pub keys: PotentialReference<'l, WfUntyped<'l>>,
    pub validator: PotentialReference<'l, WfFunction<'l>>,
    pub equality: PotentialReference<'l, WfFunction<'l>>,
    pub display_function: PotentialReference<'l, WfFunction<'l>>,
    pub reading_function: PotentialReference<'l, WfFunction<'l>>,
    pub type_converters_to_code: PotentialReference<'l, WfUntyped<'l>>,
    pub type_converters_from_code: PotentialReference<'l, WfUntyped<'l>>,
}

impl<'l> WfParse<'l> for WfType<'l> {
    open spec fn parse_result(entry: Term) -> Result<(), Fault> {
        t_require(
            entry,
            zid(4, 1),
            t_require(
                entry,
                zid(4, 2),
                t_require(
                    entry,
                    zid(4, 3),
                    t_require(
                        entry,
                        zid(4, 4),
                        t_require(
                            entry,
                            zid(4, 5),
                            t_require(entry, zid(4, 6), t_require(entry, zid(4, 7), t_require(entry, zid(4, 8), Ok(())))),
                        ),
                    ),
                ),
            ),
        )
    }

    open spec fn reads(&self, entry: Term) -> bool {
        &&& self.identity.cell()@ == at(entry, zid(4, 1))
        &&& self.keys.cell()@ == at(entry, zid(4, 2))
        &&& self.validator.cell()@ == at(entry, zid(4, 3))
        &&& self.equality.cell()@ == at(entry, zid(4, 4))
        &&& self.display_function.cell()@ == at(entry, zid(4, 5))
        &&& self.reading_function.cell()@ == at(entry, zid(4, 6))
        &&& self.type_converters_to_code.cell()@ == at(entry, zid(4, 7))
        &&& self.type_converters_from_code.cell()@ == at(entry, zid(4, 8))
    }

    fn parse(entry: &'l DataEntry) -> (r: Result<Self, EvaluationErrorKind>) {
        Ok(WfType {
            identity: entry.get_map_potential_reference(&Reference::zk(4, 1))?,
            keys: entry.get_map_potential_reference(&Reference::zk(4, 2))?,
            validator: entry.get_map_potential_reference(&Reference::zk(4, 3))?,
            equality: entry.get_map_potential_reference(&Reference::zk(4, 4))?,
            display_function: entry.get_map_potential_reference(&Reference::zk(4, 5))?,
            reading_function: entry.get_map_potential_reference(&Reference::zk(4, 6))?,
            type_converters_to_code: entry.get_map_potential_reference(&Reference::zk(4, 7))?,
            type_converters_from_code: entry.get_map_potential_reference(&Reference::zk(4, 8))?,
        })
    }
}

/// A key (`Z3`).
#[derive(Debug)]
pub struct WfKey<'l> {
    pub value_type: PotentialReference<'l, WfType<'l>>,
    pub key_id: &'l str,
    pub label: PotentialReference<'l, WfUntyped<'l>>,
    pub is_identity: PotentialReference<'l, WfUntyped<'l>>,
}

impl<'l> WfParse<'l> for WfKey<'l> {
    open spec fn parse_result(entry: Term) -> Result<(), Fault> {
        t_require(
            entry,
            zid(3, 1),
            match t_get(entry, zid(3, 2)) {
                Err(f) => Err(f),
                Ok(v) => match t_string_permissive(v) {
                    Err(f) => Err(f),
                    Ok(_) => t_require(entry, zid(3, 3), t_require(entry, zid(3, 4), Ok(()))),
                },
            },
        )
    }

    open spec fn reads(&self, entry: Term) -> bool {
        &&& self.value_type.cell()@ == at(entry, zid(3, 1))
        &&& self.key_id@ == t_string_permissive(at(entry, zid(3, 2)))->Ok_0
        &&& self.label.cell()@ == at(entry, zid(3, 3))
        &&& self.is_identity.cell()@ == at(entry, zid(3, 4))
    }

    fn parse(entry: &'l DataEntry) -> (r: Result<Self, EvaluationErrorKind>) {
        let value_type = entry.get_map_potential_reference(&Reference::zk(3, 1))?;
        let key_id = parse_string_permissive(entry.get_map_entry(&Reference::zk(3, 2))?)?;
        Ok(WfKey {
            value_type,
            key_id,
            label: entry.get_map_potential_reference(&Reference::zk(3, 3))?,
            is_identity: entry.get_map_potential_reference(&Reference::zk(3, 4))?,
        })
    }
}

impl<'l, T> WfTypedList<'l, T> {
    /// The elements.
    pub closed spec fn items(&self) -> Seq<T> {
        self.elements@
    }
}

/// Each element, in order, read as `T`; the first failure stops.
pub open spec fn items_parse<'l, T: WfParse<'l>>(l: Seq<Term>) -> Result<(), Fault>
    decreases l.len(),
{
    if l.len() == 0 {
        Ok(())
    } else {
        match items_parse::<T>(l.drop_last()) {
            Err(f) => Err(f),
            Ok(_) => T::parse_result(l.last()),
        }
    }
}

/// An array whose elements are all read as `T`.
#[derive(Debug)]
pub struct WfTypedList<'l, T> {
    pub elements: Vec<T>,
    phantom: PhantomData<WfFunction<'l>>,
}

impl<'l, T: WfParse<'l>> WfParse<'l> for WfTypedList<'l, T> {
    open spec fn parse_result(entry: Term) -> Result<(), Fault> {
        match crate::data_entry::t_arr(entry) {
            Err(f) => Err(f),
            Ok(l) => items_parse::<T>(l),
        }
    }

    open spec fn reads(&self, entry: Term) -> bool {
        &&& self.items().len() == entry->List_0.len()
        &&& forall|i: int| 0 <= i < self.items().len() ==> (#[trigger] self.items()[i]).reads(entry->List_0[i])
    }

    fn parse(entry: &'l DataEntry) -> (r: Result<Self, EvaluationErrorKind>) {
        let array = entry.get_array()?;
        proof {
            crate::data_entry::lemma_view_items(array@);
        }
        let ghost l = entry@->List_0;
        let mut elements: Vec<T> = Vec::new();
        let mut i: usize = 0;
        while i < array.len()
            invariant
                *entry == DataEntry::Array(*array),
                l == entry@->List_0,
                l.len() == array@.len(),
                forall|j: int| 0 <= j < l.len() ==> #[trigger] l[j] == array@[j]@,
                i <= array@.len(),
                items_parse::<T>(l.subrange(0, i as int)) is Ok,
                elements@.len() == i,
                forall|j: int| 0 <= j < i ==> (#[trigger] elements@[j]).reads(l[j]),
            decreases array@.len() - i,
        {
            proof {
                assert(l.subrange(0, i + 1).drop_last() == l.subrange(0, i as int));
                assert(l.subrange(0, i + 1).last() == l[i as int]);
            }
            match T::parse(&array[i]) {
                Ok(v) => elements.push(v),
                Err(e) => {
                    proof {
                        lemma_items_parse_err::<T>(l, i + 1);
                    }
                    return Err(e.trace_str("inside a typed list"));
                },
            }
            i = i + 1;
        }
        proof {
            assert(l.subrange(0, i as int) == l);
        }
        Ok(WfTypedList { elements, phantom: PhantomData })
    }
}

proof fn lemma_items_parse_err<'l, T: WfParse<'l>>(l: Seq<Term>, j: int)
    requires
        0 <= j <= l.len(),
        items_parse::<T>(l.subrange(0, j)) is Err,
    ensures
        items_parse::<T>(l) == items_parse::<T>(l.subrange(0, j)),
    decreases l.len() - j,
{
    if j < l.len() {
        assert(l.subrange(0, j + 1).drop_last() == l.subrange(0, j));
        lemma_items_parse_err::<T>(l, j + 1);
    } else {
        assert(l.subrange(0, j) == l);
    }
}

/// A value that is either owned or borrowed.
#[derive(Debug)]
pub enum MaybeOwned<'l, T> {
    Owned(T),
    Referenced(&'l T),
}

impl<'l, T> MaybeOwned<'l, T> {
    pub fn from_owned(owned: T) -> (r: Self)
        ensures
            r == MaybeOwned::<'l, T>::Owned(owned),
    {
        MaybeOwned::Owned(owned)
    }

    pub fn from_reference(reference: &'l T) -> (r: Self)
        ensures
            r == MaybeOwned::<'l, T>::Referenced(reference),
    {
        MaybeOwned::Referenced(reference)
    }

    /// The value, owned or borrowed.
    pub fn get(&self) -> (r: &T)
        ensures
            match self {
                MaybeOwned::Owned(o) => *r == *o,
                MaybeOwned::Referenced(b) => *r == **b,
            },
    {
        match self {
            MaybeOwned::Owned(o) => o,
            MaybeOwned::Referenced(r) => r,
        }
    }
}

} // verus!
