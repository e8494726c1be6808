use std::sync::Arc;

use vstd::prelude::*;

use crate::composition_tool::{has_tag, is_tagged, recurse_and_replace_placeholder, subst};
use crate::data_entry::{
    lemma_array_item_decreases, lemma_lookup_view, lemma_map_value_decreases, lemma_view_entries,
    lemma_view_items, lookup, t_arr, t_get, t_map, view_items, DataEntry, IdMap, Term,
};
use crate::evaluation_error::{outcome, EvaluationError, EvaluationErrorKind, Fault, TraceInfo};
use crate::global_datas::GlobalDatas;
use crate::parse_tool::{
    parse_boolean, parse_zid_string, str_eq, t_boolean, t_persistent, t_zid, WfParse,
    WfPersistentObject,
};
use crate::reference::{group_reference, zid, Reference, Zid};

verus! {

broadcast use group_reference;

/// How deep function calls may nest unless the runner is told otherwise.
/// Evaluation is a recursion over terms and calls; past this depth it stops
/// with `Unimplemented("evaluation depth limit reached")` instead of
/// exhausting the native stack.
pub const DEFAULT_MAX_DEPTH: u64 = 256;

/// Where a term under evaluation came from; read only to explain errors.
#[derive(Debug)]
pub enum Provenance {
    /// The root of the store entry with this identifier.
    Persistant(Zid),
    /// A place inside another one, reached through these keys.
    FromOther(Box<Provenance>, Vec<Zid>),
    /// Made during the evaluation.
    Runtime,
}

impl Provenance {
    /// A copy of this provenance.
    pub fn duplicate(&self) -> (r: Provenance)
        decreases self,
    {
        match self {
            Provenance::Persistant(id) => Provenance::Persistant(*id),
            Provenance::FromOther(parent, path) => Provenance::FromOther(
                Box::new(parent.duplicate()),
                path.clone(),
            ),
            Provenance::Runtime => Provenance::Runtime,
        }
    }

    /// This place, extended by the keys of `path`.
    pub fn to_other(&self, path: Vec<Zid>) -> (r: Provenance)
        ensures
            r matches Provenance::FromOther(_, p) && p == path,
    {
        Provenance::FromOther(Box::new(self.duplicate()), path)
    }
}

/// Options of an evaluation.
#[derive(Debug)]
pub struct RunnerOption {
    /// Functions (first) whose calls must use the given implementation
    /// (second); a later pair for the same function wins.
    pub force_use_impl: Option<Vec<(Zid, Zid)>>,
}

/// The forced implementation of function `f`, if any.
pub open spec fn forced(o: Option<Seq<(Reference, Reference)>>, f: Reference) -> Option<Reference> {
    match o {
        Some(v) => lookup(v, f),
        None => None,
    }
}

impl RunnerOption {
    pub open spec fn view(&self) -> Option<Seq<(Reference, Reference)>> {
        match self.force_use_impl {
            Some(v) => Some(v@),
            None => None,
        }
    }

    /// The implementation that calls of `function` must use, if any.
    pub fn forced_implementation(&self, function: &Zid) -> (r: Option<Zid>)
        ensures
            r == forced(self@, *function),
    {
        match &self.force_use_impl {
            None => None,
            Some(v) => {
                proof {
                    crate::data_entry::lemma_key_index_bounds(v@, *function);
                }
                let mut i = v.len();
                while i > 0
                    invariant
                        self@ == Some(v@),
                        i <= v@.len(),
                        crate::data_entry::key_index(v@, *function) < i,
                    decreases i,
                {
                    proof {
                        crate::data_entry::lemma_key_index_step(v@, *function, i as int);
                    }
                    if v[i - 1].0 == *function {
                        return Some(v[i - 1].1);
                    }
                    i = i - 1;
                }
                None
            },
        }
    }
}

impl Default for RunnerOption {
    fn default() -> (r: Self)
        ensures
            r.force_use_impl is None,
    {
        RunnerOption { force_use_impl: None }
    }
}

/// The message of the error met when calls nest deeper than allowed.
pub open spec fn depth_message() -> Seq<char> {
    "evaluation depth limit reached"@
}

/// The identifier and payload of the persistent object stored under `id`.
pub open spec fn s_object(s: GlobalDatas, id: Reference) -> Result<(Reference, Term), Fault> {
    match s.spec_get(id) {
        None => Err(Fault::MissingKey(id)),
        Some(e) => t_persistent(e@),
    }
}

/// The payload of the boolean `b` (`Z41` or `Z42`) of the store.
pub open spec fn s_boolean(s: GlobalDatas, b: bool) -> Result<Term, Fault> {
    match s_object(s, if b { zid(41, 0) } else { zid(42, 0) }) {
        Err(f) => Err(f),
        Ok(obj) => Ok(obj.1),
    }
}

/// The implementation of the function `fobj` that runs: the forced one, or
/// else the first of its list (after the list's type) that is a composition
/// or a built-in.
pub open spec fn select_impl(
    s: GlobalDatas,
    o: Option<Seq<(Reference, Reference)>>,
    fobj: (Reference, Term),
) -> Result<(Reference, Term), Fault> {
    match forced(o, fobj.0) {
        Some(iid) => s_object(s, iid),
        None => match t_get(fobj.1, zid(8, 4)) {
            Err(f) => Err(f),
            Ok(lt) => match t_arr(lt) {
                Err(f) => Err(f),
                Ok(l) => select_from(s, fobj.0, l, 1),
            },
        },
    }
}

pub open spec fn no_runnable_message(fid: Reference) -> Seq<char> {
    "no runnable implementation for "@ + fid.spec_text()
}

/// Runnable: a composition (`Z14K2`) or a built-in (`Z14K4`).
pub open spec fn runnable(m: Seq<(Reference, Term)>) -> bool {
    lookup(m, zid(14, 2)) is Some || lookup(m, zid(14, 4)) is Some
}

pub open spec fn select_from(s: GlobalDatas, fid: Reference, l: Seq<Term>, i: int) -> Result<
    (Reference, Term),
    Fault,
>
    decreases l.len() - i,
{
    if i < 0 || i >= l.len() {
        Err(Fault::Unimplemented(no_runnable_message(fid)))
    } else {
        match t_zid(l[i]) {
            Err(f) => Err(f),
            Ok(iid) => match s_object(s, iid) {
                Err(f) => Err(f),
                Ok(obj) => match t_map(obj.1) {
                    Err(f) => Err(f),
                    Ok(m) => if runnable(m) {
                        Ok(obj)
                    } else {
                        select_from(s, fid, l, i + 1)
                    },
                },
            },
        }
    }
}

/// The result of the function call `call`, with `fuel` levels of calls left.
pub open spec fn eval_call(
    s: GlobalDatas,
    o: Option<Seq<(Reference, Reference)>>,
    call: Term,
    fuel: nat,
) -> Result<Term, Fault>
    decreases fuel, 0nat, Term::Text(Seq::<char>::empty()),
{
    if fuel == 0 {
        Err(Fault::Unimplemented(depth_message()))
    } else {
        match t_get(call, zid(7, 1)) {
            Err(f) => Err(f),
            Ok(ft) => match t_zid(ft) {
                Err(f) => Err(f),
                Ok(fid) => match s_object(s, fid) {
                    Err(f) => Err(f),
                    Ok(fobj) => match select_impl(s, o, fobj) {
                        Err(f) => Err(f),
                        Ok(iobj) => eval_impl(s, o, iobj.1, call, (fuel - 1) as nat),
                    },
                },
            },
        }
    }
}

pub open spec fn no_implementation_message() -> Seq<char> {
    "implementation without composition or built-in"@
}

/// The result of running implementation `imp` on `call`.
pub open spec fn eval_impl(
    s: GlobalDatas,
    o: Option<Seq<(Reference, Reference)>>,
    imp: Term,
    call: Term,
    fuel: nat,
) -> Result<Term, Fault>
    decreases fuel, 5nat, Term::Text(Seq::<char>::empty()),
{
    match t_map(imp) {
        Err(f) => Err(f),
        Ok(m) => match lookup(m, zid(14, 2)) {
            Some(comp) => eval_comp(s, o, comp, call, fuel),
            None => match lookup(m, zid(14, 4)) {
                Some(b) => eval_builtin(s, o, b, call, fuel),
                None => Err(Fault::Unimplemented(no_implementation_message())),
            },
        },
    }
}

/// The result of the composition `body` on `call`: the body with the call's
/// arguments put in, then walked.
pub open spec fn eval_comp(
    s: GlobalDatas,
    o: Option<Seq<(Reference, Reference)>>,
    body: Term,
    call: Term,
    fuel: nat,
) -> Result<Term, Fault>
    decreases fuel, 4nat, Term::Text(Seq::<char>::empty()),
{
    match call {
        Term::Dict(c) => match subst(body, c) {
            Err(f) => Err(f),
            Ok(t) => walk(s, o, t, fuel),
        },
        _ => Err(Fault::NotAMap),
    }
}

/// `t` with every function call (a map tagged `Z7`) replaced by its result;
/// maps are walked in key order, arrays in index order.
pub open spec fn walk(
    s: GlobalDatas,
    o: Option<Seq<(Reference, Reference)>>,
    t: Term,
    fuel: nat,
) -> Result<Term, Fault>
    decreases fuel, 1nat, t,
{
    match t {
        Term::Text(x) => Ok(Term::Text(x)),
        Term::Dict(m) => if is_tagged(m, "Z7"@) {
            eval_call(s, o, t, fuel)
        } else {
            match walk_entries(s, o, m, fuel) {
                Err(f) => Err(f),
                Ok(m2) => Ok(Term::Dict(m2)),
            }
        },
        Term::List(l) => match walk_items(s, o, l, fuel) {
            Err(f) => Err(f),
            Ok(l2) => Ok(Term::List(l2)),
        },
    }
}

pub open spec fn walk_entries(
    s: GlobalDatas,
    o: Option<Seq<(Reference, Reference)>>,
    m: Seq<(Reference, Term)>,
    fuel: nat,
) -> Result<Seq<(Reference, Term)>, Fault>
    decreases fuel, 1nat, m,
{
    if m.len() == 0 {
        Ok(Seq::empty())
    } else {
        match walk_entries(s, o, m.drop_last(), fuel) {
            Err(f) => Err(f),
            Ok(p) => match walk(s, o, m.last().1, fuel) {
                Err(f) => Err(f),
                Ok(v) => Ok(p.push((m.last().0, v))),
            },
        }
    }
}

pub open spec fn walk_items(
    s: GlobalDatas,
    o: Option<Seq<(Reference, Reference)>>,
    l: Seq<Term>,
    fuel: nat,
) -> Result<Seq<Term>, Fault>
    decreases fuel, 1nat, l,
{
    if l.len() == 0 {
        Ok(Seq::empty())
    } else {
        match walk_items(s, o, l.drop_last(), fuel) {
            Err(f) => Err(f),
            Ok(p) => match walk(s, o, l.last(), fuel) {
                Err(f) => Err(f),
                Ok(v) => Ok(p.push(v)),
            },
        }
    }
}

pub open spec fn builtin_message(id: Seq<char>) -> Seq<char> {
    "built-in "@ + id
}

/// Runs implementation `id` of the store in place of a built-in.
pub open spec fn eval_rerouted(
    s: GlobalDatas,
    o: Option<Seq<(Reference, Reference)>>,
    id: Reference,
    call: Term,
    fuel: nat,
) -> Result<Term, Fault>
    decreases fuel, 3nat, Term::Text(Seq::<char>::empty()),
{
    if fuel == 0 {
        Err(Fault::Unimplemented(depth_message()))
    } else {
        match s_object(s, id) {
            Err(f) => Err(f),
            Ok(obj) => eval_impl(s, o, obj.1, call, (fuel - 1) as nat),
        }
    }
}

/// The boolean that the argument `key` of `call` walks to.
pub open spec fn eval_bool_arg(
    s: GlobalDatas,
    o: Option<Seq<(Reference, Reference)>>,
    call: Term,
    key: Reference,
    fuel: nat,
) -> Result<bool, Fault>
    decreases fuel, 2nat, Term::Text(Seq::<char>::empty()),
{
    match t_get(call, key) {
        Err(f) => Err(f),
        Ok(a) => match walk(s, o, a, fuel) {
            Err(f) => Err(f),
            Ok(v) => t_boolean(v),
        },
    }
}

/// If (`Z902`): the argument `Z802K2` when `Z802K1` walks to true, else
/// `Z802K3`, walked.
pub open spec fn eval_if(
    s: GlobalDatas,
    o: Option<Seq<(Reference, Reference)>>,
    call: Term,
    fuel: nat,
) -> Result<Term, Fault>
    decreases fuel, 3nat, Term::Text(Seq::<char>::empty()),
{
    match eval_bool_arg(s, o, call, zid(802, 1), fuel) {
        Err(f) => Err(f),
        Ok(c) => match t_get(call, if c { zid(802, 2) } else { zid(802, 3) }) {
            Err(f) => Err(f),
            Ok(branch) => walk(s, o, branch, fuel),
        },
    }
}

/// Is-empty (`Z913`): whether the typed list `Z813K1` walks to has no
/// element besides its type.
pub open spec fn eval_is_empty(
    s: GlobalDatas,
    o: Option<Seq<(Reference, Reference)>>,
    call: Term,
    fuel: nat,
) -> Result<Term, Fault>
    decreases fuel, 3nat, Term::Text(Seq::<char>::empty()),
{
    match t_get(call, zid(813, 1)) {
        Err(f) => Err(f),
        Ok(a) => match walk(s, o, a, fuel) {
            Err(f) => Err(f),
            Ok(list) => match t_arr(list) {
                Err(f) => Err(f),
                Ok(items) => s_boolean(s, items.len() <= 1),
            },
        },
    }
}

/// Boolean equality (`Z944`) of the arguments `Z844K1` and `Z844K2`.
pub open spec fn eval_bool_eq(
    s: GlobalDatas,
    o: Option<Seq<(Reference, Reference)>>,
    call: Term,
    fuel: nat,
) -> Result<Term, Fault>
    decreases fuel, 3nat, Term::Text(Seq::<char>::empty()),
{
    match eval_bool_arg(s, o, call, zid(844, 1), fuel) {
        Err(f) => Err(f),
        Ok(b1) => match eval_bool_arg(s, o, call, zid(844, 2), fuel) {
            Err(f) => Err(f),
            Ok(b2) => s_boolean(s, b1 == b2),
        },
    }
}

/// The result of the built-in named by the string object `b` on `call`.
pub open spec fn eval_builtin(
    s: GlobalDatas,
    o: Option<Seq<(Reference, Reference)>>,
    b: Term,
    call: Term,
    fuel: nat,
) -> Result<Term, Fault>
    decreases fuel, 4nat, Term::Text(Seq::<char>::empty()),
{
    match t_get(b, zid(6, 1)) {
        Err(f) => Err(f),
        Ok(idt) => match crate::data_entry::t_str(idt) {
            Err(f) => Err(f),
            Ok(id) => if id == "Z966"@ {
                eval_rerouted(s, o, zid(17569, 0), call, fuel)
            } else if id == "Z989"@ {
                eval_rerouted(s, o, zid(15872, 0), call, fuel)
            } else if id == "Z902"@ {
                eval_if(s, o, call, fuel)
            } else if id == "Z913"@ {
                eval_is_empty(s, o, call, fuel)
            } else if id == "Z944"@ {
                eval_bool_eq(s, o, call, fuel)
            } else {
                Err(Fault::Unimplemented(builtin_message(id)))
            },
        },
    }
}


/// The validation call with the result under test put in as the argument
/// `Z<n>K1` of its function `Z<n>`.
pub open spec fn validation_call(val: Seq<(Reference, Term)>, vfid: Reference, actual: Term) -> Term {
    Term::Dict(crate::data_entry::entries_insert(val, zid(vfid.z_part(), 1), actual))
}

/// Runs the validation `Z20K3` of the test case `tc` on the result `actual`.
pub open spec fn eval_validation(s: GlobalDatas, tc: Term, actual: Term, fuel: nat) -> Result<
    (),
    Fault,
> {
    match t_get(tc, zid(20, 3)) {
        Err(f) => Err(f),
        Ok(val) => match t_get(val, zid(7, 1)) {
            Err(f) => Err(f),
            Ok(vf) => match t_zid(vf) {
                Err(f) => Err(f),
                Ok(vfid) => match eval_call(s, None, validation_call(val->Dict_0, vfid, actual), fuel) {
                    Err(f) => Err(f),
                    Ok(res) => match t_boolean(res) {
                        Err(f) => Err(f),
                        Ok(b) => if b {
                            Ok(())
                        } else {
                            Err(Fault::TestSuiteFailed(actual))
                        },
                    },
                },
            },
        },
    }
}

/// The options that pin function `fid` to implementation `iid`.
pub open spec fn pinned(fid: Reference, iid: Reference) -> Option<Seq<(Reference, Reference)>> {
    Some(seq![(fid, iid)])
}

/// The result, under test, of the call `Z20K2` of the test case `tc` with the
/// implementation `imp` forced for its function.
pub open spec fn eval_tested(s: GlobalDatas, tc: Term, imp: (Reference, Term), fuel: nat) -> Result<
    Term,
    Fault,
> {
    match t_get(imp.1, zid(14, 1)) {
        Err(f) => Err(f),
        Ok(ft) => match t_zid(ft) {
            Err(f) => Err(f),
            Ok(fid) => match t_get(tc, zid(20, 2)) {
                Err(f) => Err(f),
                Ok(call) => eval_call(s, pinned(fid, imp.0), call, fuel),
            },
        },
    }
}

/// Runs the test case `tc` against the implementation `imp`.
pub open spec fn eval_test(s: GlobalDatas, tc: Term, imp: (Reference, Term), fuel: nat) -> Result<
    (),
    Fault,
> {
    match eval_tested(s, tc, imp, fuel) {
        Err(f) => Err(f),
        Ok(actual) => match eval_validation(s, tc, actual, fuel) {
            Ok(_) => Ok(()),
            Err(f) => Err(Fault::TestResultInfo(actual, Box::new(f))),
        },
    }
}

/// Moves an error kind into an error with no frames.
fn lift<T>(r: Result<T, EvaluationErrorKind>) -> (out: Result<T, EvaluationError>)
    ensures
        r matches Ok(v) ==> out == Ok::<T, EvaluationError>(v),
        r matches Err(k) ==> out matches Err(e) && e.root_kind == k,
{
    match r {
        Ok(v) => Ok(v),
        Err(k) => Err(EvaluationError::new(k)),
    }
}

/// The error met when calls nest deeper than allowed.
fn depth_error() -> (e: EvaluationError)
    ensures
        e.fault() == Fault::Unimplemented(depth_message()),
{
    EvaluationError::new(
        EvaluationErrorKind::Unimplemented(String::from_str("evaluation depth limit reached")),
    )
}

/// Evaluates function calls against a read-only object store. Each call
/// uses up one level of the runner's depth; built-ins that stand in for an
/// implementation of the store count as a call.
pub struct Runner {
    datas: Arc<GlobalDatas>,
    max_depth: u64,
}

impl Runner {
    /// The object store.
    pub closed spec fn store(&self) -> GlobalDatas {
        *self.datas
    }

    /// How deep calls may nest.
    pub closed spec fn depth(&self) -> nat {
        self.max_depth as nat
    }

    /// A runner on the store `datas` on which function calls may nest
    /// `DEFAULT_MAX_DEPTH` (256) deep; a deeper evaluation fails with
    /// `Unimplemented("evaluation depth limit reached")`. Use
    /// `with_max_depth` for another limit.
    pub fn new(datas: Arc<GlobalDatas>) -> (r: Self)
        ensures
            r.store() == *datas,
            r.depth() == DEFAULT_MAX_DEPTH,
    {
        Runner { datas, max_depth: DEFAULT_MAX_DEPTH }
    }

    /// A runner on which calls may nest `max_depth` deep.
    pub fn with_max_depth(datas: Arc<GlobalDatas>, max_depth: u64) -> (r: Self)
        ensures
            r.store() == *datas,
            r.depth() == max_depth,
    {
        Runner { datas, max_depth }
    }

    fn get_entry_for_reference(&self, reference: &Zid) -> (r: Result<&DataEntry, EvaluationError>)
        ensures
            r matches Ok(v) ==> self.store().spec_get(*reference) == Some(*v)
                && crate::global_datas::identity_kept(*reference, *v),
            r matches Err(e) ==> self.store().spec_get(*reference) is None && e.fault()
                == Fault::MissingKey(*reference),
    {
        match self.datas.get(reference) {
            Some(v) => Ok(v),
            None => Err(EvaluationError::new(EvaluationErrorKind::MissingKey(*reference))),
        }
    }

    /// The persistent object stored under `reference`; its own identifier is
    /// `reference`.
    pub fn get_persistent_object(&self, reference: &Zid) -> (r: Result<
        WfPersistentObject<'_>,
        EvaluationError,
    >)
        ensures
            r matches Ok(p) ==> s_object(self.store(), *reference) == Ok::<(Reference, Term), Fault>(
                (p.id, p.value@),
            ) && p.id == *reference,
            r matches Err(e) ==> s_object(self.store(), *reference) == Err::<(Reference, Term), Fault>(
                e.fault(),
            ),
    {
        let entry = self.get_entry_for_reference(reference)?;
        match WfPersistentObject::parse(entry) {
            Ok(p) => Ok(p),
            Err(e) => Err(EvaluationError::new(e).add_frame_constructor(TraceInfo::Reference(*reference))),
        }
    }

    pub fn get_true(&self) -> (r: Result<&DataEntry, EvaluationError>)
        ensures
            r matches Ok(v) ==> s_boolean(self.store(), true) == Ok::<Term, Fault>(v@),
            r matches Err(e) ==> s_boolean(self.store(), true) == Err::<Term, Fault>(e.fault()),
    {
        Ok(self.get_persistent_object(&Reference::zk(41, 0))?.value)
    }

    pub fn get_false(&self) -> (r: Result<&DataEntry, EvaluationError>)
        ensures
            r matches Ok(v) ==> s_boolean(self.store(), false) == Ok::<Term, Fault>(v@),
            r matches Err(e) ==> s_boolean(self.store(), false) == Err::<Term, Fault>(e.fault()),
    {
        Ok(self.get_persistent_object(&Reference::zk(42, 0))?.value)
    }

    /// The payload of the store's boolean `b`.
    pub fn get_bool(&self, b: bool) -> (r: Result<&DataEntry, EvaluationError>)
        ensures
            r matches Ok(v) ==> s_boolean(self.store(), b) == Ok::<Term, Fault>(v@),
            r matches Err(e) ==> s_boolean(self.store(), b) == Err::<Term, Fault>(e.fault()),
    {
        if b {
            self.get_true()
        } else {
            self.get_false()
        }
    }

    /// The implementation that runs for the function `function_persistent`.
    pub fn get_preferred_implementation(
        &self,
        function_persistent: WfPersistentObject,
        option: &RunnerOption,
    ) -> (r: Result<WfPersistentObject<'_>, EvaluationError>)
        ensures
            r matches Ok(p) ==> select_impl(
                self.store(),
                option@,
                (function_persistent.id, function_persistent.value@),
            ) == Ok::<(Reference, Term), Fault>((p.id, p.value@)),
            r matches Err(e) ==> select_impl(
                self.store(),
                option@,
                (function_persistent.id, function_persistent.value@),
            ) == Err::<(Reference, Term), Fault>(e.fault()),
    {
        let fid = function_persistent.id;
        if let Some(implementation_id) = option.forced_implementation(&fid) {
            return match self.get_persistent_object(&implementation_id) {
                Ok(p) => Ok(p),
                Err(e) => Err(e.add_frame_constructor(TraceInfo::InsideInput(String::from_str("forced implementation")))),
            };
        }
        let implementations_raw = lift(function_persistent.value.get_map_entry(&Reference::zk(8, 4)))?;
        let implementations = lift(implementations_raw.get_array())?;
        let ghost l = view_items(implementations@);
        proof {
            lemma_view_items(implementations@);
        }
        let mut i: usize = 1;
        while i < implementations.len()
            invariant
                1 <= i,
                fid == function_persistent.id,
                l == view_items(implementations@),
                l.len() == implementations@.len(),
                forall|j: int| 0 <= j < l.len() ==> #[trigger] l[j] == implementations@[j]@,
                select_impl(self.store(), option@, (fid, function_persistent.value@)) == select_from(
                    self.store(),
                    fid,
                    l,
                    i as int,
                ),
            decreases implementations@.len() - i,
        {
            proof {
                assert(l[i as int] == implementations@[i as int]@);
            }
            let key = match parse_zid_string(&implementations[i]) {
                Ok(k) => k,
                Err(e) => {
                    proof {
                        assert(t_zid(l[i as int]) == Err::<Reference, Fault>(e.fault()));
                        assert(select_from(self.store(), fid, l, i as int) == Err::<(Reference, Term), Fault>(e.fault()));
                    }
                    return Err(EvaluationError::new(e).add_frame_constructor(TraceInfo::InsideArray(i)));
                },
            };
            let candidate = match self.get_persistent_object(&key) {
                Ok(p) => p,
                Err(e) => return Err(e.add_frame_constructor(TraceInfo::InsideArray(i))),
            };
            let implementation_map = lift(candidate.value.get_map())?;
            proof {
                lemma_lookup_view(implementation_map.spec_entries(), zid(14, 2));
                lemma_lookup_view(implementation_map.spec_entries(), zid(14, 4));
            }
            if implementation_map.get(&Reference::zk(14, 2)).is_some()
                || implementation_map.get(&Reference::zk(14, 4)).is_some() {
                return Ok(candidate);
            }
            i = i + 1;
        }
        let mut message = String::from_str("no runnable implementation for ");
        let id_text = fid.to_zid();
        message.append(id_text.as_str());
        Err(EvaluationError::new(EvaluationErrorKind::Unimplemented(message)))
    }
}


impl Runner {
    fn call_at(&self, function_call: &DataEntry, option: &RunnerOption, fuel: u64) -> (r: Result<
        DataEntry,
        EvaluationError,
    >)
        ensures
            outcome(r) == eval_call(self.store(), option@, function_call@, fuel as nat),
        decreases fuel, 0nat, *function_call,
    {
        if fuel == 0 {
            return Err(depth_error());
        }
        let target = lift(function_call.get_map_entry(&Reference::zk(7, 1)))?;
        let function_id = lift(parse_zid_string(target))?;
        let function_persistent = self.get_persistent_object(&function_id)?;
        let implementation = self.get_preferred_implementation(function_persistent, option)?;
        let implementation_id = implementation.id;
        match self.impl_at(implementation.value, function_call, option, fuel - 1) {
            Ok(v) => Ok(v),
            Err(e) => Err(e.add_frame_constructor(TraceInfo::Reference(implementation_id))),
        }
    }

    fn impl_at(
        &self,
        implementation: &DataEntry,
        function_call: &DataEntry,
        option: &RunnerOption,
        fuel: u64,
    ) -> (r: Result<DataEntry, EvaluationError>)
        ensures
            outcome(r) == eval_impl(self.store(), option@, implementation@, function_call@, fuel as nat),
        decreases fuel, 5nat, *function_call,
    {
        let impl_map = lift(implementation.get_map())?;
        proof {
            lemma_lookup_view(impl_map.spec_entries(), zid(14, 2));
            lemma_lookup_view(impl_map.spec_entries(), zid(14, 4));
        }
        if let Some(composition) = impl_map.get(&Reference::zk(14, 2)) {
            return self.comp_at(composition, function_call, option, fuel);
        }
        if let Some(builtin) = impl_map.get(&Reference::zk(14, 4)) {
            return self.builtin_at(builtin, function_call, option, fuel);
        }
        Err(
            EvaluationError::new(
                EvaluationErrorKind::Unimplemented(
                    String::from_str("implementation without composition or built-in"),
                ),
            ),
        )
    }

    fn comp_at(
        &self,
        composition: &DataEntry,
        function_call: &DataEntry,
        option: &RunnerOption,
        fuel: u64,
    ) -> (r: Result<DataEntry, EvaluationError>)
        ensures
            outcome(r) == eval_comp(self.store(), option@, composition@, function_call@, fuel as nat),
        decreases fuel, 4nat, *function_call,
    {
        let substituted = match function_call {
            DataEntry::IdMap(to_replace) => recurse_and_replace_placeholder(composition, to_replace)?,
            _ => return Err(EvaluationError::new(EvaluationErrorKind::LowLevelNotAMap)),
        };
        self.walk_at(&substituted, option, fuel)
    }

    fn walk_at(&self, entry: &DataEntry, option: &RunnerOption, fuel: u64) -> (r: Result<
        DataEntry,
        EvaluationError,
    >)
        ensures
            outcome(r) == walk(self.store(), option@, entry@, fuel as nat),
        decreases fuel, 1nat, *entry,
    {
        match entry {
            DataEntry::String(s) => Ok(DataEntry::String(s.clone())),
            DataEntry::IdMap(map) => {
                if has_tag(map, "Z7") {
                    return self.call_at(entry, option, fuel);
                }
                map.keys_sorted();
                proof {
                    lemma_view_entries(map.spec_entries());
                }
                let ghost m = map@;
                let mut out = IdMap::new();
                let mut i: usize = 0;
                while i < map.len()
                    invariant
                        *entry == DataEntry::IdMap(*map),
                        m == map@,
                        !is_tagged(m, "Z7"@),
                        crate::data_entry::sorted_keys(map.spec_entries()),
                        i <= map.spec_entries().len(),
                        m.len() == map.spec_entries().len(),
                        forall|j: int|
                            0 <= j < m.len() ==> #[trigger] m[j] == (
                                map.spec_entries()[j].0,
                                map.spec_entries()[j].1@,
                            ),
                        out.spec_entries().len() == i,
                        forall|j: int|
                            0 <= j < i ==> (#[trigger] out.spec_entries()[j]).0
                                == map.spec_entries()[j].0,
                        walk_entries(self.store(), option@, m.subrange(0, i as int), fuel as nat)
                            == Ok::<Seq<(Reference, Term)>, Fault>(out@),
                    decreases map.spec_entries().len() - i,
                {
                    let key = map.key_at(i);
                    proof {
                        lemma_map_value_decreases(*entry, i as int);
                        if i > 0 {
                            assert(map.spec_entries()[i - 1].0.spec_lt(map.spec_entries()[i as int].0));
                        }
                        assert(m.subrange(0, i + 1).drop_last() == m.subrange(0, i as int));
                        assert(m.subrange(0, i + 1).last() == m[i as int]);
                    }
                    let v = match self.walk_at(map.value_at(i), option, fuel) {
                        Ok(v) => v,
                        Err(e) => {
                            proof {
                                lemma_walk_entries_err(self.store(), option@, m, fuel as nat, i + 1);
                            }
                            return Err(e.add_frame_constructor(TraceInfo::InsideMap(key)));
                        },
                    };
                    let ghost before = out.spec_entries();
                    out.push_last(key, v);
                    proof {
                        assert(out.spec_entries().drop_last() == before);
                    }
                    i = i + 1;
                }
                proof {
                    assert(m.subrange(0, i as int) == m);
                }
                Ok(DataEntry::IdMap(out))
            },
            DataEntry::Array(a) => {
                proof {
                    lemma_view_items(a@);
                }
                let ghost l = entry@->List_0;
                let mut out: Vec<DataEntry> = Vec::new();
                let mut i: usize = 0;
                while i < a.len()
                    invariant
                        *entry == DataEntry::Array(*a),
                        l == entry@->List_0,
                        i <= a@.len(),
                        l.len() == a@.len(),
                        forall|j: int| 0 <= j < l.len() ==> #[trigger] l[j] == a@[j]@,
                        walk_items(self.store(), option@, l.subrange(0, i as int), fuel as nat)
                            == Ok::<Seq<Term>, Fault>(view_items(out@)),
                    decreases a@.len() - i,
                {
                    proof {
                        lemma_array_item_decreases(*entry, i as int);
                        assert(l.subrange(0, i + 1).drop_last() == l.subrange(0, i as int));
                        assert(l.subrange(0, i + 1).last() == l[i as int]);
                    }
                    let v = match self.walk_at(&a[i], option, fuel) {
                        Ok(v) => v,
                        Err(e) => {
                            proof {
                                lemma_walk_items_err(self.store(), option@, l, fuel as nat, i + 1);
                            }
                            return Err(e.add_frame_constructor(TraceInfo::InsideArray(i)));
                        },
                    };
                    let ghost before = out@;
                    out.push(v);
                    proof {
                        assert(out@.drop_last() == before);
                    }
                    i = i + 1;
                }
                proof {
                    assert(l.subrange(0, i as int) == l);
                }
                Ok(DataEntry::Array(out))
            },
        }
    }

    fn bool_arg_at(&self, function_call: &DataEntry, key: Reference, option: &RunnerOption, fuel: u64) -> (r: Result<
        bool,
        EvaluationError,
    >)
        ensures
            r matches Ok(b) ==> eval_bool_arg(self.store(), option@, function_call@, key, fuel as nat)
                == Ok::<bool, Fault>(b),
            r matches Err(e) ==> eval_bool_arg(self.store(), option@, function_call@, key, fuel as nat)
                == Err::<bool, Fault>(e.fault()),
        decreases fuel, 2nat, *function_call,
    {
        let argument = lift(function_call.get_map_entry(&key))?;
        let value = match self.walk_at(argument, option, fuel) {
            Ok(v) => v,
            Err(e) => return Err(e.add_frame_constructor(TraceInfo::InsideMap(key))),
        };
        match parse_boolean(&value) {
            Ok(b) => Ok(b),
            Err(k) => Err(
                EvaluationError::new(k).add_frame_constructor(TraceInfo::ProcessingResult(value)),
            ),
        }
    }

    fn rerouted_at(
        &self,
        target: Reference,
        function_call: &DataEntry,
        option: &RunnerOption,
        fuel: u64,
    ) -> (r: Result<DataEntry, EvaluationError>)
        ensures
            outcome(r) == eval_rerouted(self.store(), option@, target, function_call@, fuel as nat),
        decreases fuel, 3nat, *function_call,
    {
        if fuel == 0 {
            return Err(depth_error());
        }
        let implementation = self.get_persistent_object(&target)?;
        self.impl_at(implementation.value, function_call, option, fuel - 1)
    }

    fn if_at(&self, function_call: &DataEntry, option: &RunnerOption, fuel: u64) -> (r: Result<
        DataEntry,
        EvaluationError,
    >)
        ensures
            outcome(r) == eval_if(self.store(), option@, function_call@, fuel as nat),
        decreases fuel, 3nat, *function_call,
    {
        let condition = self.bool_arg_at(function_call, Reference::zk(802, 1), option, fuel)?;
        let branch_key = if condition {
            Reference::zk(802, 2)
        } else {
            Reference::zk(802, 3)
        };
        let branch = lift(function_call.get_map_entry(&branch_key))?;
        match self.walk_at(branch, option, fuel) {
            Ok(v) => Ok(v),
            Err(e) => Err(e.add_frame_constructor(TraceInfo::InsideMap(branch_key))),
        }
    }

    fn is_empty_at(&self, function_call: &DataEntry, option: &RunnerOption, fuel: u64) -> (r: Result<
        DataEntry,
        EvaluationError,
    >)
        ensures
            outcome(r) == eval_is_empty(self.store(), option@, function_call@, fuel as nat),
        decreases fuel, 3nat, *function_call,
    {
        let argument = lift(function_call.get_map_entry(&Reference::zk(813, 1)))?;
        let list = match self.walk_at(argument, option, fuel) {
            Ok(v) => v,
            Err(e) => return Err(e.add_frame_constructor(TraceInfo::InsideMap(Reference::zk(813, 1)))),
        };
        let items = lift(list.get_array())?;
        proof {
            lemma_view_items(items@);
        }
        let answer = self.get_bool(items.len() <= 1)?;
        Ok(answer.duplicate())
    }

    fn bool_eq_at(&self, function_call: &DataEntry, option: &RunnerOption, fuel: u64) -> (r: Result<
        DataEntry,
        EvaluationError,
    >)
        ensures
            outcome(r) == eval_bool_eq(self.store(), option@, function_call@, fuel as nat),
        decreases fuel, 3nat, *function_call,
    {
        let first = self.bool_arg_at(function_call, Reference::zk(844, 1), option, fuel)?;
        let second = self.bool_arg_at(function_call, Reference::zk(844, 2), option, fuel)?;
        let answer = self.get_bool(first == second)?;
        Ok(answer.duplicate())
    }

    fn builtin_at(
        &self,
        builtin: &DataEntry,
        function_call: &DataEntry,
        option: &RunnerOption,
        fuel: u64,
    ) -> (r: Result<DataEntry, EvaluationError>)
        ensures
            outcome(r) == eval_builtin(self.store(), option@, builtin@, function_call@, fuel as nat),
        decreases fuel, 4nat, *function_call,
    {
        let id_entry = lift(builtin.get_map_entry(&Reference::zk(6, 1)))?;
        let implementation_id = lift(id_entry.get_str())?;
        if str_eq(implementation_id, "Z966") {
            self.rerouted_at(Reference::zk(17569, 0), function_call, option, fuel)
        } else if str_eq(implementation_id, "Z989") {
            self.rerouted_at(Reference::zk(15872, 0), function_call, option, fuel)
        } else if str_eq(implementation_id, "Z902") {
            self.if_at(function_call, option, fuel)
        } else if str_eq(implementation_id, "Z913") {
            self.is_empty_at(function_call, option, fuel)
        } else if str_eq(implementation_id, "Z944") {
            self.bool_eq_at(function_call, option, fuel)
        } else {
            let mut message = String::from_str("built-in ");
            message.append(implementation_id);
            Err(EvaluationError::new(EvaluationErrorKind::Unimplemented(message)))
        }
    }
}


impl Runner {
    /// The result of the function call `function_call`.
    pub fn run_function_call(
        &self,
        function_call: &DataEntry,
        function_call_provenance: &Provenance,
        option: &RunnerOption,
    ) -> (r: Result<DataEntry, EvaluationError>)
        ensures
            outcome(r) == eval_call(self.store(), option@, function_call@, self.depth()),
    {
        match self.call_at(function_call, option, self.max_depth) {
            Ok(v) => Ok(v),
            Err(e) => match function_call_provenance {
                Provenance::Persistant(id) => Err(e.add_frame_constructor(TraceInfo::Reference(*id))),
                _ => Err(e),
            },
        }
    }

    /// The result of running the implementation `implementation` on
    /// `function_call`.
    pub fn run_implementation(
        &self,
        implementation: &DataEntry,
        implementation_provenance: &Provenance,
        function_call: &DataEntry,
        function_call_provenance: &Provenance,
        option: &RunnerOption,
    ) -> (r: Result<DataEntry, EvaluationError>)
        ensures
            outcome(r) == eval_impl(
                self.store(),
                option@,
                implementation@,
                function_call@,
                self.depth(),
            ),
    {
        match self.impl_at(implementation, function_call, option, self.max_depth) {
            Ok(v) => Ok(v),
            Err(e) => match implementation_provenance {
                Provenance::Persistant(id) => Err(e.add_frame_constructor(TraceInfo::Reference(*id))),
                _ => Err(e),
            },
        }
    }

    /// The result of the composition `composition` on `function_call`.
    pub fn run_composition(
        &self,
        composition: &DataEntry,
        composition_provenance: &Provenance,
        function_call: &DataEntry,
        function_call_provenance: &Provenance,
        option: &RunnerOption,
    ) -> (r: Result<DataEntry, EvaluationError>)
        ensures
            outcome(r) == eval_comp(self.store(), option@, composition@, function_call@, self.depth()),
    {
        self.comp_at(composition, function_call, option, self.max_depth)
    }

    /// `entry` with every function call in it replaced by its result.
    pub fn recurse_call_function(
        &self,
        entry: &DataEntry,
        provenance: &Provenance,
        option: &RunnerOption,
    ) -> (r: Result<DataEntry, EvaluationError>)
        ensures
            outcome(r) == walk(self.store(), option@, entry@, self.depth()),
    {
        self.walk_at(entry, option, self.max_depth)
    }

    /// The result of the built-in named by `builtin` on `function_call`.
    pub fn run_builtin(
        &self,
        builtin: &DataEntry,
        function_call: &DataEntry,
        function_call_provenance: &Provenance,
        option: &RunnerOption,
    ) -> (r: Result<DataEntry, EvaluationError>)
        ensures
            outcome(r) == eval_builtin(self.store(), option@, builtin@, function_call@, self.depth()),
    {
        self.builtin_at(builtin, function_call, option, self.max_depth)
    }

    /// Runs a test case against an implementation: the test's call with that
    /// implementation forced, then the test's validation on the result.
    pub fn run_test_case(
        &self,
        test_case_persistent: &WfPersistentObject,
        implementation_persistent: &WfPersistentObject,
    ) -> (r: Result<(), EvaluationError>)
        ensures
            r is Ok <==> eval_test(
                self.store(),
                test_case_persistent.value@,
                (implementation_persistent.id, implementation_persistent.value@),
                self.depth(),
            ) is Ok,
            r matches Err(e) ==> eval_test(
                self.store(),
                test_case_persistent.value@,
                (implementation_persistent.id, implementation_persistent.value@),
                self.depth(),
            ) == Err::<(), Fault>(e.fault()),
    {
        let target = match implementation_persistent.value.get_map_entry(&Reference::zk(14, 1)) {
            Ok(t) => t,
            Err(e) => return Err(EvaluationError::new(e.trace_str("on the implementation to be tested"))),
        };
        let function_identifier = match parse_zid_string(target) {
            Ok(id) => id,
            Err(e) => return Err(EvaluationError::new(e.trace_str("inside Z14K1 in the implementation to test"))),
        };
        let mut pins: Vec<(Zid, Zid)> = Vec::new();
        pins.push((function_identifier, implementation_persistent.id));
        let runner_option = RunnerOption { force_use_impl: Some(pins) };
        proof {
            assert(runner_option@ == pinned(function_identifier, implementation_persistent.id));
        }
        let function_call = match test_case_persistent.value.get_map_entry(&Reference::zk(20, 2)) {
            Ok(c) => c,
            Err(e) => return Err(EvaluationError::new(e.trace_str("on the test case, inside Z20K2"))),
        };
        let test_case_provenance = Provenance::Persistant(test_case_persistent.id);
        let mut path: Vec<Zid> = Vec::new();
        path.push(Reference::zk(2, 2));
        path.push(Reference::zk(20, 2));
        let function_call_provenance = test_case_provenance.to_other(path);
        let actual = match self.run_function_call(function_call, &function_call_provenance, &runner_option) {
            Ok(v) => v,
            Err(e) => return Err(e.add_frame_constructor(TraceInfo::InsideInput(String::from_str("running the function to test")))),
        };
        match self.validate(test_case_persistent.value, &actual) {
            Ok(()) => Ok(()),
            Err(e) => {
                let frames = e.frames;
                Err(EvaluationError {
                    root_kind: EvaluationErrorKind::TestResultInfo(actual, Box::new(e.root_kind)),
                    frames,
                })
            },
        }
    }

    /// Runs the validation of the test case `test_case` on `actual`.
    fn validate(&self, test_case: &DataEntry, actual: &DataEntry) -> (r: Result<(), EvaluationError>)
        ensures
            r is Ok <==> eval_validation(self.store(), test_case@, actual@, self.depth()) is Ok,
            r matches Err(e) ==> eval_validation(self.store(), test_case@, actual@, self.depth())
                == Err::<(), Fault>(e.fault()),
    {
        let validator = lift(test_case.get_map_entry(&Reference::zk(20, 3)))?;
        let validator_target = lift(validator.get_map_entry(&Reference::zk(7, 1)))?;
        let validator_function_id = lift(parse_zid_string(validator_target))?;
        let inserted_validation_ref = Reference::zk(validator_function_id.get_z_value(), 1);
        let validator_copy = validator.duplicate();
        let validator_modified = match validator_copy {
            DataEntry::IdMap(map) => {
                let mut copy = map;
                let ghost before = copy.spec_entries();
                let value = actual.duplicate();
                let ghost gv = value;
                copy.insert(inserted_validation_ref, value);
                proof {
                    crate::data_entry::lemma_view_entries_insert(before, inserted_validation_ref, gv);
                }
                DataEntry::IdMap(copy)
            },
            _ => return Err(EvaluationError::new(EvaluationErrorKind::LowLevelNotAMap)),
        };
        let no_option = RunnerOption { force_use_impl: None };
        let validator_result = match self.run_function_call(&validator_modified, &Provenance::Runtime, &no_option) {
            Ok(v) => v,
            Err(e) => return Err(e.add_frame_constructor(TraceInfo::InsideInput(String::from_str("running the validator function")))),
        };
        let test_result = match parse_boolean(&validator_result) {
            Ok(b) => b,
            Err(k) => return Err(EvaluationError::new(k).add_frame_constructor(TraceInfo::ProcessingResult(validator_result))),
        };
        if !test_result {
            return Err(EvaluationError::new(EvaluationErrorKind::TestSuiteFailed(actual.duplicate())));
        }
        Ok(())
    }
}


proof fn lemma_walk_entries_keys(
    s: GlobalDatas,
    o: Option<Seq<(Reference, Reference)>>,
    m: Seq<(Reference, Term)>,
    fuel: nat,
)
    requires
        walk_entries(s, o, m, fuel) is Ok,
    ensures
        crate::data_entry::keys_of(walk_entries(s, o, m, fuel)->Ok_0) == crate::data_entry::keys_of(m),
    decreases m.len(),
{
    if m.len() > 0 {
        lemma_walk_entries_keys(s, o, m.drop_last(), fuel);
        let p = walk_entries(s, o, m.drop_last(), fuel)->Ok_0;
        let r = walk_entries(s, o, m, fuel)->Ok_0;
        assert(crate::data_entry::keys_of(r) =~= crate::data_entry::keys_of(m)) by {
            assert(crate::data_entry::keys_of(p) == crate::data_entry::keys_of(m.drop_last()));
            assert(p.len() == crate::data_entry::keys_of(p).len());
            assert(r.len() == p.len() + 1);
            assert(r[m.len() - 1].0 == m.last().0);
            assert forall|i: int| 0 <= i < m.len() implies r[i].0 == m[i].0 by {
                if i < m.len() - 1 {
                    assert(crate::data_entry::keys_of(p)[i] == crate::data_entry::keys_of(m.drop_last())[i]);
                    assert(m.drop_last()[i] == m[i]);
                    assert(r[i] == p[i]);
                }
            }
        }
    }
}

/// Walking copies strings, and rebuilds a map that is not a function call
/// with the same keys in the same order.
pub proof fn lemma_walk_preserves_leaves(
    s: GlobalDatas,
    o: Option<Seq<(Reference, Reference)>>,
    t: Term,
    fuel: nat,
)
    ensures
        t is Text ==> walk(s, o, t, fuel) == Ok::<Term, Fault>(t),
        t is Dict && !is_tagged(t->Dict_0, "Z7"@) && walk(s, o, t, fuel) is Ok ==> (walk(
            s,
            o,
            t,
            fuel,
        )->Ok_0 matches Term::Dict(m2) && crate::data_entry::keys_of(m2)
            == crate::data_entry::keys_of(t->Dict_0)),
{
    if t matches Term::Dict(m) && !is_tagged(m, "Z7"@) && walk(s, o, t, fuel) is Ok {
        lemma_walk_entries_keys(s, o, t->Dict_0, fuel);
    }
}

/// An implementation forced for a function is the one selected, whatever
/// the function's own list of implementations holds.
pub proof fn lemma_forced_implementation_selected(
    s: GlobalDatas,
    o: Option<Seq<(Reference, Reference)>>,
    fobj: (Reference, Term),
    iid: Reference,
)
    requires
        forced(o, fobj.0) == Some(iid),
    ensures
        select_impl(s, o, fobj) == s_object(s, iid),
{
}

/// Once the call under test has produced its result, running the test case
/// either succeeds or fails with that result kept beside the failure; a
/// validation that returns false fails as exactly that.
pub proof fn lemma_test_failure_keeps_result(
    s: GlobalDatas,
    tc: Term,
    imp: (Reference, Term),
    fuel: nat,
)
    requires
        eval_tested(s, tc, imp, fuel) is Ok,
    ensures
        eval_test(s, tc, imp, fuel) is Ok || (eval_test(s, tc, imp, fuel) matches Err(
            Fault::TestResultInfo(a, _),
        ) && a == eval_tested(s, tc, imp, fuel)->Ok_0),
        ({
            let actual = eval_tested(s, tc, imp, fuel)->Ok_0;
            eval_validation(s, tc, actual, fuel) == Err::<(), Fault>(Fault::TestSuiteFailed(actual))
                ==> eval_test(s, tc, imp, fuel) == Err::<(), Fault>(
                Fault::TestResultInfo(actual, Box::new(Fault::TestSuiteFailed(actual))),
            )
        }),
{
}

/// Once a prefix of the entries fails to walk, so do all the entries.
proof fn lemma_walk_entries_err(
    s: GlobalDatas,
    o: Option<Seq<(Reference, Reference)>>,
    m: Seq<(Reference, Term)>,
    fuel: nat,
    j: int,
)
    requires
        0 <= j <= m.len(),
        walk_entries(s, o, m.subrange(0, j), fuel) is Err,
    ensures
        walk_entries(s, o, m, fuel) == walk_entries(s, o, m.subrange(0, j), fuel),
    decreases m.len() - j,
{
    if j < m.len() {
        assert(m.subrange(0, j + 1).drop_last() == m.subrange(0, j));
        lemma_walk_entries_err(s, o, m, fuel, j + 1);
    } else {
        assert(m.subrange(0, j) == m);
    }
}

/// Once a prefix of the elements fails to walk, so do all the elements.
proof fn lemma_walk_items_err(
    s: GlobalDatas,
    o: Option<Seq<(Reference, Reference)>>,
    l: Seq<Term>,
    fuel: nat,
    j: int,
)
    requires
        0 <= j <= l.len(),
        walk_items(s, o, l.subrange(0, j), fuel) is Err,
    ensures
        walk_items(s, o, l, fuel) == walk_items(s, o, l.subrange(0, j), fuel),
    decreases l.len() - j,
{
    if j < l.len() {
        assert(l.subrange(0, j + 1).drop_last() == l.subrange(0, j));
        lemma_walk_items_err(s, o, l, fuel, j + 1);
    } else {
        assert(l.subrange(0, j) == l);
    }
}

} // verus!
