use std::sync::Arc;

use wikifunctions_interpreter::{
    recurse_and_replace_placeholder, DataEntry, EvaluationErrorKind, GlobalDatas, IdMap,
    PotentialReference, Provenance, Reference, Runner, RunnerOption, StoreError, TraceInfo, WfParse,
    WfTypedList, WfUntyped, ZidParseError,
};

fn z(t: &str) -> Reference {
    Reference::from_zid(t).unwrap()
}

fn s(t: &str) -> DataEntry {
    DataEntry::String(t.to_string())
}

fn m(pairs: Vec<(&str, DataEntry)>) -> DataEntry {
    let mut map = IdMap::new();
    for (k, v) in pairs {
        map.insert(z(k), v);
    }
    DataEntry::IdMap(map)
}

fn string_object(t: &str) -> DataEntry {
    m(vec![("Z1K1", s("Z6")), ("Z6K1", s(t))])
}

fn persistent(id: &str, value: DataEntry) -> DataEntry {
    m(vec![
        ("Z1K1", s("Z2")),
        ("Z2K1", string_object(id)),
        ("Z2K2", value),
        ("Z2K3", m(vec![])),
        ("Z2K4", m(vec![])),
        ("Z2K5", m(vec![])),
    ])
}

fn boolean(b: bool) -> DataEntry {
    m(vec![("Z1K1", s("Z40")), ("Z40K1", s(if b { "Z41" } else { "Z42" }))])
}

fn function(id: &str, implementations: Vec<&str>) -> DataEntry {
    let mut list = vec![s("Z14")];
    for i in implementations {
        list.push(s(i));
    }
    m(vec![
        ("Z1K1", s("Z8")),
        ("Z8K1", DataEntry::Array(vec![s("Z17")])),
        ("Z8K2", s("Z1")),
        ("Z8K3", DataEntry::Array(vec![s("Z20")])),
        ("Z8K4", DataEntry::Array(list)),
        ("Z8K5", s(id)),
    ])
}

fn builtin_impl(function: &str, builtin: &str) -> DataEntry {
    m(vec![("Z1K1", s("Z14")), ("Z14K1", s(function)), ("Z14K4", string_object(builtin))])
}

fn composition_impl(function: &str, body: DataEntry) -> DataEntry {
    m(vec![("Z1K1", s("Z14")), ("Z14K1", s(function)), ("Z14K2", body)])
}

fn call(function: &str, args: Vec<(&str, DataEntry)>) -> DataEntry {
    let mut pairs = vec![("Z1K1", s("Z7")), ("Z7K1", s(function))];
    pairs.extend(args);
    m(pairs)
}

fn if_call(condition: bool) -> DataEntry {
    call(
        "Z902",
        vec![("Z802K1", boolean(condition)), ("Z802K2", s("x")), ("Z802K3", s("y"))],
    )
}

fn test_case(validator: &str) -> DataEntry {
    m(vec![
        ("Z1K1", s("Z20")),
        ("Z20K1", s("Z902")),
        ("Z20K2", if_call(true)),
        ("Z20K3", call(validator, vec![])),
    ])
}

fn add(store: &mut GlobalDatas, id: &str, value: DataEntry) {
    store.add_entry(id, persistent(id, value)).unwrap();
}

fn store() -> GlobalDatas {
    let mut st = GlobalDatas::default();
    add(&mut st, "Z41", boolean(true));
    add(&mut st, "Z42", boolean(false));
    add(&mut st, "Z902", function("Z902", vec!["Z10902"]));
    add(&mut st, "Z10902", builtin_impl("Z902", "Z902"));
    add(&mut st, "Z913", function("Z913", vec!["Z10913"]));
    add(&mut st, "Z10913", builtin_impl("Z913", "Z913"));
    add(&mut st, "Z944", function("Z944", vec!["Z10944"]));
    add(&mut st, "Z10944", builtin_impl("Z944", "Z944"));
    add(&mut st, "Z30000", function("Z30000", vec!["Z30010"]));
    add(&mut st, "Z30010", composition_impl("Z30000", boolean(true)));
    add(&mut st, "Z30001", function("Z30001", vec!["Z30011"]));
    add(&mut st, "Z30011", composition_impl("Z30001", boolean(false)));
    add(&mut st, "Z30002", function("Z30002", vec!["Z30012"]));
    add(&mut st, "Z30012", builtin_impl("Z30002", "Z999"));
    add(&mut st, "Z30003", function("Z30003", vec!["Z30013", "Z10902"]));
    add(&mut st, "Z30013", m(vec![("Z1K1", s("Z14")), ("Z14K1", s("Z30003"))]));
    add(&mut st, "Z8130", test_case("Z30000"));
    add(&mut st, "Z8131", test_case("Z30001"));
    st.add_entry("Z50", string_object("not an object")).unwrap();
    st
}

fn runner() -> Runner {
    Runner::new(Arc::new(store()))
}

fn root(k: &EvaluationErrorKind) -> &EvaluationErrorKind {
    match k {
        EvaluationErrorKind::Previous(_, inner) => root(inner),
        other => other,
    }
}

fn run(r: &Runner, c: &DataEntry) -> Result<DataEntry, EvaluationErrorKind> {
    r.run_function_call(c, &Provenance::Runtime, &RunnerOption::default())
        .map_err(|e| root(&e.root_kind).clone_kind())
}

trait CloneKind {
    fn clone_kind(&self) -> EvaluationErrorKind;
}

impl CloneKind for EvaluationErrorKind {
    fn clone_kind(&self) -> EvaluationErrorKind {
        match self {
            EvaluationErrorKind::LowLevelNotAMap => EvaluationErrorKind::LowLevelNotAMap,
            EvaluationErrorKind::LowLevelNotAnArray => EvaluationErrorKind::LowLevelNotAnArray,
            EvaluationErrorKind::LowLevelNotAString => EvaluationErrorKind::LowLevelNotAString,
            EvaluationErrorKind::MissingKey(k) => EvaluationErrorKind::MissingKey(*k),
            EvaluationErrorKind::ParseZID(e) => EvaluationErrorKind::ParseZID(*e),
            EvaluationErrorKind::TestSuiteFailed(d) => EvaluationErrorKind::TestSuiteFailed(d.clone()),
            EvaluationErrorKind::Unimplemented(t) => EvaluationErrorKind::Unimplemented(t.clone()),
            EvaluationErrorKind::WrongType(a, b) => EvaluationErrorKind::WrongType(*a, *b),
            EvaluationErrorKind::TestResultInfo(d, inner) => EvaluationErrorKind::TestResultInfo(
                d.clone(),
                Box::new(root(inner).clone_kind()),
            ),
            EvaluationErrorKind::Previous(_, inner) => root(inner).clone_kind(),
        }
    }
}

#[test]
fn if_true_gives_the_first_branch() {
    assert_eq!(run(&runner(), &if_call(true)).unwrap(), s("x"));
}

#[test]
fn if_false_gives_the_second_branch() {
    assert_eq!(run(&runner(), &if_call(false)).unwrap(), s("y"));
}

#[test]
fn boolean_equality_of_true_and_true() {
    let c = call("Z944", vec![("Z844K1", boolean(true)), ("Z844K2", boolean(true))]);
    assert_eq!(run(&runner(), &c).unwrap(), boolean(true));
    let c = call("Z944", vec![("Z844K1", boolean(true)), ("Z844K2", boolean(false))]);
    assert_eq!(run(&runner(), &c).unwrap(), boolean(false));
}

#[test]
fn empty_typed_list() {
    let c = call("Z913", vec![("Z813K1", DataEntry::Array(vec![s("Z1")]))]);
    assert_eq!(run(&runner(), &c).unwrap(), boolean(true));
}

#[test]
fn non_empty_typed_list() {
    let c = call("Z913", vec![("Z813K1", DataEntry::Array(vec![s("Z1"), s("a")]))]);
    assert_eq!(run(&runner(), &c).unwrap(), boolean(false));
}

#[test]
fn nested_calls_are_evaluated() {
    let inner = call("Z944", vec![("Z844K1", boolean(false)), ("Z844K2", boolean(false))]);
    let c = call(
        "Z902",
        vec![("Z802K1", inner), ("Z802K2", s("both false")), ("Z802K3", s("no"))],
    );
    assert_eq!(run(&runner(), &c).unwrap(), s("both false"));
}

#[test]
fn test_harness_success_and_failure() {
    let r = runner();
    let implementation = r.get_persistent_object(&z("Z10902")).unwrap();
    let passing = r.get_persistent_object(&z("Z8130")).unwrap();
    assert!(r.run_test_case(&passing, &implementation).is_ok());
    let failing = r.get_persistent_object(&z("Z8131")).unwrap();
    let e = r.run_test_case(&failing, &implementation).unwrap_err();
    assert_eq!(
        root(&e.root_kind).clone_kind(),
        EvaluationErrorKind::TestResultInfo(
            s("x"),
            Box::new(EvaluationErrorKind::TestSuiteFailed(s("x")))
        )
    );
}

#[test]
fn test_harness_keeps_the_result_beside_other_failures() {
    let r = runner();
    let implementation = r.get_persistent_object(&z("Z10902")).unwrap();
    let mut st = store();
    st.add_entry("Z8132", persistent("Z8132", test_case("Z30002"))).unwrap();
    let r2 = Runner::new(Arc::new(st));
    let case = r2.get_persistent_object(&z("Z8132")).unwrap();
    let implementation2 = r2.get_persistent_object(&z("Z10902")).unwrap();
    let e = r2.run_test_case(&case, &implementation2).unwrap_err();
    assert_eq!(
        root(&e.root_kind).clone_kind(),
        EvaluationErrorKind::TestResultInfo(
            s("x"),
            Box::new(EvaluationErrorKind::Unimplemented("built-in Z999".to_string()))
        )
    );
    assert!(implementation.value == implementation2.value);
}

#[test]
fn unknown_builtin_is_unimplemented() {
    assert_eq!(
        run(&runner(), &call("Z30002", vec![])).unwrap_err(),
        EvaluationErrorKind::Unimplemented("built-in Z999".to_string())
    );
}

#[test]
fn calls_nest_no_deeper_than_the_limit() {
    let r = Runner::with_max_depth(Arc::new(store()), 0);
    assert_eq!(
        run(&r, &if_call(true)).unwrap_err(),
        EvaluationErrorKind::Unimplemented("evaluation depth limit reached".to_string())
    );
    let r = Runner::with_max_depth(Arc::new(store()), 1);
    assert_eq!(run(&r, &if_call(true)).unwrap(), s("x"));
}

#[test]
fn missing_function_is_a_missing_key() {
    assert_eq!(
        run(&runner(), &call("Z77777", vec![])).unwrap_err(),
        EvaluationErrorKind::MissingKey(z("Z77777"))
    );
}

#[test]
fn wrong_shapes_give_their_errors() {
    let r = runner();
    let c = call("Z913", vec![("Z813K1", s("not a list"))]);
    assert_eq!(run(&r, &c).unwrap_err(), EvaluationErrorKind::LowLevelNotAnArray);
    let c = m(vec![("Z1K1", s("Z7")), ("Z7K1", m(vec![]))]);
    assert_eq!(run(&r, &c).unwrap_err(), EvaluationErrorKind::LowLevelNotAString);
    let c = call("Z1a", vec![]);
    assert_eq!(
        run(&r, &c).unwrap_err(),
        EvaluationErrorKind::ParseZID(ZidParseError::NotDecimal)
    );
    let e = r
        .run_composition(&s("body"), &Provenance::Runtime, &s("not a call"), &Provenance::Runtime, &RunnerOption::default())
        .unwrap_err();
    assert_eq!(root(&e.root_kind).clone_kind(), EvaluationErrorKind::LowLevelNotAMap);
    let e = r.get_persistent_object(&z("Z50")).unwrap_err();
    assert_eq!(
        root(&e.root_kind).clone_kind(),
        EvaluationErrorKind::WrongType(z("Z6"), z("Z2"))
    );
    let c = call("Z902", vec![("Z802K1", s("Z41")), ("Z802K2", s("x")), ("Z802K3", s("y"))]);
    assert_eq!(run(&r, &c).unwrap_err(), EvaluationErrorKind::LowLevelNotAMap);
}

#[test]
fn implementation_without_runnable_body_is_skipped() {
    let c = call("Z30003", vec![("Z802K1", boolean(false)), ("Z802K2", s("x")), ("Z802K3", s("y"))]);
    assert_eq!(run(&runner(), &c).unwrap(), s("y"));
}

#[test]
fn forced_implementation_is_used() {
    let r = runner();
    let f = r.get_persistent_object(&z("Z902")).unwrap();
    let option = RunnerOption { force_use_impl: Some(vec![(z("Z902"), z("Z30012"))]) };
    let chosen = r.get_preferred_implementation(f, &option).unwrap();
    assert_eq!(chosen.id, z("Z30012"));
    let f = r.get_persistent_object(&z("Z902")).unwrap();
    let chosen = r.get_preferred_implementation(f, &RunnerOption::default()).unwrap();
    assert_eq!(chosen.id, z("Z10902"));
    let e = r.run_function_call(&if_call(true), &Provenance::Runtime, &option).unwrap_err();
    assert_eq!(
        root(&e.root_kind).clone_kind(),
        EvaluationErrorKind::Unimplemented("built-in Z999".to_string())
    );
}

#[test]
fn store_keeps_identities() {
    let r = runner();
    let p = r.get_persistent_object(&z("Z41")).unwrap();
    assert_eq!(p.id, z("Z41"));
    assert_eq!(*p.value, boolean(true));
    assert_eq!(*r.get_true().unwrap(), boolean(true));
    assert_eq!(*r.get_false().unwrap(), boolean(false));
    assert_eq!(*r.get_bool(false).unwrap(), boolean(false));
    let mut st = store();
    assert_eq!(
        st.add_entry("Z60", persistent("Z61", s("v"))),
        Err(StoreError::IdentityMismatch(z("Z60"), z("Z61")))
    );
    assert_eq!(
        st.add_entry("Z41", persistent("Z41", s("v"))),
        Err(StoreError::Duplicate(z("Z41")))
    );
    assert_eq!(
        st.add_entry("Q1", s("v")),
        Err(StoreError::Title(ZidParseError::MissingZ))
    );
    assert!(st.get(&z("Z41")).is_some());
    assert!(st.get(&z("Z60")).is_none());
}

#[test]
fn walking_keeps_plain_terms() {
    let r = runner();
    let t = m(vec![("Z1K1", s("Z40")), ("Z40K1", s("Z41")), ("Z40K2", DataEntry::Array(vec![s("a")]))]);
    assert_eq!(
        r.recurse_call_function(&t, &Provenance::Runtime, &RunnerOption::default()).unwrap(),
        t
    );
    assert_eq!(
        r.recurse_call_function(&s("text"), &Provenance::Runtime, &RunnerOption::default()).unwrap(),
        s("text")
    );
    let nested = DataEntry::Array(vec![s("Z1"), if_call(false)]);
    assert_eq!(
        r.recurse_call_function(&nested, &Provenance::Runtime, &RunnerOption::default()).unwrap(),
        DataEntry::Array(vec![s("Z1"), s("y")])
    );
}

#[test]
fn builtins_and_implementations_run_directly() {
    let r = runner();
    let b = string_object("Z902");
    assert_eq!(
        r.run_builtin(&b, &if_call(true), &Provenance::Runtime, &RunnerOption::default()).unwrap(),
        s("x")
    );
    let imp = composition_impl("Z30000", boolean(true));
    assert_eq!(
        r.run_implementation(&imp, &Provenance::Runtime, &call("Z30000", vec![]), &Provenance::Runtime, &RunnerOption::default())
            .unwrap(),
        boolean(true)
    );
    let no_body = m(vec![("Z1K1", s("Z14")), ("Z14K1", s("Z1"))]);
    let e = r
        .run_implementation(&no_body, &Provenance::Runtime, &call("Z1", vec![]), &Provenance::Runtime, &RunnerOption::default())
        .unwrap_err();
    assert!(matches!(root(&e.root_kind), EvaluationErrorKind::Unimplemented(_)));
}

#[test]
fn placeholders_are_replaced_by_arguments() {
    let body = m(vec![
        ("Z1K1", s("Z40")),
        ("Z40K1", m(vec![("Z1K1", s("Z18")), ("Z18K1", s("Z999K1"))])),
        ("Z40K2", DataEntry::Array(vec![m(vec![("Z1K1", s("Z18")), ("Z18K1", s("Z999K1"))])])),
    ]);
    let c = call("Z999", vec![("Z999K1", s("Z41"))]);
    let to_replace = match &c {
        DataEntry::IdMap(map) => map,
        _ => unreachable!(),
    };
    assert_eq!(
        recurse_and_replace_placeholder(&body, to_replace).unwrap(),
        m(vec![
            ("Z1K1", s("Z40")),
            ("Z40K1", s("Z41")),
            ("Z40K2", DataEntry::Array(vec![s("Z41")])),
        ])
    );
    let missing = m(vec![("Z1K1", s("Z18")), ("Z18K1", s("Z999K2"))]);
    let e = recurse_and_replace_placeholder(&missing, to_replace).unwrap_err();
    assert_eq!(root(&e.root_kind).clone_kind(), EvaluationErrorKind::MissingKey(z("Z999K2")));
    let no_key = m(vec![("Z1K1", s("Z18"))]);
    let e = recurse_and_replace_placeholder(&no_key, to_replace).unwrap_err();
    assert_eq!(root(&e.root_kind).clone_kind(), EvaluationErrorKind::MissingKey(z("Z18K1")));
    let bad = m(vec![("Z9K9", m(vec![("Z1K1", s("Z18")), ("Z18K1", s("K"))]))]);
    let e = recurse_and_replace_placeholder(&bad, to_replace).unwrap_err();
    assert_eq!(
        root(&e.root_kind).clone_kind(),
        EvaluationErrorKind::ParseZID(ZidParseError::NotDecimal)
    );
    assert_eq!(
        e.frames,
        vec![TraceInfo::InsideMap(z("Z18K1")), TraceInfo::InsideMap(z("Z9K9"))]
    );
    let nested = DataEntry::Array(vec![s("a"), m(vec![("Z9K8", missing.clone())])]);
    let e = recurse_and_replace_placeholder(&nested, to_replace).unwrap_err();
    assert_eq!(
        e.frames,
        vec![TraceInfo::InsideMap(z("Z9K8")), TraceInfo::InsideArray(1)]
    );
}

#[test]
fn composition_runs_with_its_arguments() {
    let mut st = store();
    let body = call(
        "Z902",
        vec![
            ("Z802K1", m(vec![("Z1K1", s("Z18")), ("Z18K1", s("Z30004K1"))])),
            ("Z802K2", s("yes")),
            ("Z802K3", s("no")),
        ],
    );
    add(&mut st, "Z30004", function("Z30004", vec!["Z30014"]));
    add(&mut st, "Z30014", composition_impl("Z30004", body));
    let r = Runner::new(Arc::new(st));
    let c = call("Z30004", vec![("Z30004K1", boolean(false))]);
    assert_eq!(run(&r, &c).unwrap(), s("no"));
}

#[test]
fn references_are_followed_one_hop() {
    let r = runner();
    let by_text = s("Z41");
    let v = PotentialReference::<WfUntyped>::new(&by_text).evaluate(&r).unwrap();
    assert_eq!(*v.entry, boolean(true));
    let by_map = m(vec![("Z1K1", s("Z9")), ("Z9K1", s("Z42"))]);
    let p = PotentialReference::<WfUntyped>::new(&by_map);
    assert_eq!(*p.evaluate(&r).unwrap().entry, boolean(false));
    assert_eq!(p.get_reference().unwrap(), z("Z42"));
    let inline = boolean(true);
    assert_eq!(*PotentialReference::<WfUntyped>::new(&inline).evaluate(&r).unwrap().entry, boolean(true));
    let untagged = m(vec![("Z9K1", s("Z42"))]);
    assert_eq!(*PotentialReference::<WfUntyped>::new(&untagged).evaluate(&r).unwrap().entry, untagged);
    let list = DataEntry::Array(vec![s("a")]);
    assert!(PotentialReference::<WfUntyped>::new(&list).get_reference().is_err());
    let list_view = PotentialReference::<WfTypedList<WfUntyped>>::new(&list).evaluate(&r).unwrap();
    assert_eq!(list_view.elements.len(), 1);
    assert!(WfTypedList::<WfUntyped>::parse(&s("x")).is_err());
}
