use std::sync::Arc;

use wikifunctions_interpreter::parse_tool::{
    check_type, parse_boolean, parse_string_permissive, parse_string_type, parse_zid_string,
    raw_string_to_object_string, str_eq,
};
use wikifunctions_interpreter::{
    DataEntry, EvaluationError, EvaluationErrorKind, GlobalDatas, IdMap, MaybeOwned, Reference,
    Runner, TraceInfo, WfFunction, WfFunctionCall, WfKey, WfParse, WfPersistentObject, WfTestCase,
    WfType, WfImplementation, ZidParseError,
};

fn z(t: &str) -> Reference {
    Reference::from_zid(t).unwrap()
}

fn s(t: &str) -> DataEntry {
    DataEntry::String(t.to_string())
}

fn m(pairs: Vec<(&str, DataEntry)>) -> DataEntry {
    let mut map = IdMap::new();
    for (k, v) in pairs {
        map.insert(z(k), v);
    }
    DataEntry::IdMap(map)
}

#[test]
fn maps_stay_sorted_and_replace_on_insert() {
    let mut map = IdMap::new();
    map.insert(z("Z2"), s("b"));
    map.insert(z("K1"), s("k"));
    map.insert(z("Z1K1"), s("a"));
    map.insert(z("Z2"), s("c"));
    assert_eq!(map.len(), 3);
    assert_eq!(map.key_at(0), z("K1"));
    assert_eq!(map.key_at(1), z("Z1K1"));
    assert_eq!(map.key_at(2), z("Z2"));
    assert_eq!(map.get(&z("Z2")), Some(&s("c")));
    assert_eq!(map.get(&z("Z3")), None);
    let mut other = IdMap::new();
    other.push_last(z("K1"), s("k"));
    other.push_last(z("Z1K1"), s("a"));
    other.push_last(z("Z2"), s("c"));
    assert_eq!(map, other);
}

#[test]
fn accessors_check_the_shape() {
    let t = m(vec![("Z1K1", s("Z6")), ("Z6K1", s("hello"))]);
    assert_eq!(t.get_map_entry(&z("Z6K1")).unwrap(), &s("hello"));
    assert_eq!(t.get_map_entry(&z("Z6K2")), Err(EvaluationErrorKind::MissingKey(z("Z6K2"))));
    assert_eq!(t.get_map_entry_option(&z("Z6K2")).unwrap(), None);
    assert_eq!(s("x").get_map_entry(&z("Z6K1")), Err(EvaluationErrorKind::LowLevelNotAMap));
    assert_eq!(s("x").get_array(), Err(EvaluationErrorKind::LowLevelNotAnArray));
    assert_eq!(t.get_str(), Err(EvaluationErrorKind::LowLevelNotAString));
    assert_eq!(s("x").get_str().unwrap(), "x");
    assert_eq!(DataEntry::Array(vec![s("a")]).get_array().unwrap().len(), 1);
    assert!(t.get_map().is_ok());
    assert_eq!(t.clone(), t);
    assert_eq!(t.duplicate(), t);
}

#[test]
fn string_objects_and_booleans() {
    let t = raw_string_to_object_string("hello".to_string());
    assert_eq!(t, m(vec![("Z1K1", s("Z6")), ("Z6K1", s("hello"))]));
    assert_eq!(parse_string_type(&t).unwrap(), "hello");
    assert_eq!(parse_string_permissive(&t).unwrap(), "hello");
    assert_eq!(parse_string_permissive(&s("plain")).unwrap(), "plain");
    assert!(check_type(&t, z("Z6")).is_ok());
    assert_eq!(check_type(&t, z("Z40")), Err(EvaluationErrorKind::WrongType(z("Z6"), z("Z40"))));
    assert_eq!(parse_zid_string(&s("Z30K4")).unwrap(), z("Z30K4"));
    assert_eq!(
        parse_zid_string(&s("Z30K")),
        Err(EvaluationErrorKind::ParseZID(ZidParseError::NotDecimal))
    );
    let yes = m(vec![("Z1K1", s("Z40")), ("Z40K1", s("Z41"))]);
    let no = m(vec![("Z1K1", s("Z40")), ("Z40K1", s("Z42"))]);
    let other = m(vec![("Z1K1", s("Z40")), ("Z40K1", s("Z43"))]);
    assert_eq!(parse_boolean(&yes), Ok(true));
    assert_eq!(parse_boolean(&no), Ok(false));
    assert_eq!(parse_boolean(&other), Err(EvaluationErrorKind::WrongType(z("Z43"), z("Z40"))));
    assert!(str_eq("Z41", "Z41"));
    assert!(!str_eq("Z41", "Z4"));
}

#[test]
fn reify_turns_maps_into_typed_pair_lists() {
    let r = Runner::new(Arc::new(GlobalDatas::default()));
    let pair_type = m(vec![
        ("Z1K1", s("Z7")),
        ("Z7K1", s("Z882")),
        ("Z882K1", s("Z39")),
        ("Z882K2", s("Z2")),
    ]);
    let t = m(vec![("Z10K1", s("a"))]);
    let expected = DataEntry::Array(vec![
        pair_type.clone(),
        m(vec![
            ("Z1K1", pair_type.clone()),
            ("K1", m(vec![("Z1K1", s("Z39")), ("Z39K1", s("Z10K1"))])),
            ("K2", s("a")),
        ]),
    ]);
    assert_eq!(t.reify(&r).unwrap(), expected);
    assert_eq!(s("x").reify(&r).unwrap(), s("x"));
    assert!(matches!(
        DataEntry::Array(vec![]).reify(&r),
        Err(EvaluationErrorKind::Unimplemented(_))
    ));
}

#[test]
fn errors_describe_their_path() {
    let e = EvaluationError::new(EvaluationErrorKind::LowLevelNotAMap)
        .add_frame_constructor(TraceInfo::InsideArray(3))
        .add_frame_constructor(TraceInfo::InsideMap(z("Z2K2")))
        .add_frame_constructor(TraceInfo::Reference(z("Z10")));
    assert_eq!(e.describe(), "\nZ10->Z2K2[3]");
    assert_eq!(TraceInfo::InsideInput("x".to_string()).describe(), "input \"x\" ");
    assert_eq!(
        TraceInfo::ProcessingResult(m(vec![("Z1K1", s("Z6")), ("Z6K1", DataEntry::Array(vec![s("a"), s("b")]))]))
            .describe(),
        "processing result {Z1K1: \"Z6\", Z6K1: [\"a\", \"b\"]}"
    );
    let e = EvaluationError::new(EvaluationErrorKind::LowLevelNotAMap)
        .add_frame_constructor(TraceInfo::InsideInput("b".to_string()))
        .add_frame_constructor(TraceInfo::ProcessingResult(s("r")));
    assert_eq!(e.describe(), "processing result \"r\"\ninput \"b\" ");
}

#[test]
fn views_read_their_keys() {
    let f = m(vec![
        ("Z1K1", s("Z8")),
        ("Z8K1", DataEntry::Array(vec![])),
        ("Z8K2", s("Z6")),
        ("Z8K3", DataEntry::Array(vec![])),
        ("Z8K4", DataEntry::Array(vec![])),
        ("Z8K5", s("Z10000")),
    ]);
    assert!(WfFunction::parse(&f).is_ok());
    let partial = m(vec![("Z1K1", s("Z8")), ("Z8K1", DataEntry::Array(vec![]))]);
    assert_eq!(WfFunction::parse(&partial).unwrap_err(), EvaluationErrorKind::MissingKey(z("Z8K2")));
    let c = m(vec![("Z1K1", s("Z7")), ("Z7K1", s("Z10000")), ("Z10000K1", s("a"))]);
    let call = WfFunctionCall::parse(&c).unwrap();
    assert_eq!(call.args.len(), 1);
    assert_eq!(call.get_arg(&z("Z10000K1")).unwrap(), &s("a"));
    assert_eq!(call.get_arg(&z("Z10000K2")), Err(EvaluationErrorKind::MissingKey(z("Z10000K2"))));
    let imp = m(vec![("Z1K1", s("Z14")), ("Z14K1", s("Z10000")), ("Z14K4", s("Z902"))]);
    let parsed = WfImplementation::parse(&imp).unwrap();
    assert!(parsed.builtin.is_some() && parsed.composition.is_none() && parsed.code.is_none());
    let tc = m(vec![("Z1K1", s("Z20")), ("Z20K1", s("Z1")), ("Z20K2", s("Z2")), ("Z20K3", s("Z3"))]);
    assert!(WfTestCase::parse(&tc).is_ok());
    let key = m(vec![
        ("Z1K1", s("Z3")),
        ("Z3K1", s("Z6")),
        ("Z3K2", s("Z11K1")),
        ("Z3K3", m(vec![])),
        ("Z3K4", s("Z42")),
    ]);
    assert_eq!(WfKey::parse(&key).unwrap().key_id, "Z11K1");
    assert_eq!(WfType::parse(&key).unwrap_err(), EvaluationErrorKind::MissingKey(z("Z4K1")));
    let p = m(vec![
        ("Z1K1", s("Z2")),
        ("Z2K1", raw_string_to_object_string("Z11".to_string())),
        ("Z2K2", s("v")),
        ("Z2K3", m(vec![])),
        ("Z2K4", m(vec![])),
        ("Z2K5", m(vec![])),
    ]);
    let obj = WfPersistentObject::parse(&p).unwrap();
    assert_eq!(obj.id, z("Z11"));
    assert_eq!(obj.value, &s("v"));
}

#[test]
fn maybe_owned_gives_the_value() {
    let owned: MaybeOwned<u8> = MaybeOwned::from_owned(3);
    assert_eq!(*owned.get(), 3);
    let four = 4u8;
    let borrowed = MaybeOwned::from_reference(&four);
    assert_eq!(*borrowed.get(), 4);
}
