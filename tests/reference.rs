use wikifunctions_interpreter::{Reference, ZidParseError};

#[test]
fn test_from_zid() {
    assert_eq!(
        Reference::from_zid("Z156").unwrap(),
        Reference::from_u64s(Some(156), None).unwrap()
    );
    assert_eq!(
        Reference::from_zid("Z30K4").unwrap(),
        Reference::from_u64s(Some(30), Some(4)).unwrap()
    );
    assert_eq!(
        Reference::from_zid("K1").unwrap(),
        Reference::from_u64s(None, Some(1)).unwrap()
    );
    assert!(Reference::from_zid("T156").is_err());
    assert!(Reference::from_zid("Z").is_err());
    assert!(Reference::from_zid("Z-9").is_err());
    assert!(Reference::from_zid("Z1a").is_err());
    assert!(Reference::from_zid("Za1").is_err());
    assert!(Reference::from_zid("").is_err());
    assert!(Reference::from_zid("Z30K4Z1").is_err());
    assert!(Reference::from_zid("Z30K4K1").is_err());
}

#[test]
fn test_to_zid() {
    assert_eq!(
        Reference::from_u64s(Some(156), None).unwrap().to_zid(),
        "Z156"
    );
    assert_eq!(
        Reference::from_u64s(Some(30), Some(4)).unwrap().to_zid(),
        "Z30K4"
    );
}

#[test]
fn parse_errors_name_their_cause() {
    assert_eq!(Reference::from_zid(""), Err(ZidParseError::Empty));
    assert_eq!(Reference::from_zid("T156"), Err(ZidParseError::MissingZ));
    assert_eq!(Reference::from_zid("Z"), Err(ZidParseError::NotDecimal));
    assert_eq!(Reference::from_zid("Z+5"), Err(ZidParseError::NotDecimal));
    assert_eq!(Reference::from_zid("Z0"), Err(ZidParseError::Zero));
    assert_eq!(Reference::from_zid("K0"), Err(ZidParseError::Zero));
    assert_eq!(Reference::from_zid("Z30K4K1"), Err(ZidParseError::ExtraCharacters));
    assert_eq!(
        Reference::from_zid("Z18446744073709551616"),
        Err(ZidParseError::TooLarge)
    );
    assert_eq!(
        Reference::from_zid("Z18446744073709551615").unwrap().get_z(),
        Some(u64::MAX)
    );
}

#[test]
fn format_after_parse_gives_the_text_back() {
    for text in ["Z1", "Z30K4", "K7", "Z17569", "Z1K1"] {
        assert_eq!(Reference::from_zid(text).unwrap().to_zid(), text);
    }
    assert_eq!(Reference::from_zid("Z007"), Err(ZidParseError::LeadingZero));
    assert_eq!(Reference::from_zid("Z01"), Err(ZidParseError::LeadingZero));
    assert_eq!(Reference::from_zid("K007"), Err(ZidParseError::LeadingZero));
    assert_eq!(Reference::from_zid("Z3K01"), Err(ZidParseError::LeadingZero));
    assert_eq!(Reference::from_zid("Z+1"), Err(ZidParseError::NotDecimal));
    assert_eq!(Reference::from_zid("Z10"), Reference::from_u64s(Some(10), None));
}

#[test]
fn components_and_order() {
    let a = Reference::from_u64s(Some(2), None).unwrap();
    let b = Reference::from_u64s(Some(2), Some(1)).unwrap();
    let c = Reference::from_u64s(None, Some(9)).unwrap();
    assert!(a.less_than(&b));
    assert!(c.less_than(&a));
    assert!(!b.less_than(&a));
    assert!(c < a && a < b);
    assert_eq!(b.get_k(), Some(1));
    assert_eq!(c.get_z(), None);
    assert_eq!(Reference::from_u64s(None, None), Err(ZidParseError::Empty));
    assert_eq!(Reference::from_u64s(Some(0), Some(3)), Err(ZidParseError::Zero));
    assert_eq!(Reference::from_u64s_panic(Some(4), Some(2)).to_zid(), "Z4K2");
}
