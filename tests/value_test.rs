use cutler::value::{
    is_supported, pref_eq, well_formed, prefvalue_to_serializable, serializable_to_prefvalue, PrefValue, SerializablePrefValue, ValueError,
};

fn s(x: &str) -> String {
    x.to_string()
}

fn dict(entries: Vec<(&str, PrefValue)>) -> PrefValue {
    PrefValue::Dictionary(entries.into_iter().map(|(k, v)| (s(k), v)).collect())
}

fn sample() -> PrefValue {
    dict(vec![
        ("name", PrefValue::String(s("dock"))),
        ("size", PrefValue::Integer(-36)),
        ("scale", PrefValue::Float(std::f64::consts::PI.to_bits())),
        ("on", PrefValue::Boolean(true)),
        (
            "list",
            PrefValue::Array(vec![
                PrefValue::Integer(1),
                PrefValue::Array(vec![PrefValue::String(s("deep"))]),
                dict(vec![("inner", PrefValue::Float(0.5f64.to_bits()))]),
            ]),
        ),
        ("empty", dict(vec![])),
    ])
}

#[test]
fn dictionaries_compare_whatever_their_order() {
    let a = dict(vec![("Preview", PrefValue::Boolean(false)), ("MetaData", PrefValue::Boolean(true))]);
    let b = dict(vec![("MetaData", PrefValue::Boolean(true)), ("Preview", PrefValue::Boolean(false))]);
    let c = dict(vec![("MetaData", PrefValue::Boolean(true)), ("Preview", PrefValue::Boolean(true))]);
    let d = dict(vec![("MetaData", PrefValue::Boolean(true))]);
    assert!(pref_eq(&a, &b));
    assert!(!pref_eq(&a, &c));
    assert!(!pref_eq(&a, &d));
    assert!(!pref_eq(&d, &a));
}

#[test]
fn arrays_compare_in_order() {
    let a = PrefValue::Array(vec![PrefValue::Integer(1), PrefValue::Integer(2)]);
    let b = PrefValue::Array(vec![PrefValue::Integer(2), PrefValue::Integer(1)]);
    let c = PrefValue::Array(vec![PrefValue::Integer(1), PrefValue::Integer(2)]);
    assert!(!pref_eq(&a, &b));
    assert!(pref_eq(&a, &c));
    assert!(!pref_eq(&PrefValue::Integer(1), &PrefValue::String(s("1"))));
    assert!(!pref_eq(&PrefValue::Boolean(true), &PrefValue::Integer(1)));
}

#[test]
fn every_shape_survives_the_snapshot_form() {
    let v = sample();
    let ser = prefvalue_to_serializable(&v).unwrap();
    let back = serializable_to_prefvalue(&ser);
    assert!(pref_eq(&v, &back));
    match &ser {
        SerializablePrefValue::Dictionary(es) => {
            assert_eq!(es.len(), 6);
            let scale = es.iter().find(|(k, _)| k == "scale").unwrap();
            match scale.1 {
                SerializablePrefValue::Float(bits) => assert_eq!(f64::from_bits(bits), std::f64::consts::PI),
                _ => panic!("Expected Float"),
            }
        }
        _ => panic!("Expected Dictionary"),
    }
    for scalar in [PrefValue::String(s("x")), PrefValue::Integer(i64::MIN), PrefValue::Float((-0.0f64).to_bits()), PrefValue::Boolean(false)] {
        let back = serializable_to_prefvalue(&prefvalue_to_serializable(&scalar).unwrap());
        assert!(pref_eq(&scalar, &back));
    }
}

#[test]
fn unsupported_shapes_fail_explicitly() {
    let nested = PrefValue::Array(vec![PrefValue::Integer(1), dict(vec![("when", PrefValue::Other(s("date")))])]);
    assert!(!is_supported(&nested));
    assert!(matches!(prefvalue_to_serializable(&nested), Err(ValueError::Unsupported)));
    assert!(matches!(prefvalue_to_serializable(&PrefValue::Other(s("data"))), Err(ValueError::Unsupported)));
    assert!(is_supported(&sample()));
}

#[test]
fn copies_are_equal() {
    let v = sample();
    assert!(pref_eq(&v, &v.copy_value()));
    let ser = prefvalue_to_serializable(&v).unwrap();
    assert!(pref_eq(&serializable_to_prefvalue(&ser.copy_value()), &v));
}

#[test]
fn duplicate_dictionary_keys_are_not_well_formed() {
    assert!(well_formed(&sample()));
    let dup = dict(vec![("a", PrefValue::Integer(1)), ("b", PrefValue::Integer(2)), ("a", PrefValue::Integer(3))]);
    assert!(!well_formed(&dup));
    assert!(!well_formed(&PrefValue::Array(vec![PrefValue::Integer(0), dup])));
}
