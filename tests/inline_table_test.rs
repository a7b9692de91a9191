use cutler::document::{collect, DocItem, DocTable, DomainSettings};
use cutler::value::PrefValue;

fn s(x: &str) -> String {
    x.to_string()
}

fn table(entries: Vec<(&str, DocItem)>) -> DocItem {
    DocItem::Table(DocTable { entries: entries.into_iter().map(|(k, v)| (s(k), v)).collect() })
}

fn val(v: PrefValue) -> DocItem {
    DocItem::Value(v)
}

fn dict(entries: Vec<(&str, PrefValue)>) -> PrefValue {
    PrefValue::Dictionary(entries.into_iter().map(|(k, v)| (s(k), v)).collect())
}

fn find<'a>(domains: &'a [DomainSettings], name: &str) -> Option<&'a DomainSettings> {
    domains.iter().find(|d| d.domain == name)
}

fn get<'a>(d: &'a DomainSettings, key: &str) -> Option<&'a PrefValue> {
    d.settings.iter().find(|(k, _)| k == key).map(|(_, v)| v)
}

fn entry<'a>(v: &'a PrefValue, key: &str) -> Option<&'a PrefValue> {
    match v {
        PrefValue::Dictionary(es) => es.iter().find(|(k, _)| k == key).map(|(_, v)| v),
        _ => None,
    }
}

fn set_of(entries: Vec<(&str, DocItem)>) -> DocTable {
    DocTable { entries: entries.into_iter().map(|(k, v)| (s(k), v)).collect() }
}

// [set.finder]
// FXInfoPanesExpanded = { Preview = false, MetaData = true }
// ShowPathbar = true
#[test]
fn test_inline_table_as_dictionary_value() {
    let set = set_of(vec![(
        "finder",
        table(vec![
            (
                "FXInfoPanesExpanded",
                val(dict(vec![("Preview", PrefValue::Boolean(false)), ("MetaData", PrefValue::Boolean(true))])),
            ),
            ("ShowPathbar", val(PrefValue::Boolean(true))),
        ]),
    )]);
    let domains = collect(&set).unwrap();
    assert_eq!(domains.len(), 1);
    assert!(find(&domains, "finder").is_some());
    assert!(find(&domains, "finder.FXInfoPanesExpanded").is_none());
    let finder = find(&domains, "finder").unwrap();
    assert!(get(finder, "FXInfoPanesExpanded").is_some());
    let fx_info = get(finder, "FXInfoPanesExpanded").unwrap();
    assert!(matches!(fx_info, PrefValue::Dictionary(_)));
    assert!(matches!(entry(fx_info, "Preview"), Some(PrefValue::Boolean(false))));
    assert!(matches!(entry(fx_info, "MetaData"), Some(PrefValue::Boolean(true))));
    assert!(matches!(get(finder, "ShowPathbar"), Some(PrefValue::Boolean(true))));
}

// [set.dock]
// tilesize = 50
// [set.NSGlobalDomain.com.apple.keyboard]
// fnState = false
#[test]
fn test_nested_table_header_as_domain() {
    let set = set_of(vec![
        ("dock", table(vec![("tilesize", val(PrefValue::Integer(50)))])),
        (
            "NSGlobalDomain",
            table(vec![(
                "com",
                table(vec![("apple", table(vec![("keyboard", table(vec![("fnState", val(PrefValue::Boolean(false)))]))]))]),
            )]),
        ),
    ]);
    let domains = collect(&set).unwrap();
    assert_eq!(domains.len(), 2);
    assert!(find(&domains, "dock").is_some());
    assert!(find(&domains, "NSGlobalDomain.com.apple.keyboard").is_some());
    let dock = find(&domains, "dock").unwrap();
    assert!(matches!(get(dock, "tilesize"), Some(PrefValue::Integer(50))));
    let keyboard = find(&domains, "NSGlobalDomain.com.apple.keyboard").unwrap();
    assert!(matches!(get(keyboard, "fnState"), Some(PrefValue::Boolean(false))));
}

// [set.dock] tilesize = 50, autohide = true
// [set.NSGlobalDomain] "com.apple.dock.fnState" = false, exampleArrayOfInts = [1, 2, 3],
//   exampleArrayOfStrings = ["one", "two", "three"]
// [set.finder] FXInfoPanesExpanded = { Preview = false, MetaData = true, Comments = false }
#[test]
fn test_complex_types() {
    let set = set_of(vec![
        (
            "dock",
            table(vec![("tilesize", val(PrefValue::Integer(50))), ("autohide", val(PrefValue::Boolean(true)))]),
        ),
        (
            "NSGlobalDomain",
            table(vec![
                ("com.apple.dock.fnState", val(PrefValue::Boolean(false))),
                (
                    "exampleArrayOfInts",
                    val(PrefValue::Array(vec![PrefValue::Integer(1), PrefValue::Integer(2), PrefValue::Integer(3)])),
                ),
                (
                    "exampleArrayOfStrings",
                    val(PrefValue::Array(vec![
                        PrefValue::String(s("one")),
                        PrefValue::String(s("two")),
                        PrefValue::String(s("three")),
                    ])),
                ),
            ]),
        ),
        (
            "finder",
            table(vec![(
                "FXInfoPanesExpanded",
                val(dict(vec![
                    ("Preview", PrefValue::Boolean(false)),
                    ("MetaData", PrefValue::Boolean(true)),
                    ("Comments", PrefValue::Boolean(false)),
                ])),
            )]),
        ),
    ]);
    let domains = collect(&set).unwrap();
    assert_eq!(domains.len(), 3);

    let dock = find(&domains, "dock").unwrap();
    assert!(matches!(get(dock, "tilesize"), Some(PrefValue::Integer(50))));
    assert!(matches!(get(dock, "autohide"), Some(PrefValue::Boolean(true))));

    let global = find(&domains, "NSGlobalDomain").unwrap();
    assert!(matches!(get(global, "com.apple.dock.fnState"), Some(PrefValue::Boolean(false))));

    let int_array = match get(global, "exampleArrayOfInts").unwrap() {
        PrefValue::Array(a) => a,
        _ => panic!("Expected array"),
    };
    assert_eq!(int_array.len(), 3);
    assert!(matches!(int_array[0], PrefValue::Integer(1)));
    assert!(matches!(int_array[1], PrefValue::Integer(2)));
    assert!(matches!(int_array[2], PrefValue::Integer(3)));

    let str_array = match get(global, "exampleArrayOfStrings").unwrap() {
        PrefValue::Array(a) => a,
        _ => panic!("Expected array"),
    };
    assert_eq!(str_array.len(), 3);
    assert!(matches!(&str_array[0], PrefValue::String(v) if v == "one"));
    assert!(matches!(&str_array[1], PrefValue::String(v) if v == "two"));
    assert!(matches!(&str_array[2], PrefValue::String(v) if v == "three"));

    let finder = find(&domains, "finder").unwrap();
    let fx = get(finder, "FXInfoPanesExpanded").unwrap();
    assert!(matches!(entry(fx, "Preview"), Some(PrefValue::Boolean(false))));
    assert!(matches!(entry(fx, "MetaData"), Some(PrefValue::Boolean(true))));
    assert!(matches!(entry(fx, "Comments"), Some(PrefValue::Boolean(false))));
}
