use cutler::document::{collect, DocItem, DocTable, DomainSettings};
use cutler::domains::{effective, get_defaults_domain, resolve};
use cutler::value::PrefValue;

fn s(x: &str) -> String {
    x.to_string()
}

fn table(entries: Vec<(&str, DocItem)>) -> DocItem {
    DocItem::Table(DocTable { entries: entries.into_iter().map(|(k, v)| (s(k), v)).collect() })
}

fn val(v: PrefValue) -> DocItem {
    DocItem::Value(v)
}

fn find<'a>(domains: &'a [DomainSettings], name: &str) -> Option<&'a DomainSettings> {
    domains.iter().find(|d| d.domain == name)
}

fn get<'a>(d: &'a DomainSettings, key: &str) -> Option<&'a PrefValue> {
    d.settings.iter().find(|(k, _)| k == key).map(|(_, v)| v)
}

fn set_of(entries: Vec<(&str, DocItem)>) -> DocTable {
    DocTable { entries: entries.into_iter().map(|(k, v)| (s(k), v)).collect() }
}

// [set.domain]
// key1 = "value1"
#[test]
fn test_collect_domains_simple() {
    let set = set_of(vec![("domain", table(vec![("key1", val(PrefValue::String(s("value1"))))]))]);
    let domains = collect(&set).unwrap();
    assert_eq!(domains.len(), 1);
    let got = find(&domains, "domain").unwrap();
    assert!(matches!(get(got, "key1"), Some(PrefValue::String(v)) if v == "value1"));
}

// [set.root]
// top_key = "top_value"
// [set.root.nested]
// inner_key = "inner_value"
#[test]
fn test_collect_domains_nested() {
    let set = set_of(vec![(
        "root",
        table(vec![
            ("top_key", val(PrefValue::String(s("top_value")))),
            ("nested", table(vec![("inner_key", val(PrefValue::String(s("inner_value"))))])),
        ]),
    )]);
    let domains = collect(&set).unwrap();
    assert_eq!(domains.len(), 2);
    let root = find(&domains, "root").unwrap();
    assert!(get(root, "top_key").is_some());
    assert!(matches!(get(root, "top_key"), Some(PrefValue::String(v)) if v == "top_value"));
    let nested = find(&domains, "root.nested").unwrap();
    assert!(get(nested, "inner_key").is_some());
    assert!(matches!(get(nested, "inner_key"), Some(PrefValue::String(v)) if v == "inner_value"));
}

#[test]
fn test_get_effective_domain_and_key() {
    let (d, k) = effective("finder", "ShowPathbar");
    assert_eq!((d, k), ("com.apple.finder".into(), "ShowPathbar".into()));

    let (d, k) = effective("NSGlobalDomain", "Foo");
    assert_eq!((d, k), ("NSGlobalDomain".into(), "Foo".into()));

    let (d, k) = effective("NSGlobalDomain.bar", "Baz");
    assert_eq!((d, k), ("NSGlobalDomain".into(), "bar.Baz".into()));
}

// [set.dock]
// tilesize = "50"
// autohide = true
// [set.NSGlobalDomain.com.apple.keyboard]
// fnState = false
#[test]
fn test_collect_domains_set() {
    let set = set_of(vec![
        (
            "dock",
            table(vec![("tilesize", val(PrefValue::String(s("50")))), ("autohide", val(PrefValue::Boolean(true)))]),
        ),
        (
            "NSGlobalDomain",
            table(vec![(
                "com",
                table(vec![("apple", table(vec![("keyboard", table(vec![("fnState", val(PrefValue::Boolean(false)))]))]))]),
            )]),
        ),
    ]);
    let domains = collect(&set).unwrap();
    assert_eq!(domains.len(), 2);
    let dock = find(&domains, "dock").unwrap();
    assert!(matches!(get(dock, "tilesize"), Some(PrefValue::String(v)) if v == "50"));
    assert!(matches!(get(dock, "autohide"), Some(PrefValue::Boolean(true))));
    let kb = find(&domains, "NSGlobalDomain.com.apple.keyboard").unwrap();
    assert!(matches!(get(kb, "fnState"), Some(PrefValue::Boolean(false))));
}

#[test]
fn resolve_prefers_an_existing_domain_named_literally() {
    let known = vec![s("org.example.app"), s("com.apple.dock")];
    assert_eq!(resolve("org.example.app", "k", &known), (s("org.example.app"), s("k")));
    assert_eq!(resolve("dock", "tilesize", &known), (s("com.apple.dock"), s("tilesize")));
    assert_eq!(
        resolve("NSGlobalDomain.com.apple.keyboard", "fnState", &known),
        (s("NSGlobalDomain"), s("com.apple.keyboard.fnState"))
    );
    assert_eq!(resolve("NSGlobalDomain", "Foo", &known), (s("NSGlobalDomain"), s("Foo")));
}

#[test]
fn defaults_domain_of_configured_names() {
    assert_eq!(get_defaults_domain("finder"), "com.apple.finder");
    assert_eq!(get_defaults_domain("NSGlobalDomain"), "NSGlobalDomain");
    assert_eq!(get_defaults_domain("NSGlobalDomain.bar"), "NSGlobalDomain");
    assert_eq!(get_defaults_domain(""), "com.apple.");
}

#[test]
fn collect_skips_empty_domains_and_top_level_values() {
    let set = set_of(vec![
        ("stray", val(PrefValue::Integer(1))),
        ("empty", table(vec![])),
        ("parent", table(vec![("child", table(vec![("k", val(PrefValue::Integer(2)))]))])),
        ("arrays", DocItem::Other),
    ]);
    let domains = collect(&set).unwrap();
    assert_eq!(domains.len(), 1);
    assert_eq!(domains[0].domain, "parent.child");
    assert!(matches!(get(&domains[0], "k"), Some(PrefValue::Integer(2))));
}

#[test]
fn collect_keeps_document_order_and_every_leaf_once() {
    let set = set_of(vec![
        (
            "a",
            table(vec![
                ("x", val(PrefValue::Integer(1))),
                ("b", table(vec![("y", val(PrefValue::Integer(2)))])),
                ("z", val(PrefValue::Integer(3))),
            ]),
        ),
        ("c", table(vec![("w", val(PrefValue::Integer(4)))])),
    ]);
    let domains = collect(&set).unwrap();
    let names: Vec<&str> = domains.iter().map(|d| d.domain.as_str()).collect();
    assert_eq!(names, vec!["a", "a.b", "c"]);
    let keys: Vec<&str> = domains[0].settings.iter().map(|(k, _)| k.as_str()).collect();
    assert_eq!(keys, vec!["x", "z"]);
    let total: usize = domains.iter().map(|d| d.settings.len()).sum();
    assert_eq!(total, 4);
}

fn chain(depth: usize) -> DocTable {
    let mut t = DocTable { entries: vec![(s("k"), val(PrefValue::Integer(depth as i64)))] };
    for _ in 1..depth {
        t = DocTable { entries: vec![(s("k"), val(PrefValue::Integer(0))), (s("n"), DocItem::Table(t))] };
    }
    set_of(vec![("top", DocItem::Table(t))])
}

#[test]
fn collect_refuses_tables_nested_too_deep() {
    let ok = collect(&chain(64)).unwrap();
    assert_eq!(ok.len(), 64);
    assert_eq!(ok[1].domain, "top.n");
    assert!(matches!(collect(&chain(65)), Err(cutler::document::CollectError::TooDeep)));
}
