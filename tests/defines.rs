use svinst::defines::{build_registry, parse_define, DefineError, Definition, Registry};

#[test]
fn define_with_value() {
    let d = parse_define("MODULE_NAME=module_name_from_define").unwrap();
    assert_eq!(d.name, "MODULE_NAME");
    assert_eq!(d.body, Some(String::from("module_name_from_define")));
}

#[test]
fn define_without_value() {
    let d = parse_define("EXTRA_INSTANCE").unwrap();
    assert_eq!(d.name, "EXTRA_INSTANCE");
    assert_eq!(d.body, None);
}

#[test]
fn define_splits_on_first_equals_only() {
    let d = parse_define("A=b=c").unwrap();
    assert_eq!(d.name, "A");
    assert_eq!(d.body, Some(String::from("b=c")));
}

#[test]
fn define_with_empty_value() {
    let d = parse_define("A=").unwrap();
    assert_eq!(d.name, "A");
    assert_eq!(d.body, Some(String::new()));
}

#[test]
fn define_value_is_unescaped() {
    let d = parse_define("MSG=a\\nb\\\"c\\x41").unwrap();
    assert_eq!(d.name, "MSG");
    assert_eq!(d.body, Some(String::from("a\nb\"cA")));
}

#[test]
fn define_malformed_escape_is_an_error() {
    assert!(matches!(parse_define("X=\\q"), Err(DefineError::MalformedValue)));
    assert!(matches!(parse_define("X=abc\\"), Err(DefineError::MalformedValue)));
}

#[test]
fn registry_later_definition_wins() {
    let defs = vec![
        String::from("A=1"),
        String::from("B"),
        String::from("A=2"),
    ];
    let reg = build_registry(&defs).unwrap();
    assert_eq!(reg.get("A"), Some(Some(String::from("2"))));
    assert_eq!(reg.get("B"), Some(None));
    assert_eq!(reg.get("C"), None);
}

#[test]
fn registry_fails_on_malformed_value() {
    let defs = vec![String::from("A=1"), String::from("B=\\z")];
    assert!(matches!(build_registry(&defs), Err(DefineError::MalformedValue)));
}

#[test]
fn registry_insert_and_get() {
    let mut reg = Registry::new();
    assert_eq!(reg.get("X"), None);
    reg.insert(Definition { name: String::from("X"), body: None });
    reg.insert(Definition { name: String::from("Y"), body: Some(String::from("v")) });
    assert_eq!(reg.get("X"), Some(None));
    assert_eq!(reg.get("Y"), Some(Some(String::from("v"))));
}

#[test]
fn registry_keeps_each_name_once() {
    let defs = vec![
        String::from("A=1"),
        String::from("B=x"),
        String::from("A"),
    ];
    let reg = build_registry(&defs).unwrap();
    let entries = reg.entries();
    assert_eq!(entries.len(), 2);
    assert_eq!(entries[0].name, "A");
    assert_eq!(entries[0].body, None);
    assert_eq!(entries[1].name, "B");
    assert_eq!(entries[1].body, Some(String::from("x")));
}

#[test]
fn registry_of_plain_definitions() {
    let defs = vec![
        String::from("MODULE_NAME=module_name_from_define"),
        String::from("EXTRA_INSTANCE"),
    ];
    let reg = build_registry(&defs).unwrap();
    assert_eq!(reg.get("MODULE_NAME"), Some(Some(String::from("module_name_from_define"))));
    assert_eq!(reg.get("EXTRA_INSTANCE"), Some(None));
}
