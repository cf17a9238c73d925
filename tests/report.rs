use svinst::extract::{analyze_defs, ScopeItem};
use svinst::session::{file_header, FileOutcome, Options, Session};

fn s(v: &str) -> Option<String> {
    Some(String::from(v))
}

#[test]
fn one_module_with_one_instance() {
    let items = vec![
        ScopeItem::Module { name: s("top") },
        ScopeItem::Instance { module: s("sub"), instance: s("u_sub") },
    ];
    assert_eq!(
        analyze_defs(&items),
        vec![
            "      - mod_name: \"top\"",
            "        insts:",
            "          - mod_name: \"sub\"",
            "            inst_name: \"u_sub\"",
        ]
    );
}

#[test]
fn packages_interfaces_and_imports() {
    let items = vec![
        ScopeItem::Package { name: s("pkg") },
        ScopeItem::Interface { name: s("bus_if") },
        ScopeItem::Import { package: s("pkg") },
    ];
    assert_eq!(
        analyze_defs(&items),
        vec![
            "      - pkg_name: \"pkg\"",
            "        insts:",
            "      - intf_name: \"bus_if\"",
            "        insts:",
            "          - pkg_name: \"pkg\"",
        ]
    );
}

#[test]
fn items_without_identifier_are_skipped() {
    let items = vec![
        ScopeItem::Module { name: None },
        ScopeItem::Instance { module: None, instance: s("u0") },
        ScopeItem::Instance { module: s("m"), instance: None },
        ScopeItem::Import { package: None },
        ScopeItem::Instance { module: None, instance: None },
    ];
    assert!(analyze_defs(&items).is_empty());
}

#[test]
fn escaped_identifier_is_quoted() {
    let items = vec![ScopeItem::Module { name: s("\\a\"b ") }];
    assert_eq!(analyze_defs(&items)[0], "      - mod_name: \"\\\\a\\\"b \"");
}

#[test]
fn empty_listing() {
    assert!(analyze_defs(&Vec::new()).is_empty());
}

#[test]
fn file_header_lines() {
    assert_eq!(file_header("a.sv", false), vec!["  - file_name: \"a.sv\"", "    defs:"]);
    assert_eq!(file_header("b.sv", true), vec!["  - file_name: \"b.sv\"", "    syntax_tree:"]);
}

#[test]
fn second_of_three_files_fails() {
    let opts = Options {
        full_tree: false,
        include_whitespace: false,
        show_macro_defs: true,
        separate: false,
    };
    let mut run = Session::new();
    let a = run.record(&opts, FileOutcome::Parsed);
    assert!(a.replace_defines && a.show_macro_defs);
    assert_eq!(run.exit_code, 0);
    let b = run.record(&opts, FileOutcome::Failed);
    assert!(!b.replace_defines && !b.show_macro_defs);
    assert_eq!(run.exit_code, 1);
    let c = run.record(&opts, FileOutcome::Parsed);
    assert!(c.replace_defines);
    assert_eq!(run.exit_code, 1);
    assert_eq!(run.attempted, 3);
}

#[test]
fn separate_files_keep_their_definitions() {
    let opts = Options {
        full_tree: true,
        include_whitespace: false,
        show_macro_defs: false,
        separate: true,
    };
    let mut run = Session::new();
    let a = run.record(&opts, FileOutcome::Parsed);
    assert!(!a.replace_defines && !a.show_macro_defs);
    assert_eq!(run.exit_code, 0);
}
