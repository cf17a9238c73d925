use svinst::dump::{print_full_tree, TreeEvent};

fn tok(t: &str, line: usize) -> TreeEvent {
    TreeEvent::EnterToken { text: Some(String::from(t)), line }
}

fn node(k: &str) -> TreeEvent {
    TreeEvent::EnterNode { kind: String::from(k) }
}

fn sample() -> Vec<TreeEvent> {
    vec![
        node("SourceText"),
        node("Keyword"),
        tok("module", 1),
        TreeEvent::Leave,
        TreeEvent::Leave,
        TreeEvent::EnterWhiteSpace,
        node("Comment"),
        tok("// c", 1),
        TreeEvent::Leave,
        TreeEvent::Leave,
        TreeEvent::LeaveWhiteSpace,
        tok("m", 12),
        TreeEvent::Leave,
        TreeEvent::Leave,
    ]
}

#[test]
fn dump_hides_whitespace() {
    assert_eq!(
        print_full_tree(&sample(), false).unwrap(),
        vec![
            "      - SourceText:",
            "        - Keyword:",
            "          - Token: \"module\"",
            "            Line: 1",
            "        - Token: \"m\"",
            "          Line: 12",
        ]
    );
}

#[test]
fn dump_shows_whitespace_when_asked() {
    assert_eq!(
        print_full_tree(&sample(), true).unwrap(),
        vec![
            "      - SourceText:",
            "        - Keyword:",
            "          - Token: \"module\"",
            "            Line: 1",
            "        - Comment:",
            "          - Token: \"// c\"",
            "            Line: 1",
            "        - Token: \"m\"",
            "          Line: 12",
        ]
    );
}

#[test]
fn dump_of_no_events_is_empty() {
    assert!(print_full_tree(&Vec::new(), false).unwrap().is_empty());
}

#[test]
fn dump_refuses_unbalanced_leaves() {
    let events = vec![
        TreeEvent::Leave,
        TreeEvent::Leave,
        TreeEvent::Leave,
        TreeEvent::Leave,
    ];
    assert!(print_full_tree(&events, false).is_none());
    let three = vec![TreeEvent::Leave, TreeEvent::Leave, TreeEvent::Leave];
    assert!(print_full_tree(&three, false).unwrap().is_empty());
}

#[test]
fn dump_escapes_token_text() {
    let events = vec![tok("\"s\\n\"", 3), TreeEvent::Leave];
    assert_eq!(
        print_full_tree(&events, false).unwrap(),
        vec!["      - Token: \"\\\"s\\\\n\\\"\"", "        Line: 3"]
    );
}

#[test]
fn dump_skips_token_without_text() {
    let events = vec![
        node("Keyword"),
        TreeEvent::EnterToken { text: None, line: 4 },
        TreeEvent::Leave,
        TreeEvent::Leave,
        tok("x", 5),
        TreeEvent::Leave,
    ];
    assert_eq!(
        print_full_tree(&events, false).unwrap(),
        vec!["      - Keyword:", "      - Token: \"x\"", "        Line: 5"]
    );
}
