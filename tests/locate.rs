use svinst::locate::{locate, print_parse_error, Location};

#[test]
fn locate_past_end_is_none() {
    let src = b"abc";
    assert_eq!(locate(src, 4), None);
    assert!(print_parse_error("f.sv", src, 4).is_none());
    assert!(print_parse_error("f.sv", b"", 1).is_none());
}

#[test]
fn locate_start_of_file() {
    let src = b"abc\n";
    assert_eq!(
        locate(src, 0),
        Some(Location { offset: 0, line: 1, column: 1, line_start: 0, line_end: 3 })
    );
    let lines = print_parse_error("f.sv", src, 0).unwrap();
    assert_eq!(lines, vec![" f.sv:1:1", "  |", "1 | abc", "  | ^"]);
}

#[test]
fn locate_empty_file() {
    let lines = print_parse_error("e.sv", b"", 0).unwrap();
    assert_eq!(lines, vec![" e.sv:1:1", "  |", "1 | ", "  | ^"]);
}

#[test]
fn locate_after_line_feed_is_column_one() {
    let src = b"ab\ncd\nef";
    let l = locate(src, 3).unwrap();
    assert_eq!(l, Location { offset: 3, line: 2, column: 1, line_start: 3, line_end: 5 });
    let l = locate(src, 6).unwrap();
    assert_eq!(l.line, 3);
    assert_eq!(l.column, 1);
}

#[test]
fn locate_on_first_line() {
    let src = b"module m;\nendmodule\n";
    let l = locate(src, 2).unwrap();
    assert_eq!(l, Location { offset: 2, line: 1, column: 3, line_start: 0, line_end: 9 });
}

#[test]
fn caret_at_carriage_return() {
    let lines = print_parse_error("f", b"x\r\nyz", 1).unwrap();
    assert_eq!(lines, vec![" f:1:2", "  |", "1 | x", "  |  ^"]);
}

#[test]
fn caret_at_end_of_file() {
    let src = b"ab\r\ncd";
    let l = locate(src, 6).unwrap();
    assert_eq!(l.line, 2);
    assert_eq!(l.line_end, 6);
    let lines = print_parse_error("f", src, 6).unwrap();
    assert_eq!(lines, vec![" f:2:3", "  |", "2 | cd", "  |   ^"]);
}

#[test]
fn line_after_crlf_excludes_terminators() {
    let lines = print_parse_error("f", b"x\r\nyz", 4).unwrap();
    assert_eq!(lines, vec![" f:2:2", "  |", "2 | yz", "  |  ^"]);
    let lines = print_parse_error("f", b"ab\ncd\n", 4).unwrap();
    assert_eq!(lines, vec![" f:2:2", "  |", "2 | cd", "  |  ^"]);
}

#[test]
fn column_counts_bytes() {
    let lines = print_parse_error("f", "\u{e9}a".as_bytes(), 2).unwrap();
    assert_eq!(lines, vec![" f:1:3", "  |", "1 | \u{e9}a", "  |   ^"]);
}

#[test]
fn diagnostic_lines_exact() {
    let src = b"module a;\n  foo bar;\nendmodule\n";
    let lines = print_parse_error("t.sv", src, 12).unwrap();
    assert_eq!(
        lines,
        vec![
            String::from(" t.sv:2:3"),
            String::from("  |"),
            String::from("2 |   foo bar;"),
            String::from("  |   ^"),
        ]
    );
}

#[test]
fn diagnostic_line_slice_matches_file() {
    let mut text = String::new();
    for i in 0..11 {
        text.push_str(&format!("line {}\n", i));
    }
    let src = text.as_bytes();
    let offset = text.find("line 10").unwrap() + 5;
    let lines = print_parse_error("w.sv", src, offset).unwrap();
    assert_eq!(lines[0], " w.sv:11:6");
    assert_eq!(lines[1], "   |");
    assert_eq!(lines[2], "11 | line 10");
    assert_eq!(lines[3], "   |      ^");
}

#[test]
fn diagnostic_replaces_invalid_utf8() {
    let src = b"a\xffb";
    let lines = print_parse_error("x.sv", src, 1).unwrap();
    assert_eq!(lines[2], "1 | a\u{fffd}b");
}
