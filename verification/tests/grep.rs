use tyr_rust::grep::{assemble_line, assemble_numbered, format_line, grep_lines, GrepError, GrepPattern, Greper};

#[test]
fn grep_shows_matching_lines() {
    colored::control::set_override(false);
    let p = GrepPattern::new("wor").unwrap();
    let lines = vec![Some("hello world".to_string()), None, Some("nothing".to_string()), Some("a word".to_string())];
    let out = grep_lines("f.txt", &lines, &p);
    assert_eq!(out, vec!["f.txt(1:7): hello world\n".to_string(), "f.txt(4:3): a word\n".to_string()]);
}

#[test]
fn format_line_highlights_the_range() {
    colored::control::set_override(true);
    let s = format_line("n", "abcd", 12, 1..3);
    colored::control::set_override(false);
    assert_eq!(s, "\x1b[36mn\x1b[0m(\x1b[34m12\x1b[0m:2): a\x1b[31mbc\x1b[0md\n");
    assert_eq!(format_line("n", "abcd", 12, 1..3), "n(12:2): abcd\n");
}

#[test]
fn bad_regex_is_an_error() {
    assert!(matches!(GrepPattern::new("("), Err(GrepError::RegexError(_))));
    let g = Greper::new("a+".to_string(), "*.rs".to_string());
    assert_eq!(g.pattern(), "a+");
    assert_eq!(g.glob(), "*.rs");
    assert!(g.compile().is_ok());
}

#[test]
fn format_line_counts_bytes() {
    colored::control::set_override(true);
    let s = format_line("f", "h\u{e9}llo", 3, 3..4);
    colored::control::set_override(false);
    assert_eq!(s, "\x1b[36mf\x1b[0m(\x1b[34m3\x1b[0m:4): h\u{e9}\x1b[31ml\x1b[0mlo\n");
}

#[test]
fn grep_lines_on_non_ascii_text() {
    colored::control::set_override(false);
    let p = GrepPattern::new("l+").unwrap();
    let lines = vec![Some("h\u{e9}llo".to_string())];
    assert_eq!(grep_lines("g", &lines, &p), vec!["g(1:4): h\u{e9}llo\n".to_string()]);
}

#[test]
fn colour_comes_back_after_an_inner_reset() {
    colored::control::set_override(true);
    let s = format_line("a\x1b[0mb", "xy", 1, 0..1);
    colored::control::set_override(false);
    assert_eq!(s, "\x1b[36ma\x1b[0m\x1b[36mb\x1b[0m(\x1b[34m1\x1b[0m:1): \x1b[31mx\x1b[0my\n");
}

#[test]
fn assembling_keeps_the_painted_pieces() {
    assert_eq!(assemble_line("<f>", "<7>", 9, "ab", "<c>", "d"), "<f>(<7>:10): ab<c>d\n");
    assert_eq!(assemble_numbered("<0012>", "ab", "<c>", "d"), "<0012>: ab<c>d");
}
