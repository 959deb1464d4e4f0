use shell_history::grammar::{COMMENT_MARKER, CONTINUATION_MARKER};
use shell_history::lines::{line_end, NEWLINE};
use shell_history::text::trim_bounds;
use shell_history::Grammar;

fn chars(text: &str) -> Vec<char> {
    text.chars().collect()
}

fn trimmed(text: &str) -> String {
    let text = chars(text);
    let (from, to) = trim_bounds(&text);
    text[from..to].iter().collect()
}

#[test]
fn markers() {
    assert_eq!(CONTINUATION_MARKER, '\\');
    assert_eq!(COMMENT_MARKER, '#');
    assert_eq!(NEWLINE, b'\n');
}

#[test]
fn trim_bounds_of_plain_text() {
    assert_eq!(trim_bounds(&chars("ls -la")), (0, 6));
    assert_eq!(trim_bounds(&chars("  ls -la\t\n")), (2, 8));
    assert_eq!(trim_bounds(&chars("x")), (0, 1));
}

#[test]
fn trim_bounds_of_blank_text() {
    assert_eq!(trim_bounds(&chars("")), (0, 0));
    let (from, to) = trim_bounds(&chars(" \t\r\n "));
    assert_eq!(from, to);
}

#[test]
fn trim_agrees_with_the_standard_library() {
    for text in ["", " ", "a", " a", "a ", " a b ", "\u{a0}a\u{2028}", "\u{200b}a ", "\t\\\r\n"] {
        assert_eq!(trimmed(text), text.trim());
    }
}

#[test]
fn zero_width_space_is_no_whitespace() {
    assert_eq!(trimmed("\u{200b}ls\u{200b}"), "\u{200b}ls\u{200b}");
}

#[test]
fn line_end_is_past_the_newline() {
    assert_eq!(line_end(b"ls\npwd\n", 0), 3);
    assert_eq!(line_end(b"ls\npwd\n", 1), 3);
    assert_eq!(line_end(b"ls\npwd\n", 2), 3);
    assert_eq!(line_end(b"ls\npwd\n", 3), 7);
    assert_eq!(line_end(b"\n\n", 0), 1);
    assert_eq!(line_end(b"\n\n", 1), 2);
}

#[test]
fn line_end_without_a_newline_is_the_end() {
    assert_eq!(line_end(b"ls\npwd", 3), 6);
    assert_eq!(line_end(b"ls", 0), 2);
    assert_eq!(line_end(b"ls", 2), 2);
    assert_eq!(line_end(b"", 0), 0);
}

#[test]
fn continuation_takes_a_line() {
    let mut block = chars("a");
    assert_eq!(Grammar::Continuation.take_line(&mut block, &chars("")), None);
    assert_eq!(block, chars("a"));
    assert_eq!(Grammar::Continuation.take_line(&mut block, &chars("b\\")), None);
    assert_eq!(block, chars("ab"));
    assert_eq!(Grammar::Continuation.take_line(&mut block, &chars("\\")), None);
    assert_eq!(block, chars("ab"));
    assert_eq!(Grammar::Continuation.take_line(&mut block, &chars("#c")), Some("ab#c".to_string()));
    assert!(block.is_empty());
}

#[test]
fn comment_prefixed_takes_a_line() {
    let mut block = Vec::new();
    assert_eq!(Grammar::CommentPrefixed.take_line(&mut block, &chars("#1690000000")), None);
    assert!(block.is_empty());
    assert_eq!(Grammar::CommentPrefixed.take_line(&mut block, &chars("ls\\")), Some("ls\\".to_string()));
    assert!(block.is_empty());
    assert_eq!(Grammar::CommentPrefixed.take_line(&mut block, &chars("")), Some(String::new()));
    assert!(block.is_empty());
}
