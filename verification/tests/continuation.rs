use shell_history::{History, HistoryProvider};

fn blocks_of(provider: HistoryProvider, source: &[u8]) -> Vec<String> {
    let mut history = History::from(&provider);
    history.feed(source);
    history.finish();
    let mut blocks = Vec::new();
    while let Some(block) = history.next() {
        blocks.push(block);
    }
    assert!(history.is_exhausted());
    blocks
}

fn lines(text: &[&str]) -> Vec<u8> {
    let mut source = Vec::new();
    for line in text {
        source.extend_from_slice(line.as_bytes());
        source.push(b'\n');
    }
    source
}

const CONTINUATION_PROVIDERS: [HistoryProvider; 3] =
    [HistoryProvider::Zsh, HistoryProvider::Atuin, HistoryProvider::Fish];

#[test]
fn continued_line_joins_the_next() {
    for provider in CONTINUATION_PROVIDERS {
        assert_eq!(blocks_of(provider, &lines(&["a\\", "b"])), vec!["ab"]);
    }
}

#[test]
fn blank_line_inside_a_continued_command_changes_nothing() {
    for provider in CONTINUATION_PROVIDERS {
        assert_eq!(blocks_of(provider, &lines(&["a\\", "", "b"])), vec!["ab"]);
    }
}

#[test]
fn blank_lines_between_commands_are_filler() {
    let source = lines(&["", "ls", "", "   ", "\t", "pwd", ""]);
    assert_eq!(blocks_of(HistoryProvider::Zsh, &source), vec!["ls", "pwd"]);
}

#[test]
fn only_blank_lines_hold_no_command() {
    assert!(blocks_of(HistoryProvider::Fish, b"\n\n   \n\t\n").is_empty());
}

#[test]
fn each_plain_line_is_a_command() {
    let source = lines(&["ls -la", "cd /tmp", "echo done"]);
    assert_eq!(blocks_of(HistoryProvider::Atuin, &source), vec!["ls -la", "cd /tmp", "echo done"]);
}

#[test]
fn lines_are_trimmed_before_they_are_joined() {
    let source = lines(&["  echo one \\  ", "\ttwo  "]);
    assert_eq!(blocks_of(HistoryProvider::Zsh, &source), vec!["echo one two"]);
}

#[test]
fn text_joins_without_a_separator() {
    let source = lines(&["git\\", "hub\\", "-cli"]);
    assert_eq!(blocks_of(HistoryProvider::Zsh, &source), vec!["github-cli"]);
}

#[test]
fn exactly_one_marker_is_stripped() {
    let source = lines(&["a\\\\", "b"]);
    assert_eq!(blocks_of(HistoryProvider::Zsh, &source), vec!["a\\b"]);
}

#[test]
fn marker_inside_a_line_is_kept() {
    let source = lines(&["echo a\\b", "printf '\\n' x"]);
    assert_eq!(blocks_of(HistoryProvider::Zsh, &source), vec!["echo a\\b", "printf '\\n' x"]);
}

#[test]
fn space_before_the_marker_is_kept() {
    let source = lines(&["echo a \\", "b"]);
    assert_eq!(blocks_of(HistoryProvider::Zsh, &source), vec!["echo a b"]);
}

#[test]
fn carriage_return_is_trimmed() {
    assert_eq!(blocks_of(HistoryProvider::Zsh, b"ls\r\npw\\\r\nd\r\n"), vec!["ls", "pwd"]);
}

#[test]
fn last_line_needs_no_newline() {
    assert_eq!(blocks_of(HistoryProvider::Fish, b"ls\npwd"), vec!["ls", "pwd"]);
}

#[test]
fn open_block_at_the_end_is_handed_out() {
    assert_eq!(blocks_of(HistoryProvider::Zsh, b"ls\necho a\\\n"), vec!["ls", "echo a"]);
    assert_eq!(blocks_of(HistoryProvider::Zsh, b"echo a\\"), vec!["echo a"]);
    assert_eq!(blocks_of(HistoryProvider::Zsh, b"a\\\nb\\\n"), vec!["ab"]);
}

#[test]
fn open_block_at_the_end_survives_trailing_blank_lines() {
    assert_eq!(blocks_of(HistoryProvider::Zsh, b"echo a\\\n\n  \n"), vec!["echo a"]);
}

#[test]
fn marker_alone_leaves_nothing_to_hand_out() {
    assert!(blocks_of(HistoryProvider::Zsh, b"\\").is_empty());
    assert!(blocks_of(HistoryProvider::Zsh, b"\\\n").is_empty());
    assert_eq!(blocks_of(HistoryProvider::Zsh, b"\\\nls\n"), vec!["ls"]);
}

#[test]
fn comment_marker_means_nothing_here() {
    let source = lines(&["#1690000000", "ls"]);
    assert_eq!(blocks_of(HistoryProvider::Zsh, &source), vec!["#1690000000", "ls"]);
}

#[test]
fn zsh_timestamp_prefix_stays_in_the_block() {
    let source = lines(&[": 1690000000:0;ls -la"]);
    assert_eq!(blocks_of(HistoryProvider::Zsh, &source), vec![": 1690000000:0;ls -la"]);
}

#[test]
fn malformed_bytes_are_replaced_not_refused() {
    assert_eq!(blocks_of(HistoryProvider::Zsh, b"ec\xffho\n"), vec!["ec\u{fffd}ho"]);
    assert_eq!(blocks_of(HistoryProvider::Zsh, b"\xc3\n"), vec!["\u{fffd}"]);
    assert_eq!(blocks_of(HistoryProvider::Zsh, b"a\xe2\x82\\\nb\n"), vec!["a\u{fffd}b"]);
}

#[test]
fn well_formed_text_is_decoded() {
    let source = "echo gr\u{fc}\u{df}e \u{8d8a}\n".as_bytes();
    assert_eq!(blocks_of(HistoryProvider::Zsh, source), vec!["echo gr\u{fc}\u{df}e \u{8d8a}"]);
}

#[test]
fn unicode_whitespace_is_trimmed() {
    let source = "\u{a0}\u{2003}ls\u{3000}\n".as_bytes();
    assert_eq!(blocks_of(HistoryProvider::Zsh, source), vec!["ls"]);
}

#[test]
fn empty_source_holds_no_block() {
    for provider in [
        HistoryProvider::Zsh,
        HistoryProvider::Bash,
        HistoryProvider::Atuin,
        HistoryProvider::Fish,
    ] {
        let mut history = History::from(&provider);
        history.finish();
        assert_eq!(history.next(), None);
        assert!(history.is_exhausted());
        assert!(blocks_of(provider, b"").is_empty());
    }
}

#[test]
fn end_of_sequence_is_final() {
    let mut history = History::from(&HistoryProvider::Zsh);
    history.feed(b"ls\necho a\\\n");
    history.finish();
    assert_eq!(history.next(), Some("ls".to_string()));
    assert_eq!(history.next(), Some("echo a".to_string()));
    for _ in 0..5 {
        assert_eq!(history.next(), None);
        assert!(history.is_exhausted());
    }
    history.feed(b"pwd\n");
    history.finish();
    assert_eq!(history.next(), None);
    assert!(history.drain().is_empty());
}
