use shell_history::{History, HistoryProvider};

const LOG: &[u8] = b"ls -la\necho a\\\n\n  b \\\nc\n#7\r\n  cd /tmp  \n\xffx\\\n";

fn at_once(provider: HistoryProvider, source: &[u8]) -> Vec<String> {
    let mut history = History::from(&provider);
    history.feed(source);
    history.finish();
    history.drain()
}

fn in_pieces(provider: HistoryProvider, source: &[u8], size: usize) -> Vec<String> {
    let mut history = History::from(&provider);
    let mut blocks = Vec::new();
    for piece in source.chunks(size) {
        history.feed(piece);
        while let Some(block) = history.next() {
            blocks.push(block);
        }
        assert!(!history.is_finished());
    }
    history.finish();
    assert!(history.is_finished());
    while let Some(block) = history.next() {
        blocks.push(block);
    }
    assert!(history.is_exhausted());
    blocks
}

#[test]
fn whole_log_at_once() {
    assert_eq!(
        at_once(HistoryProvider::Zsh, LOG),
        vec!["ls -la", "echo ab c", "#7", "cd /tmp", "\u{fffd}x"]
    );
    assert_eq!(
        at_once(HistoryProvider::Bash, LOG),
        vec!["ls -la", "echo a\\", "", "b \\", "c", "cd /tmp", "\u{fffd}x\\"]
    );
}

#[test]
fn blocks_do_not_depend_on_the_pieces() {
    for provider in [HistoryProvider::Zsh, HistoryProvider::Bash] {
        let whole = at_once(provider, LOG);
        for size in 1..=LOG.len() + 1 {
            assert_eq!(in_pieces(provider, LOG, size), whole);
        }
    }
}

#[test]
fn multibyte_character_may_be_split_between_pieces() {
    let source = "echo \u{8d8a}\u{1f600}\n".as_bytes();
    for size in 1..source.len() {
        assert_eq!(in_pieces(HistoryProvider::Fish, source, size), vec!["echo \u{8d8a}\u{1f600}"]);
    }
}

#[test]
fn line_without_its_newline_waits() {
    let mut history = History::from(&HistoryProvider::Zsh);
    assert_eq!(history.next(), None);
    history.feed(b"ec");
    assert_eq!(history.next(), None);
    assert!(!history.is_exhausted());
    history.feed(b"ho a");
    assert_eq!(history.next(), None);
    history.feed(b"\nls");
    assert_eq!(history.next(), Some("echo a".to_string()));
    assert_eq!(history.next(), None);
    history.finish();
    assert_eq!(history.next(), Some("ls".to_string()));
    assert_eq!(history.next(), None);
    assert!(history.is_exhausted());
}

#[test]
fn continued_block_waits_for_its_end() {
    let mut history = History::from(&HistoryProvider::Atuin);
    history.feed(b"echo a\\\n");
    assert_eq!(history.next(), None);
    assert_eq!(history.next(), None);
    history.feed(b"b\\\n");
    assert_eq!(history.next(), None);
    history.feed(b"c\npwd\n");
    assert_eq!(history.next(), Some("echo abc".to_string()));
    assert_eq!(history.next(), Some("pwd".to_string()));
    assert_eq!(history.next(), None);
}

#[test]
fn request_reads_no_further_than_its_block() {
    let mut history = History::from(&HistoryProvider::Bash);
    history.feed(b"#1\nls\n#2\npwd\n");
    assert_eq!(history.next(), Some("ls".to_string()));
    history.abort();
    assert_eq!(history.next(), None);
    assert!(history.is_exhausted());
}

#[test]
fn drain_hands_out_what_is_complete() {
    let mut history = History::from(&HistoryProvider::Zsh);
    history.feed(b"ls\npwd\necho a\\\nb");
    assert_eq!(history.drain(), vec!["ls", "pwd"]);
    assert!(history.drain().is_empty());
    history.feed(b"c\n");
    assert_eq!(history.drain(), vec!["echo abc"]);
    history.finish();
    assert!(history.drain().is_empty());
    assert!(history.is_exhausted());
}

#[test]
fn abort_drops_the_block_in_progress() {
    let mut history = History::from(&HistoryProvider::Zsh);
    history.feed(b"echo a\\\nb");
    assert_eq!(history.next(), None);
    history.abort();
    assert!(history.is_finished());
    assert!(history.is_exhausted());
    assert_eq!(history.next(), None);
    history.feed(b"ls\n");
    assert_eq!(history.next(), None);
}

#[test]
fn bytes_after_the_end_are_ignored() {
    let mut history = History::from(&HistoryProvider::Zsh);
    history.feed(b"ls\n");
    history.finish();
    history.feed(b"pwd\n");
    assert_eq!(history.drain(), vec!["ls"]);
    assert!(history.is_exhausted());
}

#[test]
fn parser_keeps_its_provider() {
    for provider in [
        HistoryProvider::Zsh,
        HistoryProvider::Bash,
        HistoryProvider::Atuin,
        HistoryProvider::Fish,
    ] {
        let mut history = History::from(&provider);
        assert_eq!(history.provider(), provider);
        assert!(!history.is_finished());
        assert!(!history.is_exhausted());
        history.feed(b"ls\n");
        history.next();
        history.finish();
        assert_eq!(history.provider(), provider);
    }
}
