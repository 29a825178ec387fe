use neil_blueprint::blocks::{is_action_line, looks_like_path, split_action};
use neil_blueprint::stream::{DiffLine, EntryKind, RichBlock, StreamEntry};

fn stamped(mut e: StreamEntry, time: String) -> StreamEntry {
    e.time = time;
    e
}

fn entry(content: &str) -> StreamEntry {
    stamped(StreamEntry::new(EntryKind::Neil, content.to_string()), "12:00".to_string())
}

fn chars(s: &str) -> Vec<char> {
    s.chars().collect()
}

fn text(v: &[char]) -> String {
    v.iter().collect()
}

#[test]
fn plain_text_is_one_block() {
    let e = entry("hello\nworld");
    assert_eq!(e.blocks.len(), 1);
    match &e.blocks[0] {
        RichBlock::Text(t) => assert_eq!(t, "hello\nworld"),
        other => panic!("unexpected {:?}", other),
    }
    assert_eq!(e.time, "12:00");
    assert!(matches!(e.kind, EntryKind::Neil));
}

#[test]
fn empty_content_is_one_empty_text() {
    let e = entry("");
    assert_eq!(e.blocks.len(), 1);
    assert!(matches!(&e.blocks[0], RichBlock::Text(t) if t.is_empty()));
}

#[test]
fn action_lines_become_tool_calls() {
    let e = entry("MEMORY: remember x\nthen text");
    assert_eq!(e.blocks.len(), 2);
    match &e.blocks[0] {
        RichBlock::ToolCall { action, detail } => {
            assert_eq!(action, "MEMORY");
            assert_eq!(detail, "remember x");
        },
        other => panic!("unexpected {:?}", other),
    }
    assert!(matches!(&e.blocks[1], RichBlock::Text(t) if t == "then text"));
}

#[test]
fn code_fence_after_text() {
    let e = entry("Look:\n```rust\nfn main() {}\n```");
    assert_eq!(e.blocks.len(), 2);
    assert!(matches!(&e.blocks[0], RichBlock::Text(t) if t == "Look:"));
    match &e.blocks[1] {
        RichBlock::Code { lang, content } => {
            assert_eq!(lang, "rust");
            assert_eq!(content, "fn main() {}");
        },
        other => panic!("unexpected {:?}", other),
    }
}

#[test]
fn shell_fence_is_a_command() {
    let e = entry("```bash\n$ ls -la\nfile1\nfile2\n```");
    assert_eq!(e.blocks.len(), 1);
    match &e.blocks[0] {
        RichBlock::Command { cmd, output } => {
            assert_eq!(cmd, "ls -la");
            assert_eq!(output, "file1\nfile2");
        },
        other => panic!("unexpected {:?}", other),
    }
}

#[test]
fn diff_with_file_hint_is_a_file_edit() {
    let e = entry("Editing `src/main.rs`:\n```rust\n+added\n-removed\n context\n```");
    assert_eq!(e.blocks.len(), 1);
    match &e.blocks[0] {
        RichBlock::FileEdit { path, lang, lines } => {
            assert_eq!(path, "src/main.rs");
            assert_eq!(lang, "rust");
            assert_eq!(lines.len(), 3);
            assert!(matches!(&lines[0], DiffLine::Added(s) if s == "added"));
            assert!(matches!(&lines[1], DiffLine::Removed(s) if s == "removed"));
            assert!(matches!(&lines[2], DiffLine::Context(s) if s == "context"));
        },
        other => panic!("unexpected {:?}", other),
    }
}

#[test]
fn show_table_and_unknown() {
    let e = entry("SHOW: type=table | a, b\\nc, d");
    match &e.blocks[0] {
        RichBlock::Table { headers, rows } => {
            assert_eq!(headers, &vec!["a".to_string(), "b".to_string()]);
            assert_eq!(rows, &vec![vec!["c".to_string(), "d".to_string()]]);
        },
        other => panic!("unexpected {:?}", other),
    }
    let u = entry("SHOW: type=foo | bar");
    assert!(matches!(&u.blocks[0], RichBlock::Text(t) if t == "[SHOW:foo] bar"));
    let d = entry("SHOW: type=diagram | a\\nb");
    assert!(matches!(&d.blocks[0], RichBlock::Diagram(t) if t == "a\nb"));
}

#[test]
fn text_length_and_line_count() {
    let e = entry("héllo");
    assert_eq!(e.total_text_len(), 6);
    assert_eq!(e.line_count(80), 3);
    let c = entry("```bash\n$ ls\nx\n```");
    // command: 1 + 1 cmd line + (1 output line + 1)
    assert_eq!(c.total_text_len(), 3);
    assert_eq!(c.line_count(80), 6);
}

#[test]
fn action_line_helpers() {
    assert!(is_action_line(&chars("  CALL: weather")));
    assert!(!is_action_line(&chars("call: weather")));
    let (a, d) = split_action(&chars("  NOTIFY:  hello there "));
    assert_eq!(text(&a), "NOTIFY");
    assert_eq!(text(&d), "hello there");
    assert!(looks_like_path(&chars("a/b")));
    assert!(looks_like_path(&chars("x.toml")));
    assert!(!looks_like_path(&chars("ab")));
    assert!(!looks_like_path(&chars("notes.docx")));
}

#[test]
fn new_entry_is_stamped_with_the_clock() {
    let e = StreamEntry::new(EntryKind::Human, "hi".to_string());
    let t: Vec<char> = e.time.chars().collect();
    assert_eq!(t.len(), 5);
    assert_eq!(t[2], ':');
    assert!(t[0].is_ascii_digit() && t[1].is_ascii_digit() && t[3].is_ascii_digit() && t[4].is_ascii_digit());
}
