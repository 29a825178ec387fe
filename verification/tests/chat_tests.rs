use neil_blueprint::chat_view::{build_chat_rows, ChatRow};
use neil_blueprint::stream::{EntryKind, StreamEntry};
use neil_blueprint::styled::{Look, Tone};

fn stamped(mut e: StreamEntry, time: String) -> StreamEntry {
    e.time = time;
    e
}

fn row_text(r: &ChatRow) -> String {
    match r {
        ChatRow::Styled(ps) => ps.iter().flat_map(|p| p.text.iter()).collect(),
        ChatRow::Bars { .. } => "<bars>".to_string(),
    }
}

fn first_look(r: &ChatRow) -> Look {
    match r {
        ChatRow::Styled(ps) => ps[0].look,
        ChatRow::Bars { .. } => panic!("bars"),
    }
}

fn fg(t: Tone) -> Look {
    Look { fg: t, bg: Tone::Reset, bold: false, blink: false, italic: false }
}

fn bold(t: Tone) -> Look {
    Look { fg: t, bg: Tone::Reset, bold: true, blink: false, italic: false }
}

fn stream() -> Vec<StreamEntry> {
    vec![
        stamped(StreamEntry::new(EntryKind::Human, "hi there".to_string()), "10:00".to_string()),
        stamped(StreamEntry::new(EntryKind::Neil, "## Title\n- item\nplain\n```rust\nx\n```".to_string()), "10:01".to_string()),
    ]
}

#[test]
fn conversation_rows() {
    let rows = build_chat_rows(&stream(), 20);
    let t: Vec<String> = rows.iter().map(row_text).collect();
    assert_eq!(
        t,
        vec![
            "  you  10:00".to_string(),
            "  hi there".to_string(),
            "".to_string(),
            format!("  {}", "─".repeat(18)),
            " neil  10:01".to_string(),
            "  ## Title".to_string(),
            "  - item".to_string(),
            "  plain".to_string(),
            format!("  ┌─ rust {}", "─".repeat(10)),
            "  | x".to_string(),
            format!("  └{}", "─".repeat(16)),
            "".to_string(),
        ]
    );
}

#[test]
fn conversation_looks() {
    let rows = build_chat_rows(&stream(), 20);
    assert_eq!(first_look(&rows[0]), Look { fg: Tone::Black, bg: Tone::Green, bold: false, blink: false, italic: false });
    assert_eq!(first_look(&rows[1]), fg(Tone::Green));
    assert_eq!(first_look(&rows[3]), fg(Tone::Rgb(40, 40, 40)));
    assert_eq!(first_look(&rows[4]), Look { fg: Tone::Black, bg: Tone::Cyan, bold: false, blink: false, italic: false });
    assert_eq!(first_look(&rows[5]), bold(Tone::White));
    assert_eq!(first_look(&rows[6]), fg(Tone::Cyan));
    assert_eq!(first_look(&rows[7]), fg(Tone::White));
    assert_eq!(first_look(&rows[9]), fg(Tone::Yellow));
}

#[test]
fn tool_calls_and_commands() {
    let s = vec![stamped(StreamEntry::new(EntryKind::Neil,
        "CALL: weather berlin\n```bash\n$ ls\na\nb\n```".to_string()), "09:00".to_string())];
    let rows = build_chat_rows(&s, 40);
    let t: Vec<String> = rows.iter().map(row_text).collect();
    assert_eq!(t[1], "  -> CALL: weather berlin");
    assert_eq!(first_look(&rows[1]), fg(Tone::Rgb(100, 200, 255)));
    assert_eq!(t[2], "  $ ls");
    assert_eq!(t[3], "    a");
    assert_eq!(t[4], "    b");
    assert_eq!(t.len(), 6);
}

#[test]
fn file_edit_rows() {
    let s = vec![stamped(StreamEntry::new(EntryKind::Neil,
        "Editing `src/a.rs`:\n```rust\n+new\n-old\n```".to_string()), "09:00".to_string())];
    let rows = build_chat_rows(&s, 30);
    let t: Vec<String> = rows.iter().map(row_text).collect();
    assert_eq!(t[1], format!("  ┌─ rust src/a.rs (+1, -1) {}", "─".repeat(2)));
    assert_eq!(t[2], "  | + new");
    assert_eq!(first_look(&rows[2]), fg(Tone::Green));
    assert_eq!(t[3], "  | - old");
    assert_eq!(first_look(&rows[3]), fg(Tone::Red));
    assert_eq!(t[4], format!("  └{}", "─".repeat(26)));
}

#[test]
fn empty_stream_has_no_rows() {
    assert!(build_chat_rows(&[], 20).is_empty());
}
