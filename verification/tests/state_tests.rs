use neil_blueprint::awareness::{
    blueprint_state, input_age_label_exec, input_summary_exec, last_user_message_exec, view_label_exec,
};
use neil_blueprint::console::{Console, Screen};
use neil_blueprint::heartbeat_view::{heartbeat_list_rows, section_list_rows};
use neil_blueprint::panel_view::{failures_panel_rows, intentions_panel_rows};
use neil_blueprint::state::{
    count_pending_intentions, count_unresolved_failures, has_extension, summarize_heartbeats, Failure,
    HeartbeatEntry, Intention,
};
use neil_blueprint::stream::{EntryKind, StreamEntry};
use neil_blueprint::styled::{Piece, Tone};

fn stamped(mut e: StreamEntry, time: String) -> StreamEntry {
    e.time = time;
    e
}

fn row_text(r: &[Piece]) -> String {
    r.iter().flat_map(|p| p.text.iter()).collect()
}

fn rows_text(rs: &[Vec<Piece>]) -> Vec<String> {
    rs.iter().map(|r| row_text(r)).collect()
}

fn beat(ts: &str, status: &str, summary: &str, action: &str, question: &str) -> HeartbeatEntry {
    HeartbeatEntry {
        timestamp: ts.to_string(),
        prompt: String::new(),
        status: status.to_string(),
        summary: summary.to_string(),
        action: action.to_string(),
        question: question.to_string(),
        improvement: String::new(),
        contribution: String::new(),
    }
}

fn intention(status: &str, priority: &str, desc: &str) -> Intention {
    Intention {
        created: "2024-05-01".to_string(),
        priority: priority.to_string(),
        due: String::new(),
        tag: String::new(),
        description: desc.to_string(),
        status: status.to_string(),
    }
}

fn failure(resolution: &str) -> Failure {
    Failure {
        timestamp: "t".to_string(),
        source: "s".to_string(),
        error: "e".to_string(),
        severity: "high".to_string(),
        resolution: resolution.to_string(),
    }
}

#[test]
fn heartbeat_summary_counts_today() {
    let es = vec![
        beat("2024-05-01T09:00", "ok", "a", "", ""),
        beat("2024-05-02T09:00", "acted", "b", "", ""),
        beat("2024-05-02T10:00", "error", "c", "", ""),
    ];
    let hb = summarize_heartbeats(es, "2024-05-02");
    assert_eq!(hb.beats_today, 2);
    assert_eq!(hb.last_beat, "2024-05-02T10:00");
    assert_eq!(hb.entries.len(), 3);
    let empty = summarize_heartbeats(Vec::new(), "2024-05-02");
    assert_eq!(empty.beats_today, 0);
    assert_eq!(empty.last_beat, "");
}

#[test]
fn heartbeat_list_rows_text() {
    let es = vec![beat("09:00", "ok", "quiet", "", ""), beat("10:00", "acted", "x", "filed notes", "why?")];
    let hb = summarize_heartbeats(es, "zzz");
    let rows = heartbeat_list_rows(&hb, Some(48), 1);
    let t = rows_text(&rows);
    assert_eq!(t[0], "Beats today: 0/48 | Last: 10:00");
    assert_eq!(t[1], "");
    assert_eq!(t[2], "   09:00 [ok]   quiet");
    assert_eq!(t[3], " > 10:00 [acted] + filed notes");
    assert_eq!(rows[2][2].look.fg, Tone::Green);
    assert_eq!(rows[3][2].look.fg, Tone::Cyan);
    assert_eq!(t.len(), 4);
    let none = summarize_heartbeats(Vec::new(), "x");
    let t2 = rows_text(&heartbeat_list_rows(&none, None, 0));
    assert_eq!(t2, vec!["Beats today: 0 | Last: ".to_string(), "".to_string(), "  No heartbeats recorded yet".to_string()]);
}

#[test]
fn heartbeat_sections_menu() {
    let rows = section_list_rows(1);
    let t = rows_text(&rows);
    assert_eq!(
        t,
        vec!["", "   ACTION", "", " > QUESTION", "", "   IMPROVEMENT", "", "   CONTRIBUTION", "", "   COMMAND LOG", ""]
            .iter()
            .map(|x| x.to_string())
            .collect::<Vec<String>>()
    );
    assert_eq!(rows[3][1].look.fg, Tone::Rgb(255, 200, 100));
    assert!(rows[3][1].look.bold);
}

#[test]
fn pending_counts() {
    let is = vec![intention("pending", "high", "a"), intention("done", "low", "b"), intention("pending", "low", "c")];
    assert_eq!(count_pending_intentions(&is), 2);
    let fs = vec![failure("pending"), failure("fixed")];
    assert_eq!(count_unresolved_failures(&fs), 1);
    assert!(has_extension("a.md", "md"));
    assert!(!has_extension("a.mdx", "md"));
    assert!(!has_extension("md", "md"));
}

#[test]
fn intentions_and_failures_panels() {
    let is = vec![intention("pending", "high", "write tests"), intention("done", "low", "ship")];
    let t = rows_text(&intentions_panel_rows(&is));
    assert_eq!(t[0], "Pending: 1 | Completed: 0");
    assert_eq!(t[2], "  PENDING");
    assert_eq!(t[3], "  [high] write tests");
    assert_eq!(t[5], "  COMPLETED");
    assert_eq!(t.len(), 6);
    let is2 = vec![intention("completed", "low", "old"), intention("completed", "low", "new")];
    let t2 = rows_text(&intentions_panel_rows(&is2));
    assert_eq!(t2[5], "  [done] new");
    assert_eq!(t2[6], "  [done] old");
    let f = rows_text(&failures_panel_rows(&[failure("pending")]));
    assert!(!f.is_empty());
}

#[test]
fn snapshot_labels() {
    assert_eq!(view_label_exec(Screen::Chat), "chat");
    assert_eq!(view_label_exec(Screen::PanelSelector), "panel_selector");
    assert_eq!(view_label_exec(Screen::Panel(7)), "panel:Cluster");
    assert_eq!(view_label_exec(Screen::Panel(42)), "panel:?");
    assert_eq!(input_summary_exec(&[]), "");
    assert_eq!(input_summary_exec(&"héllo".chars().collect::<Vec<char>>()), "(6 chars)");
    assert_eq!(input_age_label_exec(42), "42s ago");
    assert_eq!(input_age_label_exec(3600), "inactive");
}

#[test]
fn snapshot_last_user_message() {
    let long = "y".repeat(100);
    let s = vec![
        stamped(StreamEntry::new(EntryKind::Human, long.clone()), "t".to_string()),
        stamped(StreamEntry::new(EntryKind::Neil, "reply".to_string()), "t".to_string()),
    ];
    assert_eq!(last_user_message_exec(&s), "y".repeat(80));
    let s2 = vec![stamped(StreamEntry::new(EntryKind::Human, "```rust\nx\n```".to_string()), "t".to_string())];
    assert_eq!(last_user_message_exec(&s2), "");
    assert_eq!(last_user_message_exec(&[]), "");
}

#[test]
fn snapshot_of_console() {
    let c = Console::new(Vec::new());
    let s = vec![stamped(StreamEntry::new(EntryKind::Human, "hello".to_string()), "t".to_string())];
    let b = blueprint_state(&c, (120, 40), &s, 30, false, 0);
    assert!(b.running);
    assert_eq!(b.timestamp.len(), 19);
    assert_eq!(b.timestamp.chars().nth(10), Some('T'));
    assert_eq!(b.view, "chat");
    assert_eq!(b.terminal_size, (120, 40));
    assert_eq!(b.stream_length, 1);
    assert_eq!(b.input_buffer, "");
    assert_eq!(b.last_user_message, "hello");
    assert!(b.user_active);
    assert_eq!(b.last_input_time, "30s ago");
    assert!(b.sidebar_visible);
    assert!(!b.streaming);
}
