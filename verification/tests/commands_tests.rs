use neil_blueprint::commands::{
    help_text_exec, history_report_exec, queued_message, status_report_exec, unknown_command_text_exec,
};

fn chars(s: &str) -> Vec<char> {
    s.chars().collect()
}

#[test]
fn status_reply() {
    assert_eq!(
        status_report_exec(120, 5, Some(48), 2, 1, 3),
        "Notes: 120 | Beats: 5/48 | Queue: 2 | Failures: 1 | Intents: 3"
    );
    assert_eq!(status_report_exec(0, 7, None, 0, 0, 0), "Notes: 0 | Beats: 7 | Queue: 0 | Failures: 0 | Intents: 0");
}

#[test]
fn help_reply_lists_commands() {
    let h = help_text_exec();
    assert!(h.starts_with("/clear - Clear chat\n/status - System status\n"));
    assert_eq!(h.lines().count(), 10);
}

#[test]
fn history_reply_newest_first() {
    assert_eq!(history_report_exec(&Vec::new()), "(no history)");
    let h = vec![chars("one"), chars("two"), chars("/history")];
    assert_eq!(history_report_exec(&h), "  1: /history\n  2: two\n  3: one");
    let many: Vec<Vec<char>> = (0..12).map(|i| chars(&format!("p{}", i))).collect();
    let r = history_report_exec(&many);
    assert_eq!(r.lines().count(), 10);
    assert!(r.starts_with("  1: p11\n"));
    assert!(r.ends_with("  10: p2"));
    let long = vec![chars(&"z".repeat(70))];
    assert_eq!(history_report_exec(&long), format!("  1: {}", "z".repeat(60)));
}

#[test]
fn unknown_reply() {
    assert_eq!(unknown_command_text_exec(&chars("/nope")), "Unknown command: /nope. Type /help for commands.");
}

#[test]
fn outgoing_message_limit() {
    let (n, m) = queued_message("hello");
    assert_eq!(n, None);
    assert_eq!(m, "hello");
    let big = "a".repeat(50_001);
    let (n2, m2) = queued_message(&big);
    assert_eq!(n2, Some("Message too large (50001 chars, max 50000). Truncated.".to_string()));
    assert_eq!(m2.len(), 50_000);
    let exact = "b".repeat(50_000);
    assert_eq!(queued_message(&exact).0, None);
}
