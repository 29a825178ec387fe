use neil_blueprint::history::{
    cap_stream, heartbeat_summaries, is_pending_notice, prompt_history, push_activity,
    sorted_result_files, take_new_result, take_result,
};
use neil_blueprint::stream::{EntryKind, RichBlock, StreamEntry};

fn stamped(mut e: StreamEntry, time: String) -> StreamEntry {
    e.time = time;
    e
}

fn result_file(prompt: &str, output: &str) -> String {
    format!("# Result\n## Prompt\n```\n{}\n```\n## Output\n```\n{}\n```\n", prompt, output)
}

fn text_of(e: &StreamEntry) -> String {
    match &e.blocks[0] {
        RichBlock::Text(t) => t.clone(),
        other => format!("{:?}", other),
    }
}

fn text(v: &[char]) -> String {
    v.iter().collect()
}

fn sys(t: &str) -> StreamEntry {
    stamped(StreamEntry::new(EntryKind::System, t.to_string()), "08:00".to_string())
}

#[test]
fn summaries_from_heartbeat_lines() {
    let out = "noise\nHEARTBEAT: status=ok summary=\"all quiet\"\nHEARTBEAT: no summary here\n";
    assert_eq!(heartbeat_summaries(out), vec!["all quiet".to_string()]);
    let long = format!("HEARTBEAT: summary=\"{}\"", "x".repeat(70));
    assert_eq!(heartbeat_summaries(&long), vec!["x".repeat(60)]);
}

#[test]
fn activity_list_drops_oldest_ten_past_twenty() {
    let mut a: Vec<String> = (0..20).map(|i| i.to_string()).collect();
    push_activity(&mut a, "new".to_string());
    assert_eq!(a.len(), 11);
    assert_eq!(a[0], "10");
    assert_eq!(a[10], "new");
    let mut b: Vec<String> = vec!["x".to_string()];
    push_activity(&mut b, "y".to_string());
    assert_eq!(b, vec!["x".to_string(), "y".to_string()]);
}

#[test]
fn stream_capped_to_last_eighty() {
    let mut s: Vec<StreamEntry> = (0..101).map(|i| sys(&i.to_string())).collect();
    assert!(cap_stream(&mut s));
    assert_eq!(s.len(), 80);
    assert_eq!(text_of(&s[0]), "21");
    let mut t: Vec<StreamEntry> = (0..100).map(|i| sys(&i.to_string())).collect();
    assert!(!cap_stream(&mut t));
    assert_eq!(t.len(), 100);
}

#[test]
fn startup_user_result_goes_to_stream() {
    let mut s = Vec::new();
    let mut a = Vec::new();
    take_result("20240101_ask.result.md", &result_file("what time?", "noon"), &mut s, &mut a);
    assert_eq!(s.len(), 2);
    assert!(matches!(s[0].kind, EntryKind::Human));
    assert_eq!(text_of(&s[0]), "what time?");
    assert!(matches!(s[1].kind, EntryKind::Neil));
    assert_eq!(text_of(&s[1]), "noon");
    assert!(a.is_empty());
}

#[test]
fn startup_heartbeat_result_goes_to_activity() {
    let mut s = Vec::new();
    let mut a = Vec::new();
    take_result(
        "20240101_heartbeat.result.md",
        &result_file("# Heartbeat", "HEARTBEAT: summary=\"checked mail\""),
        &mut s,
        &mut a,
    );
    assert!(s.is_empty());
    assert_eq!(a, vec!["checked mail".to_string()]);
}

#[test]
fn new_result_replaces_waiting_notice() {
    let mut s = vec![sys("sending to neil...")];
    assert!(is_pending_notice(&s[0]));
    let mut a = Vec::new();
    let follow = take_new_result("x_ask.result.md", &result_file("q", "answer"), &mut s, &mut a);
    assert!(follow);
    assert_eq!(s.len(), 1);
    assert!(matches!(s[0].kind, EntryKind::Neil));
    assert_eq!(text_of(&s[0]), "answer");
    assert_eq!(s[0].time.len(), 5);
}

#[test]
fn new_result_with_empty_output_is_ignored() {
    let mut s = vec![sys("thinking")];
    let mut a = Vec::new();
    assert!(!take_new_result("x_ask.result.md", &result_file("q", ""), &mut s, &mut a));
    assert_eq!(s.len(), 1);
    assert!(!take_new_result("x_ask.result.md", "no sections", &mut s, &mut a));
}

#[test]
fn new_heartbeat_result_goes_to_activity() {
    let mut s = Vec::new();
    let mut a = Vec::new();
    let follow = take_new_result(
        "y_wakeup.result.md",
        &result_file("# Wake Up", "HEARTBEAT: summary=\"woke\""),
        &mut s,
        &mut a,
    );
    assert!(!follow);
    assert!(s.is_empty());
    assert_eq!(a, vec!["woke".to_string()]);
}

#[test]
fn recall_history_skips_background_prompts() {
    let files = vec![
        result_file("  first question ", "a"),
        result_file("# Heartbeat\nroutine", "b"),
        result_file("[EVENT] webhook", "c"),
        result_file("second", "d"),
        "no prompt section".to_string(),
    ];
    let h = prompt_history(&files);
    let ht: Vec<String> = h.iter().map(|p| text(p)).collect();
    assert_eq!(ht, vec!["first question".to_string(), "second".to_string()]);
}

#[test]
fn result_files_sorted() {
    let names: Vec<String> = vec!["b.result.md", "notes.txt", "a.result.md", "c.md"].iter().map(|s| s.to_string()).collect();
    let r: Vec<String> = sorted_result_files(&names).iter().map(|p| text(p)).collect();
    assert_eq!(r, vec!["a.result.md".to_string(), "b.result.md".to_string()]);
}
