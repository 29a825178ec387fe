use neil_blueprint::cluster_tree::{build_child_box, cluster_lines, render_cluster_card, ChildCard, ChildKind};
use neil_blueprint::styled::{Piece, Tone};

const REPORT: &str = r#"{"node_id": "node-1", "timestamp": "12:00", "pending_promotions_count": 7,
 "main": {"name": "neil", "status": "active", "uptime_sec": 3725, "pending_intentions": 3},
 "temps": [{"name": "temp-abc", "persona": "coder", "status": "idle", "uptime_sec": "45"}],
 "peers": [{"name": "humanizer-a", "ip": "10.0.0.2", "image": "img", "status": "active"}, {"name": "humanizer-b", "ip": "10.0.0.3", "status": "running"}, {"name": "solo", "ip": "10.0.0.9", "status": "stopped"}],
 "recent": [{"ts": "t1", "event": "spawn", "id": "neil_temp_abc", "detail": "ok"}, {"ts": "t2", "event": "complete", "id": "neil_temp_abcdef", "detail": "done"}]}"#;

fn row_text(r: &[Piece]) -> String {
    r.iter().flat_map(|p| p.text.iter()).collect()
}

fn rows_text(rs: &[Vec<Piece>]) -> Vec<String> {
    rs.iter().map(|r| row_text(r)).collect()
}

fn sp(n: usize) -> String {
    " ".repeat(n)
}

#[test]
fn tree_while_loading_and_on_failure() {
    assert_eq!(
        rows_text(&cluster_lines(&None, 0)),
        vec!["  Cluster data loading...", "", "  (first refresh in progress; ~2s)"]
    );
    let failed = cluster_lines(&Some("__ERROR__stderr:boom".to_string()), 0);
    assert_eq!(rows_text(&failed), vec!["  neil-cluster failed", "  boom"]);
    assert_eq!(failed[0][0].look.fg, Tone::Red);
    assert_eq!(failed[1][0].look.fg, Tone::DarkGray);
    let spawn = cluster_lines(&Some("__ERROR__spawn:no such file".to_string()), 0);
    assert_eq!(rows_text(&spawn), vec!["  error: no such file"]);
    assert_eq!(spawn[0][0].look.fg, Tone::Red);
}

#[test]
fn tree_of_main_and_children() {
    let rows = cluster_lines(&Some(REPORT.to_string()), 2);
    let t = rows_text(&rows);
    assert_eq!(t[0], "  Cluster on node-1  @ 12:00");
    assert_eq!(t[1], "");
    assert_eq!(t[2], format!("{}┌{} MAIN {}┐", sp(13), "─".repeat(20), "─".repeat(20)));
    assert!(t[3].starts_with(&format!("{}│ ● neil", sp(13))));
    assert!(t[3].contains(" up=1h2m"));
    assert_eq!(t[6], format!("{}└{}┘", sp(13), "─".repeat(46)));
    assert_eq!(t[7], format!("{}│", sp(37)));
    assert_eq!(t[8], format!("{}┌{}┼{}┐", sp(13), "─".repeat(23), "─".repeat(23)));
    assert_eq!(t[9], format!("{}▼{}▼{}▼", sp(13), sp(23), sp(23)));
    // the arrow over the selected card (the first peer) is bright
    assert_eq!(rows[9][3].look.fg, Tone::Cyan);
    assert!(rows[9][3].look.bold);
    assert_eq!(rows[9][1].look.fg, Tone::Rgb(120, 120, 120));
    let temp_top = format!("┌{} temp {}┐", "─".repeat(7), "─".repeat(7));
    let peer_top = format!("┌{} peer {}┐", "─".repeat(7), "─".repeat(7));
    assert_eq!(t[10], format!("  {}  {}  {}", temp_top, peer_top, peer_top));
    assert_eq!(t[12], format!("  │ persona=coder{}│  │ ip=10.0.0.2{}│  │ ip=10.0.0.3{}│", sp(6), sp(8), sp(8)));
    assert_eq!(t[14], format!("  │ up=45s{}│  │ status=active{}│  │ status=running{}│", sp(13), sp(6), sp(5)));
    assert_eq!(t[16], "");
    assert_eq!(t[17], format!("  {}", peer_top));
    assert_eq!(t[18], format!("  │ ? solo{}│", sp(13)));
    assert_eq!(t[23], "");
    assert_eq!(t[24], "  pending promotions: 7");
    assert_eq!(rows[24][1].look.fg, Tone::Yellow);
    assert_eq!(t[25], "");
    assert_eq!(t[26], "  Recent (last hour):");
    assert_eq!(t[27], format!("    ✓ t2 complete   abcdef{} done", sp(14)));
    assert_eq!(t[28], format!("    ▸ t1 spawn      abc{} ok", sp(17)));
    assert_eq!(t.len(), 29);
}

#[test]
fn tree_without_children() {
    let t = rows_text(&cluster_lines(&Some("{\"main\": {\"name\": \"neil\"}}".to_string()), 0));
    assert_eq!(t[0], "  Cluster on unknown  @ ?");
    assert_eq!(t[2], format!("  ┌{} MAIN {}┐", "─".repeat(20), "─".repeat(20)));
    assert_eq!(t[7], "");
    assert_eq!(t[8], "  (no live children)");
    assert_eq!(t[10], "  pending promotions: 0");
    assert_eq!(t.len(), 11);
}

#[test]
fn tree_with_one_child_drops_straight() {
    let report = "{\"temps\": [{\"name\": \"t\", \"current_task\": \"a very long task description here\"}]}";
    let t = rows_text(&cluster_lines(&Some(report.to_string()), 1));
    assert_eq!(t[7], format!("{}│", sp(26)));
    assert_eq!(t[8], format!("{}│", sp(26)));
    assert_eq!(t[9], format!("{}▼", sp(26)));
    assert_eq!(t[14], format!("{}│ task: a very long t│", sp(15)));
}

#[test]
fn child_box_frames() {
    let c = ChildCard {
        kind: ChildKind::Peer,
        name: "a-rather-long-peer-name".to_string(),
        status: "error".to_string(),
        line1: "ip=1".chars().collect(),
        line2: "img=x".chars().collect(),
        line3: "status=error".chars().collect(),
    };
    let b = build_child_box(&c, true, 22);
    assert_eq!(b.len(), 6);
    assert_eq!(row_text(&b[1]), "│ ✗ a-rather-long-pee│");
    assert_eq!(b[0][0].look.fg, Tone::Cyan);
    assert!(b[0][0].look.bold);
    assert_eq!(b[0][2].look.fg, Tone::Rgb(100, 200, 200));
    assert_eq!(b[1][1].look.fg, Tone::Red);
    let plain = build_child_box(&c, false, 22);
    assert_eq!(plain[0][0].look.fg, Tone::DarkGray);
    assert!(!plain[0][0].look.bold);
}

#[test]
fn cluster_card_row() {
    let r = render_cluster_card("temp", "t1", "coder", "ephemeral", "active", "125", Some("fix it"), Tone::Yellow);
    assert_eq!(row_text(&r), "  [temp]    ● t1 persona=coder mem=ephemeral up=2m5s\n      task: fix it");
    assert_eq!(r[1].look.fg, Tone::Green);
    let r = render_cluster_card("main", "m", "p", "full", "idle", "5", None, Tone::Cyan);
    assert_eq!(row_text(&r), "  [main]    ○ m persona=p mem=full up=5s");
}
