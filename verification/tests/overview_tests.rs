use neil_blueprint::cluster::PeerInstance;
use neil_blueprint::cluster_cards::{
    activity_dot, format_last_seen, latest_peer_sends, main_box_rows, peer_activity, peer_session_from_state, peer_sessions_of, peer_card_rows, tiny_layout_rows, PeerActivity,
    PeerSession,
};
use neil_blueprint::cluster_tiers::{blocks_layout_rows, cluster_lines_responsive, cluster_overview_rows, narrow_layout_rows};
use neil_blueprint::cluster_view::main_info;
use neil_blueprint::styled::{Piece, Tone};

fn row_text(r: &[Piece]) -> String {
    r.iter().flat_map(|p| p.text.iter()).collect()
}

fn rows_text(rs: &[Vec<Piece>]) -> Vec<String> {
    rs.iter().map(|r| row_text(r)).collect()
}

fn peer(name: &str, ip: &str, status: &str) -> PeerInstance {
    PeerInstance { name: name.to_string(), ip: ip.to_string(), image: "?".to_string(), status: status.to_string() }
}

fn unknown() -> PeerActivity {
    PeerActivity { session: PeerSession::Unknown, age_minutes: None }
}

fn peers() -> Vec<PeerInstance> {
    vec![peer("humanizer-b", "10.0.0.3", "running"), peer("humanizer-a", "10.0.0.2", "active"), peer("solo", "10.0.0.9", "stopped")]
}

fn ordered() -> Vec<PeerInstance> {
    vec![peer("humanizer-a", "10.0.0.2", "active"), peer("humanizer-b", "10.0.0.3", "running"), peer("solo", "10.0.0.9", "stopped")]
}

fn sp(n: usize) -> String {
    " ".repeat(n)
}

#[test]
fn activity_marks() {
    let a = |s, m| PeerActivity { session: s, age_minutes: m };
    assert_eq!(activity_dot(a(PeerSession::Completed, None)), ('✓', Tone::Rgb(80, 220, 110)));
    assert_eq!(activity_dot(a(PeerSession::Stalled, Some(1))), ('○', Tone::Rgb(220, 80, 80)));
    assert_eq!(activity_dot(a(PeerSession::Unknown, Some(30))), ('●', Tone::Rgb(80, 220, 110)));
    assert_eq!(activity_dot(a(PeerSession::Unknown, Some(120))), ('◐', Tone::Rgb(220, 200, 80)));
    assert_eq!(activity_dot(a(PeerSession::Unknown, Some(2880))), ('○', Tone::Rgb(220, 80, 80)));
    assert_eq!(activity_dot(a(PeerSession::Unknown, None)), ('○', Tone::Rgb(220, 80, 80)));
}

#[test]
fn last_seen_texts() {
    let a = |s, m| PeerActivity { session: s, age_minutes: m };
    let t = |x: PeerActivity| format_last_seen(x).iter().collect::<String>();
    assert_eq!(t(a(PeerSession::Completed, Some(5))), "closed (synthesized)");
    assert_eq!(t(a(PeerSession::Unknown, None)), "last seen never");
    assert_eq!(t(a(PeerSession::Stalled, Some(0))), "last seen just now");
    assert_eq!(t(a(PeerSession::Unknown, Some(5))), "last seen 5m ago");
    assert_eq!(t(a(PeerSession::Unknown, Some(125))), "last seen 2h ago");
    assert_eq!(t(a(PeerSession::Unknown, Some(3000))), "last seen 2d ago");
}

#[test]
fn peer_card_frame() {
    let last: Vec<char> = "last seen never".chars().collect();
    let c = peer_card_rows(&peer("humanizer-a", "10.0.0.2", "active"), &last, '●', Tone::Green, true, 24);
    let t = rows_text(&c);
    assert_eq!(t.len(), 6);
    assert_eq!(t[0], format!("┌{}┐", "─".repeat(22)));
    assert_eq!(t[1], format!("│ ● humanizer-a{}│", sp(8)));
    assert_eq!(t[2], format!("│ status=active{}│", sp(8)));
    assert_eq!(t[3], format!("│ ip=10.0.0.2{}│", sp(10)));
    assert_eq!(t[4], format!("│ last seen never{}│", sp(6)));
    assert_eq!(t[5], format!("└{}┘", "─".repeat(22)));
    assert_eq!(c[0][0].look.fg, Tone::Cyan);
    assert!(c[0][0].look.bold);
    assert_eq!(c[2][2].look.fg, Tone::Green);
    // a narrow card cuts the text
    let n = rows_text(&peer_card_rows(&peer("averyveryverylongname", "x", "idle"), &last, '○', Tone::Red, false, 10));
    assert_eq!(n[1], "│ ○ avery│");
    assert_eq!(n[2], "│ status=│");
}

#[test]
fn main_box_frame() {
    let t = rows_text(&main_box_rows("neil", "active", "default", "full", "3725", "write tests", "3", false, 46));
    assert_eq!(t.len(), 5);
    assert_eq!(t[0], format!("┌{} MAIN {}┐", "─".repeat(20), "─".repeat(20)));
    assert_eq!(t[1], format!("│ ● neil{} up=1h2m{}│", sp(14), sp(17)));
    assert_eq!(t[2], format!("│ persona=default  mem=full  pending=3{}│", sp(9)));
    assert_eq!(t[3], format!("│ task: write tests{}│", sp(28)));
    assert_eq!(t[4], format!("└{}┘", "─".repeat(46)));
}

#[test]
fn tiny_tree() {
    let ps = peers();
    let acts = vec![unknown(), unknown(), unknown()];
    let t = rows_text(&tiny_layout_rows("neil", true, &ps, &acts, 0));
    assert_eq!(
        t,
        vec![
            "▶ ● neil".to_string(),
            "  ├─ ○   humanizer-a ↔ humanizer-b".to_string(),
            "  ├─ ○   humanizer-b ↔ humanizer-a".to_string(),
            "  └─ ○   solo".to_string(),
        ]
    );
    let t2 = rows_text(&tiny_layout_rows("neil", true, &ps, &acts, 2));
    assert_eq!(t2[0], "  ● neil");
    assert_eq!(t2[1], "  ├─ ○ ▶ humanizer-a ↔ humanizer-b");
}

#[test]
fn narrow_column() {
    let ps = ordered();
    let acts = vec![unknown(), unknown(), unknown()];
    let t = rows_text(&narrow_layout_rows("neil", true, &ps, &acts, 0, 60));
    assert_eq!(t.len(), 18);
    assert_eq!(t[0], format!("{}● neil", sp(28)));
    assert_eq!(t[1], format!("{}│", sp(30)));
    assert_eq!(t[2], format!("{}── humanizer pair ──", sp(21)));
    assert_eq!(t[3], format!("{}┌{}┐", sp(4), "─".repeat(52)));
    assert_eq!(t[4], format!("{}│ ○ humanizer-a{}│", sp(4), sp(38)));
    assert_eq!(t[9], format!("{}↕ pair", sp(27)));
    assert_eq!(t[16], "");
    assert_eq!(t[17], "    ○   solo");
}

#[test]
fn medium_blocks() {
    let ps = ordered();
    let acts = vec![unknown(), unknown(), unknown()];
    let rows = blocks_layout_rows("neil", "active", "default", "full", "3725", "", "3", &ps, &acts, 0, false, 90);
    let t = rows_text(&rows);
    assert_eq!(t.len(), 22);
    assert_eq!(t[0], format!("{}┌{} MAIN {}┐", sp(23), "─".repeat(18), "─".repeat(18)));
    assert_eq!(t[5], format!("{}│", sp(44)));
    assert_eq!(t[6], format!("  {}── humanizer pair ──{}", sp(33), sp(33)));
    assert_eq!(t[7], format!("  ┌{}┐ {}┌{}┐", "─".repeat(37), sp(7), "─".repeat(37)));
    assert_eq!(t[8], format!("  │ ○ humanizer-a{}│ ─pair──│ ○ humanizer-b{}│", sp(23), sp(23)));
    assert_eq!(t[13], "");
    assert_eq!(t[14], format!("  {}── solo ──{}", sp(14), sp(15)));
    assert_eq!(t[21], "");
}

#[test]
fn wide_blocks_fan_out() {
    let ps = ordered();
    let acts = vec![unknown(), unknown(), unknown()];
    let t = rows_text(&blocks_layout_rows("neil", "active", "default", "full", "3725", "", "3", &ps, &acts, 0, true, 130));
    assert_eq!(t.len(), 16);
    assert_eq!(t[0], format!("{}┌{} MAIN {}┐", sp(24), "─".repeat(27), "─".repeat(27)));
    assert_eq!(t[5], format!("{}│", sp(54)));
    let fan = format!("{}┌{}┴{}┐", sp(31), "─".repeat(22), "─".repeat(23));
    assert_eq!(t[6], fan);
    assert_eq!(t[7], format!("{}│{}│", sp(31), sp(46)));
    assert_eq!(t[15], "");
}

#[test]
fn no_peers_shows_main_and_note() {
    let t = rows_text(&blocks_layout_rows("neil", "idle", "default", "full", "5", "", "0", &[], &[], 0, false, 90));
    assert_eq!(t.len(), 7);
    assert_eq!(t[0], format!("  ┌{} MAIN {}┐", "─".repeat(20), "─".repeat(20)));
    assert_eq!(t[5], "");
    assert_eq!(t[6], "  (no live children)");
}

#[test]
fn overview_reorders_and_picks_layout() {
    let m = main_info("{\"main\": {\"name\": \"neil\", \"status\": \"active\"}}");
    let acts = vec![unknown(), unknown(), unknown()];
    let (rows, per_row) = cluster_overview_rows(&m, &peers(), &acts, 0, 35);
    assert_eq!(per_row, 1);
    assert_eq!(rows_text(&rows)[1], "  ├─ ○   humanizer-a ↔ humanizer-b");
    let (_, pr) = cluster_overview_rows(&m, &peers(), &acts, 0, 90);
    assert_eq!(pr, 2);
    let (_, pw) = cluster_overview_rows(&m, &peers(), &acts, 0, 130);
    assert_eq!(pw, 4);
}

#[test]
fn responsive_loading_and_failure() {
    let (rows, pr) = cluster_lines_responsive(&None, &[], 0, 80);
    assert_eq!(rows_text(&rows), vec!["  Cluster data loading...".to_string()]);
    assert_eq!(pr, None);
    let err = Some("__ERROR__ neil-cluster failed".to_string());
    let (rows2, pr2) = cluster_lines_responsive(&err, &[], 0, 80);
    assert_eq!(rows_text(&rows2), vec!["__ERROR__ neil-cluster failed".to_string()]);
    assert_eq!(rows2[0][0].look.fg, Tone::Red);
    assert_eq!(pr2, None);
    let report = Some("{\"main\": {\"name\": \"neil\"}, \"peers\": [{\"name\": \"p-1\"}]}".to_string());
    let (rows3, pr3) = cluster_lines_responsive(&report, &[unknown()], 1, 35);
    assert_eq!(pr3, Some(1));
    assert_eq!(rows_text(&rows3), vec!["  ● neil".to_string(), "  └─ ○ ▶ p-1".to_string()]);
}

#[test]
fn latest_sends_per_peer() {
    let log = "{\"ts\": \"t1\", \"kind\": \"peer_send\", \"peer\": \"a\"}\n\
               {\"ts\": \"t2\", \"kind\": \"creds_sync\", \"peer\": \"a\"}\n\
               {\"ts\": \"t3\", \"kind\": \"peer_send\", \"peer\": \"b\"}\r\n\
               {\"kind\": \"peer_send\", \"peer\": \"c\"}\n\
               {\"ts\": \"t4\", \"kind\": \"peer_send\", \"peer\": \"a\"}";
    let mut got = latest_peer_sends(log);
    got.sort();
    assert_eq!(got, vec![("a".to_string(), "t4".to_string()), ("b".to_string(), "t3".to_string())]);
    assert!(latest_peer_sends("").is_empty());
}

#[test]
fn sessions_from_state_names() {
    assert_eq!(peer_session_from_state("completed"), PeerSession::Completed);
    assert_eq!(peer_session_from_state("stalled"), PeerSession::Stalled);
    assert_eq!(peer_session_from_state("open"), PeerSession::Unknown);
    assert_eq!(peer_session_from_state(""), PeerSession::Unknown);
}

#[test]
fn activity_joins_sessions_and_times() {
    let ps = vec![peer("a", "1", "active"), peer("b", "2", "active"), peer("c", "3", "active")];
    let times = vec![
        ("a".to_string(), "2001-09-09T01:46:40Z".to_string()),
        ("c".to_string(), "not a time".to_string()),
    ];
    let sessions = vec![("b".to_string(), PeerSession::Completed)];
    let acts = peer_activity(&ps, &times, &sessions);
    assert_eq!(acts.len(), 3);
    assert_eq!(acts[0].session, PeerSession::Unknown);
    // more than twenty years have passed since then
    assert!(acts[0].age_minutes.unwrap() > 20 * 365 * 24 * 60);
    assert_eq!(acts[1], PeerActivity { session: PeerSession::Completed, age_minutes: None });
    assert_eq!(acts[2], PeerActivity { session: PeerSession::Unknown, age_minutes: None });
}

#[test]
fn sessions_read_from_session_file() {
    let content = r#"{"b": {"state": "stalled"}, "a": {"state": "completed"}, "c": {"state": 3}, "d": {}}"#;
    let mut got = peer_sessions_of(content);
    got.sort_by(|x, y| x.0.cmp(&y.0));
    assert_eq!(
        got,
        vec![
            ("a".to_string(), PeerSession::Completed),
            ("b".to_string(), PeerSession::Stalled),
            ("c".to_string(), PeerSession::Unknown),
            ("d".to_string(), PeerSession::Unknown),
        ]
    );
    assert!(peer_sessions_of("not json").is_empty());
    assert!(peer_sessions_of("[1, 2]").is_empty());
}
