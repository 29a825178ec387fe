use neil_blueprint::palace::build_palace;
use neil_blueprint::panels::{HeaderPanel, HeartbeatPanel, IntentionsPanel, MemoryPanel, Mood, SealPanel, StatusPanel, SystemPanel};
use neil_blueprint::seal_art::render_seal;
use neil_blueprint::state::{HeartbeatEntry, Intention};
use neil_blueprint::styled::{Piece, Tone};

fn row_text(r: &[Piece]) -> String {
    r.iter().flat_map(|p| p.text.iter()).collect()
}

fn rows_text(rs: &[Vec<Piece>]) -> Vec<String> {
    rs.iter().map(|r| row_text(r)).collect()
}

fn beat(ts: &str, summary: &str) -> HeartbeatEntry {
    HeartbeatEntry {
        timestamp: ts.to_string(),
        prompt: String::new(),
        status: "ok".to_string(),
        summary: summary.to_string(),
        action: String::new(),
        question: String::new(),
        improvement: String::new(),
        contribution: String::new(),
    }
}

fn intention(priority: &str, desc: &str, due: &str, tag: &str, status: &str) -> Intention {
    Intention {
        created: String::new(),
        priority: priority.to_string(),
        due: due.to_string(),
        tag: tag.to_string(),
        description: desc.to_string(),
        status: status.to_string(),
    }
}

#[test]
fn header_and_status_lines() {
    let h = HeaderPanel.render("2024-05-01 Wed 10:00:00", 41, 2);
    assert_eq!(row_text(&h), " NEIL  | 2024-05-01 Wed 10:00:00 | beats: 41/50 | queue: 2");
    assert_eq!(h[3].look.fg, Tone::Red);
    assert_eq!(h[4].look.fg, Tone::Yellow);
    let s = StatusPanel.render("", 1, 0, 10);
    assert_eq!(row_text(&s), " last beat: never | intents: 1 | failures: 0 | notes: 10 | q to quit");
    assert_eq!(s[2].look.fg, Tone::Yellow);
    assert_eq!(s[3].look.fg, Tone::DarkGray);
}

#[test]
fn system_box_fits_height() {
    let t = rows_text(&SystemPanel.render(3, 2, false, 0, 3));
    assert_eq!(t, vec!["  essence     3 files", "  services    2 registered", "  autoprompt  DOWN"]);
    assert_eq!(SystemPanel.render(3, 2, true, 1, 10).len(), 4);
}

#[test]
fn memory_box_lists_rooms() {
    let p = build_palace(10, "w1\tr1\tn1\nw1\tr2\tn2\nw1\tr1\tn3\nw2\tr9\tn4\n");
    let t = rows_text(&MemoryPanel.render(&p, 2));
    assert_eq!(t, vec!["10 notes | 4 classified | 6 unclassified", "  wing/w1: 3 -> r1(2), r2(1)"]);
    assert_eq!(MemoryPanel.render(&p, 10).len(), 3);
}

#[test]
fn heartbeat_box_shows_newest() {
    let es = vec![beat("2024-05-01T09:00", "first"), beat("2024-05-02T10:00", "second summary is long"), beat("short", "third")];
    let t = rows_text(&HeartbeatPanel.render(&es, 2, 30));
    assert_eq!(t, vec!["10:00 [ok] second sum", "short [ok] third"]);
}

#[test]
fn intentions_box() {
    let v = vec![
        intention("high", "write the tests", "2024-05-01T12:00:00Z", "work", "pending"),
        intention("low", "done already", "", "", "completed"),
        intention("odd", "x", "", "t", "pending"),
    ];
    let rows = IntentionsPanel.render(&v, 5, 30);
    let t = rows_text(&rows);
    assert_eq!(t, vec!["  [high] write (due: 2024-05-01T12:00) #work", "  [odd] x #t"]);
    assert_eq!(rows[0][0].look.fg, Tone::Red);
    assert_eq!(rows[1][0].look.fg, Tone::DarkGray);
    let none = rows_text(&IntentionsPanel.render(&[], 5, 30));
    assert_eq!(none, vec!["  (no pending intentions)"]);
}

#[test]
fn seal_panel_rows() {
    let p = build_palace(100, "w1\tr1\tn1\nw1\tr2\tn2\nw1\tr1\tn3\nw2\tr9\tn4\nw0\tx\ty\n");
    let long = "a".repeat(45);
    let es = vec![beat("t", &long)];
    let rows = SealPanel.render(Mood::Happy, &vec!["art".to_string()], 3, Some(10), 100, &p.wings, &es, 1, 0);
    let t = rows_text(&rows);
    assert_eq!(
        t,
        vec![
            "  art".to_string(),
            "".to_string(),
            "  mood: happy".to_string(),
            "".to_string(),
            "  -- consciousness --".to_string(),
            "  beats: [=========-----] 3/10".to_string(),
            "  notes: 100 across 3 wings".to_string(),
            "  wings: w1(3) w0(1) w2(1)".to_string(),
            "".to_string(),
            "  last thought: ".to_string(),
            format!("  \"{}...\"", "a".repeat(40)),
            "".to_string(),
            "  1 pending intentions".to_string(),
        ]
    );
    assert_eq!(rows[0][0].look.fg, Tone::Green);
    assert!(rows[10][0].look.italic);
    assert_eq!(rows[5][1].look.fg, Tone::Green);
    let quiet = rows_text(&SealPanel.render(Mood::Alert, &Vec::new(), 9, None, 0, &[], &[], 0, 0));
    assert_eq!(quiet[1], "  mood: alert!");
    assert_eq!(quiet[4], "  beats: 9 today");
    assert_eq!(quiet.len(), 6);
}

#[test]
fn seal_art_lines() {
    let l = render_seal("open", "smile", "normal", "none", "~ neil ~", true, 10);
    assert_eq!(l.len(), 10);
    assert_eq!(l[0], "     ⣀⣤⣴⣶⣶⣴⣤⣀       ");
    assert_eq!(l[2], "  ⣿⣿ ●    ● ⣿⣿  ");
    assert_eq!(l[3], "═══ ⣿⣿⣿ ▼ ⣿⣿⣿ ═══");
    assert_eq!(l[4], "   ⣿⣿⣿⣿◡⣿⣿⣿⣿   ");
    assert_eq!(l[6], " ⠿⡀⣤⣿⣿⣿⣿⣿⣿⣤⢀⠿ ");
    assert_eq!(l[8], "~~~~≈~~≈~~~~~~~~~~~~~~");
    assert_eq!(l[9], "  ~ neil ~  ");
    let blink = render_seal("wide", "frown", "perked", "heart", "x", false, 40);
    assert_eq!(blink[0], "      ⣀⣤⣤⣤⣤⣀      ♥ ");
    assert_eq!(blink[2], "   ⣿⣿ ─   ─ ⣿⣿   ");
    assert_eq!(blink[3], "⟋⟋⟋ ⣿⣿⣿ ▼ ⣿⣿⣿ ⟍⟍⟍");
    assert_eq!(blink[4], "    ⣿⣿⣿∩⣿⣿⣿    ");
    let awake = render_seal("wide", "frown", "perked", "zzz", "x", false, 3);
    assert_eq!(awake[0], "      ⣀⣤⣤⣤⣤⣀       z ");
    assert_eq!(awake[2], "   ⣿⣿ ◎   ◎ ⣿⣿   ");
}
