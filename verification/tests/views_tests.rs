use neil_blueprint::palace::{build_palace, is_note_file};
use neil_blueprint::panel_view::{logs_panel_rows, memory_panel_rows, services_panel_rows};
use neil_blueprint::panels::{beat_bar, hour_from_text, Mood, SealPanel};
use neil_blueprint::screen_view::{
    bubble_text, chat_header_row, conversation_scroll, fps_note_text, input_box_height,
    panel_title_exec, render_section_name, scroll_note_text, selector_rows, status_box_rows, FpsTracker,
};
use neil_blueprint::console::Screen;
use neil_blueprint::styled::{Look, Piece, Tone};

fn row_text(r: &[Piece]) -> String {
    r.iter().flat_map(|p| p.text.iter()).collect()
}

fn rows_text(rs: &[Vec<Piece>]) -> Vec<String> {
    rs.iter().map(|r| row_text(r)).collect()
}

fn text(v: &[char]) -> String {
    v.iter().collect()
}

fn chars(s: &str) -> Vec<char> {
    s.chars().collect()
}

const ROOMS: &str = "w1\tr1\tn1\nw1\tr2\tn2\nw1\tr1\tn3\nw2\tr9\tn4\nbad line\nw3\tr\nw0\tx\ty\tz\n";

#[test]
fn palace_counts_and_ranks() {
    let p = build_palace(10, ROOMS);
    assert_eq!(p.total_notes, 10);
    assert_eq!(p.classified, 5);
    assert_eq!(p.unclassified, 5);
    let names: Vec<&str> = p.wings.iter().map(|w| w.name.as_str()).collect();
    assert_eq!(names, vec!["w1", "w0", "w2"]);
    assert_eq!(p.wings[0].count, 3);
    assert_eq!(p.wings[0].rooms, vec![("r1".to_string(), 2), ("r2".to_string(), 1)]);
    assert_eq!(p.wings[1].rooms, vec![("x".to_string(), 1)]);
}

#[test]
fn palace_unclassified_never_negative() {
    let p = build_palace(2, ROOMS);
    assert_eq!(p.classified, 5);
    assert_eq!(p.unclassified, 0);
    let e = build_palace(3, "");
    assert_eq!(e.classified, 0);
    assert_eq!(e.unclassified, 3);
    assert!(e.wings.is_empty());
}

#[test]
fn note_files() {
    assert!(is_note_file("idea.md"));
    assert!(!is_note_file("idea.txt"));
    assert!(!is_note_file("mempalace.yaml"));
}

#[test]
fn memory_panel_lists_wings_and_rooms() {
    let p = build_palace(10, ROOMS);
    let rows = memory_panel_rows(&p);
    let t = rows_text(&rows);
    assert_eq!(t[0], "Palace: 10 notes, 5 classified, 5 unclassified");
    assert_eq!(t[1], "");
    assert_eq!(t[2], "  wing/w1 (3)");
    assert_eq!(t[3], "    room/r1: 2");
    assert_eq!(t[4], "    room/r2: 1");
    assert_eq!(t[5], "  wing/w0 (1)");
    assert_eq!(rows[2][0].look, Look { fg: Tone::Yellow, bg: Tone::Reset, bold: true, blink: false, italic: false });
    assert_eq!(t.len(), 9);
}

#[test]
fn beat_bars() {
    assert_eq!(beat_bar(5, 10, 10), "[=====-----] 5/10");
    assert_eq!(beat_bar(20, 10, 4), "[----] 20/10");
    assert_eq!(beat_bar(10, 50, 10), "[========--] 10/50");
    assert_eq!(beat_bar(0, 50, 10), "[==========] 0/50");
    assert_eq!(beat_bar(3, 0, 3), "[---] 3/0");
}

#[test]
fn moods() {
    assert_eq!(Mood::from_parts(23, false, 0, 0, 1), Mood::Sleeping);
    assert_eq!(Mood::from_parts(6, true, 0, 0, 1), Mood::Sleeping);
    assert_eq!(Mood::from_parts(12, true, 0, 0, 1), Mood::Alert);
    assert_eq!(Mood::from_parts(12, false, 36, 3, 1), Mood::Tired);
    assert_eq!(Mood::from_parts(12, false, 0, 2, 1), Mood::Working);
    assert_eq!(Mood::from_parts(12, false, 0, 0, 4), Mood::Curious);
    assert_eq!(Mood::from_parts(12, false, 0, 0, 5), Mood::Happy);
    assert_eq!(Mood::Alert.label(), "alert!");
    assert_eq!(Mood::Alert.art_file(), "stressed.txt");
    assert_eq!(Mood::Tired.emoji(), "~.~");
    assert_eq!(hour_from_text("07"), 7);
    assert_eq!(hour_from_text("xx"), 12);
    assert_eq!(SealPanel.compact(Mood::Happy, 4, 120), "🦭 happy | 4b | 120n");
}

#[test]
fn selector_and_titles() {
    let t = rows_text(&selector_rows(1));
    assert_eq!(t[0], " Select a panel:");
    assert_eq!(t[1], "");
    assert_eq!(t[2], "   1. Memory");
    assert_eq!(t[3], " > 2. Heartbeat");
    assert_eq!(t[10], "   9. Graph");
    assert_eq!(text(&panel_title_exec(1)), " Heartbeat | Up/Down:select Enter:expand Esc:close ");
    assert_eq!(text(&panel_title_exec(7)), " Cluster | Up/Down:select Enter:open Esc:close ");
    assert_eq!(text(&panel_title_exec(0)), " Memory | Esc:close 1-9:switch ");
    assert_eq!(text(&panel_title_exec(12)), " ? | Esc:close 1-9:switch ");
}

#[test]
fn sidebar_status_box() {
    let rows = status_box_rows(12, Some(10), 0, 300);
    let t = rows_text(&rows);
    assert_eq!(t, vec![" NEIL ", " beats: 12/10", " queue: 0", " notes: 300"]);
    assert_eq!(rows[1][0].look.fg, Tone::Red);
    assert_eq!(rows[2][0].look.fg, Tone::DarkGray);
    let t2 = rows_text(&status_box_rows(3, None, 2, 1));
    assert_eq!(t2[1], " beats: 3");
}

#[test]
fn seal_bubble() {
    assert_eq!(text(&bubble_text(true, 9, 0, 0, 0)), "working...");
    assert_eq!(text(&bubble_text(false, 0, 1, 5, 0)), "need to fix something...");
    assert_eq!(text(&bubble_text(false, 0, 0, 5, 0)), "5 things on my mind");
    assert_eq!(text(&bubble_text(false, 0, 0, 0, 41)), "getting tired...");
    assert_eq!(text(&bubble_text(false, 0, 0, 0, 40)), "all good :)");
}

#[test]
fn chat_screen_pieces() {
    let h = chat_header_row(true, "12:34:56");
    assert_eq!(row_text(&h), " NEIL  working 12:34:56 Alt+1-9:panels Ctrl+S:sidebar Esc:quit ");
    assert_eq!(row_text(&chat_header_row(false, "x")), " NEIL  idle x Alt+1-9:panels Ctrl+S:sidebar Esc:quit ");
    assert_eq!(conversation_scroll(100, 20, 0), 80);
    assert_eq!(conversation_scroll(100, 20, 30), 50);
    assert_eq!(conversation_scroll(100, 20, 500), 0);
    assert_eq!(conversation_scroll(10, 20, 0), 0);
    assert_eq!(scroll_note_text(0), None);
    assert_eq!(scroll_note_text(7).map(|v| text(&v)), Some(" ↑ 7 lines above ".to_string()));
    assert_eq!(text(&fps_note_text(30, true)), " 30fps scroll ");
    assert_eq!(text(&fps_note_text(5, false)), " 5fps select ");
}

#[test]
fn input_box_grows_within_bounds() {
    assert_eq!(input_box_height(&chars(""), 40), 3);
    assert_eq!(input_box_height(&chars("short"), 40), 3);
    assert_eq!(input_box_height(&chars("aaaa bbbb cccc dddd"), 7), 6);
    let long: Vec<char> = std::iter::repeat('x').take(201).collect();
    assert_eq!(input_box_height(&long, 40), 4);
    let many = chars("a\nb\nc\nd\ne\nf\ng\nh");
    assert_eq!(input_box_height(&many, 40), 8);
}

#[test]
fn fps_counting() {
    let mut f = FpsTracker::new();
    assert!(!f.tick(false));
    assert!(!f.tick(false));
    assert_eq!(f.frames, 2);
    assert!(f.tick(true));
    assert_eq!(f.fps, 3);
    assert_eq!(f.frames, 0);
}

#[test]
fn logs_panel_keeps_last_lines() {
    let text: String = (1..=40).map(|i| format!("line{}\n", i)).collect();
    let t = rows_text(&logs_panel_rows(&text));
    assert_eq!(t.len(), 30);
    assert_eq!(t[0], "  line11");
    assert_eq!(t[29], "  line40");
}

#[test]
fn render_sections_named() {
    assert_eq!(render_section_name(Screen::Chat, true, true), "render.chat");
    assert_eq!(render_section_name(Screen::PanelSelector, false, false), "render.panel_selector");
    assert_eq!(render_section_name(Screen::Panel(1), true, false), "render.heartbeat_expanded");
    assert_eq!(render_section_name(Screen::Panel(1), false, true), "render.heartbeat");
    assert_eq!(render_section_name(Screen::Panel(7), false, true), "render.cluster_expanded");
    assert_eq!(render_section_name(Screen::Panel(7), false, false), "render.cluster");
    assert_eq!(render_section_name(Screen::Panel(4), false, false), "render.services");
    assert_eq!(render_section_name(Screen::Panel(9), false, false), "render.unknown");
}

#[test]
fn services_panel_placeholder() {
    let r = services_panel_rows();
    assert_eq!(r.len(), 1);
    assert_eq!(row_text(&r[0]), "Services panel stub — implementation removed");
    assert_eq!(r[0][0].look.fg, Tone::DarkGray);
}

#[test]
fn seal_art_falls_back_to_simple_seal() {
    let art = neil_blueprint::panels::art_or_fallback(None, Mood::Alert);
    assert_eq!(art.len(), 7);
    assert_eq!(art[2], "   |  O_O  |   ");
    assert_eq!(art[6], "~~~~~~~~~~~~~~~~~~");
    let from_file = neil_blueprint::panels::art_or_fallback(Some("a\r\nb\n"), Mood::Happy);
    assert_eq!(from_file, vec!["a".to_string(), "b".to_string()]);
}
