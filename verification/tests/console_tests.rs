use neil_blueprint::console::{Action, Console, Key, KeyContext, Modifiers, Screen, SlashCommand};

fn none() -> Modifiers {
    Modifiers { shift: false, ctrl: false, alt: false }
}

fn ctrl() -> Modifiers {
    Modifiers { shift: false, ctrl: true, alt: false }
}

fn alt() -> Modifiers {
    Modifiers { shift: false, ctrl: false, alt: true }
}

fn shift() -> Modifiers {
    Modifiers { shift: true, ctrl: false, alt: false }
}

fn ctx() -> KeyContext {
    KeyContext { heartbeat_count: 3, cards_per_row: 2, cluster_total: 4, peer_selected: true }
}

fn text(v: &[char]) -> String {
    v.iter().collect()
}

fn chars(s: &str) -> Vec<char> {
    s.chars().collect()
}

fn typed(c: &mut Console, s: &str) {
    for ch in s.chars() {
        let a = c.handle_key(Key::Char(ch), none(), ctx());
        assert!(matches!(a, Action::Nothing));
    }
}

#[test]
fn typing_and_sending_a_message() {
    let mut c = Console::new(Vec::new());
    typed(&mut c, "hi");
    assert_eq!(text(&c.input), "hi");
    assert_eq!(c.cursor, 2);
    match c.handle_key(Key::Enter, none(), ctx()) {
        Action::Send(m) => assert_eq!(text(&m), "hi"),
        other => panic!("unexpected {:?}", other),
    }
    assert!(c.input.is_empty());
    assert_eq!(c.cursor, 0);
    assert!(c.prompt_pending);
    assert_eq!(c.history.len(), 1);
    assert_eq!(text(&c.history[0]), "hi");
}

#[test]
fn enter_on_empty_input_does_nothing() {
    let mut c = Console::new(Vec::new());
    assert!(matches!(c.handle_key(Key::Enter, none(), ctx()), Action::Nothing));
    assert!(c.history.is_empty());
}

#[test]
fn slash_commands_are_run_not_sent() {
    let mut c = Console::new(Vec::new());
    typed(&mut c, "  /status now");
    match c.handle_key(Key::Enter, none(), ctx()) {
        Action::Command(SlashCommand::Status, w) => assert_eq!(text(&w), "/status"),
        other => panic!("unexpected {:?}", other),
    }
    assert!(!c.prompt_pending);
    typed(&mut c, "/panels");
    match c.handle_key(Key::Enter, none(), ctx()) {
        Action::Command(SlashCommand::Panels, _) => {},
        other => panic!("unexpected {:?}", other),
    }
    assert_eq!(c.view, Screen::PanelSelector);
    let mut d = Console::new(Vec::new());
    typed(&mut d, "/nope");
    assert!(matches!(d.handle_key(Key::Enter, none(), ctx()), Action::Command(SlashCommand::Unknown, _)));
}

#[test]
fn tab_completes_slash_commands() {
    let mut c = Console::new(Vec::new());
    typed(&mut c, "/st");
    c.handle_key(Key::Tab, none(), ctx());
    assert_eq!(text(&c.input), "/status");
    assert_eq!(c.cursor, 7);
    // "/h" has three candidates sharing only "/h": nothing changes
    let mut d = Console::new(Vec::new());
    typed(&mut d, "/h");
    d.handle_key(Key::Tab, none(), ctx());
    assert_eq!(text(&d.input), "/h");
    // "/he" is shared by /help and /heartbeat: nothing longer
    let mut e = Console::new(Vec::new());
    typed(&mut e, "/hi");
    e.handle_key(Key::Tab, none(), ctx());
    assert_eq!(text(&e.input), "/history");
}

#[test]
fn tab_without_slash_opens_selector() {
    let mut c = Console::new(Vec::new());
    c.handle_key(Key::Tab, none(), ctx());
    assert_eq!(c.view, Screen::PanelSelector);
    c.handle_key(Key::Down, none(), ctx());
    c.handle_key(Key::Down, none(), ctx());
    assert_eq!(c.panel_selection, 2);
    c.handle_key(Key::Enter, none(), ctx());
    assert_eq!(c.view, Screen::Panel(2));
    c.handle_key(Key::Esc, none(), ctx());
    assert_eq!(c.view, Screen::Chat);
}

#[test]
fn type_then_backspace_restores() {
    let mut c = Console::new(Vec::new());
    typed(&mut c, "abc");
    c.handle_key(Key::Left, none(), ctx());
    c.insert_char('x');
    assert_eq!(text(&c.input), "abxc");
    c.backspace();
    assert_eq!(text(&c.input), "abc");
    assert_eq!(c.cursor, 2);
}

#[test]
fn cursor_moves_and_edits() {
    let mut c = Console::new(Vec::new());
    typed(&mut c, "abc");
    c.handle_key(Key::Home, none(), ctx());
    assert_eq!(c.cursor, 0);
    c.handle_key(Key::Left, none(), ctx());
    assert_eq!(c.cursor, 0);
    c.handle_key(Key::Delete, none(), ctx());
    assert_eq!(text(&c.input), "bc");
    c.handle_key(Key::End, none(), ctx());
    assert_eq!(c.cursor, 2);
    c.handle_key(Key::Right, none(), ctx());
    assert_eq!(c.cursor, 2);
    c.handle_key(Key::Char('a'), ctrl(), ctx());
    assert_eq!(c.cursor, 0);
    c.handle_key(Key::Char('u'), ctrl(), ctx());
    assert!(c.input.is_empty());
}

#[test]
fn history_recall_up_and_down() {
    let mut c = Console::new(vec![chars("first"), chars("second")]);
    typed(&mut c, "draft");
    c.handle_key(Key::Up, none(), ctx());
    assert_eq!(text(&c.input), "second");
    c.handle_key(Key::Up, none(), ctx());
    assert_eq!(text(&c.input), "first");
    c.handle_key(Key::Up, none(), ctx());
    assert_eq!(text(&c.input), "first");
    c.handle_key(Key::Down, none(), ctx());
    assert_eq!(text(&c.input), "second");
    c.handle_key(Key::Down, none(), ctx());
    assert_eq!(text(&c.input), "draft");
    assert_eq!(c.history_idx, None);
}

#[test]
fn sent_message_is_recalled() {
    let mut c = Console::new(Vec::new());
    typed(&mut c, "hello");
    c.handle_key(Key::Enter, none(), ctx());
    c.handle_key(Key::Up, none(), ctx());
    assert_eq!(text(&c.input), "hello");
}

#[test]
fn page_up_then_down_returns_to_bottom() {
    let mut c = Console::new(Vec::new());
    c.handle_key(Key::PageUp, none(), ctx());
    assert_eq!(c.scroll_offset, 20);
    assert!(!c.auto_scroll);
    c.handle_key(Key::PageDown, none(), ctx());
    assert_eq!(c.scroll_offset, 0);
    assert!(c.auto_scroll);
    c.handle_key(Key::Home, shift(), ctx());
    assert_eq!(c.scroll_offset, 9999);
    c.handle_key(Key::End, shift(), ctx());
    assert_eq!(c.scroll_offset, 0);
}

#[test]
fn wheel_scrolls_by_three() {
    let mut c = Console::new(Vec::new());
    c.handle_wheel(true);
    assert_eq!(c.scroll_offset, 3);
    c.handle_wheel(false);
    assert_eq!(c.scroll_offset, 0);
    assert!(c.auto_scroll);
}

#[test]
fn escape_clears_then_quits() {
    let mut c = Console::new(Vec::new());
    typed(&mut c, "x");
    assert!(matches!(c.handle_key(Key::Esc, none(), ctx()), Action::Nothing));
    assert!(c.input.is_empty());
    assert!(matches!(c.handle_key(Key::Esc, none(), ctx()), Action::Quit));
    assert!(matches!(c.handle_key(Key::Char('c'), ctrl(), ctx()), Action::Quit));
}

#[test]
fn control_toggles() {
    let mut c = Console::new(Vec::new());
    assert!(c.show_sidebar);
    c.handle_key(Key::Char('s'), ctrl(), ctx());
    assert!(!c.show_sidebar);
    match c.handle_key(Key::Char('m'), ctrl(), ctx()) {
        Action::MouseCapture(on) => assert!(!on),
        other => panic!("unexpected {:?}", other),
    }
    assert!(!c.mouse_captured);
    c.handle_key(Key::Char('3'), alt(), ctx());
    assert_eq!(c.view, Screen::Panel(2));
}

#[test]
fn heartbeat_panel_selection() {
    let mut c = Console::new(Vec::new());
    c.handle_key(Key::Char('2'), alt(), ctx());
    assert_eq!(c.view, Screen::Panel(1));
    c.handle_key(Key::Down, none(), ctx());
    c.handle_key(Key::Down, none(), ctx());
    c.handle_key(Key::Down, none(), ctx());
    assert_eq!(c.hb_selection, 2);
    c.handle_key(Key::Up, none(), ctx());
    assert_eq!(c.hb_selection, 1);
    c.handle_key(Key::Esc, none(), ctx());
    assert_eq!(c.view, Screen::Chat);
}

#[test]
fn graph_panel_keys() {
    let mut c = Console::new(Vec::new());
    c.handle_key(Key::Char('9'), alt(), ctx());
    assert_eq!(c.view, Screen::Panel(8));
    assert!(matches!(c.handle_key(Key::Char('s'), none(), ctx()), Action::ToggleAnchors));
    assert!(matches!(c.handle_key(Key::Char('r'), none(), ctx()), Action::Reseed));
    assert!(matches!(c.handle_key(Key::Char('l'), none(), ctx()), Action::ToggleTrail));
    assert!(matches!(c.handle_key(Key::Char('m'), none(), ctx()), Action::ToggleMatrix));
    assert!(matches!(c.handle_key(Key::Char('h'), none(), ctx()), Action::ToggleLegend));
}

#[test]
fn cluster_panel_navigation() {
    let mut c = Console::new(Vec::new());
    c.handle_key(Key::Char('8'), alt(), ctx());
    assert_eq!(c.view, Screen::Panel(7));
    c.handle_key(Key::Down, none(), ctx());
    assert_eq!(c.cluster_selection, 1);
    c.handle_key(Key::Down, none(), ctx());
    assert_eq!(c.cluster_selection, 3);
    c.handle_key(Key::Right, none(), ctx());
    assert_eq!(c.cluster_selection, 4);
    c.handle_key(Key::Left, none(), ctx());
    assert_eq!(c.cluster_selection, 3);
    c.handle_key(Key::Up, none(), ctx());
    assert_eq!(c.cluster_selection, 1);
    c.handle_key(Key::Up, none(), ctx());
    assert_eq!(c.cluster_selection, 0);
}
