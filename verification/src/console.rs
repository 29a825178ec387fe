//! The console's interaction state: the chat input line with its cursor and prompt
//! history, scrolling, the current view, the panel selections, and what each key or
//! scroll does to them. The terminal loop feeds events in and performs the actions
//! that come back.
use vstd::prelude::*;
use crate::text::{
    byte_len, chars_eq, has_prefix, slice_chars, split_words, starts_with, str_chars, trim,
    trim_ws, utf8_len, words,
};
use crate::cluster_layout::{
    cluster_nav_down, cluster_nav_left, cluster_nav_right, cluster_nav_up, nav_down_spec,
    nav_left_spec, nav_right_spec, nav_up_spec,
};

verus! {

/// Number of panels the selector offers.
pub const PANEL_COUNT: usize = 9;

/// Most bytes the input line takes.
pub const INPUT_LIMIT: usize = 4096;

/// What the screen shows.
#[derive(Clone, Copy, Debug, PartialEq, Eq, Structural)]
pub enum Screen {
    Chat,
    PanelSelector,
    Panel(usize),
}

/// A key as the console sees it.
#[derive(Clone, Copy, Debug, PartialEq, Eq, Structural)]
pub enum Key {
    Enter,
    Tab,
    Char(char),
    Backspace,
    Delete,
    Left,
    Right,
    Home,
    End,
    Up,
    Down,
    PageUp,
    PageDown,
    Esc,
    Other,
}

/// Modifier keys held with a key.
#[derive(Clone, Copy, Debug, PartialEq, Eq, Structural)]
pub struct Modifiers {
    pub shift: bool,
    pub ctrl: bool,
    pub alt: bool,
}

/// What the key handling needs to know of the rest of the console.
#[derive(Clone, Copy, Debug, PartialEq, Eq, Structural)]
pub struct KeyContext {
    /// Number of heartbeats listed.
    pub heartbeat_count: usize,
    /// Cards per row of the cluster panel as last drawn.
    pub cards_per_row: usize,
    /// Number of cluster peers.
    pub cluster_total: usize,
    /// Whether the cluster selection is a peer that can be entered.
    pub peer_selected: bool,
}

/// A slash command typed into the input line.
#[derive(Clone, Copy, Debug, PartialEq, Eq, Structural)]
pub enum SlashCommand {
    Clear,
    Status,
    Help,
    Panels,
    Heartbeat,
    History,
    Unknown,
}

/// What the terminal loop has to do after an event.
#[derive(Debug)]
pub enum Action {
    Nothing,
    Quit,
    /// Turn mouse capture on or off.
    MouseCapture(bool),
    /// Send the message to Neil.
    Send(Vec<char>),
    /// Run a slash command; the word as typed.
    Command(SlashCommand, Vec<char>),
    ToggleAnchors,
    Reseed,
    ToggleTrail,
    ToggleMatrix,
    ToggleLegend,
    /// Open a shell on the selected peer.
    OpenPeer,
}

/// An action with its text as a sequence.
pub enum ActionModel {
    Nothing,
    Quit,
    MouseCapture(bool),
    Send(Seq<char>),
    Command(SlashCommand, Seq<char>),
    ToggleAnchors,
    Reseed,
    ToggleTrail,
    ToggleMatrix,
    ToggleLegend,
    OpenPeer,
}

impl View for Action {
    type V = ActionModel;

    open spec fn view(&self) -> ActionModel {
        match self {
            Action::Nothing => ActionModel::Nothing,
            Action::Quit => ActionModel::Quit,
            Action::MouseCapture(b) => ActionModel::MouseCapture(*b),
            Action::Send(m) => ActionModel::Send(m@),
            Action::Command(c, w) => ActionModel::Command(*c, w@),
            Action::ToggleAnchors => ActionModel::ToggleAnchors,
            Action::Reseed => ActionModel::Reseed,
            Action::ToggleTrail => ActionModel::ToggleTrail,
            Action::ToggleMatrix => ActionModel::ToggleMatrix,
            Action::ToggleLegend => ActionModel::ToggleLegend,
            Action::OpenPeer => ActionModel::OpenPeer,
        }
    }
}

/// The console state.
#[derive(Debug)]
pub struct Console {
    pub input: Vec<char>,
    /// Cursor position in characters.
    pub cursor: usize,
    /// Lines scrolled back from the bottom of the chat.
    pub scroll_offset: i32,
    pub auto_scroll: bool,
    pub view: Screen,
    pub panel_selection: usize,
    pub show_sidebar: bool,
    pub mouse_captured: bool,
    /// Sent prompts, oldest first.
    pub history: Vec<Vec<char>>,
    /// The prompt being recalled, when browsing the history.
    pub history_idx: Option<usize>,
    /// The input as it was before browsing began.
    pub saved_input: Vec<char>,
    pub hb_selection: usize,
    pub hb_expanded: bool,
    pub hb_scroll: usize,
    pub hb_section: usize,
    pub cluster_selection: usize,
    pub cluster_expanded: bool,
    pub cluster_scroll: usize,
    /// A prompt was sent and no reply has started yet.
    pub prompt_pending: bool,
}

/// The console state with its texts as sequences.
pub struct ConsoleModel {
    pub input: Seq<char>,
    pub cursor: usize,
    pub scroll_offset: i32,
    pub auto_scroll: bool,
    pub view: Screen,
    pub panel_selection: usize,
    pub show_sidebar: bool,
    pub mouse_captured: bool,
    pub history: Seq<Seq<char>>,
    pub history_idx: Option<usize>,
    pub saved_input: Seq<char>,
    pub hb_selection: usize,
    pub hb_expanded: bool,
    pub hb_scroll: usize,
    pub hb_section: usize,
    pub cluster_selection: usize,
    pub cluster_expanded: bool,
    pub cluster_scroll: usize,
    pub prompt_pending: bool,
}

impl View for Console {
    type V = ConsoleModel;

    open spec fn view(&self) -> ConsoleModel {
        ConsoleModel {
            input: self.input@,
            cursor: self.cursor,
            scroll_offset: self.scroll_offset,
            auto_scroll: self.auto_scroll,
            view: self.view,
            panel_selection: self.panel_selection,
            show_sidebar: self.show_sidebar,
            mouse_captured: self.mouse_captured,
            history: crate::text::views(self.history@),
            history_idx: self.history_idx,
            saved_input: self.saved_input@,
            hb_selection: self.hb_selection,
            hb_expanded: self.hb_expanded,
            hb_scroll: self.hb_scroll,
            hb_section: self.hb_section,
            cluster_selection: self.cluster_selection,
            cluster_expanded: self.cluster_expanded,
            cluster_scroll: self.cluster_scroll,
            prompt_pending: self.prompt_pending,
        }
    }
}

impl ConsoleModel {
    /// The cursor stands within the input, the chat is not scrolled below its bottom,
    /// a recalled prompt exists, and the panel selection names a panel.
    pub open spec fn wf(self) -> bool {
        &&& self.cursor <= self.input.len()
        &&& self.scroll_offset >= 0
        &&& self.panel_selection < PANEL_COUNT
        &&& self.hb_section <= 4
        &&& (self.history_idx matches Some(i) ==> i < self.history.len())
    }

    /// Room for every counter to move by what one event moves it.
    pub open spec fn room_to_move(self, ctx: KeyContext) -> bool {
        &&& self.scroll_offset <= i32::MAX - 20
        &&& self.hb_scroll <= usize::MAX - 3
        &&& self.hb_selection < usize::MAX
        &&& self.cluster_scroll < usize::MAX
        &&& self.cluster_selection + ctx.cards_per_row < usize::MAX
        &&& self.history.len() < usize::MAX
    }
}


// ───────────────────────── the input line ─────────────────────────

/// Types `c` at the cursor, unless the input already takes the byte limit.
pub open spec fn insert_char(m: ConsoleModel, c: char) -> ConsoleModel {
    if utf8_len(m.input) < INPUT_LIMIT {
        ConsoleModel { input: m.input.insert(m.cursor as int, c), cursor: (m.cursor + 1) as usize, ..m }
    } else {
        m
    }
}

/// Deletes the character before the cursor.
pub open spec fn backspace(m: ConsoleModel) -> ConsoleModel {
    if m.cursor > 0 {
        ConsoleModel { input: m.input.remove(m.cursor - 1), cursor: (m.cursor - 1) as usize, ..m }
    } else {
        m
    }
}

/// Deletes the character under the cursor.
pub open spec fn delete_char(m: ConsoleModel) -> ConsoleModel {
    if m.cursor < m.input.len() {
        ConsoleModel { input: m.input.remove(m.cursor as int), ..m }
    } else {
        m
    }
}

/// Moves the cursor to character `k`.
pub open spec fn at(m: ConsoleModel, k: usize) -> ConsoleModel {
    ConsoleModel { cursor: k, ..m }
}

/// Replaces the input, with the cursor at its end.
pub open spec fn with_input(m: ConsoleModel, s: Seq<char>) -> ConsoleModel {
    ConsoleModel { input: s, cursor: s.len() as usize, ..m }
}

/// Recalls the previous prompt: the newest when not browsing yet (the input is kept
/// aside), the one before otherwise; nothing before the oldest.
pub open spec fn history_up(m: ConsoleModel) -> ConsoleModel {
    if m.history.len() == 0 {
        m
    } else {
        match m.history_idx {
            None => ConsoleModel {
                saved_input: m.input,
                history_idx: Some((m.history.len() - 1) as usize),
                ..with_input(m, m.history.last())
            },
            Some(i) => if i > 0 {
                ConsoleModel { history_idx: Some((i - 1) as usize), ..with_input(m, m.history[i - 1]) }
            } else {
                m
            },
        }
    }
}

/// Recalls the next prompt, or past the newest the input kept aside.
pub open spec fn history_down(m: ConsoleModel) -> ConsoleModel {
    match m.history_idx {
        Some(i) => if i + 1 < m.history.len() {
            ConsoleModel { history_idx: Some((i + 1) as usize), ..with_input(m, m.history[i + 1]) }
        } else {
            ConsoleModel { history_idx: None, saved_input: seq![], ..with_input(m, m.saved_input) }
        },
        None => m,
    }
}

/// Scrolls the chat back by `n` lines.
pub open spec fn scroll_back(m: ConsoleModel, n: i32) -> ConsoleModel {
    ConsoleModel { scroll_offset: (m.scroll_offset + n) as i32, auto_scroll: false, ..m }
}

/// Scrolls the chat forward by `n` lines, down to the bottom, where it follows new
/// output again.
pub open spec fn scroll_forward(m: ConsoleModel, n: i32) -> ConsoleModel {
    let o = if m.scroll_offset - n > 0 {
        (m.scroll_offset - n) as i32
    } else {
        0i32
    };
    ConsoleModel { scroll_offset: o, auto_scroll: if o == 0 { true } else { m.auto_scroll }, ..m }
}

impl Console {
    /// Types a character at the cursor (nothing once the input takes the byte limit).
    pub fn insert_char(&mut self, c: char)
        requires
            old(self)@.wf(),
        ensures
            final(self)@ == insert_char(old(self)@, c),
    {
        if byte_len(&self.input) < 4096 {
            self.input.insert(self.cursor, c);
            let l = self.input.len();
            assert(self.cursor < l);
            self.cursor = self.cursor + 1;
        }
    }

    /// Deletes the character before the cursor.
    pub fn backspace(&mut self)
        requires
            old(self)@.wf(),
        ensures
            final(self)@ == backspace(old(self)@),
    {
        if self.cursor > 0 {
            self.cursor = self.cursor - 1;
            self.input.remove(self.cursor);
        }
    }

    /// Deletes the character under the cursor.
    pub fn delete_char(&mut self)
        requires
            old(self)@.wf(),
        ensures
            final(self)@ == delete_char(old(self)@),
    {
        if self.cursor < self.input.len() {
            self.input.remove(self.cursor);
        }
    }

    /// Replaces the input by a copy of `s`, with the cursor at its end.
    fn set_input(&mut self, s: &[char])
        ensures
            final(self)@ == with_input(old(self)@, s@),
    {
        let copy = slice_chars(s, 0, s.len());
        assert(s@.subrange(0, s@.len() as int) == s@);
        self.cursor = copy.len();
        self.input = copy;
    }

    /// Recalls the previous prompt.
    pub fn history_up(&mut self)
        requires
            old(self)@.wf(),
        ensures
            final(self)@ == history_up(old(self)@),
    {
        let n = self.history.len();
        if n == 0 {
            return;
        }
        let ghost m = self@;
        assert(m.history.len() == n);
        match self.history_idx {
            None => {
                let saved = slice_chars(&self.input, 0, self.input.len());
                assert(self.input@.subrange(0, self.input@.len() as int) == self.input@);
                let last = slice_chars(&self.history[n - 1], 0, self.history[n - 1].len());
                assert(self.history@[n - 1]@.subrange(0, self.history@[n - 1]@.len() as int) == self.history@[n - 1]@);
                assert(m.history.last() == self.history@[n - 1]@);
                self.set_input(&last);
                self.saved_input = saved;
                self.history_idx = Some(n - 1);
            },
            Some(i) => {
                if i > 0 {
                    let prev = slice_chars(&self.history[i - 1], 0, self.history[i - 1].len());
                    assert(self.history@[i - 1]@.subrange(0, self.history@[i - 1]@.len() as int) == self.history@[i - 1]@);
                    assert(m.history[i - 1] == self.history@[i - 1]@);
                    self.set_input(&prev);
                    self.history_idx = Some(i - 1);
                }
            },
        }
    }

    /// Recalls the next prompt, or the input kept aside.
    pub fn history_down(&mut self)
        requires
            old(self)@.wf(),
        ensures
            final(self)@ == history_down(old(self)@),
    {
        let ghost m = self@;
        let n = self.history.len();
        match self.history_idx {
            Some(i) => {
                assert(i < n);
                if i + 1 < n {
                    let next = slice_chars(&self.history[i + 1], 0, self.history[i + 1].len());
                    assert(self.history@[i + 1]@.subrange(0, self.history@[i + 1]@.len() as int) == self.history@[i + 1]@);
                    assert(m.history[i + 1] == self.history@[i + 1]@);
                    self.set_input(&next);
                    self.history_idx = Some(i + 1);
                } else {
                    let saved = slice_chars(&self.saved_input, 0, self.saved_input.len());
                    assert(self.saved_input@.subrange(0, self.saved_input@.len() as int) == self.saved_input@);
                    self.set_input(&saved);
                    self.history_idx = None;
                    self.saved_input = Vec::new();
                }
            },
            None => {},
        }
    }

    /// Scrolls the chat back by `n` lines.
    fn scroll_back(&mut self, n: i32)
        requires
            0 <= n,
            old(self).scroll_offset + n <= i32::MAX,
        ensures
            final(self)@ == scroll_back(old(self)@, n),
    {
        self.scroll_offset = self.scroll_offset + n;
        self.auto_scroll = false;
    }

    /// Scrolls the chat forward by `n` lines.
    fn scroll_forward(&mut self, n: i32)
        requires
            0 <= n,
            old(self).scroll_offset >= 0,
        ensures
            final(self)@ == scroll_forward(old(self)@, n),
    {
        let o = if self.scroll_offset - n > 0 {
            self.scroll_offset - n
        } else {
            0
        };
        self.scroll_offset = o;
        if o == 0 {
            self.auto_scroll = true;
        }
    }
}


// ───────────────────────── slash commands ─────────────────────────

/// The slash commands the input line completes.
pub open spec fn slash_commands() -> Seq<Seq<char>> {
    seq!["/clear"@, "/status"@, "/help"@, "/panels"@, "/heartbeat"@, "/history"@]
}

/// The commands that strictly extend `s`, in order.
pub open spec fn extensions(cs: Seq<Seq<char>>, s: Seq<char>) -> Seq<Seq<char>>
    decreases cs.len(),
{
    if cs.len() == 0 {
        seq![]
    } else {
        let r = extensions(cs.drop_last(), s);
        let c = cs.last();
        if starts_with(c, s) && c != s {
            r.push(c)
        } else {
            r
        }
    }
}

/// The length of the longest common prefix of `a` and `b`.
pub open spec fn common_prefix(a: Seq<char>, b: Seq<char>) -> nat
    decreases a.len(),
{
    if a.len() == 0 || b.len() == 0 || a[0] != b[0] {
        0
    } else {
        1 + common_prefix(a.drop_first(), b.drop_first())
    }
}

/// How much of the first candidate every candidate shares.
pub open spec fn shared_len(ms: Seq<Seq<char>>) -> nat
    decreases ms.len(),
{
    if ms.len() == 0 {
        0
    } else if ms.len() == 1 {
        ms[0].len()
    } else {
        let r = shared_len(ms.drop_last());
        let c = common_prefix(ms[0], ms.last());
        if c < r {
            c
        } else {
            r
        }
    }
}

/// Tab on a slash command: a single candidate completes it; several extend it to what
/// they all share, when that is longer.
pub open spec fn complete(m: ConsoleModel) -> ConsoleModel {
    let ms = extensions(slash_commands(), m.input);
    if ms.len() == 1 {
        with_input(m, ms[0])
    } else if ms.len() > 1 && shared_len(ms) > m.input.len() {
        with_input(m, ms[0].take(shared_len(ms) as int))
    } else {
        m
    }
}

/// The command word of a message, when the message (trimmed) starts with `/`.
pub open spec fn slash_word(msg: Seq<char>) -> Option<Seq<char>> {
    let t = trim(msg);
    if starts_with(t, seq!['/']) {
        let ws = words(t);
        Some(
            if ws.len() > 0 {
                ws[0]
            } else {
                seq![]
            },
        )
    } else {
        None
    }
}

/// The command a word names.
pub open spec fn command_of(w: Seq<char>) -> SlashCommand {
    if w == "/clear"@ {
        SlashCommand::Clear
    } else if w == "/status"@ {
        SlashCommand::Status
    } else if w == "/help"@ {
        SlashCommand::Help
    } else if w == "/panels"@ {
        SlashCommand::Panels
    } else if w == "/heartbeat"@ {
        SlashCommand::Heartbeat
    } else if w == "/history"@ {
        SlashCommand::History
    } else {
        SlashCommand::Unknown
    }
}

/// Enter in the chat: a non-empty input goes into the history and is cleared; a slash
/// command is run (`/panels` opens the selector), anything else is sent and a reply is
/// awaited. The chat scrolls to its bottom.
pub open spec fn submit(m: ConsoleModel) -> (ConsoleModel, ActionModel) {
    if m.input.len() == 0 {
        (m, ActionModel::Nothing)
    } else {
        let msg = m.input;
        let base = ConsoleModel {
            history: m.history.push(msg),
            history_idx: None,
            saved_input: seq![],
            input: seq![],
            cursor: 0,
            auto_scroll: true,
            scroll_offset: 0,
            ..m
        };
        match slash_word(msg) {
            Some(w) => if command_of(w) == SlashCommand::Panels {
                (ConsoleModel { view: Screen::PanelSelector, ..base }, ActionModel::Command(SlashCommand::Panels, w))
            } else {
                (base, ActionModel::Command(command_of(w), w))
            },
            None => (ConsoleModel { prompt_pending: true, ..base }, ActionModel::Send(msg)),
        }
    }
}

/// The command word of a message.
fn slash_word_exec(msg: &[char]) -> (r: Option<Vec<char>>)
    ensures
        match r {
            Some(w) => slash_word(msg@) == Some(w@),
            None => slash_word(msg@) is None,
        },
{
    let t = trim_ws(msg);
    if t.len() > 0 && t[0] == '/' {
        assert(starts_with(t@, seq!['/'])) by {
            assert(t@.subrange(0, 1) =~= seq!['/']);
        }
        let ws = split_words(&t);
        if ws.len() > 0 {
            let w = slice_chars(&ws[0], 0, ws[0].len());
            assert(ws@[0]@.subrange(0, ws@[0]@.len() as int) == ws@[0]@);
            assert(crate::text::views(ws@)[0] == ws@[0]@);
            Some(w)
        } else {
            Some(Vec::new())
        }
    } else {
        assert(!starts_with(t@, seq!['/'])) by {
            if t@.len() > 0 && t@.subrange(0, 1) == seq!['/'] {
                assert(t@[0] == t@.subrange(0, 1)[0]);
            }
        }
        None
    }
}

/// The command a word names.
fn command_of_exec(w: &[char]) -> (c: SlashCommand)
    ensures
        c == command_of(w@),
{
    if chars_eq(w, &str_chars("/clear")) {
        SlashCommand::Clear
    } else if chars_eq(w, &str_chars("/status")) {
        SlashCommand::Status
    } else if chars_eq(w, &str_chars("/help")) {
        SlashCommand::Help
    } else if chars_eq(w, &str_chars("/panels")) {
        SlashCommand::Panels
    } else if chars_eq(w, &str_chars("/heartbeat")) {
        SlashCommand::Heartbeat
    } else if chars_eq(w, &str_chars("/history")) {
        SlashCommand::History
    } else {
        SlashCommand::Unknown
    }
}

/// The slash commands.
fn slash_commands_exec() -> (r: Vec<Vec<char>>)
    ensures
        crate::text::views(r@) == slash_commands(),
{
    let r = vec![
        str_chars("/clear"),
        str_chars("/status"),
        str_chars("/help"),
        str_chars("/panels"),
        str_chars("/heartbeat"),
        str_chars("/history"),
    ];
    assert(crate::text::views(r@) =~= slash_commands());
    r
}

/// The length of the longest common prefix.
fn common_prefix_exec(a: &[char], b: &[char]) -> (n: usize)
    ensures
        n == common_prefix(a@, b@),
{
    let mut i: usize = 0;
    assert(a@.skip(0) == a@ && b@.skip(0) == b@);
    while i < a.len() && i < b.len() && a[i] == b[i]
        invariant
            i <= a@.len(),
            i <= b@.len(),
            common_prefix(a@, b@) == i + common_prefix(a@.skip(i as int), b@.skip(i as int)),
        decreases a.len() - i,
    {
        assert(a@.skip(i as int).drop_first() == a@.skip(i + 1));
        assert(b@.skip(i as int).drop_first() == b@.skip(i + 1));
        i += 1;
    }
    i
}

impl Console {
    /// Completes a slash command.
    pub fn complete(&mut self)
        ensures
            final(self)@ == complete(old(self)@),
    {
        let cmds = slash_commands_exec();
        let mut ms: Vec<Vec<char>> = Vec::new();
        for k in 0..cmds.len()
            invariant
                crate::text::views(cmds@) == slash_commands(),
                crate::text::views(ms@) == extensions(slash_commands().take(k as int), self.input@),
        {
            assert(slash_commands().take(k + 1).drop_last() == slash_commands().take(k as int));
            assert(crate::text::views(cmds@)[k as int] == cmds@[k as int]@);
            if has_prefix(&cmds[k], &self.input) && !chars_eq(&cmds[k], &self.input) {
                let c = slice_chars(&cmds[k], 0, cmds[k].len());
                assert(cmds@[k as int]@.subrange(0, cmds@[k as int]@.len() as int) == cmds@[k as int]@);
                proof {
                    crate::text::lemma_views_push(ms@, c);
                }
                ms.push(c);
            }
        }
        assert(slash_commands().take(6) == slash_commands());
        let ghost vm = crate::text::views(ms@);
        if ms.len() == 1 {
            assert(vm[0] == ms@[0]@);
            let first = slice_chars(&ms[0], 0, ms[0].len());
            assert(ms@[0]@.subrange(0, ms@[0]@.len() as int) == ms@[0]@);
            self.set_input(&first);
        } else if ms.len() > 1 {
            let mut common: usize = ms[0].len();
            assert(vm[0] == ms@[0]@);
            assert(vm.take(1).len() == 1 && vm.take(1)[0] == vm[0]);
            for k in 1..ms.len()
                invariant
                    vm == crate::text::views(ms@),
                    ms@.len() > 1,
                    common as nat == shared_len(vm.take(k as int)),
                    vm[0] == ms@[0]@,
            {
                let c = common_prefix_exec(&ms[0], &ms[k]);
                assert(vm.take(k + 1).drop_last() == vm.take(k as int));
                assert(vm.take(k + 1)[0] == vm[0]);
                assert(vm[k as int] == ms@[k as int]@);
                if c < common {
                    common = c;
                }
            }
            assert(vm.take(ms@.len() as int) == vm);
            if common > self.input.len() {
                assert(common <= ms@[0]@.len()) by {
                    lemma_shared_len_bound(vm);
                }
                let pre = slice_chars(&ms[0], 0, common);
                assert(pre@ == vm[0].take(common as int));
                self.set_input(&pre);
            }
        }
    }
}

proof fn lemma_shared_len_bound(ms: Seq<Seq<char>>)
    requires
        ms.len() > 0,
    ensures
        shared_len(ms) <= ms[0].len(),
    decreases ms.len(),
{
    if ms.len() > 1 {
        lemma_shared_len_bound(ms.drop_last());
    }
}


// ───────────────────────── keys ─────────────────────────

/// The panel a digit key opens: `1` to `9` name the panels in order.
pub open spec fn digit_panel(c: char) -> Option<usize> {
    if '1' <= c <= '9' {
        Some((c as u32 - 49) as usize)
    } else {
        None
    }
}

/// A key in the chat view.
pub open spec fn chat_key(m: ConsoleModel, key: Key, mods: Modifiers) -> (ConsoleModel, ActionModel) {
    match key {
        Key::Enter => submit(m),
        Key::Tab => if starts_with(m.input, seq!['/']) {
            (complete(m), ActionModel::Nothing)
        } else {
            (ConsoleModel { view: Screen::PanelSelector, ..m }, ActionModel::Nothing)
        },
        Key::Char(c) => if mods.alt {
            match digit_panel(c) {
                Some(i) => (ConsoleModel { view: Screen::Panel(i), ..m }, ActionModel::Nothing),
                None => (m, ActionModel::Nothing),
            }
        } else if mods.ctrl {
            if c == 'c' || c == 'q' {
                (m, ActionModel::Quit)
            } else if c == 's' {
                (ConsoleModel { show_sidebar: !m.show_sidebar, ..m }, ActionModel::Nothing)
            } else if c == 'm' {
                (ConsoleModel { mouse_captured: !m.mouse_captured, ..m }, ActionModel::MouseCapture(!m.mouse_captured))
            } else if c == 'a' {
                (at(m, 0), ActionModel::Nothing)
            } else if c == 'e' {
                (at(m, m.input.len() as usize), ActionModel::Nothing)
            } else if c == 'u' {
                (with_input(m, seq![]), ActionModel::Nothing)
            } else {
                (m, ActionModel::Nothing)
            }
        } else {
            (insert_char(m, c), ActionModel::Nothing)
        },
        Key::Backspace => (backspace(m), ActionModel::Nothing),
        Key::Delete => (delete_char(m), ActionModel::Nothing),
        Key::Left => (at(m, if m.cursor > 0 { (m.cursor - 1) as usize } else { 0 }), ActionModel::Nothing),
        Key::Right => (at(m, if m.cursor < m.input.len() { (m.cursor + 1) as usize } else { m.input.len() as usize }), ActionModel::Nothing),
        Key::Home => if mods.shift {
            (ConsoleModel { scroll_offset: 9999, auto_scroll: false, ..m }, ActionModel::Nothing)
        } else {
            (at(m, 0), ActionModel::Nothing)
        },
        Key::End => if mods.shift {
            (ConsoleModel { scroll_offset: 0, auto_scroll: true, ..m }, ActionModel::Nothing)
        } else {
            (at(m, m.input.len() as usize), ActionModel::Nothing)
        },
        Key::Up => (history_up(m), ActionModel::Nothing),
        Key::Down => (history_down(m), ActionModel::Nothing),
        Key::PageUp => (scroll_back(m, 20), ActionModel::Nothing),
        Key::PageDown => (scroll_forward(m, 20), ActionModel::Nothing),
        Key::Esc => if m.input.len() == 0 {
            (m, ActionModel::Quit)
        } else {
            (with_input(m, seq![]), ActionModel::Nothing)
        },
        Key::Other => (m, ActionModel::Nothing),
    }
}

/// A key in the panel selector.
pub open spec fn selector_key(m: ConsoleModel, key: Key) -> ConsoleModel {
    match key {
        Key::Esc | Key::Tab => ConsoleModel { view: Screen::Chat, ..m },
        Key::Up => if m.panel_selection > 0 {
            ConsoleModel { panel_selection: (m.panel_selection - 1) as usize, ..m }
        } else {
            m
        },
        Key::Down => if m.panel_selection < PANEL_COUNT - 1 {
            ConsoleModel { panel_selection: (m.panel_selection + 1) as usize, ..m }
        } else {
            m
        },
        Key::Enter => ConsoleModel { view: Screen::Panel(m.panel_selection), ..m },
        Key::Char(c) => match digit_panel(c) {
            Some(i) => ConsoleModel { view: Screen::Panel(i), ..m },
            None => m,
        },
        _ => m,
    }
}

/// The heartbeat panel (1), the cluster panel (7) and the graph panel (8) take keys of
/// their own; Esc and Tab close an open detail view or go back to the chat; a digit
/// opens another panel.
pub open spec fn panel_key(m: ConsoleModel, p: usize, key: Key, ctx: KeyContext) -> (ConsoleModel, ActionModel) {
    let cols = if ctx.cards_per_row == 0 { 1usize } else { ctx.cards_per_row };
    match key {
        Key::Esc | Key::Tab => if m.hb_expanded && p == 1 {
            (ConsoleModel { hb_expanded: false, ..m }, ActionModel::Nothing)
        } else if m.cluster_expanded && p == 7 {
            (ConsoleModel { cluster_expanded: false, ..m }, ActionModel::Nothing)
        } else {
            (ConsoleModel { view: Screen::Chat, ..m }, ActionModel::Nothing)
        },
        Key::Char(c) => match digit_panel(c) {
            Some(i) => (
                ConsoleModel {
                    view: Screen::Panel(i),
                    hb_expanded: false,
                    hb_scroll: 0,
                    cluster_expanded: false,
                    cluster_scroll: 0,
                    ..m
                },
                ActionModel::Nothing,
            ),
            None => if p == 8 {
                if c == 's' {
                    (m, ActionModel::ToggleAnchors)
                } else if c == 'r' {
                    (m, ActionModel::Reseed)
                } else if c == 'l' {
                    (m, ActionModel::ToggleTrail)
                } else if c == 'm' {
                    (m, ActionModel::ToggleMatrix)
                } else if c == 'h' {
                    (m, ActionModel::ToggleLegend)
                } else {
                    (m, ActionModel::Nothing)
                }
            } else {
                (m, ActionModel::Nothing)
            },
        },
        Key::Up => if p == 1 {
            if m.hb_expanded {
                if m.hb_section > 0 {
                    (ConsoleModel { hb_section: (m.hb_section - 1) as usize, hb_scroll: 0, ..m }, ActionModel::Nothing)
                } else {
                    (m, ActionModel::Nothing)
                }
            } else if m.hb_selection > 0 {
                (ConsoleModel { hb_selection: (m.hb_selection - 1) as usize, ..m }, ActionModel::Nothing)
            } else {
                (m, ActionModel::Nothing)
            }
        } else if p == 7 {
            if m.cluster_expanded {
                if m.cluster_scroll > 0 {
                    (ConsoleModel { cluster_scroll: (m.cluster_scroll - 1) as usize, ..m }, ActionModel::Nothing)
                } else {
                    (m, ActionModel::Nothing)
                }
            } else {
                (ConsoleModel { cluster_selection: nav_up_spec(m.cluster_selection as nat, cols as nat) as usize, ..m }, ActionModel::Nothing)
            }
        } else {
            (m, ActionModel::Nothing)
        },
        Key::Down => if p == 1 {
            if m.hb_expanded {
                if m.hb_section < 4 {
                    (ConsoleModel { hb_section: (m.hb_section + 1) as usize, hb_scroll: 0, ..m }, ActionModel::Nothing)
                } else {
                    (m, ActionModel::Nothing)
                }
            } else if m.hb_selection + 1 < ctx.heartbeat_count {
                (ConsoleModel { hb_selection: (m.hb_selection + 1) as usize, ..m }, ActionModel::Nothing)
            } else {
                (m, ActionModel::Nothing)
            }
        } else if p == 7 {
            if m.cluster_expanded {
                (ConsoleModel { cluster_scroll: (m.cluster_scroll + 1) as usize, ..m }, ActionModel::Nothing)
            } else {
                (
                    ConsoleModel {
                        cluster_selection: nav_down_spec(m.cluster_selection as nat, cols as nat, ctx.cluster_total as nat) as usize,
                        ..m
                    },
                    ActionModel::Nothing,
                )
            }
        } else {
            (m, ActionModel::Nothing)
        },
        Key::Left => if p == 7 && !m.cluster_expanded && m.cluster_selection >= 1 {
            (ConsoleModel { cluster_selection: nav_left_spec(m.cluster_selection as nat, cols as nat) as usize, ..m }, ActionModel::Nothing)
        } else {
            (m, ActionModel::Nothing)
        },
        Key::Right => if p == 7 && !m.cluster_expanded && m.cluster_selection >= 1 {
            (
                ConsoleModel {
                    cluster_selection: nav_right_spec(m.cluster_selection as nat, cols as nat, ctx.cluster_total as nat) as usize,
                    ..m
                },
                ActionModel::Nothing,
            )
        } else {
            (m, ActionModel::Nothing)
        },
        Key::Enter => if p == 1 {
            if !m.hb_expanded {
                (ConsoleModel { hb_expanded: true, hb_section: 0, hb_scroll: 0, ..m }, ActionModel::Nothing)
            } else {
                (m, ActionModel::Nothing)
            }
        } else if p == 7 {
            if ctx.peer_selected {
                (m, ActionModel::OpenPeer)
            } else {
                (ConsoleModel { cluster_expanded: !m.cluster_expanded, cluster_scroll: 0, ..m }, ActionModel::Nothing)
            }
        } else {
            (m, ActionModel::Nothing)
        },
        _ => (m, ActionModel::Nothing),
    }
}

/// A key press in whatever view is shown.
pub open spec fn key_step(m: ConsoleModel, key: Key, mods: Modifiers, ctx: KeyContext) -> (ConsoleModel, ActionModel) {
    match m.view {
        Screen::Chat => chat_key(m, key, mods),
        Screen::PanelSelector => (selector_key(m, key), ActionModel::Nothing),
        Screen::Panel(p) => panel_key(m, p, key, ctx),
    }
}

/// The mouse wheel: in an open heartbeat it scrolls the detail by three lines, elsewhere
/// the chat.
pub open spec fn wheel_step(m: ConsoleModel, up: bool) -> ConsoleModel {
    if m.view == Screen::Panel(1) && m.hb_expanded {
        if up {
            ConsoleModel { hb_scroll: if m.hb_scroll > 3 { (m.hb_scroll - 3) as usize } else { 0 }, ..m }
        } else {
            ConsoleModel { hb_scroll: (m.hb_scroll + 3) as usize, ..m }
        }
    } else if up {
        scroll_back(m, 3)
    } else {
        scroll_forward(m, 3)
    }
}

fn digit_panel_exec(c: char) -> (r: Option<usize>)
    ensures
        r == digit_panel(c),
{
    if '1' <= c && c <= '9' {
        Some((c as u32 - 49) as usize)
    } else {
        None
    }
}

impl Console {
    /// A console with the given prompt history, showing the chat.
    pub fn new(history: Vec<Vec<char>>) -> (c: Console)
        ensures
            c@.wf(),
            c@.history == crate::text::views(history@),
            c@.input.len() == 0,
            c@.view == Screen::Chat,
            c@.auto_scroll,
            c@.show_sidebar,
            c@.mouse_captured,
            c@.history_idx is None,
            c@.scroll_offset == 0,
            !c@.prompt_pending,
    {
        Console {
            input: Vec::new(),
            cursor: 0,
            scroll_offset: 0,
            auto_scroll: true,
            view: Screen::Chat,
            panel_selection: 0,
            show_sidebar: true,
            mouse_captured: true,
            history,
            history_idx: None,
            saved_input: Vec::new(),
            hb_selection: 0,
            hb_expanded: false,
            hb_scroll: 0,
            hb_section: 0,
            cluster_selection: 0,
            cluster_expanded: false,
            cluster_scroll: 0,
            prompt_pending: false,
        }
    }

    /// Enter in the chat.
    fn submit(&mut self) -> (a: Action)
        requires
            old(self)@.wf(),
            old(self)@.history.len() < usize::MAX,
        ensures
            (final(self)@, a@) == submit(old(self)@),
    {
        if self.input.len() == 0 {
            return Action::Nothing;
        }
        let mut msg: Vec<char> = Vec::new();
        std::mem::swap(&mut msg, &mut self.input);
        let kept = slice_chars(&msg, 0, msg.len());
        assert(msg@.subrange(0, msg@.len() as int) == msg@);
        proof {
            crate::text::lemma_views_push(self.history@, kept);
        }
        self.history.push(kept);
        self.history_idx = None;
        self.saved_input = Vec::new();
        self.cursor = 0;
        self.auto_scroll = true;
        self.scroll_offset = 0;
        match slash_word_exec(&msg) {
            Some(w) => {
                let cmd = command_of_exec(&w);
                if cmd == SlashCommand::Panels {
                    self.view = Screen::PanelSelector;
                }
                Action::Command(cmd, w)
            },
            None => {
                self.prompt_pending = true;
                Action::Send(msg)
            },
        }
    }

    /// A key press.
    pub fn handle_key(&mut self, key: Key, mods: Modifiers, ctx: KeyContext) -> (a: Action)
        requires
            old(self)@.wf(),
            old(self)@.room_to_move(ctx),
        ensures
            (final(self)@, a@) == key_step(old(self)@, key, mods, ctx),
            final(self)@.wf(),
    {
        let cols = if ctx.cards_per_row == 0 { 1 } else { ctx.cards_per_row };
        match self.view {
            Screen::Chat => self.chat_key(key, mods),
            Screen::PanelSelector => {
                match key {
                    Key::Esc | Key::Tab => {
                        self.view = Screen::Chat;
                    },
                    Key::Up => {
                        if self.panel_selection > 0 {
                            self.panel_selection = self.panel_selection - 1;
                        }
                    },
                    Key::Down => {
                        if self.panel_selection < PANEL_COUNT - 1 {
                            self.panel_selection = self.panel_selection + 1;
                        }
                    },
                    Key::Enter => {
                        self.view = Screen::Panel(self.panel_selection);
                    },
                    Key::Char(c) => match digit_panel_exec(c) {
                        Some(i) => {
                            self.view = Screen::Panel(i);
                        },
                        None => {},
                    },
                    _ => {},
                }
                Action::Nothing
            },
            Screen::Panel(p) => self.panel_key(p, key, ctx, cols),
        }
    }

    fn chat_key(&mut self, key: Key, mods: Modifiers) -> (a: Action)
        requires
            old(self)@.wf(),
            old(self)@.scroll_offset <= i32::MAX - 20,
            old(self)@.history.len() < usize::MAX,
            old(self)@.view == Screen::Chat,
        ensures
            (final(self)@, a@) == chat_key(old(self)@, key, mods),
            final(self)@.wf(),
    {
        match key {
            Key::Enter => self.submit(),
            Key::Tab => {
                if self.input.len() > 0 && self.input[0] == '/' {
                    assert(starts_with(self.input@, seq!['/'])) by {
                        assert(self.input@.subrange(0, 1) =~= seq!['/']);
                    }
                    self.complete();
                } else {
                    assert(!starts_with(self.input@, seq!['/'])) by {
                        if self.input@.len() > 0 && self.input@.subrange(0, 1) == seq!['/'] {
                            assert(self.input@[0] == self.input@.subrange(0, 1)[0]);
                        }
                    }
                    self.view = Screen::PanelSelector;
                }
                Action::Nothing
            },
            Key::Char(c) => {
                if mods.alt {
                    match digit_panel_exec(c) {
                        Some(i) => {
                            self.view = Screen::Panel(i);
                        },
                        None => {},
                    }
                    Action::Nothing
                } else if mods.ctrl {
                    if c == 'c' || c == 'q' {
                        Action::Quit
                    } else if c == 's' {
                        self.show_sidebar = !self.show_sidebar;
                        Action::Nothing
                    } else if c == 'm' {
                        self.mouse_captured = !self.mouse_captured;
                        Action::MouseCapture(self.mouse_captured)
                    } else if c == 'a' {
                        self.cursor = 0;
                        Action::Nothing
                    } else if c == 'e' {
                        self.cursor = self.input.len();
                        Action::Nothing
                    } else if c == 'u' {
                        self.input = Vec::new();
                        self.cursor = 0;
                        Action::Nothing
                    } else {
                        Action::Nothing
                    }
                } else {
                    self.insert_char(c);
                    Action::Nothing
                }
            },
            Key::Backspace => {
                self.backspace();
                Action::Nothing
            },
            Key::Delete => {
                self.delete_char();
                Action::Nothing
            },
            Key::Left => {
                if self.cursor > 0 {
                    self.cursor = self.cursor - 1;
                }
                Action::Nothing
            },
            Key::Right => {
                if self.cursor < self.input.len() {
                    self.cursor = self.cursor + 1;
                } else {
                    self.cursor = self.input.len();
                }
                Action::Nothing
            },
            Key::Home => {
                if mods.shift {
                    self.scroll_offset = 9999;
                    self.auto_scroll = false;
                } else {
                    self.cursor = 0;
                }
                Action::Nothing
            },
            Key::End => {
                if mods.shift {
                    self.scroll_offset = 0;
                    self.auto_scroll = true;
                } else {
                    self.cursor = self.input.len();
                }
                Action::Nothing
            },
            Key::Up => {
                self.history_up();
                Action::Nothing
            },
            Key::Down => {
                self.history_down();
                Action::Nothing
            },
            Key::PageUp => {
                self.scroll_back(20);
                Action::Nothing
            },
            Key::PageDown => {
                self.scroll_forward(20);
                Action::Nothing
            },
            Key::Esc => {
                if self.input.len() == 0 {
                    Action::Quit
                } else {
                    self.input = Vec::new();
                    self.cursor = 0;
                    Action::Nothing
                }
            },
            Key::Other => Action::Nothing,
        }
    }

    fn panel_key(&mut self, p: usize, key: Key, ctx: KeyContext, cols: usize) -> (a: Action)
        requires
            old(self)@.wf(),
            old(self)@.room_to_move(ctx),
            old(self)@.view == Screen::Panel(p),
            cols == if ctx.cards_per_row == 0 { 1usize } else { ctx.cards_per_row },
        ensures
            (final(self)@, a@) == panel_key(old(self)@, p, key, ctx),
            final(self)@.wf(),
    {
        match key {
            Key::Esc | Key::Tab => {
                if self.hb_expanded && p == 1 {
                    self.hb_expanded = false;
                } else if self.cluster_expanded && p == 7 {
                    self.cluster_expanded = false;
                } else {
                    self.view = Screen::Chat;
                }
                Action::Nothing
            },
            Key::Char(c) => match digit_panel_exec(c) {
                Some(i) => {
                    self.view = Screen::Panel(i);
                    self.hb_expanded = false;
                    self.hb_scroll = 0;
                    self.cluster_expanded = false;
                    self.cluster_scroll = 0;
                    Action::Nothing
                },
                None => {
                    if p == 8 {
                        if c == 's' {
                            Action::ToggleAnchors
                        } else if c == 'r' {
                            Action::Reseed
                        } else if c == 'l' {
                            Action::ToggleTrail
                        } else if c == 'm' {
                            Action::ToggleMatrix
                        } else if c == 'h' {
                            Action::ToggleLegend
                        } else {
                            Action::Nothing
                        }
                    } else {
                        Action::Nothing
                    }
                },
            },
            Key::Up => {
                if p == 1 {
                    if self.hb_expanded {
                        if self.hb_section > 0 {
                            self.hb_section = self.hb_section - 1;
                            self.hb_scroll = 0;
                        }
                    } else if self.hb_selection > 0 {
                        self.hb_selection = self.hb_selection - 1;
                    }
                } else if p == 7 {
                    if self.cluster_expanded {
                        if self.cluster_scroll > 0 {
                            self.cluster_scroll = self.cluster_scroll - 1;
                        }
                    } else {
                        self.cluster_selection = cluster_nav_up(self.cluster_selection, cols);
                    }
                }
                Action::Nothing
            },
            Key::Down => {
                if p == 1 {
                    if self.hb_expanded {
                        if self.hb_section < 4 {
                            self.hb_section = self.hb_section + 1;
                            self.hb_scroll = 0;
                        }
                    } else if self.hb_selection + 1 < ctx.heartbeat_count {
                        self.hb_selection = self.hb_selection + 1;
                    }
                } else if p == 7 {
                    if self.cluster_expanded {
                        self.cluster_scroll = self.cluster_scroll + 1;
                    } else {
                        self.cluster_selection = cluster_nav_down(self.cluster_selection, cols, ctx.cluster_total);
                    }
                }
                Action::Nothing
            },
            Key::Left => {
                if p == 7 && !self.cluster_expanded && self.cluster_selection >= 1 {
                    self.cluster_selection = cluster_nav_left(self.cluster_selection, cols);
                }
                Action::Nothing
            },
            Key::Right => {
                if p == 7 && !self.cluster_expanded && self.cluster_selection >= 1 {
                    self.cluster_selection = cluster_nav_right(self.cluster_selection, cols, ctx.cluster_total);
                }
                Action::Nothing
            },
            Key::Enter => {
                if p == 1 {
                    if !self.hb_expanded {
                        self.hb_expanded = true;
                        self.hb_section = 0;
                        self.hb_scroll = 0;
                    }
                    Action::Nothing
                } else if p == 7 {
                    if ctx.peer_selected {
                        Action::OpenPeer
                    } else {
                        self.cluster_expanded = !self.cluster_expanded;
                        self.cluster_scroll = 0;
                        Action::Nothing
                    }
                } else {
                    Action::Nothing
                }
            },
            _ => Action::Nothing,
        }
    }

    /// A turn of the mouse wheel.
    pub fn handle_wheel(&mut self, up: bool)
        requires
            old(self)@.wf(),
            old(self)@.scroll_offset <= i32::MAX - 3,
            old(self)@.hb_scroll <= usize::MAX - 3,
        ensures
            final(self)@ == wheel_step(old(self)@, up),
            final(self)@.wf(),
    {
        if self.view == Screen::Panel(1) && self.hb_expanded {
            if up {
                self.hb_scroll = if self.hb_scroll > 3 { self.hb_scroll - 3 } else { 0 };
            } else {
                self.hb_scroll = self.hb_scroll + 3;
            }
        } else if up {
            self.scroll_back(3);
        } else {
            self.scroll_forward(3);
        }
    }
}


// ───────────────────────── laws ─────────────────────────

/// Typing a character and deleting it again gives back the input and the cursor.
pub proof fn lemma_type_then_backspace(m: ConsoleModel, c: char)
    requires
        m.wf(),
        utf8_len(m.input) < INPUT_LIMIT,
    ensures
        backspace(insert_char(m, c)) == m,
{
    crate::text::lemma_utf8_len_bound(m.input);
    let m1 = insert_char(m, c);
    assert(m1.cursor == m.cursor + 1);
    assert(m.input.insert(m.cursor as int, c).remove(m.cursor as int) =~= m.input);
    let m2 = backspace(m1);
    assert(m2.input == m.input);
    assert(m2.cursor == m.cursor);
}

/// Moving left and back right returns the cursor, away from the start of the input;
/// moving right and back left does, away from its end.
pub proof fn lemma_left_right(m: ConsoleModel)
    requires
        m.wf(),
        m.input.len() <= usize::MAX,
    ensures
        m.cursor > 0 ==> chat_key(chat_key(m, Key::Left, Modifiers { shift: false, ctrl: false, alt: false }).0, Key::Right, Modifiers { shift: false, ctrl: false, alt: false }).0 == m,
        m.cursor < m.input.len() ==> chat_key(chat_key(m, Key::Right, Modifiers { shift: false, ctrl: false, alt: false }).0, Key::Left, Modifiers { shift: false, ctrl: false, alt: false }).0 == m,
{
}

/// Browsing back one prompt and forward again gives back the input that was being typed.
pub proof fn lemma_up_then_down(m: ConsoleModel)
    requires
        m.wf(),
        m.history_idx is None,
        m.history.len() > 0,
        m.history.len() <= usize::MAX,
    ensures
        history_down(history_up(m)).input == m.input,
        history_down(history_up(m)).history_idx is None,
        history_down(history_up(m)).history == m.history,
{
}

/// A message that was sent comes back first when browsing the history.
pub proof fn lemma_sent_then_recalled(m: ConsoleModel)
    requires
        m.wf(),
        m.input.len() > 0,
    ensures
        history_up(submit(m).0).input == m.input,
        submit(m).0.history.last() == m.input,
{
}

/// Scrolling a page back and a page forward returns to the same place.
pub proof fn lemma_page_up_down(m: ConsoleModel)
    requires
        m.wf(),
        m.scroll_offset <= i32::MAX - 20,
    ensures
        scroll_forward(scroll_back(m, 20), 20).scroll_offset == m.scroll_offset,
{
}

proof fn lemma_extensions_extend(cs: Seq<Seq<char>>, s: Seq<char>)
    ensures
        forall|k: int| 0 <= k < extensions(cs, s).len() ==> starts_with(#[trigger] extensions(cs, s)[k], s)
            && extensions(cs, s)[k].len() > s.len(),
    decreases cs.len(),
{
    if cs.len() > 0 {
        lemma_extensions_extend(cs.drop_last(), s);
        let r = extensions(cs.drop_last(), s);
        assert forall|k: int| 0 <= k < r.len() implies #[trigger] extensions(cs, s)[k] == r[k] by {}
        let c = cs.last();
        if starts_with(c, s) && c != s {
            assert(c.len() > s.len()) by {
                if c.len() == s.len() {
                    assert(c =~= c.subrange(0, s.len() as int));
                }
            }
        }
    }
}

/// Completion only ever extends what was typed.
pub proof fn lemma_completion_extends(m: ConsoleModel)
    ensures
        starts_with(complete(m).input, m.input),
{
    let ms = extensions(slash_commands(), m.input);
    lemma_extensions_extend(slash_commands(), m.input);
    if ms.len() == 1 {
        assert(starts_with(ms[0], m.input));
    } else if ms.len() > 1 && shared_len(ms) > m.input.len() {
        lemma_shared_len_bound(ms);
        let t = ms[0].take(shared_len(ms) as int);
        assert(starts_with(ms[0], m.input));
        assert(t.subrange(0, m.input.len() as int) =~= ms[0].subrange(0, m.input.len() as int));
    } else {
        assert(m.input.subrange(0, m.input.len() as int) =~= m.input);
    }
}

} // verus!
