//! What the console tells Neil about itself: a snapshot of what the user sees, written
//! out every few seconds by the terminal layer.
use vstd::prelude::*;
use crate::console::{Console, Screen};
use crate::screen_view::{panel_names, panel_names_exec};
use crate::stream::{EntryKind, RichBlock, StreamEntry};
use crate::styled::{cat, copy};
use crate::text::{
    byte_len, chars_string, decimal, first_chars, str_chars, take_chars, u128_decimal, u64_decimal,
    utf8_len, views,
};

verus! {

/// The console as the user sees it.
pub struct BlueprintState {
    pub timestamp: String,
    pub running: bool,
    /// "chat", "panel_selector" or "panel:" and the panel's name.
    pub view: String,
    /// Width and height of the terminal.
    pub terminal_size: (u16, u16),
    /// Entries in the conversation.
    pub stream_length: usize,
    /// Lines scrolled back from the bottom.
    pub scroll_offset: i32,
    /// The user is at the bottom.
    pub auto_scroll: bool,
    /// How much the user has typed and not yet sent.
    pub input_buffer: String,
    pub last_user_message: String,
    pub sidebar_visible: bool,
    /// The user typed within the last minute.
    pub user_active: bool,
    pub last_input_time: String,
    /// A reply is arriving.
    pub streaming: bool,
    /// Bytes of the reply received so far.
    pub stream_chars: usize,
}

/// The name of a screen in the snapshot.
pub open spec fn view_label(v: Screen) -> Seq<char> {
    match v {
        Screen::Chat => "chat"@,
        Screen::PanelSelector => "panel_selector"@,
        Screen::Panel(i) => "panel:"@ + if i < 9 {
            panel_names()[i as int]
        } else {
            "?"@
        },
    }
}

/// The name of a screen in the snapshot.
pub fn view_label_exec(v: Screen) -> (r: String)
    ensures
        r@ == view_label(v),
{
    match v {
        Screen::Chat => String::from_str("chat"),
        Screen::PanelSelector => String::from_str("panel_selector"),
        Screen::Panel(i) => {
            let names = panel_names_exec();
            let name = if i < 9 {
                assert(views(names@)[i as int] == names@[i as int]@);
                copy(&names[i])
            } else {
                str_chars("?")
            };
            chars_string(&cat(&str_chars("panel:"), &name))
        },
    }
}

/// How much is typed: nothing when the input is empty, else its size in bytes.
pub open spec fn input_summary(input: Seq<char>) -> Seq<char> {
    if input.len() == 0 {
        seq![]
    } else {
        "("@ + decimal(utf8_len(input)) + " chars)"@
    }
}

/// How much is typed.
pub fn input_summary_exec(input: &[char]) -> (r: String)
    ensures
        r@ == input_summary(input@),
{
    if input.len() == 0 {
        return String::new();
    }
    let n = byte_len(input);
    chars_string(&cat(&cat(&str_chars("("), &u128_decimal(n)), &str_chars(" chars)")))
}

/// The start of the user's last message: the first 80 characters of the first block of
/// the latest entry the user wrote when that block is text; empty otherwise.
pub open spec fn last_user_message(stream: Seq<StreamEntry>) -> Seq<char>
    decreases stream.len(),
{
    if stream.len() == 0 {
        seq![]
    } else if stream.last().kind == EntryKind::Human {
        let bs = stream.last().blocks@;
        if bs.len() > 0 {
            match bs[0] {
                RichBlock::Text(t) => take_chars(t@, 80),
                _ => seq![],
            }
        } else {
            seq![]
        }
    } else {
        last_user_message(stream.drop_last())
    }
}

/// The start of the user's last message.
pub fn last_user_message_exec(stream: &[StreamEntry]) -> (r: String)
    ensures
        r@ == last_user_message(stream@),
{
    let mut k = stream.len();
    assert(stream@.take(k as int) =~= stream@);
    while k > 0
        invariant
            k <= stream@.len(),
            last_user_message(stream@) == last_user_message(stream@.take(k as int)),
        decreases k,
    {
        assert(stream@.take(k as int).drop_last() =~= stream@.take(k - 1));
        let e = &stream[k - 1];
        if e.kind == EntryKind::Human {
            if e.blocks.len() > 0 {
                return match &e.blocks[0] {
                    RichBlock::Text(t) => chars_string(&first_chars(&str_chars(t.as_str()), 80)),
                    _ => String::new(),
                };
            }
            return String::new();
        }
        k = k - 1;
    }
    String::new()
}

/// When the user last typed: seconds ago within the hour, else inactive.
pub open spec fn input_age_label(secs: u64) -> Seq<char> {
    if secs < 3600 {
        decimal(secs as nat) + "s ago"@
    } else {
        "inactive"@
    }
}

/// When the user last typed.
pub fn input_age_label_exec(secs: u64) -> (r: String)
    ensures
        r@ == input_age_label(secs),
{
    if secs < 3600 {
        chars_string(&cat(&u64_decimal(secs), &str_chars("s ago")))
    } else {
        String::from_str("inactive")
    }
}

/// The snapshot of a running console, stamped with the local clock time (empty when
/// the clock cannot be read), with the
/// terminal `size`, the conversation, the seconds since the user last typed, and the
/// live reply's state.
pub fn blueprint_state(
    console: &Console,
    size: (u16, u16),
    stream: &[StreamEntry],
    idle_secs: u64,
    streaming: bool,
    stream_chars: usize,
) -> (b: BlueprintState)
    ensures
        b.running,
        b.view@ == view_label(console.view),
        b.terminal_size == size,
        b.stream_length == stream@.len(),
        b.scroll_offset == console.scroll_offset,
        b.auto_scroll == console.auto_scroll,
        b.input_buffer@ == input_summary(console.input@),
        b.last_user_message@ == last_user_message(stream@),
        b.sidebar_visible == console.show_sidebar,
        b.user_active == (idle_secs < 60),
        b.last_input_time@ == input_age_label(idle_secs),
        b.streaming == streaming,
        b.stream_chars == stream_chars,
{
    let timestamp = crate::clock::clock_text("%Y-%m-%dT%H:%M:%S");
    BlueprintState {
        timestamp,
        running: true,
        view: view_label_exec(console.view),
        terminal_size: size,
        stream_length: stream.len(),
        scroll_offset: console.scroll_offset,
        auto_scroll: console.auto_scroll,
        input_buffer: input_summary_exec(&console.input),
        last_user_message: last_user_message_exec(stream),
        sidebar_visible: console.show_sidebar,
        user_active: idle_secs < 60,
        last_input_time: input_age_label_exec(idle_secs),
        streaming,
        stream_chars,
    }
}

} // verus!
