//! The console's panels: their identities, and the small decisions and labels they
//! draw from the state (the seal's mood, the beat budget bar).
use vstd::prelude::*;
use crate::text::{chars_string, decimal, lines, push_all, repeat_char, split_lines, str_chars, str_views, to_strings, usize_decimal, u64_decimal, views};

verus! {

/// The clock, beat count and queue line at the top.
pub struct HeaderPanel;

/// Recent heartbeats.
pub struct HeartbeatPanel;

/// Pending intentions.
pub struct IntentionsPanel;

/// Notes, wings and rooms of the memory palace.
pub struct MemoryPanel;

/// Neil the seal, with his mood and a summary of the state.
pub struct SealPanel;

/// The one-line status bar.
pub struct StatusPanel;

/// Essence files, services, autoprompt and queue.
pub struct SystemPanel;

impl HeaderPanel {
    pub fn id(&self) -> (r: &'static str)
        ensures
            r@ == "header"@,
    {
        "header"
    }

    pub fn title(&self) -> (r: &'static str)
        ensures
            r@ == ""@,
    {
        ""
    }

    pub fn priority(&self) -> (r: u8)
        ensures
            r == 3,
    {
        3
    }
}

impl HeartbeatPanel {
    pub fn id(&self) -> (r: &'static str)
        ensures
            r@ == "heartbeat"@,
    {
        "heartbeat"
    }

    pub fn title(&self) -> (r: &'static str)
        ensures
            r@ == " heartbeat "@,
    {
        " heartbeat "
    }

    pub fn priority(&self) -> (r: u8)
        ensures
            r == 3,
    {
        3
    }
}

impl IntentionsPanel {
    pub fn id(&self) -> (r: &'static str)
        ensures
            r@ == "intentions"@,
    {
        "intentions"
    }

    pub fn title(&self) -> (r: &'static str)
        ensures
            r@ == " intentions "@,
    {
        " intentions "
    }

    pub fn priority(&self) -> (r: u8)
        ensures
            r == 2,
    {
        2
    }
}

impl MemoryPanel {
    pub fn id(&self) -> (r: &'static str)
        ensures
            r@ == "memory"@,
    {
        "memory"
    }

    pub fn title(&self) -> (r: &'static str)
        ensures
            r@ == " memory palace "@,
    {
        " memory palace "
    }

    pub fn priority(&self) -> (r: u8)
        ensures
            r == 3,
    {
        3
    }
}

impl SealPanel {
    pub fn id(&self) -> (r: &'static str)
        ensures
            r@ == "seal"@,
    {
        "seal"
    }

    pub fn title(&self) -> (r: &'static str)
        ensures
            r@ == "Neil"@,
    {
        "Neil"
    }

    pub fn priority(&self) -> (r: u8)
        ensures
            r == 3,
    {
        3
    }

    /// One-line summary for narrow screens: seal, mood, beats today, notes.
    pub fn compact(&self, mood: Mood, beats_today: usize, total_notes: usize) -> (r: String)
        ensures
            r@ == "🦭 "@ + mood_label(mood) + " | "@ + decimal(beats_today as nat) + "b | "@
                + decimal(total_notes as nat) + "n"@,
    {
        let mut s = str_chars("🦭 ");
        push_all(&mut s, &str_chars(mood.label()));
        push_all(&mut s, &str_chars(" | "));
        push_all(&mut s, &usize_decimal(beats_today));
        push_all(&mut s, &str_chars("b | "));
        push_all(&mut s, &usize_decimal(total_notes));
        push_all(&mut s, &str_chars("n"));
        chars_string(&s)
    }
}

impl StatusPanel {
    pub fn id(&self) -> (r: &'static str)
        ensures
            r@ == "status"@,
    {
        "status"
    }

    pub fn title(&self) -> (r: &'static str)
        ensures
            r@ == ""@,
    {
        ""
    }

    pub fn priority(&self) -> (r: u8)
        ensures
            r == 3,
    {
        3
    }
}

impl SystemPanel {
    pub fn id(&self) -> (r: &'static str)
        ensures
            r@ == "system"@,
    {
        "system"
    }

    pub fn title(&self) -> (r: &'static str)
        ensures
            r@ == " system "@,
    {
        " system "
    }

    pub fn priority(&self) -> (r: u8)
        ensures
            r == 2,
    {
        2
    }
}

// ───────────────────────── mood ─────────────────────────

/// Neil's mood, derived from the system state.
#[derive(Clone, Copy, PartialEq, Eq, Structural, Debug)]
pub enum Mood {
    Happy,
    Working,
    Curious,
    Tired,
    Alert,
    Sleeping,
}

/// The mood: asleep from 23:00 to 07:00, alert with unresolved failures, tired past 35
/// beats, working with a queue, otherwise curious every fourth tick and happy between.
pub open spec fn mood_spec(hour: u8, unresolved: bool, beats_today: usize, queue: usize, tick: u64) -> Mood {
    if hour >= 23 || hour < 7 {
        Mood::Sleeping
    } else if unresolved {
        Mood::Alert
    } else if beats_today > 35 {
        Mood::Tired
    } else if queue > 0 {
        Mood::Working
    } else if tick % 4 == 0 {
        Mood::Curious
    } else {
        Mood::Happy
    }
}

pub open spec fn mood_label(m: Mood) -> Seq<char> {
    match m {
        Mood::Happy => "happy"@,
        Mood::Working => "working"@,
        Mood::Curious => "curious"@,
        Mood::Tired => "tired"@,
        Mood::Alert => "alert!"@,
        Mood::Sleeping => "sleeping"@,
    }
}

pub open spec fn mood_art_file(m: Mood) -> Seq<char> {
    match m {
        Mood::Happy => "happy.txt"@,
        Mood::Working => "working.txt"@,
        Mood::Curious => "curious.txt"@,
        Mood::Tired => "working.txt"@,
        Mood::Alert => "stressed.txt"@,
        Mood::Sleeping => "sleeping.txt"@,
    }
}

pub open spec fn mood_emoji(m: Mood) -> Seq<char> {
    match m {
        Mood::Happy => ":)"@,
        Mood::Working => "o.o"@,
        Mood::Curious => ":?"@,
        Mood::Tired => "~.~"@,
        Mood::Alert => "O_O"@,
        Mood::Sleeping => "z.z"@,
    }
}

impl Mood {
    /// The mood for the hour of day, whether failures are unresolved, today's beats, the
    /// queue length and the animation tick.
    pub fn from_parts(hour: u8, unresolved: bool, beats_today: usize, queue: usize, tick: u64) -> (m:
        Mood)
        ensures
            m == mood_spec(hour, unresolved, beats_today, queue, tick),
    {
        if hour >= 23 || hour < 7 {
            Mood::Sleeping
        } else if unresolved {
            Mood::Alert
        } else if beats_today > 35 {
            Mood::Tired
        } else if queue > 0 {
            Mood::Working
        } else if tick % 4 == 0 {
            Mood::Curious
        } else {
            Mood::Happy
        }
    }

    pub fn label(&self) -> (r: &'static str)
        ensures
            r@ == mood_label(*self),
    {
        match self {
            Mood::Happy => "happy",
            Mood::Working => "working",
            Mood::Curious => "curious",
            Mood::Tired => "tired",
            Mood::Alert => "alert!",
            Mood::Sleeping => "sleeping",
        }
    }

    pub fn art_file(&self) -> (r: &'static str)
        ensures
            r@ == mood_art_file(*self),
    {
        match self {
            Mood::Happy => "happy.txt",
            Mood::Working => "working.txt",
            Mood::Curious => "curious.txt",
            Mood::Tired => "working.txt",
            Mood::Alert => "stressed.txt",
            Mood::Sleeping => "sleeping.txt",
        }
    }

    pub fn emoji(&self) -> (r: &'static str)
        ensures
            r@ == mood_emoji(*self),
    {
        match self {
            Mood::Happy => ":)",
            Mood::Working => "o.o",
            Mood::Curious => ":?",
            Mood::Tired => "~.~",
            Mood::Alert => "O_O",
            Mood::Sleeping => "z.z",
        }
    }
}

/// The simple ASCII seal drawn when the mood's art file cannot be read, with the mood's
/// face in the middle.
pub open spec fn fallback_art(m: Mood) -> Seq<Seq<char>> {
    seq![
        "      _____      "@,
        "    /       \\    "@,
        "   |  "@ + mood_emoji(m) + "  |   "@,
        "    \\ .---. /    "@,
        "     '-----'     "@,
        "    /|     |\\    "@,
        "~~~~~~~~~~~~~~~~~~"@,
    ]
}

/// The seal's art for `mood`: the lines of its art file when it could be read
/// (`content`), else the simple ASCII seal.
pub fn art_or_fallback(content: Option<&str>, mood: Mood) -> (r: Vec<String>)
    ensures
        str_views(r@) == match content {
            Some(c) => lines(c@),
            None => fallback_art(mood),
        },
{
    match content {
        Some(c) => to_strings(&split_lines(&str_chars(c))),
        None => {
            let face = str_chars(mood.emoji());
            let mut mid: Vec<char> = str_chars("   |  ");
            push_all(&mut mid, &face);
            push_all(&mut mid, &str_chars("  |   "));
            let rows: Vec<Vec<char>> = vec![
                str_chars("      _____      "),
                str_chars("    /       \\    "),
                mid,
                str_chars("    \\ .---. /    "),
                str_chars("     '-----'     "),
                str_chars("    /|     |\\    "),
                str_chars("~~~~~~~~~~~~~~~~~~"),
            ];
            assert(views(rows@) =~= fallback_art(mood));
            to_strings(&rows)
        },
    }
}

/// The hour of a two-digit `HH` clock field (12 when it does not parse as a `u8`).
pub fn hour_from_text(hh: &str) -> (h: u8)
    ensures
        h == match crate::text::parse_uint_spec(hh@, u8::MAX as nat) {
            Some(v) => v as u8,
            None => 12u8,
        },
{
    match crate::text::parse_uint(&str_chars(hh), u8::MAX as u64) {
        Some(v) => v as u8,
        None => 12,
    }
}

// ───────────────────────── beat budget bar ─────────────────────────

/// Filled cells of a `width`-cell bar for `beats` out of `max` (none when `max` is 0).
pub open spec fn bar_filled(beats: nat, max: nat, width: nat) -> nat {
    let left: nat = if beats < max { (max - beats) as nat } else { 0 };
    let f = if max > 0 {
        (left * width) / max
    } else {
        0
    };
    if f < width {
        f
    } else {
        width
    }
}

/// `[========--] beats/max`: the share of the budget still left, filled.
pub open spec fn beat_bar_spec(beats: nat, max: nat, width: nat) -> Seq<char> {
    let f = bar_filled(beats, max, width);
    seq!['['] + Seq::new(f, |_i: int| '=') + Seq::new((width - f) as nat, |_i: int| '-') + "] "@
        + decimal(beats) + seq!['/'] + decimal(max)
}

/// The beat budget bar: `[` then `=` for the share of the `max` beats still left (of
/// `width` cells), `-` for the used share, `] ` and `beats/max`. For 10 beats of 50 in
/// ten cells, `[========--] 10/50`.
pub fn beat_bar(beats: usize, max: usize, width: usize) -> (r: String)
    ensures
        r@ == beat_bar_spec(beats as nat, max as nat, width as nat),
{
    let left: usize = if beats < max { max - beats } else { 0 };
    let filled: u128 = if max > 0 {
        assert((left as u128) * (width as u128) <= 0xffff_ffff_ffff_ffff * 0xffff_ffff_ffff_ffff) by (nonlinear_arith)
            requires
                left <= 0xffff_ffff_ffff_ffff,
                width <= 0xffff_ffff_ffff_ffff,
        ;
        let lw: u128 = (left as u128) * (width as u128);
        (lw / (max as u128))
    } else {
        0
    };
    let filled: usize = if filled < width as u128 {
        filled as usize
    } else {
        width
    };
    let empty = width - filled;
    let mut s: Vec<char> = vec!['['];
    push_all(&mut s, &repeat_char('=', filled));
    push_all(&mut s, &repeat_char('-', empty));
    push_all(&mut s, &str_chars("] "));
    push_all(&mut s, &usize_decimal(beats));
    s.push('/');
    push_all(&mut s, &usize_decimal(max));
    assert(s@ =~= beat_bar_spec(beats as nat, max as nat, width as nat));
    chars_string(&s)
}

} // verus!
