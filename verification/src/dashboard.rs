//! The dashboard panels: the header and status lines, the system, memory, heartbeat and
//! intentions boxes, and the seal's panel with its mood.
use vstd::prelude::*;
use crate::panels::{
    beat_bar, beat_bar_spec, mood_label, HeaderPanel, HeartbeatPanel, IntentionsPanel, MemoryPanel, Mood,
    SealPanel, StatusPanel, SystemPanel,
};
use crate::state::{HeartbeatEntry, Intention, PalaceState, WingInfo};
use crate::styled::{
    append_rows, bold, bold_look, cat, fg, fg_look, line1, push_piece, push_row, row1, row_view, rows_view, Look,
    Piece, Tone,
};
use crate::text::{
    chars_string, decimal, first_chars, fit_prefix_len, slice_chars, str_chars, take_chars,
    truncate_bytes, truncate_chars, usize_decimal, utf8_len,
};
use crate::heartbeat_view::{plain, status_tone, status_tone_exec};

verus! {

/// The colour of a mood.
pub open spec fn mood_tone(m: Mood) -> Tone {
    match m {
        Mood::Happy => Tone::Green,
        Mood::Working => Tone::Cyan,
        Mood::Curious => Tone::Magenta,
        Mood::Tired => Tone::Yellow,
        Mood::Alert => Tone::Red,
        Mood::Sleeping => Tone::Blue,
    }
}

/// The colour of a mood.
pub fn mood_color(m: Mood) -> (t: Tone)
    ensures
        t == mood_tone(m),
{
    match m {
        Mood::Happy => Tone::Green,
        Mood::Working => Tone::Cyan,
        Mood::Curious => Tone::Magenta,
        Mood::Tired => Tone::Yellow,
        Mood::Alert => Tone::Red,
        Mood::Sleeping => Tone::Blue,
    }
}

/// The name badge.
pub open spec fn badge() -> Look {
    Look { fg: Tone::Black, bg: Tone::Cyan, bold: false, blink: false, italic: false }
}

/// Some prefix of `s` takes exactly `b` bytes.
pub open spec fn boundary_at(s: Seq<char>, b: nat) -> bool {
    exists|k: int| 0 <= k <= s.len() && #[trigger] utf8_len(s.take(k)) == b
}

/// What follows the first `b` bytes of `s`.
pub open spec fn bytes_after(s: Seq<char>, b: nat) -> Seq<char> {
    s.skip(fit_prefix_len(s, b) as int)
}

fn bytes_after_exec(s: &[char], b: usize) -> (r: Vec<char>)
    ensures
        r@ == bytes_after(s@, b as nat),
{
    let k = truncate_chars(s, b).len();
    proof {
        crate::text::lemma_fit_prefix(s@, b as nat);
    }
    let r = slice_chars(s, k, s.len());
    assert(r@ =~= bytes_after(s@, b as nat));
    r
}

fn plain_look() -> (l: Look)
    ensures
        l == plain(),
{
    Look { fg: Tone::Reset, bg: Tone::Reset, bold: false, blink: false, italic: false }
}

// ───────────────────────── header and status lines ─────────────────────────

/// The header line: the badge, the date and time, today's beats out of fifty (red past
/// forty) and the queue (yellow when not empty).
pub open spec fn header_line(date_time: Seq<char>, beats: usize, queue: usize) -> Seq<(Seq<char>, Look)> {
    seq![
        (" NEIL "@, badge()),
        (" | "@, plain()),
        (date_time, fg(Tone::DarkGray)),
        (" | beats: "@ + decimal(beats as nat) + "/50"@, fg(if beats > 40 { Tone::Red } else { Tone::DarkGray })),
        (" | queue: "@ + decimal(queue as nat), fg(if queue > 0 { Tone::Yellow } else { Tone::DarkGray })),
    ]
}

impl HeaderPanel {
    /// The header line for the date and time given.
    pub fn render(&self, date_time: &str, beats: usize, queue: usize) -> (r: Vec<Piece>)
        ensures
            row_view(r@) == header_line(date_time@, beats, queue),
    {
        let mut r: Vec<Piece> = Vec::new();
        push_piece(&mut r, str_chars(" NEIL "), Look { fg: Tone::Black, bg: Tone::Cyan, bold: false, blink: false, italic: false });
        push_piece(&mut r, str_chars(" | "), plain_look());
        push_piece(&mut r, str_chars(date_time), fg_look(Tone::DarkGray));
        push_piece(&mut r, cat(&cat(&str_chars(" | beats: "), &usize_decimal(beats)), &str_chars("/50")), fg_look(if beats > 40 { Tone::Red } else { Tone::DarkGray }));
        push_piece(&mut r, cat(&str_chars(" | queue: "), &usize_decimal(queue)), fg_look(if queue > 0 { Tone::Yellow } else { Tone::DarkGray }));
        assert(row_view(r@) =~= header_line(date_time@, beats, queue));
        r
    }
}

/// The status line: the last beat (or "never"), pending intentions, unresolved failures
/// and notes.
pub open spec fn status_line(last_beat: Seq<char>, pending: usize, unresolved: usize, notes: usize) -> Seq<(Seq<char>, Look)> {
    seq![
        (" last beat: "@, fg(Tone::DarkGray)),
        (if last_beat.len() == 0 { "never"@ } else { last_beat }, fg(Tone::White)),
        (" | intents: "@ + decimal(pending as nat), fg(if pending > 0 { Tone::Yellow } else { Tone::DarkGray })),
        (" | failures: "@ + decimal(unresolved as nat), fg(if unresolved > 0 { Tone::Red } else { Tone::DarkGray })),
        (" | notes: "@ + decimal(notes as nat), fg(Tone::Cyan)),
        (" | q to quit"@, fg(Tone::DarkGray)),
    ]
}

impl StatusPanel {
    /// The status line.
    pub fn render(&self, last_beat: &str, pending: usize, unresolved: usize, notes: usize) -> (r: Vec<Piece>)
        ensures
            row_view(r@) == status_line(last_beat@, pending, unresolved, notes),
    {
        let last = str_chars(last_beat);
        let mut r: Vec<Piece> = Vec::new();
        push_piece(&mut r, str_chars(" last beat: "), fg_look(Tone::DarkGray));
        push_piece(&mut r, if last.len() == 0 { str_chars("never") } else { last }, fg_look(Tone::White));
        push_piece(&mut r, cat(&str_chars(" | intents: "), &usize_decimal(pending)), fg_look(if pending > 0 { Tone::Yellow } else { Tone::DarkGray }));
        push_piece(&mut r, cat(&str_chars(" | failures: "), &usize_decimal(unresolved)), fg_look(if unresolved > 0 { Tone::Red } else { Tone::DarkGray }));
        push_piece(&mut r, cat(&str_chars(" | notes: "), &usize_decimal(notes)), fg_look(Tone::Cyan));
        push_piece(&mut r, str_chars(" | q to quit"), fg_look(Tone::DarkGray));
        assert(row_view(r@) =~= status_line(last_beat@, pending, unresolved, notes));
        r
    }
}

// ───────────────────────── the system box ─────────────────────────

/// The system box's lines, as many as fit in `height` rows.
pub open spec fn system_box(essence: usize, services: usize, active: bool, queue: usize, height: usize) -> Seq<Seq<(Seq<char>, Look)>> {
    let all = seq![
        seq![("  essence     "@, fg(Tone::DarkGray)), (decimal(essence as nat) + " files"@, fg(Tone::Cyan))],
        seq![("  services    "@, fg(Tone::DarkGray)), (decimal(services as nat) + " registered"@, fg(Tone::Cyan))],
        seq![("  autoprompt  "@, fg(Tone::DarkGray)), (if active { "active"@ } else { "DOWN"@ }, fg(if active { Tone::Green } else { Tone::Red }))],
        seq![("  queue       "@, fg(Tone::DarkGray)), (decimal(queue as nat) + " pending"@, fg(if queue > 0 { Tone::Yellow } else { Tone::DarkGray }))],
    ];
    all.take(if height < 4 { height as int } else { 4 })
}

impl SystemPanel {
    /// The system box's lines for a box `height` rows high inside its frame.
    pub fn render(&self, essence: usize, services: usize, active: bool, queue: usize, height: usize) -> (r: Vec<Vec<Piece>>)
        ensures
            rows_view(r@) == system_box(essence, services, active, queue, height),
    {
        let mut all: Vec<Vec<Piece>> = Vec::new();
        let mut a: Vec<Piece> = Vec::new();
        push_piece(&mut a, str_chars("  essence     "), fg_look(Tone::DarkGray));
        push_piece(&mut a, cat(&usize_decimal(essence), &str_chars(" files")), fg_look(Tone::Cyan));
        assert(row_view(a@) =~= seq![("  essence     "@, fg(Tone::DarkGray)), (decimal(essence as nat) + " files"@, fg(Tone::Cyan))]);
        push_row(&mut all, a);
        let mut b: Vec<Piece> = Vec::new();
        push_piece(&mut b, str_chars("  services    "), fg_look(Tone::DarkGray));
        push_piece(&mut b, cat(&usize_decimal(services), &str_chars(" registered")), fg_look(Tone::Cyan));
        assert(row_view(b@) =~= seq![("  services    "@, fg(Tone::DarkGray)), (decimal(services as nat) + " registered"@, fg(Tone::Cyan))]);
        push_row(&mut all, b);
        let mut c: Vec<Piece> = Vec::new();
        push_piece(&mut c, str_chars("  autoprompt  "), fg_look(Tone::DarkGray));
        push_piece(&mut c, if active { str_chars("active") } else { str_chars("DOWN") }, fg_look(if active { Tone::Green } else { Tone::Red }));
        assert(row_view(c@) =~= seq![("  autoprompt  "@, fg(Tone::DarkGray)), (if active { "active"@ } else { "DOWN"@ }, fg(if active { Tone::Green } else { Tone::Red }))]);
        push_row(&mut all, c);
        let mut d: Vec<Piece> = Vec::new();
        push_piece(&mut d, str_chars("  queue       "), fg_look(Tone::DarkGray));
        push_piece(&mut d, cat(&usize_decimal(queue), &str_chars(" pending")), fg_look(if queue > 0 { Tone::Yellow } else { Tone::DarkGray }));
        assert(row_view(d@) =~= seq![("  queue       "@, fg(Tone::DarkGray)), (decimal(queue as nat) + " pending"@, fg(if queue > 0 { Tone::Yellow } else { Tone::DarkGray }))]);
        push_row(&mut all, d);
        let ghost av = rows_view(all@);
        assert(av =~= seq![
            seq![("  essence     "@, fg(Tone::DarkGray)), (decimal(essence as nat) + " files"@, fg(Tone::Cyan))],
            seq![("  services    "@, fg(Tone::DarkGray)), (decimal(services as nat) + " registered"@, fg(Tone::Cyan))],
            seq![("  autoprompt  "@, fg(Tone::DarkGray)), (if active { "active"@ } else { "DOWN"@ }, fg(if active { Tone::Green } else { Tone::Red }))],
            seq![("  queue       "@, fg(Tone::DarkGray)), (decimal(queue as nat) + " pending"@, fg(if queue > 0 { Tone::Yellow } else { Tone::DarkGray }))],
        ]);
        let keep: usize = if height < 4 { height } else { 4 };
        all.truncate(keep);
        assert(rows_view(all@) =~= av.take(keep as int));
        all
    }
}

// ───────────────────────── the memory box ─────────────────────────

/// A wing's rooms as `room(count)`, joined by commas.
pub open spec fn rooms_text(rs: Seq<(String, usize)>) -> Seq<char>
    decreases rs.len(),
{
    if rs.len() == 0 {
        seq![]
    } else if rs.len() == 1 {
        rs[0].0@ + "("@ + decimal(rs[0].1 as nat) + ")"@
    } else {
        rooms_text(rs.drop_last()) + ", "@ + rs.last().0@ + "("@ + decimal(rs.last().1 as nat) + ")"@
    }
}

/// A wing's line in the memory box.
pub open spec fn wing_line(w: WingInfo) -> Seq<(Seq<char>, Look)> {
    seq![("  wing/"@ + w.name@, fg(Tone::Yellow)), (": "@ + decimal(w.count as nat) + " -> "@ + rooms_text(w.rooms@), fg(Tone::DarkGray))]
}

/// The lines of the first `k` wings.
pub open spec fn wing_lines(ws: Seq<WingInfo>, k: int) -> Seq<Seq<(Seq<char>, Look)>>
    decreases k,
{
    if k <= 0 {
        seq![]
    } else {
        wing_lines(ws, k - 1).push(wing_line(ws[k - 1]))
    }
}

/// The memory box: the note counts, then a line per wing with its rooms, as many as fit
/// under the counts in `height` rows.
pub open spec fn memory_box(p: PalaceState, height: usize) -> Seq<Seq<(Seq<char>, Look)>> {
    let room: int = if height >= 1 { height - 1 } else { 0 };
    let k: int = if p.wings@.len() < room { p.wings@.len() as int } else { room };
    seq![seq![
        (decimal(p.total_notes as nat) + " notes"@, fg(Tone::Cyan)),
        (" | "@ + decimal(p.classified as nat) + " classified | "@ + decimal(p.unclassified as nat) + " unclassified"@, fg(Tone::DarkGray)),
    ]] + wing_lines(p.wings@, k)
}

fn rooms_text_exec(rs: &Vec<(String, usize)>) -> (r: Vec<char>)
    ensures
        r@ == rooms_text(rs@),
{
    let mut out: Vec<char> = Vec::new();
    for i in 0..rs.len()
        invariant
            out@ == rooms_text(rs@.take(i as int)),
    {
        assert(rs@.take(i + 1).drop_last() =~= rs@.take(i as int));
        let item = cat(&cat(&cat(&str_chars(&rs[i].0), &str_chars("(")), &usize_decimal(rs[i].1)), &str_chars(")"));
        if i == 0 {
            out = item;
            assert(rs@.take(1) =~= seq![rs@[0]]);
        } else {
            out = cat(&cat(&out, &str_chars(", ")), &item);
        }
    }
    assert(rs@.take(rs@.len() as int) =~= rs@);
    out
}

impl MemoryPanel {
    /// The memory box for a box `height` rows high inside its frame.
    pub fn render(&self, p: &PalaceState, height: usize) -> (r: Vec<Vec<Piece>>)
        ensures
            rows_view(r@) == memory_box(*p, height),
    {
        let mut rows: Vec<Vec<Piece>> = Vec::new();
        let mut s: Vec<Piece> = Vec::new();
        push_piece(&mut s, cat(&usize_decimal(p.total_notes), &str_chars(" notes")), fg_look(Tone::Cyan));
        push_piece(
            &mut s,
            cat(&cat(&cat(&cat(&str_chars(" | "), &usize_decimal(p.classified)), &str_chars(" classified | ")), &usize_decimal(p.unclassified)), &str_chars(" unclassified")),
            fg_look(Tone::DarkGray),
        );
        assert(row_view(s@) =~= seq![
            (decimal(p.total_notes as nat) + " notes"@, fg(Tone::Cyan)),
            (" | "@ + decimal(p.classified as nat) + " classified | "@ + decimal(p.unclassified as nat) + " unclassified"@, fg(Tone::DarkGray)),
        ]);
        push_row(&mut rows, s);
        let room: usize = if height >= 1 { height - 1 } else { 0 };
        let k: usize = if p.wings.len() < room { p.wings.len() } else { room };
        let ghost start = rows_view(rows@);
        for i in 0..k
            invariant
                k <= p.wings@.len(),
                rows_view(rows@) == start + wing_lines(p.wings@, i as int),
        {
            let w = &p.wings[i];
            let mut r: Vec<Piece> = Vec::new();
            push_piece(&mut r, cat(&str_chars("  wing/"), &str_chars(w.name.as_str())), fg_look(Tone::Yellow));
            push_piece(&mut r, cat(&cat(&cat(&str_chars(": "), &usize_decimal(w.count)), &str_chars(" -> ")), &rooms_text_exec(&w.rooms)), fg_look(Tone::DarkGray));
            assert(row_view(r@) =~= wing_line(p.wings@[i as int]));
            push_row(&mut rows, r);
        }
        assert(rows_view(rows@) =~= memory_box(*p, height));
        rows
    }
}

// ───────────────────────── the heartbeat box ─────────────────────────

/// The time part of a heartbeat's timestamp: what follows its first eleven bytes.
pub open spec fn beat_time(ts: Seq<char>) -> Seq<char> {
    if utf8_len(ts) > 11 {
        bytes_after(ts, 11)
    } else {
        ts
    }
}

/// A heartbeat's line in the box `width` wide: time, status and summary.
pub open spec fn beat_box_line(e: HeartbeatEntry, width: nat) -> Seq<(Seq<char>, Look)> {
    seq![
        (beat_time(e.timestamp@) + " "@, fg(Tone::DarkGray)),
        ("["@ + e.status@ + "] "@, fg(status_tone(e.status@))),
        (take_chars(e.summary@, width - 20), fg(Tone::White)),
    ]
}

/// The lines of the heartbeats from `lo`, in order.
pub open spec fn beat_box_lines(es: Seq<HeartbeatEntry>, lo: int, k: int, width: nat) -> Seq<Seq<(Seq<char>, Look)>>
    decreases k,
{
    if k <= 0 {
        seq![]
    } else {
        beat_box_lines(es, lo, k - 1, width).push(beat_box_line(es[lo + k - 1], width))
    }
}

/// The heartbeat box: the newest heartbeats that fit in `height` rows.
pub open spec fn heartbeat_box(es: Seq<HeartbeatEntry>, height: usize, width: usize) -> Seq<Seq<(Seq<char>, Look)>> {
    let lo: int = if es.len() > height { es.len() - height } else { 0 };
    beat_box_lines(es, lo, es.len() - lo, width as nat)
}

impl HeartbeatPanel {
    /// The heartbeat box, `height` rows by `width` columns inside its frame (the
    /// summaries need twenty columns beside the time and status; a long timestamp keeps
    /// what follows its first eleven bytes, which must end a character).
    pub fn render(&self, es: &[HeartbeatEntry], height: usize, width: usize) -> (r: Vec<Vec<Piece>>)
        requires
            es@.len() > 0 && height > 0 ==> width >= 20,
            forall|i: int| 0 <= i < es@.len() && utf8_len(#[trigger] es@[i].timestamp@) > 11 ==> boundary_at(es@[i].timestamp@, 11),
        ensures
            rows_view(r@) == heartbeat_box(es@, height, width),
    {
        let n = es.len();
        let lo: usize = if n > height { n - height } else { 0 };
        let mut rows: Vec<Vec<Piece>> = Vec::new();
        for k in 0..n - lo
            invariant
                n == es@.len(),
                lo <= n,
                lo == (if n > height { n - height } else { 0 }),
                n - lo > 0 ==> width >= 20,
                rows_view(rows@) == beat_box_lines(es@, lo as int, k as int, width as nat),
        {
            let e = &es[lo + k];
            let ts = str_chars(e.timestamp.as_str());
            let t = if crate::text::byte_len(&ts) > 11 { bytes_after_exec(&ts, 11) } else { ts };
            let mut r: Vec<Piece> = Vec::new();
            push_piece(&mut r, cat(&t, &str_chars(" ")), fg_look(Tone::DarkGray));
            push_piece(&mut r, cat(&cat(&str_chars("["), &str_chars(e.status.as_str())), &str_chars("] ")), fg_look(status_tone_exec(e.status.as_str())));
            push_piece(&mut r, first_chars(&str_chars(e.summary.as_str()), width - 20), fg_look(Tone::White));
            assert(row_view(r@) =~= beat_box_line(es@[lo + k], width as nat));
            push_row(&mut rows, r);
        }
        rows
    }
}

// ───────────────────────── the intentions box ─────────────────────────

/// The colour of an intention's priority in the box.
pub open spec fn prio_tone(p: Seq<char>) -> Tone {
    if p == "high"@ {
        Tone::Red
    } else if p == "medium"@ {
        Tone::Yellow
    } else if p == "low"@ {
        Tone::Green
    } else {
        Tone::DarkGray
    }
}

/// The due date and tag of an intention: the first sixteen bytes of the date, and the
/// tag after `#`.
pub open spec fn due_and_tag(i: Intention) -> Seq<char> {
    (if i.due@.len() == 0 {
        seq![]
    } else {
        " (due: "@ + truncate_bytes(i.due@, 16) + ")"@
    }) + if i.tag@.len() == 0 {
        seq![]
    } else {
        " #"@ + i.tag@
    }
}

/// A pending intention's line in a box `width` wide.
pub open spec fn intention_line(i: Intention, width: nat) -> Seq<(Seq<char>, Look)> {
    seq![
        ("  ["@ + i.priority@ + "] "@, fg(prio_tone(i.priority@))),
        (take_chars(i.description@, width - 25), fg(Tone::White)),
        (due_and_tag(i), fg(Tone::DarkGray)),
    ]
}

/// The lines of the first `k` intentions.
pub open spec fn intention_lines(v: Seq<Intention>, k: int, width: nat) -> Seq<Seq<(Seq<char>, Look)>>
    decreases k,
{
    if k <= 0 {
        seq![]
    } else {
        intention_lines(v, k - 1, width).push(intention_line(v[k - 1], width))
    }
}

/// The intentions box: the pending intentions that fit in `height` rows, or a note.
pub open spec fn intentions_box(v: Seq<Intention>, height: usize, width: usize) -> Seq<Seq<(Seq<char>, Look)>> {
    let p = crate::panel_view::with_status(v, "pending"@);
    if p.len() == 0 {
        seq![line1("  (no pending intentions)"@, fg(Tone::DarkGray))]
    } else {
        intention_lines(p, if p.len() < height { p.len() as int } else { height as int }, width as nat)
    }
}

fn prio_tone_exec(p: &str) -> (t: Tone)
    ensures
        t == prio_tone(p@),
{
    let c = str_chars(p);
    if crate::text::chars_eq(&c, &str_chars("high")) {
        Tone::Red
    } else if crate::text::chars_eq(&c, &str_chars("medium")) {
        Tone::Yellow
    } else if crate::text::chars_eq(&c, &str_chars("low")) {
        Tone::Green
    } else {
        Tone::DarkGray
    }
}

impl IntentionsPanel {
    /// The intentions box, `height` rows by `width` columns inside its frame (the
    /// descriptions need twenty-five columns besides the rest; a due date longer than
    /// sixteen bytes must have a character ending there).
    pub fn render(&self, v: &[Intention], height: usize, width: usize) -> (r: Vec<Vec<Piece>>)
        requires
            width >= 25 || height == 0 || crate::panel_view::with_status(v@, "pending"@).len() == 0,
            forall|i: int| 0 <= i < v@.len() && utf8_len(#[trigger] v@[i].due@) > 16 ==> boundary_at(v@[i].due@, 16),
        ensures
            rows_view(r@) == intentions_box(v@, height, width),
    {
        let idx = crate::panel_view::pick_status(v, "pending");
        let mut rows: Vec<Vec<Piece>> = Vec::new();
        if idx.len() == 0 {
            push_row(&mut rows, row1(str_chars("  (no pending intentions)"), fg_look(Tone::DarkGray)));
            return rows;
        }
        let ghost p = crate::panel_view::with_status(v@, "pending"@);
        let k: usize = if idx.len() < height { idx.len() } else { height };
        for j in 0..k
            invariant
                k <= idx@.len(),
                idx@.len() == p.len(),
                p == crate::panel_view::with_status(v@, "pending"@),
                forall|m: int| 0 <= m < idx@.len() ==> #[trigger] idx@[m] < v@.len() && v@[idx@[m] as int] == p[m],
                k > 0 ==> width >= 25,
                rows_view(rows@) == intention_lines(p, j as int, width as nat),
        {
            let it = &v[idx[j]];
            let due = str_chars(it.due.as_str());
            let tag = str_chars(it.tag.as_str());
            let due_part = if due.len() == 0 {
                Vec::new()
            } else {
                cat(&cat(&str_chars(" (due: "), &truncate_chars(&due, 16)), &str_chars(")"))
            };
            let tag_part = if tag.len() == 0 { Vec::new() } else { cat(&str_chars(" #"), &tag) };
            let mut r: Vec<Piece> = Vec::new();
            push_piece(&mut r, cat(&cat(&str_chars("  ["), &str_chars(it.priority.as_str())), &str_chars("] ")), fg_look(prio_tone_exec(it.priority.as_str())));
            push_piece(&mut r, first_chars(&str_chars(it.description.as_str()), width - 25), fg_look(Tone::White));
            push_piece(&mut r, cat(&due_part, &tag_part), fg_look(Tone::DarkGray));
            assert(row_view(r@) =~= intention_line(p[j as int], width as nat));
            push_row(&mut rows, r);
        }
        rows
    }
}

// ───────────────────────── the seal's panel ─────────────────────────

/// The art lines, indented, in the mood's colour.
pub open spec fn art_rows(art: Seq<Seq<char>>, t: Tone) -> Seq<Seq<(Seq<char>, Look)>>
    decreases art.len(),
{
    if art.len() == 0 {
        seq![]
    } else {
        art_rows(art.drop_last(), t).push(line1("  "@ + art.last(), fg(t)))
    }
}

/// The beat line: against the cap, a bar (red past four fifths, yellow past half);
/// without one, today's count.
pub open spec fn beats_line(beats: usize, cap: Option<usize>) -> Seq<(Seq<char>, Look)> {
    match cap {
        Some(c) => seq![
            ("  beats: "@, fg(Tone::DarkGray)),
            (beat_bar_spec(beats as nat, c as nat, 14), fg(if beats > c * 4 / 5 { Tone::Red } else if beats > c / 2 { Tone::Yellow } else { Tone::Green })),
        ],
        None => seq![("  beats: "@, fg(Tone::DarkGray)), (decimal(beats as nat) + " today"@, fg(Tone::Green))],
    }
}

/// The first `k` wings as `name(count)`, joined by spaces.
pub open spec fn wings_text(ws: Seq<WingInfo>, k: int) -> Seq<char>
    decreases k,
{
    if k <= 0 {
        seq![]
    } else if k == 1 {
        ws[0].name@ + "("@ + decimal(ws[0].count as nat) + ")"@
    } else {
        wings_text(ws, k - 1) + " "@ + ws[k - 1].name@ + "("@ + decimal(ws[k - 1].count as nat) + ")"@
    }
}

/// The last thought: the summary, cut after forty bytes with an ellipsis.
pub open spec fn thought(s: Seq<char>) -> Seq<char> {
    if utf8_len(s) > 40 {
        truncate_bytes(s, 40) + "..."@
    } else {
        s
    }
}

fn blank() -> (r: Vec<Piece>)
    ensures
        row_view(r@) == Seq::<(Seq<char>, Look)>::empty(),
{
    let r: Vec<Piece> = Vec::new();
    assert(row_view(r@) =~= Seq::<(Seq<char>, Look)>::empty());
    r
}

fn art_rows_exec(art: &Vec<String>, t: Tone) -> (r: Vec<Vec<Piece>>)
    ensures
        rows_view(r@) == art_rows(crate::text::str_views(art@), t),
{
    let ghost av = crate::text::str_views(art@);
    let mut rows: Vec<Vec<Piece>> = Vec::new();
    for i in 0..art.len()
        invariant
            av == crate::text::str_views(art@),
            rows_view(rows@) == art_rows(av.take(i as int), t),
    {
        assert(av.take(i + 1).drop_last() =~= av.take(i as int));
        assert(av[i as int] == art@[i as int]@);
        push_row(&mut rows, row1(cat(&str_chars("  "), &str_chars(art[i].as_str())), fg_look(t)));
    }
    assert(av.take(art@.len() as int) =~= av);
    rows
}

/// The mood, the heading, the beats and the notes.
pub open spec fn seal_middle(mood: Mood, beats: usize, cap: Option<usize>, notes: usize, wings: nat) -> Seq<Seq<(Seq<char>, Look)>> {
    seq![
        seq![],
        seq![("  mood: "@, fg(Tone::DarkGray)), (mood_label(mood), bold(mood_tone(mood)))],
        seq![],
        line1("  -- consciousness --"@, fg(Tone::DarkGray)),
        beats_line(beats, cap),
        seq![("  notes: "@, fg(Tone::DarkGray)), (decimal(notes as nat) + " across "@ + decimal(wings) + " wings"@, fg(Tone::White))],
    ]
}

fn seal_middle_exec(mood: Mood, beats: usize, cap: Option<usize>, notes: usize, wings: usize) -> (r: Vec<Vec<Piece>>)
    requires
        cap matches Some(c) ==> c * 4 <= usize::MAX,
    ensures
        rows_view(r@) == seal_middle(mood, beats, cap, notes, wings as nat),
{
    let t = mood_color(mood);
    let mut rows: Vec<Vec<Piece>> = Vec::new();
    push_row(&mut rows, blank());
    let mut m: Vec<Piece> = Vec::new();
    push_piece(&mut m, str_chars("  mood: "), fg_look(Tone::DarkGray));
    push_piece(&mut m, str_chars(mood.label()), bold_look(t));
    assert(row_view(m@) =~= seq![("  mood: "@, fg(Tone::DarkGray)), (mood_label(mood), bold(t))]);
    push_row(&mut rows, m);
    push_row(&mut rows, blank());
    push_row(&mut rows, row1(str_chars("  -- consciousness --"), fg_look(Tone::DarkGray)));
    let mut b: Vec<Piece> = Vec::new();
    push_piece(&mut b, str_chars("  beats: "), fg_look(Tone::DarkGray));
    match cap {
        Some(c) => {
            let tone = if beats > c * 4 / 5 { Tone::Red } else if beats > c / 2 { Tone::Yellow } else { Tone::Green };
            push_piece(&mut b, str_chars(beat_bar(beats, c, 14).as_str()), fg_look(tone));
        },
        None => {
            push_piece(&mut b, cat(&usize_decimal(beats), &str_chars(" today")), fg_look(Tone::Green));
        },
    }
    assert(row_view(b@) =~= beats_line(beats, cap));
    push_row(&mut rows, b);
    let mut n: Vec<Piece> = Vec::new();
    push_piece(&mut n, str_chars("  notes: "), fg_look(Tone::DarkGray));
    push_piece(&mut n, cat(&cat(&cat(&usize_decimal(notes), &str_chars(" across ")), &usize_decimal(wings)), &str_chars(" wings")), fg_look(Tone::White));
    assert(row_view(n@) =~= seq![("  notes: "@, fg(Tone::DarkGray)), (decimal(notes as nat) + " across "@ + decimal(wings as nat) + " wings"@, fg(Tone::White))]);
    push_row(&mut rows, n);
    assert(rows_view(rows@) =~= seal_middle(mood, beats, cap, notes, wings as nat));
    rows
}

/// The wings line, when there are wings.
pub open spec fn seal_wings(wings: Seq<WingInfo>) -> Seq<Seq<(Seq<char>, Look)>> {
    if wings.len() > 0 {
        seq![seq![("  wings: "@, fg(Tone::DarkGray)), (wings_text(wings, if wings.len() < 3 { wings.len() as int } else { 3 }), fg(Tone::DarkGray))]]
    } else {
        seq![]
    }
}

fn seal_wings_exec(wings: &[WingInfo]) -> (r: Vec<Vec<Piece>>)
    ensures
        rows_view(r@) == seal_wings(wings@),
{
    let mut rows: Vec<Vec<Piece>> = Vec::new();
    if wings.len() > 0 {
        let wk: usize = if wings.len() < 3 { wings.len() } else { 3 };
        let mut text: Vec<char> = Vec::new();
        for i in 0..wk
            invariant
                wk <= wings@.len(),
                text@ == wings_text(wings@, i as int),
        {
            let item = cat(&cat(&cat(&str_chars(wings[i].name.as_str()), &str_chars("(")), &usize_decimal(wings[i].count)), &str_chars(")"));
            if i == 0 {
                text = item;
            } else {
                text = cat(&cat(&text, &str_chars(" ")), &item);
            }
        }
        let mut w: Vec<Piece> = Vec::new();
        push_piece(&mut w, str_chars("  wings: "), fg_look(Tone::DarkGray));
        push_piece(&mut w, text, fg_look(Tone::DarkGray));
        assert(row_view(w@) =~= seq![("  wings: "@, fg(Tone::DarkGray)), (wings_text(wings@, wk as int), fg(Tone::DarkGray))]);
        push_row(&mut rows, w);
    }
    assert(rows_view(rows@) =~= seal_wings(wings@));
    rows
}

/// The last thought, when the newest heartbeat has a summary.
pub open spec fn seal_thought(beats_log: Seq<HeartbeatEntry>) -> Seq<Seq<(Seq<char>, Look)>> {
    if beats_log.len() > 0 && beats_log.last().summary@.len() > 0 {
        seq![
            seq![],
            seq![("  last thought: "@, fg(Tone::DarkGray))],
            line1("  \""@ + thought(beats_log.last().summary@) + "\""@, Look { fg: Tone::White, bg: Tone::Reset, bold: false, blink: false, italic: true }),
        ]
    } else {
        seq![]
    }
}

fn seal_thought_exec(beats_log: &[HeartbeatEntry]) -> (r: Vec<Vec<Piece>>)
    ensures
        rows_view(r@) == seal_thought(beats_log@),
{
    let mut rows: Vec<Vec<Piece>> = Vec::new();
    let nb = beats_log.len();
    if nb > 0 {
        let s = str_chars(beats_log[nb - 1].summary.as_str());
        if s.len() > 0 {
            let th = if crate::text::byte_len(&s) > 40 { cat(&truncate_chars(&s, 40), &str_chars("...")) } else { s };
            push_row(&mut rows, blank());
            push_row(&mut rows, row1(str_chars("  last thought: "), fg_look(Tone::DarkGray)));
            push_row(&mut rows, row1(cat(&cat(&str_chars("  \""), &th), &str_chars("\"")), Look { fg: Tone::White, bg: Tone::Reset, bold: false, blink: false, italic: true }));
        }
    }
    assert(rows_view(rows@) =~= seal_thought(beats_log@));
    rows
}

/// The pending work, when there is some.
pub open spec fn seal_pending(pending: usize, unresolved: usize) -> Seq<Seq<(Seq<char>, Look)>> {
    if pending > 0 || unresolved > 0 {
        seq![seq![]] + (if pending > 0 {
            seq![line1("  "@ + decimal(pending as nat) + " pending intentions"@, fg(Tone::Yellow))]
        } else {
            seq![]
        }) + (if unresolved > 0 {
            seq![line1("  "@ + decimal(unresolved as nat) + " unresolved failures"@, fg(Tone::Red))]
        } else {
            seq![]
        })
    } else {
        seq![]
    }
}

fn seal_pending_exec(pending: usize, unresolved: usize) -> (r: Vec<Vec<Piece>>)
    ensures
        rows_view(r@) == seal_pending(pending, unresolved),
{
    let mut rows: Vec<Vec<Piece>> = Vec::new();
    if pending > 0 || unresolved > 0 {
        push_row(&mut rows, blank());
        if pending > 0 {
            push_row(&mut rows, row1(cat(&cat(&str_chars("  "), &usize_decimal(pending)), &str_chars(" pending intentions")), fg_look(Tone::Yellow)));
        }
        if unresolved > 0 {
            push_row(&mut rows, row1(cat(&cat(&str_chars("  "), &usize_decimal(unresolved)), &str_chars(" unresolved failures")), fg_look(Tone::Red)));
        }
    }
    assert(rows_view(rows@) =~= seal_pending(pending, unresolved));
    rows
}

/// The seal's panel: the mood's art, the mood, the beats, the notes and wings, the last
/// heartbeat's summary, and the pending work.
pub open spec fn seal_panel(
    mood: Mood,
    art: Seq<Seq<char>>,
    beats: usize,
    cap: Option<usize>,
    notes: usize,
    wings: Seq<WingInfo>,
    beats_log: Seq<HeartbeatEntry>,
    pending: usize,
    unresolved: usize,
) -> Seq<Seq<(Seq<char>, Look)>> {
    art_rows(art, mood_tone(mood)) + seal_middle(mood, beats, cap, notes, wings.len()) + seal_wings(wings)
        + seal_thought(beats_log) + seal_pending(pending, unresolved)
}

impl SealPanel {
    /// The seal's panel for a mood and its art lines, today's beats and the cap, the
    /// palace, the heartbeat log and the pending work (a last summary longer than forty
    /// bytes must have a character ending there).
    pub fn render(
        &self,
        mood: Mood,
        art: &Vec<String>,
        beats: usize,
        cap: Option<usize>,
        notes: usize,
        wings: &[WingInfo],
        beats_log: &[HeartbeatEntry],
        pending: usize,
        unresolved: usize,
    ) -> (r: Vec<Vec<Piece>>)
        requires
            cap matches Some(c) ==> c * 4 <= usize::MAX,
            beats_log@.len() > 0 && utf8_len(beats_log@.last().summary@) > 40 ==> boundary_at(beats_log@.last().summary@, 40),
        ensures
            rows_view(r@) == seal_panel(mood, crate::text::str_views(art@), beats, cap, notes, wings@, beats_log@, pending, unresolved),
    {
        let mut rows = art_rows_exec(art, mood_color(mood));
        append_rows(&mut rows, seal_middle_exec(mood, beats, cap, notes, wings.len()));
        append_rows(&mut rows, seal_wings_exec(wings));
        append_rows(&mut rows, seal_thought_exec(beats_log));
        append_rows(&mut rows, seal_pending_exec(pending, unresolved));
        rows
    }
}

} // verus!
