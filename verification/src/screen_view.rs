//! The chat screen around the conversation (its header, the input box, the scroll
//! position), the sidebar, and the panel selector, as styled rows and sizes.
use vstd::prelude::*;
use crate::styled::{
    bold, bold_look, cat, copy, fg, fg_look, line1, push_piece, push_row, rep, rep_exec, row1, row_view,
    rows_view, Look, Piece, Tone,
};
use crate::text::{
    chars_eq, contains_seq, decimal, first_chars, lines, split_lines, starts_with, str_chars,
    str_views, take_chars, usize_decimal, u64_decimal, views, wrap_text_chars, wrap_text_spec,
};
use crate::state::{Intention, PalaceState, WingInfo};
use crate::chat_view::grey;
use crate::console::Screen;

verus! {

// ───────────────────────── the panel selector ─────────────────────────

/// The names of the panels, in order.
pub open spec fn panel_names() -> Seq<Seq<char>> {
    seq![
        "Memory"@,
        "Heartbeat"@,
        "Intentions"@,
        "System"@,
        "Services"@,
        "Failures"@,
        "Logs"@,
        "Cluster"@,
        "Graph"@,
    ]
}

/// The names of the panels.
pub fn panel_names_exec() -> (r: Vec<Vec<char>>)
    ensures
        views(r@) == panel_names(),
        r@.len() == 9,
{
    let r = vec![
        str_chars("Memory"),
        str_chars("Heartbeat"),
        str_chars("Intentions"),
        str_chars("System"),
        str_chars("Services"),
        str_chars("Failures"),
        str_chars("Logs"),
        str_chars("Cluster"),
        str_chars("Graph"),
    ];
    assert(views(r@) =~= panel_names());
    assert(r@.len() == 9);
    r
}

/// The panels, the selected one marked.
pub open spec fn selector_lines(selected: nat, k: nat) -> Seq<Seq<(Seq<char>, Look)>>
    decreases k,
{
    if k == 0 {
        seq![line1(" Select a panel:"@, bold(Tone::White)), seq![]]
    } else {
        let i = (k - 1) as nat;
        let (marker, look) = if i == selected {
            (">"@, bold(Tone::Cyan))
        } else {
            (" "@, fg(Tone::DarkGray))
        };
        selector_lines(selected, i).push(line1(" "@ + marker + " "@ + decimal(i + 1) + ". "@ + panel_names()[i as int], look))
    }
}

/// The panel selector's rows.
pub fn selector_rows(selected: usize) -> (r: Vec<Vec<Piece>>)
    ensures
        rows_view(r@) == selector_lines(selected as nat, 9),
{
    let names = panel_names_exec();
    let mut rows: Vec<Vec<Piece>> = Vec::new();
    push_row(&mut rows, row1(str_chars(" Select a panel:"), bold_look(Tone::White)));
    let blank: Vec<Piece> = Vec::new();
    assert(row_view(blank@) =~= Seq::<(Seq<char>, Look)>::empty());
    push_row(&mut rows, blank);
    assert(rows_view(rows@) =~= selector_lines(selected as nat, 0));
    for i in 0..9usize
        invariant
            views(names@) == panel_names(),
            names@.len() == 9,
            rows_view(rows@) == selector_lines(selected as nat, i as nat),
    {
        let (marker, look) = if i == selected {
            (str_chars(">"), bold_look(Tone::Cyan))
        } else {
            (str_chars(" "), fg_look(Tone::DarkGray))
        };
        let mut line = cat(&str_chars(" "), &marker);
        line = cat(&line, &str_chars(" "));
        line = cat(&line, &usize_decimal(i + 1));
        line = cat(&line, &str_chars(". "));
        assert(views(names@)[i as int] == names@[i as int]@);
        line = cat(&line, &names[i]);
        push_row(&mut rows, row1(line, look));
    }
    rows
}

/// The frame title of a panel (the graph panel's title carries figures of its own).
pub open spec fn panel_title(idx: nat) -> Seq<char> {
    let name = if idx < 9 { panel_names()[idx as int] } else { "?"@ };
    if idx == 1 {
        " "@ + name + " | Up/Down:select Enter:expand Esc:close "@
    } else if idx == 7 {
        " "@ + name + " | Up/Down:select Enter:open Esc:close "@
    } else {
        " "@ + name + " | Esc:close 1-9:switch "@
    }
}

/// The frame title of a panel.
pub fn panel_title_exec(idx: usize) -> (r: Vec<char>)
    ensures
        r@ == panel_title(idx as nat),
{
    let names = panel_names_exec();
    let name = if idx < 9 {
        assert(views(names@)[idx as int] == names@[idx as int]@);
        copy(&names[idx])
    } else {
        str_chars("?")
    };
    let tail = if idx == 1 {
        str_chars(" | Up/Down:select Enter:expand Esc:close ")
    } else if idx == 7 {
        str_chars(" | Up/Down:select Enter:open Esc:close ")
    } else {
        str_chars(" | Esc:close 1-9:switch ")
    };
    cat(&cat(&str_chars(" "), &name), &tail)
}

// ───────────────────────── the sidebar ─────────────────────────

/// The sidebar's status box: the badge, today's beats (red past the daily cap), the
/// queue (yellow when not empty) and the number of notes.
pub open spec fn status_box(beats: usize, cap: Option<usize>, queue: usize, notes: usize) -> Seq<Seq<(Seq<char>, Look)>> {
    let beats_text = match cap {
        Some(c) => " beats: "@ + decimal(beats as nat) + "/"@ + decimal(c as nat),
        None => " beats: "@ + decimal(beats as nat),
    };
    let over = match cap {
        Some(c) => beats > c,
        None => false,
    };
    seq![
        line1(" NEIL "@, Look { fg: Tone::Black, bg: Tone::Cyan, bold: false, blink: false, italic: false }),
        line1(beats_text, fg(if over { Tone::Red } else { Tone::DarkGray })),
        line1(" queue: "@ + decimal(queue as nat), fg(if queue > 0 { Tone::Yellow } else { Tone::DarkGray })),
        line1(" notes: "@ + decimal(notes as nat), fg(Tone::Cyan)),
    ]
}

/// The sidebar's status box.
pub fn status_box_rows(beats: usize, cap: Option<usize>, queue: usize, notes: usize) -> (r: Vec<Vec<Piece>>)
    ensures
        rows_view(r@) == status_box(beats, cap, queue, notes),
{
    let mut beats_text = cat(&str_chars(" beats: "), &usize_decimal(beats));
    let mut over = false;
    match cap {
        Some(c) => {
            beats_text = cat(&cat(&beats_text, &str_chars("/")), &usize_decimal(c));
            over = beats > c;
        },
        None => {},
    }
    let mut rows: Vec<Vec<Piece>> = Vec::new();
    push_row(&mut rows, row1(str_chars(" NEIL "), Look { fg: Tone::Black, bg: Tone::Cyan, bold: false, blink: false, italic: false }));
    push_row(&mut rows, row1(beats_text, fg_look(if over { Tone::Red } else { Tone::DarkGray })));
    push_row(&mut rows, row1(cat(&str_chars(" queue: "), &usize_decimal(queue)), fg_look(if queue > 0 { Tone::Yellow } else { Tone::DarkGray })));
    push_row(&mut rows, row1(cat(&str_chars(" notes: "), &usize_decimal(notes)), fg_look(Tone::Cyan)));
    assert(rows_view(rows@) =~= status_box(beats, cap, queue, notes));
    rows
}

/// The first wings, one dim row each.
pub open spec fn wing_summary(ws: Seq<WingInfo>) -> Seq<Seq<(Seq<char>, Look)>>
    decreases ws.len(),
{
    if ws.len() == 0 {
        seq![]
    } else {
        wing_summary(ws.drop_last()).push(
            line1("  "@ + ws.last().name@ + ": "@ + decimal(ws.last().count as nat), fg(Tone::DarkGray)),
        )
    }
}

/// The sidebar's memory box: the number of notes and the four largest wings.
pub open spec fn memory_box(p: PalaceState) -> Seq<Seq<(Seq<char>, Look)>> {
    seq![line1(" "@ + decimal(p.total_notes as nat) + " notes"@, fg(Tone::Cyan))] + wing_summary(
        p.wings@.take(if p.wings@.len() > 4 { 4 } else { p.wings@.len() as int }),
    )
}

/// The sidebar's memory box.
pub fn memory_box_rows(p: &PalaceState) -> (r: Vec<Vec<Piece>>)
    ensures
        rows_view(r@) == memory_box(*p),
{
    let mut rows: Vec<Vec<Piece>> = Vec::new();
    push_row(&mut rows, row1(cat(&cat(&str_chars(" "), &usize_decimal(p.total_notes)), &str_chars(" notes")), fg_look(Tone::Cyan)));
    let ghost start = rows_view(rows@);
    let n: usize = if p.wings.len() > 4 { 4 } else { p.wings.len() };
    let ghost ws = p.wings@;
    assert(start + wing_summary(ws.take(0)) =~= start);
    for k in 0..n
        invariant
            ws == p.wings@,
            n <= ws.len(),
            rows_view(rows@) == start + wing_summary(ws.take(k as int)),
    {
        assert(ws.take(k + 1).drop_last() =~= ws.take(k as int));
        assert(ws.take(k + 1).last() == ws[k as int]);
        let w = &p.wings[k];
        let line = cat(&cat(&cat(&str_chars("  "), &str_chars(w.name.as_str())), &str_chars(": ")), &usize_decimal(w.count));
        push_row(&mut rows, row1(line, fg_look(Tone::DarkGray)));
    }
    rows
}

/// The newest activity first, at most four, cut to 24 characters.
pub open spec fn activity_lines(a: Seq<Seq<char>>, k: nat) -> Seq<Seq<(Seq<char>, Look)>>
    decreases k,
{
    if k == 0 || a.len() < k {
        seq![]
    } else {
        activity_lines(a, (k - 1) as nat).push(line1(" "@ + take_chars(a[a.len() - k], 24), fg(Tone::DarkGray)))
    }
}

/// The pending intentions, at most three: the first letter of the priority and the
/// start of the text.
pub open spec fn intent_lines(v: Seq<Intention>) -> Seq<Seq<(Seq<char>, Look)>>
    decreases v.len(),
{
    if v.len() == 0 {
        seq![]
    } else {
        let i = v.last();
        let letter = if i.priority@.len() > 0 { seq![i.priority@[0]] } else { seq!['?'] };
        intent_lines(v.drop_last()).push(
            seq![
                (" ["@ + letter + "] "@, fg(crate::panel_view::priority_tone(i.priority@))),
                (take_chars(i.description@, 18), fg(Tone::DarkGray)),
            ],
        )
    }
}

/// The sidebar's activity box: the newest activity, then (after a rule, when there is
/// activity) the first pending intentions; `(quiet)` when there is neither.
pub open spec fn activity_box(activity: Seq<Seq<char>>, intentions: Seq<Intention>) -> Seq<Seq<(Seq<char>, Look)>> {
    let acts = activity_lines(activity, if activity.len() > 4 { 4 } else { activity.len() });
    let pend = crate::panel_view::with_status(intentions, "pending"@);
    let intents = if pend.len() > 0 {
        (if acts.len() > 0 {
            seq![line1(" ───"@, fg(grey(40)))]
        } else {
            seq![]
        }) + intent_lines(pend.take(if pend.len() > 3 { 3 } else { pend.len() as int }))
    } else {
        seq![]
    };
    let all = acts + intents;
    if all.len() == 0 {
        seq![line1(" (quiet)"@, fg(Tone::DarkGray))]
    } else {
        all
    }
}

/// What the seal says: that it works (with dots that come and go), that something needs
/// fixing, how much is on its mind, that it is tired, or that all is well.
pub open spec fn bubble(active: bool, tick: u64, unresolved: nat, pending: nat, beats: usize) -> Seq<char> {
    if active {
        "working"@ + rep('.', ((tick / 4) % 4 + 1) as nat)
    } else if unresolved > 0 {
        "need to fix something..."@
    } else if pending > 0 {
        decimal(pending) + " things on my mind"@
    } else if beats > 40 {
        "getting tired..."@
    } else {
        "all good :)"@
    }
}

/// What the seal says.
pub fn bubble_text(active: bool, tick: u64, unresolved: usize, pending: usize, beats: usize) -> (r: Vec<char>)
    ensures
        r@ == bubble(active, tick, unresolved as nat, pending as nat, beats),
{
    if active {
        let n = ((tick / 4) % 4 + 1) as usize;
        cat(&str_chars("working"), &rep_exec('.', n))
    } else if unresolved > 0 {
        str_chars("need to fix something...")
    } else if pending > 0 {
        cat(&usize_decimal(pending), &str_chars(" things on my mind"))
    } else if beats > 40 {
        str_chars("getting tired...")
    } else {
        str_chars("all good :)")
    }
}


/// The sidebar's activity box.
pub fn activity_box_rows(activity: &[String], intentions: &[Intention]) -> (r: Vec<Vec<Piece>>)
    ensures
        rows_view(r@) == activity_box(str_views(activity@), intentions@),
{
    let ghost av = str_views(activity@);
    let n = activity.len();
    let k: usize = if n > 4 { 4 } else { n };
    let mut rows: Vec<Vec<Piece>> = Vec::new();
    assert(rows_view(rows@) =~= activity_lines(av, 0));
    for j in 0..k
        invariant
            av == str_views(activity@),
            n == av.len(),
            k <= n,
            rows_view(rows@) == activity_lines(av, j as nat),
    {
        assert(av[n - (j + 1)] == activity@[n - 1 - j]@);
        let line = cat(&str_chars(" "), &first_chars(&str_chars(activity[n - 1 - j].as_str()), 24));
        push_row(&mut rows, row1(line, fg_look(Tone::DarkGray)));
    }
    let ghost acts = rows_view(rows@);
    let mut picked: Vec<usize> = Vec::new();
    let pending = str_chars("pending");
    for i in 0..intentions.len()
        invariant
            pending@ == "pending"@,
            picked@.len() == crate::panel_view::with_status(intentions@.take(i as int), "pending"@).len(),
            forall|q: int| 0 <= q < picked@.len() ==> #[trigger] picked@[q] < i && intentions@[picked@[q] as int]
                == crate::panel_view::with_status(intentions@.take(i as int), "pending"@)[q],
    {
        assert(intentions@.take(i + 1).drop_last() =~= intentions@.take(i as int));
        assert(intentions@.take(i + 1).last() == intentions@[i as int]);
        if chars_eq(&str_chars(intentions[i].status.as_str()), &pending) {
            picked.push(i);
        }
    }
    assert(intentions@.take(intentions@.len() as int) =~= intentions@);
    let ghost pend = crate::panel_view::with_status(intentions@, "pending"@);
    if picked.len() > 0 {
        if rows.len() > 0 {
            push_row(&mut rows, row1(str_chars(" ───"), fg_look(Tone::Rgb(40, 40, 40))));
        }
        let m: usize = if picked.len() > 3 { 3 } else { picked.len() };
        let ghost mid = rows_view(rows@);
        assert(mid + intent_lines(pend.take(0)) =~= mid);
        for q in 0..m
            invariant
                pend == crate::panel_view::with_status(intentions@, "pending"@),
                picked@.len() == pend.len(),
                m <= picked@.len(),
                forall|j: int| 0 <= j < picked@.len() ==> #[trigger] picked@[j] < intentions@.len() && intentions@[picked@[j] as int] == pend[j],
                rows_view(rows@) == mid + intent_lines(pend.take(q as int)),
        {
            assert(pend.take(q + 1).drop_last() =~= pend.take(q as int));
            assert(pend.take(q + 1).last() == pend[q as int]);
            let it = &intentions[picked[q]];
            let pr = str_chars(it.priority.as_str());
            let letter = if pr.len() > 0 { vec![pr[0]] } else { vec!['?'] };
            let mut r: Vec<Piece> = Vec::new();
            push_piece(&mut r, cat(&cat(&str_chars(" ["), &letter), &str_chars("] ")), fg_look(priority_tone_pub(it.priority.as_str())));
            push_piece(&mut r, first_chars(&str_chars(it.description.as_str()), 18), fg_look(Tone::DarkGray));
            let ghost iv = pend[q as int];
            let ghost lt = if iv.priority@.len() > 0 { seq![iv.priority@[0]] } else { seq!['?'] };
            assert(letter@ =~= lt);
            assert(row_view(r@) =~= seq![
                (" ["@ + lt + "] "@, fg(crate::panel_view::priority_tone(iv.priority@))),
                (take_chars(iv.description@, 18), fg(Tone::DarkGray)),
            ]);
            push_row(&mut rows, r);
        }
    }
    if rows.len() == 0 {
        push_row(&mut rows, row1(str_chars(" (quiet)"), fg_look(Tone::DarkGray)));
    }
    assert(rows_view(rows@) =~= activity_box(av, intentions@));
    rows
}

fn priority_tone_pub(p: &str) -> (t: Tone)
    ensures
        t == crate::panel_view::priority_tone(p@),
{
    let c = str_chars(p);
    if chars_eq(&c, &str_chars("high")) {
        Tone::Red
    } else if chars_eq(&c, &str_chars("medium")) {
        Tone::Yellow
    } else {
        Tone::Green
    }
}

// ───────────────────────── the chat screen ─────────────────────────

/// The header of the chat screen: the badge, whether Neil works, the clock and the keys.
pub open spec fn chat_header(working: bool, clock: Seq<char>) -> Seq<(Seq<char>, Look)> {
    seq![
        (" NEIL "@, Look { fg: Tone::Black, bg: Tone::Cyan, bold: false, blink: false, italic: false }),
        if working {
            (" working "@, fg(Tone::Yellow))
        } else {
            (" idle "@, fg(Tone::DarkGray))
        },
        (clock + " "@, fg(Tone::DarkGray)),
        ("Alt+1-9:panels Ctrl+S:sidebar Esc:quit "@, fg(grey(60))),
    ]
}

/// The header of the chat screen.
pub fn chat_header_row(working: bool, clock: &str) -> (r: Vec<Piece>)
    ensures
        row_view(r@) == chat_header(working, clock@),
{
    let mut r: Vec<Piece> = Vec::new();
    push_piece(&mut r, str_chars(" NEIL "), Look { fg: Tone::Black, bg: Tone::Cyan, bold: false, blink: false, italic: false });
    if working {
        push_piece(&mut r, str_chars(" working "), fg_look(Tone::Yellow));
    } else {
        push_piece(&mut r, str_chars(" idle "), fg_look(Tone::DarkGray));
    }
    push_piece(&mut r, cat(&str_chars(clock), &str_chars(" ")), fg_look(Tone::DarkGray));
    push_piece(&mut r, str_chars("Alt+1-9:panels Ctrl+S:sidebar Esc:quit "), fg_look(Tone::Rgb(60, 60, 60)));
    assert(row_view(r@) =~= chat_header(working, clock@));
    r
}

/// Rows the input box needs for its text: one when empty, two for a long text (over
/// 200 characters, shown as a preview), else the wrapped lines.
pub open spec fn input_lines_needed(input: Seq<char>, wrap_width: nat) -> nat {
    if input.len() == 0 {
        1
    } else if input.len() > 200 {
        2
    } else {
        wrap_text_spec(input, crate::chat_view::sat_sub(wrap_width, 2)).len()
    }
}

/// The height of the input box: its rows and its frame, between three and eight.
pub open spec fn input_height(input: Seq<char>, wrap_width: nat) -> nat {
    let h = input_lines_needed(input, wrap_width) + 2;
    if h < 3 {
        3
    } else if h > 8 {
        8
    } else {
        h
    }
}

/// The height of the input box.
pub fn input_box_height(input: &[char], wrap_width: usize) -> (h: u16)
    ensures
        h == input_height(input@, wrap_width as nat),
{
    let lines: usize = if input.len() == 0 {
        1
    } else if input.len() > 200 {
        2
    } else {
        let w2: usize = if wrap_width >= 2 { wrap_width - 2 } else { 0 };
        wrap_text_chars(input, w2).len()
    };
    if lines <= 1 {
        3
    } else if lines >= 6 {
        8
    } else {
        (lines + 2) as u16
    }
}

/// How far the conversation is scrolled from its top: the rows above the visible ones,
/// less the rows scrolled back from the bottom, never negative.
pub open spec fn conversation_offset(total: int, visible: int, scroll_offset: int) -> int {
    let max_scroll = if total - visible > 0 { total - visible } else { 0 };
    if max_scroll - scroll_offset > 0 {
        max_scroll - scroll_offset
    } else {
        0
    }
}

/// How far the conversation is scrolled from its top, in rows.
pub fn conversation_scroll(total: usize, visible: u16, scroll_offset: i32) -> (r: u16)
    requires
        total <= i32::MAX,
        scroll_offset >= 0,
    ensures
        r == (conversation_offset(total as int, visible as int, scroll_offset as int) as u16),
{
    let t = total as i32;
    let v = visible as i32;
    let max_scroll = if t - v > 0 { t - v } else { 0 };
    let off = if max_scroll - scroll_offset > 0 { max_scroll - scroll_offset } else { 0 };
    off as u16
}

/// The note shown while scrolled back.
pub open spec fn scroll_note(scroll_offset: i32) -> Option<Seq<char>> {
    if scroll_offset > 0 {
        Some(" ↑ "@ + decimal(scroll_offset as nat) + " lines above "@)
    } else {
        None
    }
}

/// The note shown while scrolled back.
pub fn scroll_note_text(scroll_offset: i32) -> (r: Option<Vec<char>>)
    ensures
        match r {
            Some(t) => scroll_note(scroll_offset) == Some(t@),
            None => scroll_note(scroll_offset) is None,
        },
{
    if scroll_offset > 0 {
        Some(cat(&cat(&str_chars(" ↑ "), &u64_decimal(scroll_offset as u64)), &str_chars(" lines above ")))
    } else {
        None
    }
}

/// The frame rate and the mouse mode, for the corner of the input box.
pub open spec fn fps_note(fps: u32, mouse_captured: bool) -> Seq<char> {
    " "@ + decimal(fps as nat) + "fps "@ + (if mouse_captured { "scroll"@ } else { "select"@ }) + " "@
}

/// The frame rate and the mouse mode.
pub fn fps_note_text(fps: u32, mouse_captured: bool) -> (r: Vec<char>)
    ensures
        r@ == fps_note(fps, mouse_captured),
{
    let mode = if mouse_captured { str_chars("scroll") } else { str_chars("select") };
    cat(&cat(&cat(&str_chars(" "), &u64_decimal(fps as u64)), &str_chars("fps ")), &cat(&mode, &str_chars(" ")))
}

/// The look of the input cursor.
pub open spec fn cursor_look() -> Look {
    Look { fg: Tone::Cyan, bg: Tone::Reset, bold: false, blink: true, italic: false }
}

/// The rest of the first slash command that completes what is typed (no space typed yet).
pub open spec fn slash_hint(input: Seq<char>) -> Seq<char> {
    if starts_with(input, seq!['/']) && !input.contains(' ') {
        let ms = crate::console::extensions(crate::console::slash_commands(), input);
        if ms.len() > 0 {
            ms[0].skip(input.len() as int)
        } else {
            seq![]
        }
    } else {
        seq![]
    }
}

/// Characters on the wrapped lines before line `k`.
pub open spec fn chars_before(ws: Seq<Seq<char>>, k: int) -> nat
    decreases k,
{
    if k <= 0 {
        0
    } else {
        chars_before(ws, k - 1) + ws[k - 1].len()
    }
}

/// An input line: the line holding the cursor shows it (or, at the end of the text, the
/// completion hint in its place).
pub open spec fn input_row(wl: Seq<char>, cc: nat, cursor: nat, hint: Seq<char>, total: nat) -> Seq<(Seq<char>, Look)> {
    let n = wl.len();
    if cc <= cursor <= cc + n {
        let local = (cursor - cc) as int;
        let before = wl.take(local);
        let after = wl.skip(local);
        seq![(before, fg(Tone::White))] + if hint.len() > 0 && after.len() == 0 && cc + n >= total {
            seq![(hint, fg(Tone::DarkGray))]
        } else {
            seq![("_"@, cursor_look()), (after, fg(Tone::White))]
        }
    } else {
        seq![(wl, fg(Tone::White))]
    }
}

/// The first `k` input lines.
pub open spec fn input_rows_upto(ws: Seq<Seq<char>>, k: int, cursor: nat, hint: Seq<char>, total: nat) -> Seq<Seq<(Seq<char>, Look)>>
    decreases k,
{
    if k <= 0 {
        seq![]
    } else {
        input_rows_upto(ws, k - 1, cursor, hint, total).push(input_row(ws[k - 1], chars_before(ws, k - 1), cursor, hint, total))
    }
}

/// The input box's rows for the text with the cursor at character `cursor`: a cursor
/// alone when empty; a preview and the size for a long text; else the wrapped lines.
pub open spec fn input_box(input: Seq<char>, cursor: nat, inner_w: nat) -> Seq<Seq<(Seq<char>, Look)>> {
    if input.len() == 0 {
        seq![line1("_"@, cursor_look())]
    } else if input.len() > 200 {
        seq![
            line1(take_chars(input, 40) + "..."@, fg(Tone::DarkGray)),
            seq![
                (" ["@ + decimal(input.len()) + " chars, ~"@ + decimal(lines(input).len()) + " lines] "@, fg(Tone::Yellow)),
                ("Enter to send, Esc to clear"@, fg(Tone::DarkGray)),
            ],
        ]
    } else {
        let ws = wrap_text_spec(input, inner_w);
        input_rows_upto(ws, ws.len() as int, cursor, slash_hint(input), input.len())
    }
}


fn slash_hint_exec(input: &[char]) -> (r: Vec<char>)
    ensures
        r@ == slash_hint(input@),
{
    let starts = input.len() > 0 && input[0] == '/';
    assert(starts == starts_with(input@, seq!['/'])) by {
        if input@.len() > 0 {
            if input@[0] == '/' {
                assert(input@.subrange(0, 1) =~= seq!['/']);
            } else if input@.subrange(0, 1) == seq!['/'] {
                assert(input@[0] == input@.subrange(0, 1)[0]);
            }
        }
    }
    let has_space = crate::text::find_char(input, ' ').is_some();
    proof {
        crate::text::lemma_find(input@, seq![' ']);
        if input@.contains(' ') {
            let k = choose|k: int| 0 <= k < input@.len() && input@[k] == ' ';
            assert(input@.subrange(k, k + 1) =~= seq![' ']);
            assert(crate::text::occurs_at(input@, seq![' '], k));
        }
        if has_space {
            let k = crate::text::spec_find(input@, seq![' '])->0;
            assert(input@.subrange(k, k + 1)[0] == input@[k]);
        }
    }
    assert(has_space == input@.contains(' '));
    if starts && !has_space {
        let cmds = slash_commands_list();
        for k in 0..cmds.len()
            invariant
                views(cmds@) == crate::console::slash_commands(),
                starts_with(input@, seq!['/']),
                !input@.contains(' '),
                crate::console::extensions(crate::console::slash_commands().take(k as int), input@).len() == 0,
        {
            assert(crate::console::slash_commands().take(k + 1).drop_last() =~= crate::console::slash_commands().take(k as int));
            assert(views(cmds@)[k as int] == cmds@[k as int]@);
            if crate::text::has_prefix(&cmds[k], input) && !chars_eq(&cmds[k], input) {
                proof {
                    lemma_first_extension(crate::console::slash_commands(), input@, k as int);
                }
                let rest = crate::text::slice_chars(&cmds[k], input.len(), cmds[k].len());
                assert(rest@ =~= cmds@[k as int]@.skip(input@.len() as int));
                return rest;
            }
        }
        assert(crate::console::slash_commands().take(6) =~= crate::console::slash_commands());
        Vec::new()
    } else {
        Vec::new()
    }
}

proof fn lemma_first_extension(cs: Seq<Seq<char>>, s: Seq<char>, k: int)
    requires
        0 <= k < cs.len(),
        crate::console::extensions(cs.take(k), s).len() == 0,
        starts_with(cs[k], s),
        cs[k] != s,
    ensures
        crate::console::extensions(cs, s).len() > 0,
        crate::console::extensions(cs, s)[0] == cs[k],
    decreases cs.len(),
{
    if k == cs.len() - 1 {
        assert(cs.drop_last() =~= cs.take(k));
    } else {
        assert(cs.drop_last().take(k) =~= cs.take(k));
        lemma_first_extension(cs.drop_last(), s, k);
    }
}

fn slash_commands_list() -> (r: Vec<Vec<char>>)
    ensures
        views(r@) == crate::console::slash_commands(),
        r@.len() == 6,
{
    let r = vec![
        str_chars("/clear"),
        str_chars("/status"),
        str_chars("/help"),
        str_chars("/panels"),
        str_chars("/heartbeat"),
        str_chars("/history"),
    ];
    assert(views(r@) =~= crate::console::slash_commands());
    r
}

fn cursor_look_exec() -> (l: Look)
    ensures
        l == cursor_look(),
{
    Look { fg: Tone::Cyan, bg: Tone::Reset, bold: false, blink: true, italic: false }
}

/// The input box's rows.
pub fn input_box_rows(input: &[char], cursor: usize, inner_w: usize) -> (r: Vec<Vec<Piece>>)
    ensures
        rows_view(r@) == input_box(input@, cursor as nat, inner_w as nat),
{
    let mut rows: Vec<Vec<Piece>> = Vec::new();
    if input.len() == 0 {
        push_row(&mut rows, row1(str_chars("_"), cursor_look_exec()));
        assert(rows_view(rows@) =~= input_box(input@, cursor as nat, inner_w as nat));
        return rows;
    }
    if input.len() > 200 {
        push_row(&mut rows, row1(cat(&first_chars(input, 40), &str_chars("...")), fg_look(Tone::DarkGray)));
        let ls = split_lines(input);
        let nl = ls.len();
        assert(views(ls@).len() == nl);
        let mut r: Vec<Piece> = Vec::new();
        let mut info = cat(&str_chars(" ["), &usize_decimal(input.len()));
        info = cat(&info, &str_chars(" chars, ~"));
        info = cat(&info, &usize_decimal(nl));
        info = cat(&info, &str_chars(" lines] "));
        push_piece(&mut r, info, fg_look(Tone::Yellow));
        push_piece(&mut r, str_chars("Enter to send, Esc to clear"), fg_look(Tone::DarkGray));
        assert(row_view(r@) =~= seq![
            (" ["@ + decimal(input@.len()) + " chars, ~"@ + decimal(lines(input@).len()) + " lines] "@, fg(Tone::Yellow)),
            ("Enter to send, Esc to clear"@, fg(Tone::DarkGray)),
        ]);
        push_row(&mut rows, r);
        assert(rows_view(rows@) =~= input_box(input@, cursor as nat, inner_w as nat));
        return rows;
    }
    let hint = slash_hint_exec(input);
    let ws = wrap_text_chars(input, inner_w);
    let ghost wv = views(ws@);
    let total = input.len();
    let mut cc: u128 = 0;
    assert(rows_view(rows@) =~= input_rows_upto(wv, 0, cursor as nat, hint@, total as nat));
    for k in 0..ws.len()
        invariant
            wv == views(ws@),
            total == input@.len(),
            total <= 200,
            cc == chars_before(wv, k as int),
            cc <= k * 0xFFFF_FFFF_FFFF_FFFFu128,
            rows_view(rows@) == input_rows_upto(wv, k as int, cursor as nat, hint@, total as nat),
    {
        let wl = &ws[k];
        let n = wl.len();
        assert(wv[k as int] == wl@);
        assert(n <= 0xFFFF_FFFF_FFFF_FFFFu128);
        let mut r: Vec<Piece> = Vec::new();
        if cc <= cursor as u128 && (cursor as u128) <= cc + n as u128 {
            let local = (cursor as u128 - cc) as usize;
            let before = crate::text::slice_chars(wl, 0, local);
            let after = crate::text::slice_chars(wl, local, n);
            assert(before@ == wl@.take(local as int));
            assert(after@ =~= wl@.skip(local as int));
            let ghost bv = before@;
            let ghost av = after@;
            push_piece(&mut r, before, fg_look(Tone::White));
            if hint.len() > 0 && after.len() == 0 && cc + n as u128 >= total as u128 {
                push_piece(&mut r, copy(&hint), fg_look(Tone::DarkGray));
                assert(row_view(r@) =~= seq![(bv, fg(Tone::White))] + seq![(hint@, fg(Tone::DarkGray))]);
            } else {
                let ghost r1 = row_view(r@);
                assert(r1 =~= seq![(bv, fg(Tone::White))]);
                push_piece(&mut r, str_chars("_"), cursor_look_exec());
                let ghost r2 = row_view(r@);
                assert(r2 =~= r1.push(("_"@, cursor_look())));
                push_piece(&mut r, after, fg_look(Tone::White));
                assert(row_view(r@) =~= r2.push((av, fg(Tone::White))));
                assert(row_view(r@) =~= seq![(bv, fg(Tone::White))] + seq![("_"@, cursor_look()), (av, fg(Tone::White))]);
            }
        } else {
            push_piece(&mut r, copy(wl), fg_look(Tone::White));
            assert(row_view(r@) =~= seq![(wl@, fg(Tone::White))]);
        }
        assert(row_view(r@) =~= input_row(wv[k as int], cc as nat, cursor as nat, hint@, total as nat));
        push_row(&mut rows, r);
        cc = cc + n as u128;
    }
    rows
}

// ───────────────────────── frame rate ─────────────────────────

/// Frames drawn per second, counted over whole seconds. The caller keeps the clock.
pub struct FpsTracker {
    /// Frames drawn since the count began.
    pub frames: u32,
    /// Frames drawn in the last whole second counted.
    pub fps: u32,
}

impl FpsTracker {
    /// A tracker that has counted nothing.
    pub fn new() -> (t: Self)
        ensures
            t.frames == 0,
            t.fps == 0,
    {
        FpsTracker { frames: 0, fps: 0 }
    }

    /// Counts a frame. When a second has passed since the count began, the count
    /// becomes the rate and starts over, and the result says so (the caller restarts
    /// its clock then).
    pub fn tick(&mut self, second_passed: bool) -> (restart: bool)
        requires
            old(self).frames < u32::MAX,
        ensures
            restart == second_passed,
            second_passed ==> final(self).fps == old(self).frames + 1 && final(self).frames == 0,
            !second_passed ==> final(self).fps == old(self).fps && final(self).frames == old(self).frames + 1,
    {
        self.frames = self.frames + 1;
        if second_passed {
            self.fps = self.frames;
            self.frames = 0;
        }
        second_passed
    }
}

// ───────────────────────── timing ─────────────────────────

/// The name under which drawing a screen is timed.
pub open spec fn render_section(view: Screen, hb_expanded: bool, cluster_expanded: bool) -> Seq<char> {
    match view {
        Screen::Chat => "render.chat"@,
        Screen::PanelSelector => "render.panel_selector"@,
        Screen::Panel(i) => if i == 1 && hb_expanded {
            "render.heartbeat_expanded"@
        } else if i == 7 && cluster_expanded {
            "render.cluster_expanded"@
        } else if i == 0 {
            "render.memory"@
        } else if i == 1 {
            "render.heartbeat"@
        } else if i == 2 {
            "render.intentions"@
        } else if i == 3 {
            "render.system"@
        } else if i == 4 {
            "render.services"@
        } else if i == 5 {
            "render.failures"@
        } else if i == 6 {
            "render.logs"@
        } else if i == 7 {
            "render.cluster"@
        } else {
            "render.unknown"@
        },
    }
}

/// The name under which drawing a screen is timed.
pub fn render_section_name(view: Screen, hb_expanded: bool, cluster_expanded: bool) -> (r: &'static str)
    ensures
        r@ == render_section(view, hb_expanded, cluster_expanded),
{
    match view {
        Screen::Chat => "render.chat",
        Screen::PanelSelector => "render.panel_selector",
        Screen::Panel(i) => if i == 1 && hb_expanded {
            "render.heartbeat_expanded"
        } else if i == 7 && cluster_expanded {
            "render.cluster_expanded"
        } else if i == 0 {
            "render.memory"
        } else if i == 1 {
            "render.heartbeat"
        } else if i == 2 {
            "render.intentions"
        } else if i == 3 {
            "render.system"
        } else if i == 4 {
            "render.services"
        } else if i == 5 {
            "render.failures"
        } else if i == 6 {
            "render.logs"
        } else if i == 7 {
            "render.cluster"
        } else {
            "render.unknown"
        },
    }
}

} // verus!
