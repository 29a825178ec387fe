//! The heartbeat panel: the list of heartbeats, and the detail of one heartbeat with
//! its sections (action, question, improvement, contribution, command log).
use vstd::prelude::*;
use crate::styled::{
    bold, bold_look, cat, copy, fg, fg_look, line1, push_piece, push_row, row1, row_view, rows_view,
    Look, Piece, Tone,
};
use crate::text::{
    decimal, lines, split_lines, str_chars, take_chars, first_chars, textwrap_simple_chars,
    textwrap_simple_spec, usize_decimal, views,
};
use crate::state::{HeartbeatEntry, HeartbeatState};
use crate::chat_view::{grey, sat_sub};

verus! {

/// The plain look.
pub open spec fn plain() -> Look {
    Look { fg: Tone::Reset, bg: Tone::Reset, bold: false, blink: false, italic: false }
}

/// The colour of a heartbeat status.
pub open spec fn status_tone(s: Seq<char>) -> Tone {
    if s == "ok"@ {
        Tone::Green
    } else if s == "acted"@ {
        Tone::Cyan
    } else if s == "error"@ {
        Tone::Red
    } else {
        Tone::DarkGray
    }
}

/// The colour of a heartbeat status.
pub fn status_tone_exec(s: &str) -> (t: Tone)
    ensures
        t == status_tone(s@),
{
    let c = str_chars(s);
    if crate::text::chars_eq(&c, &str_chars("ok")) {
        Tone::Green
    } else if crate::text::chars_eq(&c, &str_chars("acted")) {
        Tone::Cyan
    } else if crate::text::chars_eq(&c, &str_chars("error")) {
        Tone::Red
    } else {
        Tone::DarkGray
    }
}

// ───────────────────────── the list ─────────────────────────

/// What a heartbeat did, in at most 60 characters: its action, or else its summary.
pub open spec fn beat_line(e: HeartbeatEntry) -> Seq<char> {
    if e.action@.len() > 0 {
        take_chars(e.action@, 60)
    } else {
        take_chars(e.summary@, 60)
    }
}

/// `+` when the heartbeat left a report (a question or a contribution).
pub open spec fn report_mark(e: HeartbeatEntry) -> Seq<char> {
    if e.question@.len() > 0 || e.contribution@.len() > 0 {
        "+"@
    } else {
        " "@
    }
}

/// The row of a heartbeat in the list; the selected one is marked and brighter.
pub open spec fn beat_row(e: HeartbeatEntry, selected: bool) -> Seq<(Seq<char>, Look)> {
    let st = status_tone(e.status@);
    if selected {
        seq![
            (" > "@, bold(Tone::Cyan)),
            (e.timestamp@ + " "@, fg(Tone::White)),
            ("["@ + e.status@ + "] "@, bold(st)),
            (report_mark(e) + " "@, fg(Tone::Yellow)),
            (beat_line(e), bold(Tone::White)),
        ]
    } else {
        seq![
            ("   "@, plain()),
            (e.timestamp@ + " "@, fg(Tone::DarkGray)),
            ("["@ + e.status@ + "] "@, fg(st)),
            (report_mark(e) + " "@, fg(Tone::DarkGray)),
            (beat_line(e), fg(Tone::White)),
        ]
    }
}

/// The rows of the heartbeats, in order.
pub open spec fn beat_rows(es: Seq<HeartbeatEntry>, selected: nat) -> Seq<Seq<(Seq<char>, Look)>>
    decreases es.len(),
{
    if es.len() == 0 {
        seq![]
    } else {
        beat_rows(es.drop_last(), selected).push(beat_row(es.last(), (es.len() - 1) == selected))
    }
}

/// The heartbeat list: today's count (against the daily cap, when there is one) and the
/// newest time, then one row per heartbeat, or a note when there is none.
pub open spec fn heartbeat_list(hb: HeartbeatState, cap: Option<usize>, selected: nat) -> Seq<Seq<(Seq<char>, Look)>> {
    let cap_text = match cap {
        Some(n) => "/"@ + decimal(n as nat),
        None => seq![],
    };
    let head = "Beats today: "@ + decimal(hb.beats_today as nat) + cap_text + " | Last: "@ + hb.last_beat@;
    seq![line1(head, fg(Tone::Cyan)), seq![]] + beat_rows(hb.entries@, selected) + if hb.entries@.len() == 0 {
        seq![line1("  No heartbeats recorded yet"@, fg(Tone::DarkGray))]
    } else {
        seq![]
    }
}

fn beat_row_exec(e: &HeartbeatEntry, selected: bool) -> (r: Vec<Piece>)
    ensures
        row_view(r@) == beat_row(*e, selected),
{
    let st = status_tone_exec(e.status.as_str());
    let act = str_chars(e.action.as_str());
    let line = if act.len() > 0 {
        first_chars(&act, 60)
    } else {
        first_chars(&str_chars(e.summary.as_str()), 60)
    };
    let mark = if str_chars(e.question.as_str()).len() > 0 || str_chars(e.contribution.as_str()).len() > 0 {
        str_chars("+")
    } else {
        str_chars(" ")
    };
    let ts = cat(&str_chars(e.timestamp.as_str()), &str_chars(" "));
    let status = cat(&cat(&str_chars("["), &str_chars(e.status.as_str())), &str_chars("] "));
    let mk = cat(&mark, &str_chars(" "));
    let mut r: Vec<Piece> = Vec::new();
    if selected {
        push_piece(&mut r, str_chars(" > "), bold_look(Tone::Cyan));
        push_piece(&mut r, ts, fg_look(Tone::White));
        push_piece(&mut r, status, bold_look(st));
        push_piece(&mut r, mk, fg_look(Tone::Yellow));
        push_piece(&mut r, line, bold_look(Tone::White));
    } else {
        push_piece(&mut r, str_chars("   "), Look { fg: Tone::Reset, bg: Tone::Reset, bold: false, blink: false, italic: false });
        push_piece(&mut r, ts, fg_look(Tone::DarkGray));
        push_piece(&mut r, status, fg_look(st));
        push_piece(&mut r, mk, fg_look(Tone::DarkGray));
        push_piece(&mut r, line, fg_look(Tone::White));
    }
    assert(row_view(r@) =~= beat_row(*e, selected));
    r
}

/// The heartbeat list with the given heartbeat selected.
pub fn heartbeat_list_rows(hb: &HeartbeatState, cap: Option<usize>, selected: usize) -> (r: Vec<Vec<Piece>>)
    ensures
        rows_view(r@) == heartbeat_list(*hb, cap, selected as nat),
{
    let cap_text = match cap {
        Some(n) => cat(&str_chars("/"), &usize_decimal(n)),
        None => Vec::new(),
    };
    let mut head = cat(&str_chars("Beats today: "), &usize_decimal(hb.beats_today));
    head = cat(&head, &cap_text);
    head = cat(&head, &str_chars(" | Last: "));
    head = cat(&head, &str_chars(hb.last_beat.as_str()));
    let mut rows: Vec<Vec<Piece>> = Vec::new();
    push_row(&mut rows, row1(head, fg_look(Tone::Cyan)));
    let blank: Vec<Piece> = Vec::new();
    assert(row_view(blank@) =~= Seq::<(Seq<char>, Look)>::empty());
    push_row(&mut rows, blank);
    let ghost start = rows_view(rows@);
    let ghost es = hb.entries@;
    assert(start + beat_rows(es.take(0), selected as nat) =~= start);
    for i in 0..hb.entries.len()
        invariant
            es == hb.entries@,
            rows_view(rows@) == start + beat_rows(es.take(i as int), selected as nat),
    {
        assert(es.take(i + 1).drop_last() =~= es.take(i as int));
        assert(es.take(i + 1).last() == es[i as int]);
        push_row(&mut rows, beat_row_exec(&hb.entries[i], i == selected));
        assert(start + beat_rows(es.take(i + 1), selected as nat) =~= (start + beat_rows(es.take(i as int), selected as nat)).push(
            beat_row(es[i as int], i == selected),
        ));
    }
    assert(es.take(es.len() as int) =~= es);
    if hb.entries.len() == 0 {
        push_row(&mut rows, row1(str_chars("  No heartbeats recorded yet"), fg_look(Tone::DarkGray)));
    }
    assert(rows_view(rows@) =~= heartbeat_list(*hb, cap, selected as nat));
    rows
}


// ───────────────────────── one heartbeat ─────────────────────────

/// An entry of a heartbeat's command log.
#[derive(Clone, Debug)]
pub enum CommandLogEntry {
    Command { cmd: String, output: String },
    Memory(String),
    ServiceCall(String),
    Mempalace(String),
    FileWrite(String),
    FileRead(String),
    BashAction(String),
}

/// The names and colours of a heartbeat's sections.
pub open spec fn section_style(i: nat) -> (Seq<char>, Tone) {
    if i == 0 {
        ("ACTION"@, Tone::White)
    } else if i == 1 {
        ("QUESTION"@, Tone::Rgb(255, 200, 100))
    } else if i == 2 {
        ("IMPROVEMENT"@, Tone::Green)
    } else if i == 3 {
        ("CONTRIBUTION"@, Tone::Rgb(180, 130, 255))
    } else {
        ("COMMAND LOG"@, Tone::Rgb(100, 200, 255))
    }
}

fn section_style_exec(i: usize) -> (r: (Vec<char>, Tone))
    ensures
        (r.0@, r.1) == section_style(i as nat),
{
    if i == 0 {
        (str_chars("ACTION"), Tone::White)
    } else if i == 1 {
        (str_chars("QUESTION"), Tone::Rgb(255, 200, 100))
    } else if i == 2 {
        (str_chars("IMPROVEMENT"), Tone::Green)
    } else if i == 3 {
        (str_chars("CONTRIBUTION"), Tone::Rgb(180, 130, 255))
    } else {
        (str_chars("COMMAND LOG"), Tone::Rgb(100, 200, 255))
    }
}

/// The section list, the chosen one marked, a blank row before and after each.
pub open spec fn section_rows(chosen: nat, k: nat) -> Seq<Seq<(Seq<char>, Look)>>
    decreases k,
{
    if k == 0 {
        seq![seq![]]
    } else {
        let i = (k - 1) as nat;
        let (name, tone) = section_style(i);
        let row = if i == chosen {
            seq![(" > "@, bold(Tone::Cyan)), (name, bold(tone))]
        } else {
            seq![("   "@, plain()), (name, fg(Tone::DarkGray))]
        };
        section_rows(chosen, i) + seq![row, seq![]]
    }
}

/// Rows of wrapped lines, each a prefix piece and a text piece; the first line has its
/// own prefix and prefix look.
pub open spec fn pair_rows(ws: Seq<Seq<char>>, p0: Seq<char>, p1: Seq<char>, l0: Look, l1: Look, lt: Look) -> Seq<Seq<(Seq<char>, Look)>>
    decreases ws.len(),
{
    if ws.len() == 0 {
        seq![]
    } else {
        let first = ws.len() == 1;
        pair_rows(ws.drop_last(), p0, p1, l0, l1, lt).push(
            seq![(if first { p0 } else { p1 }, if first { l0 } else { l1 }), (ws.last(), lt)],
        )
    }
}

/// Rows of wrapped lines, each one piece: its prefix (the first line's own) and the line.
pub open spec fn joined_rows(ws: Seq<Seq<char>>, p0: Seq<char>, p1: Seq<char>, l: Look) -> Seq<Seq<(Seq<char>, Look)>>
    decreases ws.len(),
{
    if ws.len() == 0 {
        seq![]
    } else {
        let p = if ws.len() == 1 { p0 } else { p1 };
        joined_rows(ws.drop_last(), p0, p1, l).push(line1(p + ws.last(), l))
    }
}

/// Rows of wrapped lines, the first behind a badge.
pub open spec fn badge_rows(ws: Seq<Seq<char>>, badge: Seq<char>, badge_look: Look, l: Look) -> Seq<Seq<(Seq<char>, Look)>>
    decreases ws.len(),
{
    if ws.len() == 0 {
        seq![]
    } else if ws.len() == 1 {
        seq![seq![(badge, badge_look), (" "@ + ws[0], l)]]
    } else {
        badge_rows(ws.drop_last(), badge, badge_look, l).push(line1("     "@ + ws.last(), l))
    }
}

/// The rows of the first eight output lines, each wrapped.
pub open spec fn output_block(ls: Seq<Seq<char>>, w: nat) -> Seq<Seq<(Seq<char>, Look)>>
    decreases ls.len(),
{
    if ls.len() == 0 {
        seq![]
    } else {
        output_block(ls.drop_last(), w) + joined_rows(textwrap_simple_spec(ls.last(), w), "    "@, "    "@, fg(grey(120)))
    }
}

/// The model of a command log entry.
pub enum LogModel {
    Command(Seq<char>, Seq<char>),
    Memory(Seq<char>),
    ServiceCall(Seq<char>),
    Mempalace(Seq<char>),
    FileWrite(Seq<char>),
    FileRead(Seq<char>),
    BashAction(Seq<char>),
}

/// A command log entry as text.
pub open spec fn log_view(e: CommandLogEntry) -> LogModel {
    match e {
        CommandLogEntry::Command { cmd, output } => LogModel::Command(cmd@, output@),
        CommandLogEntry::Memory(d) => LogModel::Memory(d@),
        CommandLogEntry::ServiceCall(d) => LogModel::ServiceCall(d@),
        CommandLogEntry::Mempalace(d) => LogModel::Mempalace(d@),
        CommandLogEntry::FileWrite(d) => LogModel::FileWrite(d@),
        CommandLogEntry::FileRead(d) => LogModel::FileRead(d@),
        CommandLogEntry::BashAction(d) => LogModel::BashAction(d@),
    }
}

/// The rows of one command log entry, wrapped to `w`.
pub open spec fn log_rows(e: LogModel, w: nat) -> Seq<Seq<(Seq<char>, Look)>> {
    let green = fg(Tone::Rgb(100, 200, 100));
    match e {
        LogModel::Command(cmd, output) => {
            let ls = lines(output);
            pair_rows(textwrap_simple_spec(cmd, w), "  $ "@, "    "@, green, fg(Tone::DarkGray), bold(Tone::White))
                + output_block(ls.take(if ls.len() > 8 { 8 } else { ls.len() as int }), w) + (if ls.len() > 8 {
                seq![line1("    ... ("@ + decimal((ls.len() - 8) as nat) + " more)"@, fg(Tone::DarkGray))]
            } else {
                seq![]
            }) + seq![seq![]]
        },
        LogModel::Memory(d) => {
            let l = fg(Tone::Rgb(180, 130, 255));
            pair_rows(textwrap_simple_spec("MEMORY: "@ + d, w), "  >> "@, "     "@, l, l, l)
        },
        LogModel::ServiceCall(d) => {
            let l = fg(Tone::Rgb(100, 200, 255));
            pair_rows(textwrap_simple_spec("CALL: "@ + d, w), "  -> "@, "     "@, l, l, l)
        },
        LogModel::Mempalace(d) => joined_rows(textwrap_simple_spec(d, w), "  ~ "@, "    "@, fg(Tone::Rgb(100, 180, 255))),
        LogModel::FileWrite(d) => badge_rows(
            textwrap_simple_spec(d, w),
            "  W "@,
            Look { fg: Tone::Black, bg: Tone::Green, bold: false, blink: false, italic: false },
            fg(Tone::Green),
        ),
        LogModel::FileRead(d) => badge_rows(
            textwrap_simple_spec(d, w),
            "  R "@,
            Look { fg: Tone::Black, bg: Tone::Cyan, bold: false, blink: false, italic: false },
            fg(Tone::Cyan),
        ),
        LogModel::BashAction(d) => pair_rows(textwrap_simple_spec(d, w), "  $ "@, "    "@, green, fg(Tone::DarkGray), bold(Tone::White)),
    }
}

/// The rows of the command log.
pub open spec fn log_all(es: Seq<CommandLogEntry>, w: nat) -> Seq<Seq<(Seq<char>, Look)>>
    decreases es.len(),
{
    if es.len() == 0 {
        seq![]
    } else {
        log_all(es.drop_last(), w) + log_rows(log_view(es.last()), w)
    }
}

/// A section's text, wrapped, in the section's colour; a note when it is empty.
pub open spec fn text_section(t: Seq<char>, empty_note: Seq<char>, w: nat, tone: Tone) -> Seq<Seq<(Seq<char>, Look)>> {
    if t.len() == 0 {
        seq![line1(empty_note, fg(Tone::DarkGray))]
    } else {
        joined_rows(textwrap_simple_spec(t, w), "  "@, "  "@, fg(tone))
    }
}

/// The content of a section of a heartbeat `width` wide (the command log in section 4).
pub open spec fn section_content(e: HeartbeatEntry, section: nat, width: nat, log: Seq<CommandLogEntry>) -> Seq<Seq<(Seq<char>, Look)>> {
    let tone = section_style(if section > 4 { 4 } else { section }).1;
    if section == 0 {
        let t = if e.action@.len() == 0 { e.summary@ } else { e.action@ };
        joined_rows(textwrap_simple_spec(t, width), "  "@, "  "@, fg(tone))
    } else if section == 1 {
        text_section(e.question@, "  (no question recorded)"@, width, tone)
    } else if section == 2 {
        text_section(e.improvement@, "  (none recorded)"@, width, tone)
    } else if section == 3 {
        text_section(e.contribution@, "  (none recorded)"@, width, tone)
    } else if section == 4 {
        if log.len() == 0 {
            seq![line1("  (no commands recorded)"@, fg(Tone::DarkGray))]
        } else {
            let ww = if sat_sub(width, 6) > 20 { sat_sub(width, 6) } else { 20 };
            log_all(log, ww)
        }
    } else {
        seq![]
    }
}

/// The detail pane: a blank row, the section's content, a blank row and the source, from
/// the scroll position on (at least the last row stays).
pub open spec fn detail_rows(e: HeartbeatEntry, section: nat, scroll: nat, width: nat, log: Seq<CommandLogEntry>) -> Seq<Seq<(Seq<char>, Look)>> {
    let all = seq![seq![]] + section_content(e, section, width, log) + seq![
        seq![],
        line1("  source: "@ + e.prompt@, fg(grey(60))),
    ];
    let last = sat_sub(all.len(), 1);
    all.skip(if scroll < last { scroll as int } else { last as int })
}


fn pair_rows_exec(
    rows: &mut Vec<Vec<Piece>>,
    ws: &Vec<Vec<char>>,
    p0: &[char],
    p1: &[char],
    l0: Look,
    l1: Look,
    lt: Look,
)
    ensures
        rows_view(final(rows)@) == rows_view(old(rows)@) + pair_rows(views(ws@), p0@, p1@, l0, l1, lt),
{
    let ghost start = rows_view(rows@);
    let ghost wv = views(ws@);
    assert(start + pair_rows(wv.take(0), p0@, p1@, l0, l1, lt) =~= start);
    for i in 0..ws.len()
        invariant
            wv == views(ws@),
            rows_view(rows@) == start + pair_rows(wv.take(i as int), p0@, p1@, l0, l1, lt),
    {
        let ghost t = wv.take(i + 1);
        assert(t.drop_last() =~= wv.take(i as int));
        assert(t.last() == ws@[i as int]@);
        let mut r: Vec<Piece> = Vec::new();
        if i == 0 {
            push_piece(&mut r, copy(p0), l0);
        } else {
            push_piece(&mut r, copy(p1), l1);
        }
        push_piece(&mut r, copy(&ws[i]), lt);
        let ghost rv = row_view(r@);
        assert(rv =~= seq![(if t.len() == 1 { p0@ } else { p1@ }, if t.len() == 1 { l0 } else { l1 }), (t.last(), lt)]);
        push_row(rows, r);
        assert(start + pair_rows(t, p0@, p1@, l0, l1, lt) =~= (start + pair_rows(wv.take(i as int), p0@, p1@, l0, l1, lt)).push(rv));
    }
    assert(wv.take(ws@.len() as int) =~= wv);
}

fn joined_rows_exec(rows: &mut Vec<Vec<Piece>>, ws: &Vec<Vec<char>>, p0: &[char], p1: &[char], l: Look)
    ensures
        rows_view(final(rows)@) == rows_view(old(rows)@) + joined_rows(views(ws@), p0@, p1@, l),
{
    let ghost start = rows_view(rows@);
    let ghost wv = views(ws@);
    assert(start + joined_rows(wv.take(0), p0@, p1@, l) =~= start);
    for i in 0..ws.len()
        invariant
            wv == views(ws@),
            rows_view(rows@) == start + joined_rows(wv.take(i as int), p0@, p1@, l),
    {
        let ghost t = wv.take(i + 1);
        assert(t.drop_last() =~= wv.take(i as int));
        assert(t.last() == ws@[i as int]@);
        let line = if i == 0 { cat(p0, &ws[i]) } else { cat(p1, &ws[i]) };
        let r = row1(line, l);
        let ghost rv = row_view(r@);
        push_row(rows, r);
        assert(start + joined_rows(t, p0@, p1@, l) =~= (start + joined_rows(wv.take(i as int), p0@, p1@, l)).push(rv));
    }
    assert(wv.take(ws@.len() as int) =~= wv);
}

fn badge_rows_exec(rows: &mut Vec<Vec<Piece>>, ws: &Vec<Vec<char>>, badge: &[char], badge_look: Look, l: Look)
    ensures
        rows_view(final(rows)@) == rows_view(old(rows)@) + badge_rows(views(ws@), badge@, badge_look, l),
{
    let ghost start = rows_view(rows@);
    let ghost wv = views(ws@);
    assert(start + badge_rows(wv.take(0), badge@, badge_look, l) =~= start);
    for i in 0..ws.len()
        invariant
            wv == views(ws@),
            rows_view(rows@) == start + badge_rows(wv.take(i as int), badge@, badge_look, l),
    {
        let ghost t = wv.take(i + 1);
        assert(t.drop_last() =~= wv.take(i as int));
        assert(t.last() == ws@[i as int]@);
        let mut r: Vec<Piece> = Vec::new();
        if i == 0 {
            push_piece(&mut r, copy(badge), badge_look);
            push_piece(&mut r, cat(&str_chars(" "), &ws[i]), l);
            assert(t =~= seq![ws@[0]@]);
            assert(row_view(r@) =~= seq![(badge@, badge_look), (" "@ + ws@[0]@, l)]);
        } else {
            push_piece(&mut r, cat(&str_chars("     "), &ws[i]), l);
            assert(row_view(r@) =~= line1("     "@ + t.last(), l));
        }
        let ghost rv = row_view(r@);
        push_row(rows, r);
        assert(start + badge_rows(t, badge@, badge_look, l) =~= (start + badge_rows(wv.take(i as int), badge@, badge_look, l)).push(rv));
    }
    assert(wv.take(ws@.len() as int) =~= wv);
}

fn log_rows_exec(rows: &mut Vec<Vec<Piece>>, e: &CommandLogEntry, w: usize)
    ensures
        rows_view(final(rows)@) == rows_view(old(rows)@) + log_rows(log_view(*e), w as nat),
{
    let ghost start = rows_view(rows@);
    let green = fg_look(Tone::Rgb(100, 200, 100));
    match e {
        CommandLogEntry::Command { cmd, output } => {
            let ws = textwrap_simple_chars(&str_chars(cmd.as_str()), w);
            pair_rows_exec(rows, &ws, &str_chars("  $ "), &str_chars("    "), green, fg_look(Tone::DarkGray), bold_look(Tone::White));
            let ls = split_lines(&str_chars(output.as_str()));
            let ghost lv = views(ls@);
            let shown: usize = if ls.len() > 8 { 8 } else { ls.len() };
            let ghost mid = rows_view(rows@);
            assert(mid + output_block(lv.take(0), w as nat) =~= mid);
            for i in 0..shown
                invariant
                    lv == views(ls@),
                    shown <= ls@.len(),
                    rows_view(rows@) == mid + output_block(lv.take(i as int), w as nat),
            {
                assert(lv.take(i + 1).drop_last() =~= lv.take(i as int));
                assert(lv.take(i + 1).last() == ls@[i as int]@);
                let ghost before = rows_view(rows@);
                let wl = textwrap_simple_chars(&ls[i], w);
                joined_rows_exec(rows, &wl, &str_chars("    "), &str_chars("    "), fg_look(Tone::Rgb(120, 120, 120)));
                assert(mid + output_block(lv.take(i + 1), w as nat) =~= before + joined_rows(
                    textwrap_simple_spec(ls@[i as int]@, w as nat),
                    "    "@,
                    "    "@,
                    fg(grey(120)),
                ));
            }
            if ls.len() > 8 {
                let more = cat(&cat(&str_chars("    ... ("), &usize_decimal(ls.len() - 8)), &str_chars(" more)"));
                push_row(rows, row1(more, fg_look(Tone::DarkGray)));
            }
            let blank: Vec<Piece> = Vec::new();
            assert(row_view(blank@) =~= Seq::<(Seq<char>, Look)>::empty());
            push_row(rows, blank);
            assert(rows_view(rows@) =~= start + log_rows(log_view(*e), w as nat));
        },
        CommandLogEntry::Memory(d) => {
            let l = fg_look(Tone::Rgb(180, 130, 255));
            let ws = textwrap_simple_chars(&cat(&str_chars("MEMORY: "), &str_chars(d.as_str())), w);
            pair_rows_exec(rows, &ws, &str_chars("  >> "), &str_chars("     "), l, l, l);
        },
        CommandLogEntry::ServiceCall(d) => {
            let l = fg_look(Tone::Rgb(100, 200, 255));
            let ws = textwrap_simple_chars(&cat(&str_chars("CALL: "), &str_chars(d.as_str())), w);
            pair_rows_exec(rows, &ws, &str_chars("  -> "), &str_chars("     "), l, l, l);
        },
        CommandLogEntry::Mempalace(d) => {
            let ws = textwrap_simple_chars(&str_chars(d.as_str()), w);
            joined_rows_exec(rows, &ws, &str_chars("  ~ "), &str_chars("    "), fg_look(Tone::Rgb(100, 180, 255)));
        },
        CommandLogEntry::FileWrite(d) => {
            let ws = textwrap_simple_chars(&str_chars(d.as_str()), w);
            badge_rows_exec(rows, &ws, &str_chars("  W "), Look { fg: Tone::Black, bg: Tone::Green, bold: false, blink: false, italic: false }, fg_look(Tone::Green));
        },
        CommandLogEntry::FileRead(d) => {
            let ws = textwrap_simple_chars(&str_chars(d.as_str()), w);
            badge_rows_exec(rows, &ws, &str_chars("  R "), Look { fg: Tone::Black, bg: Tone::Cyan, bold: false, blink: false, italic: false }, fg_look(Tone::Cyan));
        },
        CommandLogEntry::BashAction(d) => {
            let ws = textwrap_simple_chars(&str_chars(d.as_str()), w);
            pair_rows_exec(rows, &ws, &str_chars("  $ "), &str_chars("    "), green, fg_look(Tone::DarkGray), bold_look(Tone::White));
        },
    }
}

fn text_section_exec(rows: &mut Vec<Vec<Piece>>, t: &str, empty_note: &str, w: usize, tone: Tone)
    ensures
        rows_view(final(rows)@) == rows_view(old(rows)@) + text_section(t@, empty_note@, w as nat, tone),
{
    let c = str_chars(t);
    if c.len() == 0 {
        let ghost start = rows_view(rows@);
        push_row(rows, row1(str_chars(empty_note), fg_look(Tone::DarkGray)));
        assert(rows_view(rows@) =~= start + text_section(t@, empty_note@, w as nat, tone));
    } else {
        let ws = textwrap_simple_chars(&c, w);
        joined_rows_exec(rows, &ws, &str_chars("  "), &str_chars("  "), fg_look(tone));
    }
}

/// The section list with a section chosen.
pub fn section_list_rows(chosen: usize) -> (r: Vec<Vec<Piece>>)
    ensures
        rows_view(r@) == section_rows(chosen as nat, 5),
{
    let mut rows: Vec<Vec<Piece>> = Vec::new();
    let blank: Vec<Piece> = Vec::new();
    assert(row_view(blank@) =~= Seq::<(Seq<char>, Look)>::empty());
    push_row(&mut rows, blank);
    assert(rows_view(rows@) =~= section_rows(chosen as nat, 0));
    for i in 0..5usize
        invariant
            rows_view(rows@) == section_rows(chosen as nat, i as nat),
    {
        let (name, tone) = section_style_exec(i);
        let mut r: Vec<Piece> = Vec::new();
        let ghost nm = name@;
        if i == chosen {
            push_piece(&mut r, str_chars(" > "), bold_look(Tone::Cyan));
            push_piece(&mut r, name, bold_look(tone));
            assert(row_view(r@) =~= seq![(" > "@, bold(Tone::Cyan)), (nm, bold(tone))]);
        } else {
            push_piece(&mut r, str_chars("   "), Look { fg: Tone::Reset, bg: Tone::Reset, bold: false, blink: false, italic: false });
            push_piece(&mut r, name, fg_look(Tone::DarkGray));
            assert(row_view(r@) =~= seq![("   "@, plain()), (nm, fg(Tone::DarkGray))]);
        }
        let ghost before = rows_view(rows@);
        push_row(&mut rows, r);
        let b2: Vec<Piece> = Vec::new();
        assert(row_view(b2@) =~= Seq::<(Seq<char>, Look)>::empty());
        push_row(&mut rows, b2);
        assert(rows_view(rows@) =~= section_rows(chosen as nat, (i + 1) as nat));
    }
    rows
}

/// The detail pane of a heartbeat: the chosen section's content, then the source, from
/// the scroll position on.
pub fn heartbeat_detail_rows(
    e: &HeartbeatEntry,
    section: usize,
    scroll: usize,
    width: usize,
    log: &Vec<CommandLogEntry>,
) -> (r: Vec<Vec<Piece>>)
    ensures
        rows_view(r@) == detail_rows(*e, section as nat, scroll as nat, width as nat, log@),
{
    let mut rows: Vec<Vec<Piece>> = Vec::new();
    let blank: Vec<Piece> = Vec::new();
    assert(row_view(blank@) =~= Seq::<(Seq<char>, Look)>::empty());
    push_row(&mut rows, blank);
    let ghost start = rows_view(rows@);
    let (_, tone) = section_style_exec(if section > 4 { 4 } else { section });
    if section == 0 {
        let act = str_chars(e.action.as_str());
        let t = if act.len() == 0 { str_chars(e.summary.as_str()) } else { act };
        let ws = textwrap_simple_chars(&t, width);
        joined_rows_exec(&mut rows, &ws, &str_chars("  "), &str_chars("  "), fg_look(tone));
    } else if section == 1 {
        text_section_exec(&mut rows, e.question.as_str(), "  (no question recorded)", width, tone);
    } else if section == 2 {
        text_section_exec(&mut rows, e.improvement.as_str(), "  (none recorded)", width, tone);
    } else if section == 3 {
        text_section_exec(&mut rows, e.contribution.as_str(), "  (none recorded)", width, tone);
    } else if section == 4 {
        if log.len() == 0 {
            push_row(&mut rows, row1(str_chars("  (no commands recorded)"), fg_look(Tone::DarkGray)));
        } else {
            let w6: usize = if width >= 6 { width - 6 } else { 0 };
            let ww: usize = if w6 > 20 { w6 } else { 20 };
            let ghost base = rows_view(rows@);
            assert(base + log_all(log@.take(0), ww as nat) =~= base);
            for i in 0..log.len()
                invariant
                    rows_view(rows@) == base + log_all(log@.take(i as int), ww as nat),
            {
                assert(log@.take(i + 1).drop_last() =~= log@.take(i as int));
                assert(log@.take(i + 1).last() == log@[i as int]);
                log_rows_exec(&mut rows, &log[i], ww);
                assert(base + log_all(log@.take(i + 1), ww as nat) =~= base + log_all(log@.take(i as int), ww as nat) + log_rows(
                    log_view(log@[i as int]),
                    ww as nat,
                ));
            }
            assert(log@.take(log@.len() as int) =~= log@);
        }
    }
    assert(rows_view(rows@) =~= start + section_content(*e, section as nat, width as nat, log@));
    let b3: Vec<Piece> = Vec::new();
    assert(row_view(b3@) =~= Seq::<(Seq<char>, Look)>::empty());
    push_row(&mut rows, b3);
    push_row(&mut rows, row1(cat(&str_chars("  source: "), &str_chars(e.prompt.as_str())), fg_look(Tone::Rgb(60, 60, 60))));
    let ghost all = rows_view(rows@);
    assert(all =~= seq![seq![]] + section_content(*e, section as nat, width as nat, log@) + seq![
        seq![],
        line1("  source: "@ + e.prompt@, fg(grey(60))),
    ]);
    let n = rows.len();
    let last: usize = if n >= 1 { n - 1 } else { 0 };
    let skip: usize = if scroll < last { scroll } else { last };
    let mut out: Vec<Vec<Piece>> = Vec::new();
    let mut k: usize = skip;
    while k < n
        invariant
            n == rows@.len(),
            skip <= k <= n,
            all.len() == n,
            forall|j: int| k <= j < n ==> row_view((#[trigger] rows@[j])@) == all[j],
            rows_view(out@) == all.subrange(skip as int, k as int),
        decreases n - k,
    {
        let mut r: Vec<Piece> = Vec::new();
        let ghost before = rows@;
        std::mem::swap(&mut r, &mut rows[k]);
        push_row(&mut out, r);
        assert(all.subrange(skip as int, k + 1) =~= all.subrange(skip as int, k as int).push(all[k as int]));
        assert forall|j: int| k + 1 <= j < n implies row_view((#[trigger] rows@[j])@) == all[j] by {
            assert(rows@[j] == before[j]);
        }
        k += 1;
    }
    assert(all.subrange(skip as int, n as int) =~= all.skip(skip as int));
    out
}

} // verus!
