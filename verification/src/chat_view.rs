//! How the conversation is laid out as styled rows: a header per entry, then each block
//! (wrapped text, action cards, file edits with their diff, commands with their output,
//! code, diagrams, tables, charts), entries separated by a rule.
use vstd::prelude::*;
use crate::styled::{
    append_rows, bold, bold_look, cat, copy, fg, fg_look, line1, prefixed_rows, push_piece,
    push_prefixed_rows, push_row, rep, rep_exec, row1, row_view, rows_view, Look, Piece, Tone,
};
use crate::text::{
    byte_len, contains, contains_seq, decimal, ends_with, has_prefix, has_suffix, lines,
    split_lines, starts_with, str_chars, str_views, trim_start, trim_start_ws, truncate_width,
    first_chars, usize_decimal, utf8_len, views, wrap_text_chars, wrap_text_spec,
};
use crate::stream::{block_views, diff_views, row_views, BlockModel, DiffLine, DiffModel, EntryKind, RichBlock, StreamEntry};

verus! {

/// `a - b`, or zero.
pub open spec fn sat_sub(a: nat, b: nat) -> nat {
    if a >= b {
        (a - b) as nat
    } else {
        0
    }
}

/// Width of a block's frame inside the chat width.
pub open spec fn frame_width(w: nat) -> nat {
    sat_sub(w, 4)
}

/// A mid-grey of the given brightness.
pub open spec fn grey(v: u8) -> Tone {
    Tone::Rgb(v, v, v)
}

// ───────────────────────── text ─────────────────────────

/// The look of a wrapped line of text, by how it starts (trimmed): shell lines and
/// quotes yellow, headings and bold lines bold, list items cyan, paths lilac.
pub open spec fn text_look(t: Seq<char>, text_tone: Tone) -> Look {
    if starts_with(t, "$ "@) || starts_with(t, "> "@) {
        fg(Tone::Yellow)
    } else if starts_with(t, "##"@) {
        bold(text_tone)
    } else if starts_with(t, "**"@) && ends_with(t, "**"@) {
        bold(text_tone)
    } else if starts_with(t, "- "@) || starts_with(t, "* "@) {
        fg(Tone::Cyan)
    } else if contains_seq(t, "~/"@) || contains_seq(t, "/.neil/"@) || contains_seq(t, "/home/"@) {
        fg(Tone::Rgb(180, 180, 220))
    } else {
        fg(text_tone)
    }
}

/// One row per wrapped line of text, indented by two.
pub open spec fn text_line_rows(ws: Seq<Seq<char>>, text_tone: Tone) -> Seq<Seq<(Seq<char>, Look)>>
    decreases ws.len(),
{
    if ws.len() == 0 {
        seq![]
    } else {
        text_line_rows(ws.drop_last(), text_tone).push(
            line1("  "@ + ws.last(), text_look(trim_start(ws.last()), text_tone)),
        )
    }
}

fn text_look_exec(t: &[char], text_tone: Tone) -> (l: Look)
    ensures
        l == text_look(t@, text_tone),
{
    if has_prefix(t, &str_chars("$ ")) || has_prefix(t, &str_chars("> ")) {
        fg_look(Tone::Yellow)
    } else if has_prefix(t, &str_chars("##")) {
        bold_look(text_tone)
    } else if has_prefix(t, &str_chars("**")) && has_suffix(t, &str_chars("**")) {
        bold_look(text_tone)
    } else if has_prefix(t, &str_chars("- ")) || has_prefix(t, &str_chars("* ")) {
        fg_look(Tone::Cyan)
    } else if contains(t, &str_chars("~/")) || contains(t, &str_chars("/.neil/")) || contains(
        t,
        &str_chars("/home/"),
    ) {
        fg_look(Tone::Rgb(180, 180, 220))
    } else {
        fg_look(text_tone)
    }
}

/// The rows of a text block.
fn text_rows(t: &str, w: usize, text_tone: Tone) -> (r: Vec<Vec<Piece>>)
    ensures
        rows_view(r@) == text_line_rows(wrap_text_spec(t@, w as nat), text_tone),
{
    let ws = wrap_text_chars(&str_chars(t), w);
    let ghost wv = views(ws@);
    let mut rows: Vec<Vec<Piece>> = Vec::new();
    assert(rows_view(rows@) =~= text_line_rows(wv.take(0), text_tone));
    for i in 0..ws.len()
        invariant
            wv == views(ws@),
            rows_view(rows@) == text_line_rows(wv.take(i as int), text_tone),
    {
        assert(wv.take(i + 1).drop_last() =~= wv.take(i as int));
        assert(wv.take(i + 1).last() == ws@[i as int]@);
        let trimmed = trim_start_ws(&ws[i]);
        let look = text_look_exec(&trimmed, text_tone);
        let line = cat(&str_chars("  "), &ws[i]);
        push_row(&mut rows, row1(line, look));
    }
    assert(wv.take(ws@.len() as int) =~= wv);
    rows
}

// ───────────────────────── action cards ─────────────────────────

/// The icon and colour of an action card.
pub open spec fn action_style(action: Seq<char>) -> (Seq<char>, Tone) {
    if action == "MEMORY"@ {
        (">>"@, Tone::Rgb(180, 130, 255))
    } else if action == "CALL"@ {
        ("->"@, Tone::Rgb(100, 200, 255))
    } else if action == "INTEND"@ {
        ("++"@, Tone::Rgb(255, 200, 100))
    } else if action == "DONE"@ {
        ("OK"@, Tone::Green)
    } else if action == "FAIL"@ {
        ("!!"@, Tone::Red)
    } else if action == "NOTIFY"@ {
        ("<>"@, Tone::Rgb(255, 180, 100))
    } else if action == "HEARTBEAT"@ {
        ("~~"@, Tone::Rgb(100, 180, 255))
    } else if action == "PROMPT"@ {
        ("?>"@, Tone::Rgb(200, 200, 100))
    } else {
        ("--"@, Tone::Magenta)
    }
}

/// An action card: its icon, the action and the detail cut to fit the frame.
pub open spec fn tool_rows(action: Seq<char>, detail: Seq<char>, w: nat) -> Seq<Seq<(Seq<char>, Look)>> {
    let (icon, tone) = action_style(action);
    let room = sat_sub(frame_width(w), utf8_len(action) + 6);
    seq![line1("  "@ + icon + " "@ + action + ": "@ + truncate_width(detail, room), fg(tone))]
}

fn action_style_exec(action: &[char]) -> (r: (Vec<char>, Tone))
    ensures
        (r.0@, r.1) == action_style(action@),
{
    if crate::text::chars_eq(action, &str_chars("MEMORY")) {
        (str_chars(">>"), Tone::Rgb(180, 130, 255))
    } else if crate::text::chars_eq(action, &str_chars("CALL")) {
        (str_chars("->"), Tone::Rgb(100, 200, 255))
    } else if crate::text::chars_eq(action, &str_chars("INTEND")) {
        (str_chars("++"), Tone::Rgb(255, 200, 100))
    } else if crate::text::chars_eq(action, &str_chars("DONE")) {
        (str_chars("OK"), Tone::Green)
    } else if crate::text::chars_eq(action, &str_chars("FAIL")) {
        (str_chars("!!"), Tone::Red)
    } else if crate::text::chars_eq(action, &str_chars("NOTIFY")) {
        (str_chars("<>"), Tone::Rgb(255, 180, 100))
    } else if crate::text::chars_eq(action, &str_chars("HEARTBEAT")) {
        (str_chars("~~"), Tone::Rgb(100, 180, 255))
    } else if crate::text::chars_eq(action, &str_chars("PROMPT")) {
        (str_chars("?>"), Tone::Rgb(200, 200, 100))
    } else {
        (str_chars("--"), Tone::Magenta)
    }
}

/// `a - b`, or zero, for byte counts.
fn sat_sub_wide(a: u128, b: u128) -> (r: u128)
    ensures
        r == sat_sub(a as nat, b as nat),
{
    if a >= b {
        a - b
    } else {
        0
    }
}

fn tool_rows_exec(action: &str, detail: &str, w: usize) -> (r: Vec<Vec<Piece>>)
    ensures
        rows_view(r@) == tool_rows(action@, detail@, w as nat),
{
    let a = str_chars(action);
    let (icon, tone) = action_style_exec(&a);
    let fw: usize = if w >= 4 { w - 4 } else { 0 };
    let alen = byte_len(&a);
    let need: u128 = if alen <= u128::MAX - 6 { alen + 6 } else { u128::MAX };
    proof {
        crate::text::lemma_utf8_len_bound(a@);
        assert(utf8_len(a@) <= 4 * a@.len());
    }
    let room = sat_sub_wide(fw as u128, need) as usize;
    let d = first_chars(&str_chars(detail), room);
    let mut line = cat(&str_chars("  "), &icon);
    line = cat(&line, &str_chars(" "));
    line = cat(&line, &a);
    line = cat(&line, &str_chars(": "));
    line = cat(&line, &d);
    let mut rows: Vec<Vec<Piece>> = Vec::new();
    push_row(&mut rows, row1(line, fg_look(tone)));
    assert(rows_view(rows@) =~= tool_rows(action@, detail@, w as nat));
    rows
}


// ───────────────────────── file edits ─────────────────────────

/// Number of added lines.
pub open spec fn added_count(ls: Seq<DiffModel>) -> nat
    decreases ls.len(),
{
    if ls.len() == 0 {
        0
    } else {
        added_count(ls.drop_last()) + if ls.last() is Added {
            1nat
        } else {
            0nat
        }
    }
}

/// Number of removed lines.
pub open spec fn removed_count(ls: Seq<DiffModel>) -> nat
    decreases ls.len(),
{
    if ls.len() == 0 {
        0
    } else {
        removed_count(ls.drop_last()) + if ls.last() is Removed {
            1nat
        } else {
            0nat
        }
    }
}

/// ` (+a, -r)` with the zero counts left out; nothing when both are zero.
pub open spec fn change_summary(a: nat, r: nat) -> Seq<char> {
    if a > 0 && r > 0 {
        " (+"@ + decimal(a) + ", -"@ + decimal(r) + ")"@
    } else if a > 0 {
        " (+"@ + decimal(a) + ")"@
    } else if r > 0 {
        " (-"@ + decimal(r) + ")"@
    } else {
        seq![]
    }
}

/// The label of a file edit's frame.
pub open spec fn edit_label(path: Seq<char>, lang: Seq<char>, ls: Seq<DiffModel>) -> Seq<char> {
    let shown = if path.len() == 0 {
        "file"@
    } else {
        path
    };
    " "@ + lang + " "@ + shown + change_summary(added_count(ls), removed_count(ls)) + " "@
}

/// A diff line: its marker, its text and its colour (hunk headers blue-grey).
pub open spec fn diff_row(d: DiffModel, w: nat) -> Seq<(Seq<char>, Look)> {
    let (mark, t, look) = match d {
        DiffModel::Added(t) => ("+"@, t, fg(Tone::Green)),
        DiffModel::Removed(t) => ("-"@, t, fg(Tone::Red)),
        DiffModel::Context(t) => if starts_with(t, "@@"@) {
            ("@"@, t, fg(Tone::Rgb(100, 100, 200)))
        } else {
            (" "@, t, fg(grey(140)))
        },
    };
    line1(truncate_width("  | "@ + mark + " "@ + t, w), look)
}

/// The rows of the diff lines.
pub open spec fn diff_rows(ls: Seq<DiffModel>, w: nat) -> Seq<Seq<(Seq<char>, Look)>>
    decreases ls.len(),
{
    if ls.len() == 0 {
        seq![]
    } else {
        diff_rows(ls.drop_last(), w).push(diff_row(ls.last(), w))
    }
}

/// A file edit: a frame titled with the language, the path and the change counts, the
/// diff lines, and the frame's bottom.
pub open spec fn edit_rows(path: Seq<char>, lang: Seq<char>, ls: Seq<DiffModel>, w: nat) -> Seq<Seq<(Seq<char>, Look)>> {
    let fw = frame_width(w);
    let label = edit_label(path, lang, ls);
    let top = seq![
        ("  ┌─"@, fg(grey(80))),
        (label, bold(Tone::Rgb(180, 180, 220))),
        (rep('─', sat_sub(fw, utf8_len(label))), fg(grey(80))),
    ];
    seq![top] + diff_rows(ls, w) + seq![line1("  └"@ + rep('─', fw), fg(grey(80)))]
}

fn diff_row_exec(d: &DiffLine, w: usize) -> (r: Vec<Piece>)
    ensures
        row_view(r@) == diff_row(d@, w as nat),
{
    let (mark, t, look) = match d {
        DiffLine::Added(t) => (str_chars("+"), str_chars(t.as_str()), fg_look(Tone::Green)),
        DiffLine::Removed(t) => (str_chars("-"), str_chars(t.as_str()), fg_look(Tone::Red)),
        DiffLine::Context(t) => {
            let tc = str_chars(t.as_str());
            if has_prefix(&tc, &str_chars("@@")) {
                (str_chars("@"), tc, fg_look(Tone::Rgb(100, 100, 200)))
            } else {
                (str_chars(" "), tc, fg_look(Tone::Rgb(140, 140, 140)))
            }
        },
    };
    let mut line = cat(&str_chars("  | "), &mark);
    line = cat(&line, &str_chars(" "));
    line = cat(&line, &t);
    row1(first_chars(&line, w), look)
}

fn count_changes(ls: &Vec<DiffLine>) -> (r: (usize, usize))
    ensures
        r.0 == added_count(diff_views(ls@)),
        r.1 == removed_count(diff_views(ls@)),
{
    let ghost dv = diff_views(ls@);
    let mut a: usize = 0;
    let mut rm: usize = 0;
    for i in 0..ls.len()
        invariant
            dv == diff_views(ls@),
            a == added_count(dv.take(i as int)),
            rm == removed_count(dv.take(i as int)),
            a <= i,
            rm <= i,
    {
        assert(dv.take(i + 1).drop_last() =~= dv.take(i as int));
        assert(dv.take(i + 1).last() == ls@[i as int]@);
        match &ls[i] {
            DiffLine::Added(_) => {
                a += 1;
            },
            DiffLine::Removed(_) => {
                rm += 1;
            },
            DiffLine::Context(_) => {},
        }
    }
    assert(dv.take(ls@.len() as int) =~= dv);
    (a, rm)
}

fn change_summary_exec(a: usize, r: usize) -> (s: Vec<char>)
    ensures
        s@ == change_summary(a as nat, r as nat),
{
    if a > 0 && r > 0 {
        let mut s = cat(&str_chars(" (+"), &usize_decimal(a));
        s = cat(&s, &str_chars(", -"));
        s = cat(&s, &usize_decimal(r));
        cat(&s, &str_chars(")"))
    } else if a > 0 {
        let s = cat(&str_chars(" (+"), &usize_decimal(a));
        cat(&s, &str_chars(")"))
    } else if r > 0 {
        let s = cat(&str_chars(" (-"), &usize_decimal(r));
        cat(&s, &str_chars(")"))
    } else {
        Vec::new()
    }
}

fn edit_rows_exec(path: &str, lang: &str, ls: &Vec<DiffLine>, w: usize) -> (r: Vec<Vec<Piece>>)
    ensures
        rows_view(r@) == edit_rows(path@, lang@, diff_views(ls@), w as nat),
{
    let ghost dv = diff_views(ls@);
    let fw: usize = if w >= 4 { w - 4 } else { 0 };
    let (a, rm) = count_changes(ls);
    let p = str_chars(path);
    let shown = if p.len() == 0 { str_chars("file") } else { p };
    let mut label = cat(&str_chars(" "), &str_chars(lang));
    label = cat(&label, &str_chars(" "));
    label = cat(&label, &shown);
    label = cat(&label, &change_summary_exec(a, rm));
    label = cat(&label, &str_chars(" "));
    assert(label@ == edit_label(path@, lang@, dv));
    let pad = sat_sub_wide(fw as u128, byte_len(&label)) as usize;
    let mut top: Vec<Piece> = Vec::new();
    push_piece(&mut top, str_chars("  ┌─"), fg_look(Tone::Rgb(80, 80, 80)));
    push_piece(&mut top, label, bold_look(Tone::Rgb(180, 180, 220)));
    push_piece(&mut top, rep_exec('─', pad), fg_look(Tone::Rgb(80, 80, 80)));
    let ghost top_view = seq![
        ("  ┌─"@, fg(grey(80))),
        (edit_label(path@, lang@, dv), bold(Tone::Rgb(180, 180, 220))),
        (rep('─', sat_sub(frame_width(w as nat), utf8_len(edit_label(path@, lang@, dv)))), fg(grey(80))),
    ];
    assert(row_view(top@) =~= top_view);
    let mut rows: Vec<Vec<Piece>> = Vec::new();
    push_row(&mut rows, top);
    assert(rows_view(rows@) =~= seq![top_view]);
    let ghost start = rows_view(rows@);
    assert(start + diff_rows(dv.take(0), w as nat) =~= start);
    for i in 0..ls.len()
        invariant
            dv == diff_views(ls@),
            rows_view(rows@) == start + diff_rows(dv.take(i as int), w as nat),
    {
        assert(dv.take(i + 1).drop_last() =~= dv.take(i as int));
        assert(dv.take(i + 1).last() == ls@[i as int]@);
        push_row(&mut rows, diff_row_exec(&ls[i], w));
        assert(start + diff_rows(dv.take(i + 1), w as nat) =~= (start + diff_rows(dv.take(i as int), w as nat)).push(
            diff_row(ls@[i as int]@, w as nat),
        ));
    }
    assert(dv.take(ls@.len() as int) =~= dv);
    push_row(&mut rows, row1(cat(&str_chars("  └"), &rep_exec('─', fw)), fg_look(Tone::Rgb(80, 80, 80))));
    assert(rows_view(rows@) =~= edit_rows(path@, lang@, dv, w as nat));
    rows
}

// ───────────────────────── commands, code, diagrams ─────────────────────────

/// One row per output line, indented by four and cut to the chat width.
pub open spec fn output_rows(ls: Seq<Seq<char>>, w: nat) -> Seq<Seq<(Seq<char>, Look)>>
    decreases ls.len(),
{
    if ls.len() == 0 {
        seq![]
    } else {
        output_rows(ls.drop_last(), w).push(line1(truncate_width("    "@ + ls.last(), w), fg(grey(140))))
    }
}

/// A command: the prompt sign and the command (cut to the frame), then its output.
pub open spec fn command_rows(cmd: Seq<char>, output: Seq<char>, w: nat) -> Seq<Seq<(Seq<char>, Look)>> {
    let head = seq![
        ("  $ "@, fg(Tone::Rgb(100, 200, 100))),
        (truncate_width(cmd, sat_sub(frame_width(w), 2)), bold(Tone::White)),
    ];
    seq![head] + if output.len() > 0 {
        output_rows(lines(output), w)
    } else {
        seq![]
    }
}

fn command_rows_exec(cmd: &str, output: &str, w: usize) -> (r: Vec<Vec<Piece>>)
    ensures
        rows_view(r@) == command_rows(cmd@, output@, w as nat),
{
    let fw: usize = if w >= 4 { w - 4 } else { 0 };
    let room: usize = if fw >= 2 { fw - 2 } else { 0 };
    let mut head: Vec<Piece> = Vec::new();
    push_piece(&mut head, str_chars("  $ "), fg_look(Tone::Rgb(100, 200, 100)));
    push_piece(&mut head, first_chars(&str_chars(cmd), room), bold_look(Tone::White));
    let ghost head_view = seq![
        ("  $ "@, fg(Tone::Rgb(100, 200, 100))),
        (truncate_width(cmd@, sat_sub(frame_width(w as nat), 2)), bold(Tone::White)),
    ];
    assert(row_view(head@) =~= head_view);
    let mut rows: Vec<Vec<Piece>> = Vec::new();
    push_row(&mut rows, head);
    assert(rows_view(rows@) =~= seq![head_view]);
    let o = str_chars(output);
    if o.len() > 0 {
        let ls = split_lines(&o);
        let ghost lv = views(ls@);
        let ghost start = rows_view(rows@);
        assert(start + output_rows(lv.take(0), w as nat) =~= start);
        for i in 0..ls.len()
            invariant
                lv == views(ls@),
                rows_view(rows@) == start + output_rows(lv.take(i as int), w as nat),
        {
            assert(lv.take(i + 1).drop_last() =~= lv.take(i as int));
            assert(lv.take(i + 1).last() == ls@[i as int]@);
            let line = first_chars(&cat(&str_chars("    "), &ls[i]), w);
            push_row(&mut rows, row1(line, fg_look(Tone::Rgb(140, 140, 140))));
            assert(start + output_rows(lv.take(i + 1), w as nat) =~= (start + output_rows(lv.take(i as int), w as nat)).push(
                line1(truncate_width("    "@ + ls@[i as int]@, w as nat), fg(grey(140))),
            ));
        }
        assert(lv.take(ls@.len() as int) =~= lv);
        assert(rows_view(rows@) =~= seq![head_view] + output_rows(lines(output@), w as nat));
    } else {
        assert(rows_view(rows@) =~= seq![head_view] + Seq::<Seq<(Seq<char>, Look)>>::empty());
    }
    assert(rows_view(rows@) =~= command_rows(cmd@, output@, w as nat));
    rows
}

/// A frame around lines: a top rule with a title, the lines behind `  | `, a bottom rule.
pub open spec fn framed_rows(top: Seq<char>, body: Seq<char>, w: nat, frame: Tone, text: Tone) -> Seq<Seq<(Seq<char>, Look)>> {
    seq![line1(top, fg(frame))] + prefixed_rows(lines(body), "  | "@, fg(text)) + seq![
        line1("  └"@ + rep('─', frame_width(w)), fg(frame)),
    ]
}

/// A code block, framed with its language.
pub open spec fn code_rows(lang: Seq<char>, content: Seq<char>, w: nat) -> Seq<Seq<(Seq<char>, Look)>> {
    let top = "  ┌─ "@ + lang + " "@ + rep('─', sat_sub(frame_width(w), utf8_len(lang) + 2));
    framed_rows(top, content, w, Tone::DarkGray, Tone::Yellow)
}

/// A diagram, framed.
pub open spec fn diagram_rows(d: Seq<char>, w: nat) -> Seq<Seq<(Seq<char>, Look)>> {
    let top = "  ┌─ diagram "@ + rep('─', sat_sub(frame_width(w), 10));
    framed_rows(top, d, w, Tone::Blue, Tone::Cyan)
}

fn framed_rows_exec(top: Vec<char>, body: &str, w: usize, frame: Tone, text: Tone) -> (r: Vec<Vec<Piece>>)
    ensures
        rows_view(r@) == framed_rows(top@, body@, w as nat, frame, text),
{
    let fw: usize = if w >= 4 { w - 4 } else { 0 };
    let mut rows: Vec<Vec<Piece>> = Vec::new();
    push_row(&mut rows, row1(top, fg_look(frame)));
    let ls = split_lines(&str_chars(body));
    push_prefixed_rows(&mut rows, &ls, &str_chars("  | "), fg_look(text));
    push_row(&mut rows, row1(cat(&str_chars("  └"), &rep_exec('─', fw)), fg_look(frame)));
    assert(rows_view(rows@) =~= framed_rows(top@, body@, w as nat, frame, text));
    rows
}

fn code_rows_exec(lang: &str, content: &str, w: usize) -> (r: Vec<Vec<Piece>>)
    ensures
        rows_view(r@) == code_rows(lang@, content@, w as nat),
{
    let fw: usize = if w >= 4 { w - 4 } else { 0 };
    let l = str_chars(lang);
    let ll = byte_len(&l);
    proof {
        crate::text::lemma_utf8_len_bound(l@);
    }
    let need: u128 = if ll <= u128::MAX - 2 { ll + 2 } else { u128::MAX };
    let n = sat_sub_wide(fw as u128, need) as usize;
    let mut top = cat(&str_chars("  ┌─ "), &l);
    top = cat(&top, &str_chars(" "));
    top = cat(&top, &rep_exec('─', n));
    framed_rows_exec(top, content, w, Tone::DarkGray, Tone::Yellow)
}

fn diagram_rows_exec(d: &str, w: usize) -> (r: Vec<Vec<Piece>>)
    ensures
        rows_view(r@) == diagram_rows(d@, w as nat),
{
    let fw: usize = if w >= 4 { w - 4 } else { 0 };
    let n: usize = if fw >= 10 { fw - 10 } else { 0 };
    let top = cat(&str_chars("  ┌─ diagram "), &rep_exec('─', n));
    framed_rows_exec(top, d, w, Tone::Blue, Tone::Cyan)
}


// ───────────────────────── tables ─────────────────────────

/// `s` padded with spaces to `w` characters (longer text stays whole).
pub open spec fn align_left(s: Seq<char>, w: nat) -> Seq<char> {
    if s.len() >= w {
        s
    } else {
        s + rep(' ', (w - s.len()) as nat)
    }
}

/// The cells, each padded to the column width, side by side.
pub open spec fn aligned(cells: Seq<Seq<char>>, w: nat) -> Seq<char>
    decreases cells.len(),
{
    if cells.len() == 0 {
        seq![]
    } else {
        aligned(cells.drop_last(), w) + align_left(cells.last(), w)
    }
}

/// The column width of a table in the chat width.
pub open spec fn column_width(w: nat, columns: nat) -> nat {
    frame_width(w) / if columns == 0 {
        1
    } else {
        columns
    }
}

/// One row per table row, white.
pub open spec fn body_rows(rows: Seq<Seq<Seq<char>>>, cw: nat) -> Seq<Seq<(Seq<char>, Look)>>
    decreases rows.len(),
{
    if rows.len() == 0 {
        seq![]
    } else {
        body_rows(rows.drop_last(), cw).push(line1("  "@ + aligned(rows.last(), cw), fg(Tone::White)))
    }
}

/// A table: the header in bold cyan, a rule, then the rows, in equal columns.
pub open spec fn table_rows(headers: Seq<Seq<char>>, rows: Seq<Seq<Seq<char>>>, w: nat) -> Seq<Seq<(Seq<char>, Look)>> {
    let cw = column_width(w, headers.len());
    seq![
        line1("  "@ + aligned(headers, cw), bold(Tone::Cyan)),
        line1("  "@ + rep('─', cw * headers.len()), fg(Tone::DarkGray)),
    ] + body_rows(rows, cw)
}

pub(crate) fn align_left_exec(s: &[char], w: usize) -> (r: Vec<char>)
    ensures
        r@ == align_left(s@, w as nat),
{
    if s.len() >= w {
        copy(s)
    } else {
        cat(s, &rep_exec(' ', w - s.len()))
    }
}

fn aligned_exec(cells: &Vec<String>, w: usize) -> (r: Vec<char>)
    ensures
        r@ == aligned(str_views(cells@), w as nat),
{
    let ghost cv = str_views(cells@);
    let mut r: Vec<char> = Vec::new();
    for i in 0..cells.len()
        invariant
            cv == str_views(cells@),
            r@ == aligned(cv.take(i as int), w as nat),
    {
        assert(cv.take(i + 1).drop_last() =~= cv.take(i as int));
        assert(cv.take(i + 1).last() == cells@[i as int]@);
        r = cat(&r, &align_left_exec(&str_chars(cells[i].as_str()), w));
    }
    assert(cv.take(cells@.len() as int) =~= cv);
    r
}

fn table_rows_exec(headers: &Vec<String>, body: &Vec<Vec<String>>, w: usize) -> (r: Vec<Vec<Piece>>)
    ensures
        rows_view(r@) == table_rows(str_views(headers@), row_views(body@), w as nat),
{
    let fw: usize = if w >= 4 { w - 4 } else { 0 };
    let n = headers.len();
    let d: usize = if n == 0 { 1 } else { n };
    let cw = fw / d;
    assert(cw * n <= fw) by (nonlinear_arith)
        requires
            cw == fw / d,
            d >= 1,
            n <= d,
    ;
    let mut rows: Vec<Vec<Piece>> = Vec::new();
    push_row(&mut rows, row1(cat(&str_chars("  "), &aligned_exec(headers, cw)), bold_look(Tone::Cyan)));
    push_row(&mut rows, row1(cat(&str_chars("  "), &rep_exec('─', cw * n)), fg_look(Tone::DarkGray)));
    let ghost rv = row_views(body@);
    let ghost start = rows_view(rows@);
    assert(start + body_rows(rv.take(0), cw as nat) =~= start);
    for i in 0..body.len()
        invariant
            rv == row_views(body@),
            rows_view(rows@) == start + body_rows(rv.take(i as int), cw as nat),
    {
        assert(rv.take(i + 1).drop_last() =~= rv.take(i as int));
        assert(rv.take(i + 1).last() == str_views(body@[i as int]@));
        let line = cat(&str_chars("  "), &aligned_exec(&body[i], cw));
        push_row(&mut rows, row1(line, fg_look(Tone::White)));
        assert(start + body_rows(rv.take(i + 1), cw as nat) =~= (start + body_rows(rv.take(i as int), cw as nat)).push(
            line1("  "@ + aligned(str_views(body@[i as int]@), cw as nat), fg(Tone::White)),
        ));
    }
    assert(rv.take(body@.len() as int) =~= rv);
    assert(rows_view(rows@) =~= table_rows(str_views(headers@), rv, w as nat));
    rows
}

// ───────────────────────── the conversation ─────────────────────────

/// A row of the conversation: styled text, or the bars of a chart, which the terminal
/// layer scales from the data points (labels, values, widest bar).
#[derive(Debug)]
pub enum ChatRow {
    Styled(Vec<Piece>),
    Bars { labels: Vec<String>, data: Vec<String>, bar_max: usize },
}

/// A conversation row as text.
pub enum ChatRowModel {
    Styled(Seq<(Seq<char>, Look)>),
    Bars(Seq<Seq<char>>, Seq<Seq<char>>, usize),
}

/// A conversation row as text.
pub open spec fn chat_row_view(r: ChatRow) -> ChatRowModel {
    match r {
        ChatRow::Styled(p) => ChatRowModel::Styled(row_view(p@)),
        ChatRow::Bars { labels, data, bar_max } => ChatRowModel::Bars(str_views(labels@), str_views(data@), bar_max),
    }
}

/// Conversation rows as text.
pub open spec fn chat_views(rs: Seq<ChatRow>) -> Seq<ChatRowModel> {
    rs.map_values(|r: ChatRow| chat_row_view(r))
}

/// Styled rows as conversation rows.
pub open spec fn styled_rows(rs: Seq<Seq<(Seq<char>, Look)>>) -> Seq<ChatRowModel> {
    rs.map_values(|r: Seq<(Seq<char>, Look)>| ChatRowModel::Styled(r))
}

/// The rows of one block.
pub open spec fn block_rows(b: BlockModel, w: nat, text_tone: Tone) -> Seq<ChatRowModel> {
    match b {
        BlockModel::Text(t) => styled_rows(text_line_rows(wrap_text_spec(t, w), text_tone)),
        BlockModel::ToolCall { action, detail } => styled_rows(tool_rows(action, detail, w)),
        BlockModel::FileEdit { path, lang, lines } => styled_rows(edit_rows(path, lang, lines, w)),
        BlockModel::Command { cmd, output } => styled_rows(command_rows(cmd, output, w)),
        BlockModel::Code { lang, content } => styled_rows(code_rows(lang, content, w)),
        BlockModel::Diagram(d) => styled_rows(diagram_rows(d, w)),
        BlockModel::Table { headers, rows } => styled_rows(table_rows(headers, rows, w)),
        BlockModel::Chart { title, labels, data } => (if title.len() > 0 {
            seq![ChatRowModel::Styled(line1("  "@ + title, bold(Tone::White)))]
        } else {
            seq![]
        }) + seq![ChatRowModel::Bars(labels, data, sat_sub(w, 12) as usize)],
    }
}

/// The rows of the blocks, in order.
pub open spec fn blocks_rows(bs: Seq<BlockModel>, w: nat, text_tone: Tone) -> Seq<ChatRowModel>
    decreases bs.len(),
{
    if bs.len() == 0 {
        seq![]
    } else {
        blocks_rows(bs.drop_last(), w, text_tone) + block_rows(bs.last(), w, text_tone)
    }
}

/// The badge, badge colour and text colour of an author.
pub open spec fn author_style(k: EntryKind) -> (Seq<char>, Tone, Tone) {
    match k {
        EntryKind::Neil => ("neil"@, Tone::Cyan, Tone::White),
        EntryKind::Human => (" you"@, Tone::Green, Tone::Green),
        EntryKind::System => (" sys"@, Tone::DarkGray, Tone::DarkGray),
    }
}

/// An entry: a header with the author's badge and the time, its blocks, a blank row.
pub open spec fn entry_rows(e: StreamEntry, w: nat) -> Seq<ChatRowModel> {
    let (badge, tone, text_tone) = author_style(e.kind);
    let header = seq![
        (" "@ + badge + " "@, Look { fg: Tone::Black, bg: tone, bold: false, blink: false, italic: false }),
        (" "@ + e.time@, fg(Tone::DarkGray)),
    ];
    seq![ChatRowModel::Styled(header)] + blocks_rows(block_views(e.blocks@), w, text_tone) + seq![
        ChatRowModel::Styled(seq![]),
    ]
}

/// The rule between entries.
pub open spec fn separator(w: nat) -> ChatRowModel {
    ChatRowModel::Styled(line1("  "@ + rep('─', sat_sub(w, 2)), fg(grey(40))))
}

/// The rows of the conversation: the entries in order, a rule between two entries.
pub open spec fn conversation_rows(s: Seq<StreamEntry>, w: nat) -> Seq<ChatRowModel>
    decreases s.len(),
{
    if s.len() == 0 {
        seq![]
    } else if s.len() == 1 {
        entry_rows(s[0], w)
    } else {
        conversation_rows(s.drop_last(), w) + seq![separator(w)] + entry_rows(s.last(), w)
    }
}

fn push_chat(out: &mut Vec<ChatRow>, r: ChatRow)
    ensures
        chat_views(final(out)@) == chat_views(old(out)@).push(chat_row_view(r)),
{
    let ghost v = chat_row_view(r);
    out.push(r);
    assert(chat_views(out@) =~= chat_views(old(out)@).push(v));
}

fn push_styled_all(out: &mut Vec<ChatRow>, rs: Vec<Vec<Piece>>)
    ensures
        chat_views(final(out)@) == chat_views(old(out)@) + styled_rows(rows_view(rs@)),
{
    let ghost start = chat_views(out@);
    let ghost all = rows_view(rs@);
    let mut rs = rs;
    let n = rs.len();
    for i in 0..n
        invariant
            n == rs@.len(),
            all.len() == n,
            forall|j: int| i <= j < n ==> row_view((#[trigger] rs@[j])@) == all[j],
            chat_views(out@) == start + styled_rows(all.take(i as int)),
    {
        let mut r: Vec<Piece> = Vec::new();
        let ghost before = rs@;
        std::mem::swap(&mut r, &mut rs[i]);
        push_chat(out, ChatRow::Styled(r));
        assert(start + styled_rows(all.take(i + 1)) =~= (start + styled_rows(all.take(i as int))).push(
            ChatRowModel::Styled(all[i as int]),
        ));
        assert forall|j: int| i + 1 <= j < n implies row_view((#[trigger] rs@[j])@) == all[j] by {
            assert(rs@[j] == before[j]);
        }
    }
    assert(all.take(n as int) =~= all);
}

fn copy_strings(v: &Vec<String>) -> (r: Vec<String>)
    ensures
        str_views(r@) == str_views(v@),
{
    let mut r: Vec<String> = Vec::new();
    for i in 0..v.len()
        invariant
            str_views(r@) == str_views(v@).take(i as int),
    {
        let s = v[i].clone();
        proof {
            crate::text::lemma_str_views_push(r@, s);
        }
        r.push(s);
        assert(str_views(v@).take(i + 1) =~= str_views(v@).take(i as int).push(v@[i as int]@));
    }
    assert(str_views(v@).take(v@.len() as int) =~= str_views(v@));
    r
}

/// Appends the rows of one block.
fn push_block_rows(out: &mut Vec<ChatRow>, b: &RichBlock, w: usize, text_tone: Tone)
    ensures
        chat_views(final(out)@) == chat_views(old(out)@) + block_rows(b@, w as nat, text_tone),
{
    match b {
        RichBlock::Text(t) => push_styled_all(out, text_rows(t.as_str(), w, text_tone)),
        RichBlock::ToolCall { action, detail } => push_styled_all(out, tool_rows_exec(action.as_str(), detail.as_str(), w)),
        RichBlock::FileEdit { path, lang, lines } => push_styled_all(out, edit_rows_exec(path.as_str(), lang.as_str(), lines, w)),
        RichBlock::Command { cmd, output } => push_styled_all(out, command_rows_exec(cmd.as_str(), output.as_str(), w)),
        RichBlock::Code { lang, content } => push_styled_all(out, code_rows_exec(lang.as_str(), content.as_str(), w)),
        RichBlock::Diagram(d) => push_styled_all(out, diagram_rows_exec(d.as_str(), w)),
        RichBlock::Table { headers, rows } => push_styled_all(out, table_rows_exec(headers, rows, w)),
        RichBlock::Chart { title, labels, data } => {
            let ghost start = chat_views(out@);
            let t = str_chars(title.as_str());
            if t.len() > 0 {
                push_chat(out, ChatRow::Styled(row1(cat(&str_chars("  "), &t), bold_look(Tone::White))));
            }
            let bar_max: usize = if w >= 12 { w - 12 } else { 0 };
            push_chat(out, ChatRow::Bars { labels: copy_strings(labels), data: copy_strings(data), bar_max });
            assert(chat_views(out@) =~= start + block_rows(b@, w as nat, text_tone));
        },
    }
}

fn author_style_exec(k: EntryKind) -> (r: (Vec<char>, Tone, Tone))
    ensures
        (r.0@, r.1, r.2) == author_style(k),
{
    match k {
        EntryKind::Neil => (str_chars("neil"), Tone::Cyan, Tone::White),
        EntryKind::Human => (str_chars(" you"), Tone::Green, Tone::Green),
        EntryKind::System => (str_chars(" sys"), Tone::DarkGray, Tone::DarkGray),
    }
}

/// Appends the rows of one entry.
fn push_entry_rows(out: &mut Vec<ChatRow>, e: &StreamEntry, w: usize)
    ensures
        chat_views(final(out)@) == chat_views(old(out)@) + entry_rows(*e, w as nat),
{
    let ghost start = chat_views(out@);
    let (badge, tone, text_tone) = author_style_exec(e.kind);
    let mut header: Vec<Piece> = Vec::new();
    push_piece(&mut header, cat(&cat(&str_chars(" "), &badge), &str_chars(" ")), Look { fg: Tone::Black, bg: tone, bold: false, blink: false, italic: false });
    push_piece(&mut header, cat(&str_chars(" "), &str_chars(e.time.as_str())), fg_look(Tone::DarkGray));
    let ghost hv = row_view(header@);
    let ghost (sb, st, stt) = author_style(e.kind);
    assert(hv =~= seq![
        (" "@ + sb + " "@, Look { fg: Tone::Black, bg: st, bold: false, blink: false, italic: false }),
        (" "@ + e.time@, fg(Tone::DarkGray)),
    ]);
    push_chat(out, ChatRow::Styled(header));
    let ghost bv = block_views(e.blocks@);
    let ghost base = chat_views(out@);
    assert(base + blocks_rows(bv.take(0), w as nat, text_tone) =~= base);
    for i in 0..e.blocks.len()
        invariant
            bv == block_views(e.blocks@),
            chat_views(out@) == base + blocks_rows(bv.take(i as int), w as nat, text_tone),
    {
        assert(bv.take(i + 1).drop_last() =~= bv.take(i as int));
        assert(bv.take(i + 1).last() == e.blocks@[i as int]@);
        push_block_rows(out, &e.blocks[i], w, text_tone);
        assert(base + blocks_rows(bv.take(i + 1), w as nat, text_tone) =~= base + blocks_rows(bv.take(i as int), w as nat, text_tone)
            + block_rows(e.blocks@[i as int]@, w as nat, text_tone));
    }
    assert(bv.take(e.blocks@.len() as int) =~= bv);
    let ghost before_blank = chat_views(out@);
    let blank: Vec<Piece> = Vec::new();
    assert(row_view(blank@) =~= Seq::<(Seq<char>, Look)>::empty());
    push_chat(out, ChatRow::Styled(blank));
    assert(chat_views(out@) =~= before_blank.push(ChatRowModel::Styled(seq![])));
    assert(chat_views(out@) =~= start + entry_rows(*e, w as nat));
}

/// The conversation laid out for a chat `wrap_width` wide: each entry with its author's
/// badge and time, its blocks, and a blank row, a rule between entries.
pub fn build_chat_rows(stream: &[StreamEntry], wrap_width: usize) -> (r: Vec<ChatRow>)
    ensures
        chat_views(r@) == conversation_rows(stream@, wrap_width as nat),
{
    let mut out: Vec<ChatRow> = Vec::new();
    let w2: usize = if wrap_width >= 2 { wrap_width - 2 } else { 0 };
    assert(chat_views(out@) =~= conversation_rows(stream@.take(0), wrap_width as nat));
    for i in 0..stream.len()
        invariant
            chat_views(out@) == conversation_rows(stream@.take(i as int), wrap_width as nat),
            w2 == sat_sub(wrap_width as nat, 2),
    {
        let ghost pre = chat_views(out@);
        let ghost s = stream@.take(i + 1);
        assert(s.drop_last() =~= stream@.take(i as int));
        assert(s.last() == stream@[i as int]);
        if i > 0 {
            let sep = row1(cat(&str_chars("  "), &rep_exec('─', w2)), fg_look(Tone::Rgb(40, 40, 40)));
            push_chat(&mut out, ChatRow::Styled(sep));
        } else {
            assert(s =~= seq![stream@[0]]);
        }
        push_entry_rows(&mut out, &stream[i], wrap_width);
        if i == 0 {
            assert(chat_views(out@) =~= entry_rows(stream@[0], wrap_width as nat));
        } else {
            assert(chat_views(out@) =~= pre + seq![separator(wrap_width as nat)] + entry_rows(stream@[i as int], wrap_width as nat));
        }
    }
    assert(stream@.take(stream@.len() as int) =~= stream@);
    out
}

} // verus!
