//! The text panels (memory, intentions, system, failures, logs), the panel selector and
//! the sidebar, as styled rows.
use vstd::prelude::*;
use crate::styled::{
    bold, bold_look, cat, copy, fg, fg_look, line1, push_piece, push_row, rep, rep_exec, row1, row_view,
    rows_view, Look, Piece, Tone,
};
use crate::text::{
    chars_eq, decimal, first_chars, lines, split_lines, str_chars, str_views, take_chars,
    usize_decimal, views,
};
use crate::state::{Failure, Intention, PalaceState, SystemState, WingInfo};
use crate::chat_view::grey;

verus! {

/// The colour of a priority.
pub open spec fn priority_tone(p: Seq<char>) -> Tone {
    if p == "high"@ {
        Tone::Red
    } else if p == "medium"@ {
        Tone::Yellow
    } else {
        Tone::Green
    }
}

fn priority_tone_exec(p: &str) -> (t: Tone)
    ensures
        t == priority_tone(p@),
{
    let c = str_chars(p);
    if chars_eq(&c, &str_chars("high")) {
        Tone::Red
    } else if chars_eq(&c, &str_chars("medium")) {
        Tone::Yellow
    } else {
        Tone::Green
    }
}

/// The colour of a severity.
pub open spec fn severity_tone(s: Seq<char>) -> Tone {
    if s == "high"@ || s == "critical"@ {
        Tone::Red
    } else if s == "medium"@ {
        Tone::Yellow
    } else {
        Tone::Green
    }
}

fn severity_tone_exec(s: &str) -> (t: Tone)
    ensures
        t == severity_tone(s@),
{
    let c = str_chars(s);
    if chars_eq(&c, &str_chars("high")) || chars_eq(&c, &str_chars("critical")) {
        Tone::Red
    } else if chars_eq(&c, &str_chars("medium")) {
        Tone::Yellow
    } else {
        Tone::Green
    }
}

fn blank_row() -> (r: Vec<Piece>)
    ensures
        row_view(r@) == Seq::<(Seq<char>, Look)>::empty(),
{
    let r: Vec<Piece> = Vec::new();
    assert(row_view(r@) =~= Seq::<(Seq<char>, Look)>::empty());
    r
}

// ───────────────────────── memory ─────────────────────────

/// The rooms of a wing, one row each.
pub open spec fn room_lines(rs: Seq<(String, usize)>) -> Seq<Seq<(Seq<char>, Look)>>
    decreases rs.len(),
{
    if rs.len() == 0 {
        seq![]
    } else {
        room_lines(rs.drop_last()).push(
            line1("    room/"@ + rs.last().0@ + ": "@ + decimal(rs.last().1 as nat), fg(Tone::DarkGray)),
        )
    }
}

/// The wings, each followed by its rooms.
pub open spec fn wing_lines(ws: Seq<WingInfo>) -> Seq<Seq<(Seq<char>, Look)>>
    decreases ws.len(),
{
    if ws.len() == 0 {
        seq![]
    } else {
        let w = ws.last();
        wing_lines(ws.drop_last()) + seq![
            line1("  wing/"@ + w.name@ + " ("@ + decimal(w.count as nat) + ")"@, bold(Tone::Yellow)),
        ] + room_lines(w.rooms@)
    }
}

/// The memory panel: the palace's counts, then each wing with its rooms.
pub open spec fn memory_panel(p: PalaceState) -> Seq<Seq<(Seq<char>, Look)>> {
    let head = "Palace: "@ + decimal(p.total_notes as nat) + " notes, "@ + decimal(p.classified as nat)
        + " classified, "@ + decimal(p.unclassified as nat) + " unclassified"@;
    seq![line1(head, fg(Tone::Cyan)), seq![]] + wing_lines(p.wings@)
}

/// The memory panel.
pub fn memory_panel_rows(p: &PalaceState) -> (r: Vec<Vec<Piece>>)
    ensures
        rows_view(r@) == memory_panel(*p),
{
    let mut head = cat(&str_chars("Palace: "), &usize_decimal(p.total_notes));
    head = cat(&head, &str_chars(" notes, "));
    head = cat(&head, &usize_decimal(p.classified));
    head = cat(&head, &str_chars(" classified, "));
    head = cat(&head, &usize_decimal(p.unclassified));
    head = cat(&head, &str_chars(" unclassified"));
    let mut rows: Vec<Vec<Piece>> = Vec::new();
    push_row(&mut rows, row1(head, fg_look(Tone::Cyan)));
    push_row(&mut rows, blank_row());
    let ghost start = rows_view(rows@);
    let ghost ws = p.wings@;
    assert(start + wing_lines(ws.take(0)) =~= start);
    for k in 0..p.wings.len()
        invariant
            ws == p.wings@,
            rows_view(rows@) == start + wing_lines(ws.take(k as int)),
    {
        assert(ws.take(k + 1).drop_last() =~= ws.take(k as int));
        assert(ws.take(k + 1).last() == ws[k as int]);
        let w = &p.wings[k];
        let mut line = cat(&str_chars("  wing/"), &str_chars(w.name.as_str()));
        line = cat(&line, &str_chars(" ("));
        line = cat(&line, &usize_decimal(w.count));
        line = cat(&line, &str_chars(")"));
        let ghost mid0 = rows_view(rows@);
        push_row(&mut rows, row1(line, bold_look(Tone::Yellow)));
        let ghost mid = rows_view(rows@);
        let ghost rs = w.rooms@;
        assert(mid + room_lines(rs.take(0)) =~= mid);
        for q in 0..w.rooms.len()
            invariant
                rs == w.rooms@,
                rows_view(rows@) == mid + room_lines(rs.take(q as int)),
        {
            assert(rs.take(q + 1).drop_last() =~= rs.take(q as int));
            assert(rs.take(q + 1).last() == rs[q as int]);
            let mut rl = cat(&str_chars("    room/"), &str_chars(w.rooms[q].0.as_str()));
            rl = cat(&rl, &str_chars(": "));
            rl = cat(&rl, &usize_decimal(w.rooms[q].1));
            push_row(&mut rows, row1(rl, fg_look(Tone::DarkGray)));
        }
        assert(rs.take(rs.len() as int) =~= rs);
        assert(start + wing_lines(ws.take(k + 1)) =~= mid0 + seq![
            line1("  wing/"@ + w.name@ + " ("@ + decimal(w.count as nat) + ")"@, bold(Tone::Yellow)),
        ] + room_lines(rs));
    }
    assert(ws.take(ws.len() as int) =~= ws);
    rows
}

// ───────────────────────── intentions ─────────────────────────

/// The intentions with the given status, in order.
pub open spec fn with_status(v: Seq<Intention>, status: Seq<char>) -> Seq<Intention>
    decreases v.len(),
{
    if v.len() == 0 {
        seq![]
    } else {
        let r = with_status(v.drop_last(), status);
        if v.last().status@ == status {
            r.push(v.last())
        } else {
            r
        }
    }
}

/// The pending intentions, one row each: the priority in its colour, then the text.
pub open spec fn pending_lines(v: Seq<Intention>) -> Seq<Seq<(Seq<char>, Look)>>
    decreases v.len(),
{
    if v.len() == 0 {
        seq![]
    } else {
        pending_lines(v.drop_last()).push(
            seq![
                ("  ["@ + v.last().priority@ + "] "@, fg(priority_tone(v.last().priority@))),
                (v.last().description@, fg(Tone::White)),
            ],
        )
    }
}

/// The completed intentions, one dim row each.
pub open spec fn done_lines(v: Seq<Intention>) -> Seq<Seq<(Seq<char>, Look)>>
    decreases v.len(),
{
    if v.len() == 0 {
        seq![]
    } else {
        done_lines(v.drop_last()).push(line1("  [done] "@ + v.last().description@, fg(Tone::DarkGray)))
    }
}

/// The intentions panel: the counts, the pending intentions, and the ten newest
/// completed ones, newest first.
pub open spec fn intentions_panel(v: Seq<Intention>) -> Seq<Seq<(Seq<char>, Look)>> {
    let p = with_status(v, "pending"@);
    let d = with_status(v, "completed"@);
    let newest = d.skip(if d.len() > 10 { d.len() - 10 } else { 0 }).reverse();
    seq![
        line1("Pending: "@ + decimal(p.len()) + " | Completed: "@ + decimal(d.len()), fg(Tone::Cyan)),
        seq![],
        line1("  PENDING"@, bold(Tone::White)),
    ] + pending_lines(p) + seq![seq![], line1("  COMPLETED"@, fg(Tone::DarkGray))] + done_lines(newest)
}

pub(crate) fn pick_status(v: &[Intention], status: &str) -> (r: Vec<usize>)
    ensures
        r@.len() == with_status(v@, status@).len(),
        forall|k: int| 0 <= k < r@.len() ==> #[trigger] r@[k] < v@.len() && v@[r@[k] as int] == with_status(v@, status@)[k],
{
    let st = str_chars(status);
    let mut r: Vec<usize> = Vec::new();
    for i in 0..v.len()
        invariant
            st@ == status@,
            r@.len() == with_status(v@.take(i as int), status@).len(),
            forall|k: int| 0 <= k < r@.len() ==> #[trigger] r@[k] < i && v@[r@[k] as int] == with_status(v@.take(i as int), status@)[k],
    {
        assert(v@.take(i + 1).drop_last() =~= v@.take(i as int));
        assert(v@.take(i + 1).last() == v@[i as int]);
        if chars_eq(&str_chars(v[i].status.as_str()), &st) {
            r.push(i);
        }
    }
    assert(v@.take(v@.len() as int) =~= v@);
    r
}

/// The intentions panel.
pub fn intentions_panel_rows(v: &[Intention]) -> (r: Vec<Vec<Piece>>)
    ensures
        rows_view(r@) == intentions_panel(v@),
{
    let p = pick_status(v, "pending");
    let d = pick_status(v, "completed");
    let ghost ps = with_status(v@, "pending"@);
    let ghost ds = with_status(v@, "completed"@);
    let mut head = cat(&str_chars("Pending: "), &usize_decimal(p.len()));
    head = cat(&head, &str_chars(" | Completed: "));
    head = cat(&head, &usize_decimal(d.len()));
    let mut rows: Vec<Vec<Piece>> = Vec::new();
    push_row(&mut rows, row1(head, fg_look(Tone::Cyan)));
    push_row(&mut rows, blank_row());
    push_row(&mut rows, row1(str_chars("  PENDING"), bold_look(Tone::White)));
    let ghost start = rows_view(rows@);
    assert(start + pending_lines(ps.take(0)) =~= start);
    for k in 0..p.len()
        invariant
            ps == with_status(v@, "pending"@),
            p@.len() == ps.len(),
            forall|j: int| 0 <= j < p@.len() ==> #[trigger] p@[j] < v@.len() && v@[p@[j] as int] == ps[j],
            rows_view(rows@) == start + pending_lines(ps.take(k as int)),
    {
        assert(ps.take(k + 1).drop_last() =~= ps.take(k as int));
        assert(ps.take(k + 1).last() == ps[k as int]);
        let it = &v[p[k]];
        let mut r: Vec<Piece> = Vec::new();
        push_piece(&mut r, cat(&cat(&str_chars("  ["), &str_chars(it.priority.as_str())), &str_chars("] ")), fg_look(priority_tone_exec(it.priority.as_str())));
        push_piece(&mut r, str_chars(it.description.as_str()), fg_look(Tone::White));
        let ghost rv = row_view(r@);
        assert(rv =~= seq![
            ("  ["@ + ps[k as int].priority@ + "] "@, fg(priority_tone(ps[k as int].priority@))),
            (ps[k as int].description@, fg(Tone::White)),
        ]);
        push_row(&mut rows, r);
    }
    assert(ps.take(ps.len() as int) =~= ps);
    push_row(&mut rows, blank_row());
    push_row(&mut rows, row1(str_chars("  COMPLETED"), fg_look(Tone::DarkGray)));
    let ghost mid = rows_view(rows@);
    let n = d.len();
    let lo: usize = if n > 10 { n - 10 } else { 0 };
    let ghost newest = ds.skip(lo as int).reverse();
    assert(mid + done_lines(newest.take(0)) =~= mid);
    let mut k: usize = n;
    while k > lo
        invariant
            ds == with_status(v@, "completed"@),
            d@.len() == ds.len(),
            n == ds.len(),
            lo <= k <= n,
            newest == ds.skip(lo as int).reverse(),
            forall|j: int| 0 <= j < d@.len() ==> #[trigger] d@[j] < v@.len() && v@[d@[j] as int] == ds[j],
            rows_view(rows@) == mid + done_lines(newest.take(n - k)),
        decreases k,
    {
        assert(newest.take(n - k + 1).drop_last() =~= newest.take(n - k));
        assert(newest.take(n - k + 1).last() == ds[k - 1]);
        let it = &v[d[k - 1]];
        push_row(&mut rows, row1(cat(&str_chars("  [done] "), &str_chars(it.description.as_str())), fg_look(Tone::DarkGray)));
        k -= 1;
    }
    assert(newest.take(n - lo) =~= newest);
    assert(rows_view(rows@) =~= intentions_panel(v@));
    rows
}

// ───────────────────────── system, failures, logs ─────────────────────────

/// The names joined with `, `.
pub open spec fn joined(ns: Seq<Seq<char>>) -> Seq<char>
    decreases ns.len(),
{
    if ns.len() == 0 {
        seq![]
    } else if ns.len() == 1 {
        ns[0]
    } else {
        joined(ns.drop_last()) + ", "@ + ns.last()
    }
}

/// The system panel: the essence files, and whether the autoprompter runs.
pub open spec fn system_panel(essence: Seq<Seq<char>>, s: SystemState) -> Seq<Seq<(Seq<char>, Look)>> {
    seq![
        line1("  ESSENCE FILES"@, bold(Tone::Cyan)),
        line1("  "@ + joined(essence), fg(Tone::DarkGray)),
        seq![],
        line1("  AUTOPROMPT"@, bold(Tone::Cyan)),
        line1("  status: "@ + if s.autoprompt_active { "active"@ } else { "DOWN"@ }, fg(if s.autoprompt_active { Tone::Green } else { Tone::Red })),
        line1("  queue: "@ + decimal(s.queue_count as nat) + " pending"@, fg(Tone::DarkGray)),
    ]
}

/// The system panel.
pub fn system_panel_rows(essence: &[String], s: &SystemState) -> (r: Vec<Vec<Piece>>)
    ensures
        rows_view(r@) == system_panel(str_views(essence@), *s),
{
    let ghost ev = str_views(essence@);
    let mut names: Vec<char> = Vec::new();
    for i in 0..essence.len()
        invariant
            ev == str_views(essence@),
            names@ == joined(ev.take(i as int)),
    {
        assert(ev.take(i + 1).drop_last() =~= ev.take(i as int));
        assert(ev.take(i + 1).last() == essence@[i as int]@);
        if i == 0 {
            names = str_chars(essence[i].as_str());
            assert(ev.take(1) =~= seq![essence@[0]@]);
        } else {
            names = cat(&cat(&names, &str_chars(", ")), &str_chars(essence[i].as_str()));
        }
    }
    assert(ev.take(ev.len() as int) =~= ev);
    let mut rows: Vec<Vec<Piece>> = Vec::new();
    push_row(&mut rows, row1(str_chars("  ESSENCE FILES"), bold_look(Tone::Cyan)));
    push_row(&mut rows, row1(cat(&str_chars("  "), &names), fg_look(Tone::DarkGray)));
    push_row(&mut rows, blank_row());
    push_row(&mut rows, row1(str_chars("  AUTOPROMPT"), bold_look(Tone::Cyan)));
    let (status, tone) = if s.autoprompt_active {
        (str_chars("active"), Tone::Green)
    } else {
        (str_chars("DOWN"), Tone::Red)
    };
    push_row(&mut rows, row1(cat(&str_chars("  status: "), &status), fg_look(tone)));
    push_row(&mut rows, row1(cat(&cat(&str_chars("  queue: "), &usize_decimal(s.queue_count)), &str_chars(" pending")), fg_look(Tone::DarkGray)));
    assert(rows_view(rows@) =~= system_panel(ev, *s));
    rows
}

/// The unresolved failures, in order.
pub open spec fn unresolved(v: Seq<Failure>) -> Seq<Failure>
    decreases v.len(),
{
    if v.len() == 0 {
        seq![]
    } else {
        let r = unresolved(v.drop_last());
        if v.last().resolution@ == "pending"@ {
            r.push(v.last())
        } else {
            r
        }
    }
}

/// One row per failure: the severity in its colour, then source and error.
pub open spec fn failure_lines(v: Seq<Failure>) -> Seq<Seq<(Seq<char>, Look)>>
    decreases v.len(),
{
    if v.len() == 0 {
        seq![]
    } else {
        let f = v.last();
        failure_lines(v.drop_last()).push(
            seq![
                ("  ["@ + f.severity@ + "] "@, fg(severity_tone(f.severity@))),
                (f.source@ + ": "@ + f.error@, fg(Tone::White)),
            ],
        )
    }
}

/// The failures panel: the unresolved count and the unresolved failures.
pub open spec fn failures_panel(v: Seq<Failure>) -> Seq<Seq<(Seq<char>, Look)>> {
    let u = unresolved(v);
    seq![line1("  Unresolved: "@ + decimal(u.len()), fg(Tone::Cyan)), seq![]] + failure_lines(u)
}

/// The failures panel.
pub fn failures_panel_rows(v: &[Failure]) -> (r: Vec<Vec<Piece>>)
    ensures
        rows_view(r@) == failures_panel(v@),
{
    let mut picked: Vec<usize> = Vec::new();
    let pending = str_chars("pending");
    for i in 0..v.len()
        invariant
            pending@ == "pending"@,
            picked@.len() == unresolved(v@.take(i as int)).len(),
            forall|k: int| 0 <= k < picked@.len() ==> #[trigger] picked@[k] < i && v@[picked@[k] as int] == unresolved(v@.take(i as int))[k],
    {
        assert(v@.take(i + 1).drop_last() =~= v@.take(i as int));
        assert(v@.take(i + 1).last() == v@[i as int]);
        if chars_eq(&str_chars(v[i].resolution.as_str()), &pending) {
            picked.push(i);
        }
    }
    assert(v@.take(v@.len() as int) =~= v@);
    let ghost u = unresolved(v@);
    let mut rows: Vec<Vec<Piece>> = Vec::new();
    push_row(&mut rows, row1(cat(&str_chars("  Unresolved: "), &usize_decimal(picked.len())), fg_look(Tone::Cyan)));
    push_row(&mut rows, blank_row());
    let ghost start = rows_view(rows@);
    assert(start + failure_lines(u.take(0)) =~= start);
    for k in 0..picked.len()
        invariant
            u == unresolved(v@),
            picked@.len() == u.len(),
            forall|j: int| 0 <= j < picked@.len() ==> #[trigger] picked@[j] < v@.len() && v@[picked@[j] as int] == u[j],
            rows_view(rows@) == start + failure_lines(u.take(k as int)),
    {
        assert(u.take(k + 1).drop_last() =~= u.take(k as int));
        assert(u.take(k + 1).last() == u[k as int]);
        let f = &v[picked[k]];
        let mut r: Vec<Piece> = Vec::new();
        push_piece(&mut r, cat(&cat(&str_chars("  ["), &str_chars(f.severity.as_str())), &str_chars("] ")), fg_look(severity_tone_exec(f.severity.as_str())));
        push_piece(&mut r, cat(&cat(&str_chars(f.source.as_str()), &str_chars(": ")), &str_chars(f.error.as_str())), fg_look(Tone::White));
        let ghost rv = row_view(r@);
        assert(rv =~= seq![
            ("  ["@ + u[k as int].severity@ + "] "@, fg(severity_tone(u[k as int].severity@))),
            (u[k as int].source@ + ": "@ + u[k as int].error@, fg(Tone::White)),
        ]);
        push_row(&mut rows, r);
    }
    assert(u.take(u.len() as int) =~= u);
    rows
}

/// The log panel: the last thirty lines of the log, dim, indented by two.
pub open spec fn logs_panel(text: Seq<char>) -> Seq<Seq<(Seq<char>, Look)>> {
    let ls = lines(text);
    crate::styled::prefixed_rows(ls.skip(if ls.len() > 30 { ls.len() - 30 } else { 0 }), "  "@, fg(Tone::DarkGray))
}

/// The log panel.
pub fn logs_panel_rows(text: &str) -> (r: Vec<Vec<Piece>>)
    ensures
        rows_view(r@) == logs_panel(text@),
{
    let ls = split_lines(&str_chars(text));
    let n = ls.len();
    let lo: usize = if n > 30 { n - 30 } else { 0 };
    let mut tail: Vec<Vec<char>> = Vec::new();
    for i in lo..n
        invariant
            n == ls@.len(),
            lo <= n,
            views(tail@) == views(ls@).subrange(lo as int, i as int),
    {
        let c = copy(&ls[i]);
        proof {
            crate::text::lemma_views_push(tail@, c);
        }
        tail.push(c);
        assert(views(ls@).subrange(lo as int, i + 1) =~= views(ls@).subrange(lo as int, i as int).push(ls@[i as int]@));
    }
    assert(views(ls@).subrange(lo as int, n as int) =~= views(ls@).skip(lo as int));
    let mut rows: Vec<Vec<Piece>> = Vec::new();
    crate::styled::push_prefixed_rows(&mut rows, &tail, &str_chars("  "), fg_look(Tone::DarkGray));
    assert(rows_view(rows@) =~= logs_panel(text@));
    rows
}

/// The services panel: a placeholder line until the panel has content.
pub open spec fn services_panel() -> Seq<Seq<(Seq<char>, Look)>> {
    seq![line1("Services panel stub — implementation removed"@, fg(Tone::DarkGray))]
}

/// The services panel.
pub fn services_panel_rows() -> (r: Vec<Vec<Piece>>)
    ensures
        rows_view(r@) == services_panel(),
{
    let mut rows: Vec<Vec<Piece>> = Vec::new();
    push_row(&mut rows, row1(str_chars("Services panel stub — implementation removed"), fg_look(Tone::DarkGray)));
    assert(rows_view(rows@) =~= services_panel());
    rows
}

} // verus!
