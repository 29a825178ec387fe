//! The cluster panel's detail view: the instance list (MAIN and the temporary
//! instances) and the detail of the selected instance.
use vstd::prelude::*;
use crate::styled::{
    bold, bold_look, cat, copy, fg, fg_look, line1, push_piece, push_row, row1, row_view, rows_view,
    Look, Piece, Tone,
};
use crate::text::{
    decimal, first_chars, str_chars, take_chars, textwrap_simple_chars, textwrap_simple_spec,
    usize_decimal, views,
};
use crate::cluster::{main_field_spec, extract_main_field, TempInstance};
use crate::cluster_layout::{fmt_duration, fmt_duration_spec, status_kind_spec, StatusKind};
use crate::chat_view::{align_left, grey, sat_sub};

verus! {

/// The colour of an instance status.
pub open spec fn status_tone(s: Seq<char>) -> Tone {
    match status_kind_spec(s) {
        StatusKind::Active => Tone::Green,
        StatusKind::Idle => Tone::DarkGray,
        StatusKind::Dying => Tone::Yellow,
        StatusKind::Error => Tone::Red,
        StatusKind::Other => Tone::DarkGray,
    }
}

/// The colour of an instance status.
pub fn status_tone_exec(s: &str) -> (t: Tone)
    ensures
        t == status_tone(s@),
{
    match crate::cluster_layout::status_kind(s) {
        StatusKind::Active => Tone::Green,
        StatusKind::Idle => Tone::DarkGray,
        StatusKind::Dying => Tone::Yellow,
        StatusKind::Error => Tone::Red,
        StatusKind::Other => Tone::DarkGray,
    }
}

/// A labelled field: the label padded to twenty, dim, then the value in its colour.
pub open spec fn field_row(label: Seq<char>, value: Seq<char>, tone: Tone) -> Seq<(Seq<char>, Look)> {
    seq![("  "@ + align_left(label, 20) + " "@, fg(Tone::DarkGray)), (value, fg(tone))]
}

fn field_row_exec(label: &str, value: Vec<char>, tone: Tone) -> (r: Vec<Piece>)
    ensures
        row_view(r@) == field_row(label@, value@, tone),
{
    let l = str_chars(label);
    let padded = if l.len() >= 20 {
        copy(&l)
    } else {
        cat(&l, &crate::styled::rep_exec(' ', 20 - l.len()))
    };
    let mut r: Vec<Piece> = Vec::new();
    push_piece(&mut r, cat(&cat(&str_chars("  "), &padded), &str_chars(" ")), fg_look(Tone::DarkGray));
    let ghost v = value@;
    push_piece(&mut r, value, fg_look(tone));
    assert(row_view(r@) =~= field_row(label@, v, tone));
    r
}

/// MAIN's fields as the cluster reports them, with their defaults.
pub struct MainInfo {
    pub name: String,
    pub persona: String,
    pub memory: String,
    pub status: String,
    pub uptime: String,
    pub pid: String,
    pub task: Option<String>,
    pub pending: String,
}

/// A field of MAIN, or its default.
pub open spec fn main_or(json: Seq<char>, field: Seq<char>, default: Seq<char>) -> Seq<char> {
    match main_field_spec(json, field) {
        Some(v) => v,
        None => default,
    }
}

/// MAIN's fields read from the cluster report.
pub open spec fn main_info_ok(json: Seq<char>, m: MainInfo) -> bool {
    &&& m.name@ == main_or(json, "name"@, "main"@)
    &&& m.persona@ == main_or(json, "persona"@, "default"@)
    &&& m.memory@ == main_or(json, "memory_type"@, "full"@)
    &&& m.status@ == main_or(json, "status"@, "idle"@)
    &&& m.uptime@ == main_or(json, "uptime_sec"@, "0"@)
    &&& m.pid@ == main_or(json, "pid"@, ""@)
    &&& match main_field_spec(json, "current_task"@) {
        Some(t) => m.task is Some && m.task->0@ == t,
        None => m.task is None,
    }
    &&& m.pending@ == main_or(json, "pending_intentions"@, "0"@)
}

fn field_or(json: &str, field: &str, default: &str) -> (r: String)
    ensures
        r@ == main_or(json@, field@, default@),
{
    match extract_main_field(json, field) {
        Some(v) => v,
        None => String::from_str(default),
    }
}

/// MAIN's fields read from the cluster report.
pub fn main_info(json: &str) -> (m: MainInfo)
    ensures
        main_info_ok(json@, m),
{
    let name = field_or(json, "name", "main");
    let persona = field_or(json, "persona", "default");
    let memory = field_or(json, "memory_type", "full");
    let status = field_or(json, "status", "idle");
    let uptime = field_or(json, "uptime_sec", "0");
    let pid = field_or(json, "pid", "");
    let task = extract_main_field(json, "current_task");
    let pending = field_or(json, "pending_intentions", "0");
    MainInfo { name, persona, memory, status, uptime, pid, task, pending }
}

/// The instance list: MAIN, then each temporary instance by the end of its name, the
/// selected one marked.
pub open spec fn instance_list(temps: Seq<TempInstance>, sel: nat) -> Seq<Seq<(Seq<char>, Look)>>
    decreases temps.len(),
{
    if temps.len() == 0 {
        seq![
            seq![],
            seq![
                (if sel == 0 { " > "@ } else { "   "@ }, bold(Tone::Cyan)),
                ("MAIN"@, Look { fg: if sel == 0 { Tone::Cyan } else { Tone::DarkGray }, bg: Tone::Reset, bold: sel == 0, blink: false, italic: false }),
            ],
            seq![],
        ]
    } else {
        let i = temps.len();
        let t = temps.last();
        let selected = sel == i;
        instance_list(temps.drop_last(), sel).push(
            seq![
                (if selected { " > "@ } else { "   "@ }, bold(Tone::Cyan)),
                (
                    "temp: "@ + take_chars(t.name@.skip(if t.name@.len() > 10 { 10 } else { t.name@.len() as int }), 16),
                    Look { fg: if selected { Tone::Yellow } else { Tone::DarkGray }, bg: Tone::Reset, bold: selected, blink: false, italic: false },
                ),
            ],
        )
    }
}

/// The selection, bounded to the instances listed.
pub open spec fn bounded_selection(sel: nat, temps: nat) -> nat {
    if sel < temps + 1 {
        sel
    } else {
        temps
    }
}

/// The instance list.
pub fn instance_list_rows(temps: &[TempInstance], selection: usize) -> (r: Vec<Vec<Piece>>)
    ensures
        rows_view(r@) == instance_list(temps@, bounded_selection(selection as nat, temps@.len())),
{
    let n = temps.len();
    let sel: usize = if selection < n || selection == n { selection } else { n };
    let mut rows: Vec<Vec<Piece>> = Vec::new();
    let blank: Vec<Piece> = Vec::new();
    assert(row_view(blank@) =~= Seq::<(Seq<char>, Look)>::empty());
    push_row(&mut rows, blank);
    let mut r: Vec<Piece> = Vec::new();
    push_piece(&mut r, if sel == 0 { str_chars(" > ") } else { str_chars("   ") }, bold_look(Tone::Cyan));
    push_piece(&mut r, str_chars("MAIN"), Look { fg: if sel == 0 { Tone::Cyan } else { Tone::DarkGray }, bg: Tone::Reset, bold: sel == 0, blink: false, italic: false });
    assert(row_view(r@) =~= seq![
        (if sel == 0 { " > "@ } else { "   "@ }, bold(Tone::Cyan)),
        ("MAIN"@, Look { fg: if sel == 0 { Tone::Cyan } else { Tone::DarkGray }, bg: Tone::Reset, bold: sel == 0, blink: false, italic: false }),
    ]);
    push_row(&mut rows, r);
    let blank2: Vec<Piece> = Vec::new();
    assert(row_view(blank2@) =~= Seq::<(Seq<char>, Look)>::empty());
    push_row(&mut rows, blank2);
    assert(rows_view(rows@) =~= instance_list(temps@.take(0), sel as nat));
    for i in 0..n
        invariant
            n == temps@.len(),
            rows_view(rows@) == instance_list(temps@.take(i as int), sel as nat),
    {
        assert(temps@.take(i + 1).drop_last() =~= temps@.take(i as int));
        assert(temps@.take(i + 1).last() == temps@[i as int]);
        let t = &temps[i];
        let selected = sel == i + 1;
        let name = str_chars(t.name.as_str());
        let from: usize = if name.len() > 10 { 10 } else { name.len() };
        let rest = crate::text::slice_chars(&name, from, name.len());
        assert(rest@ =~= name@.skip(from as int));
        let mut r: Vec<Piece> = Vec::new();
        push_piece(&mut r, if selected { str_chars(" > ") } else { str_chars("   ") }, bold_look(Tone::Cyan));
        push_piece(&mut r, cat(&str_chars("temp: "), &first_chars(&rest, 16)), Look {
            fg: if selected { Tone::Yellow } else { Tone::DarkGray },
            bg: Tone::Reset,
            bold: selected,
            blink: false,
            italic: false,
        });
        assert(row_view(r@) =~= seq![
            (if selected { " > "@ } else { "   "@ }, bold(Tone::Cyan)),
            (
                "temp: "@ + take_chars(t.name@.skip(if t.name@.len() > 10 { 10 } else { t.name@.len() as int }), 16),
                Look { fg: if selected { Tone::Yellow } else { Tone::DarkGray }, bg: Tone::Reset, bold: selected, blink: false, italic: false },
            ),
        ]);
        push_row(&mut rows, r);
    }
    assert(temps@.take(n as int) =~= temps@);
    rows
}


/// The plain look.
pub open spec fn plain() -> Look {
    Look { fg: Tone::Reset, bg: Tone::Reset, bold: false, blink: false, italic: false }
}

/// MAIN's detail: its badge and name, its fields (the pid when known), its current task
/// when it has one, and a note.
pub open spec fn main_detail(m: MainInfo) -> Seq<Seq<(Seq<char>, Look)>> {
    seq![
        seq![
            ("  MAIN NEIL  "@, Look { fg: Tone::Black, bg: Tone::Cyan, bold: true, blink: false, italic: false }),
            ("  "@, plain()),
            (m.name@, bold(Tone::White)),
        ],
        seq![],
        field_row("status"@, m.status@, status_tone(m.status@)),
        field_row("persona"@, m.persona@, Tone::Rgb(180, 130, 255)),
        field_row("memory"@, m.memory@, Tone::Rgb(100, 180, 255)),
        field_row("uptime"@, fmt_duration_spec(m.uptime@), Tone::White),
    ] + (if m.pid@.len() > 0 {
        seq![field_row("pid"@, m.pid@, Tone::DarkGray)]
    } else {
        seq![]
    }) + seq![field_row("pending intentions"@, m.pending@, Tone::White)] + (match m.task {
        Some(t) => seq![seq![], line1("  current task:"@, bold(Tone::White)), line1("    "@ + t@, fg(Tone::White))],
        None => seq![],
    }) + seq![
        seq![],
        line1("  This is the running local Neil. Enter the chat view (Esc, Esc) to interact."@, fg(Tone::DarkGray)),
    ]
}

/// A temporary instance's detail: its badge and name, its fields (proposed memories when
/// reported), its current task wrapped, and notes.
pub open spec fn temp_detail(t: TempInstance) -> Seq<Seq<(Seq<char>, Look)>> {
    seq![
        seq![
            ("  TEMP NEIL  "@, Look { fg: Tone::Black, bg: Tone::Yellow, bold: true, blink: false, italic: false }),
            ("  "@, plain()),
            (t.name@, bold(Tone::White)),
        ],
        seq![],
        field_row("status"@, t.status@, status_tone(t.status@)),
        field_row("persona"@, t.persona@, Tone::Rgb(180, 130, 255)),
        field_row("memory"@, t.memory_type@, Tone::Rgb(100, 180, 255)),
        field_row("uptime"@, fmt_duration_spec(t.uptime_sec@), Tone::White),
    ] + (match t.proposed_memories {
        Some(pm) => seq![field_row("proposed memories"@, decimal(pm as nat), if pm > 0 { Tone::Rgb(255, 200, 100) } else { Tone::DarkGray })],
        None => seq![],
    }) + (if t.current_task@.len() > 0 {
        seq![seq![], line1("  current task:"@, bold(Tone::White))] + crate::styled::prefixed_rows(
            textwrap_simple_spec(t.current_task@, 72),
            "    "@,
            fg(Tone::White),
        )
    } else {
        seq![]
    }) + seq![
        seq![],
        line1("  Ephemeral instance -- will self-destruct on fulfillment or budget exhaustion."@, fg(Tone::DarkGray)),
        seq![],
        line1("  [note] SSH-into-instance is reserved for Phase 5 VM-based children."@, fg(grey(80))),
    ]
}

/// The detail pane for the (bounded) selection, from the scroll position on.
pub open spec fn instance_detail(m: MainInfo, temps: Seq<TempInstance>, selection: nat, scroll: nat) -> Seq<Seq<(Seq<char>, Look)>> {
    let b = bounded_selection(selection, temps.len());
    let all = seq![seq![]] + if b == 0 {
        main_detail(m)
    } else {
        temp_detail(temps[b - 1])
    };
    let last = sat_sub(all.len(), 1);
    all.skip(if scroll < last { scroll as int } else { last as int })
}

fn blank() -> (r: Vec<Piece>)
    ensures
        row_view(r@) == Seq::<(Seq<char>, Look)>::empty(),
{
    let r: Vec<Piece> = Vec::new();
    assert(row_view(r@) =~= Seq::<(Seq<char>, Look)>::empty());
    r
}

fn badge_row(badge: &str, bg: Tone, name: &str) -> (r: Vec<Piece>)
    ensures
        row_view(r@) == seq![
            (badge@, Look { fg: Tone::Black, bg: bg, bold: true, blink: false, italic: false }),
            ("  "@, plain()),
            (name@, bold(Tone::White)),
        ],
{
    let mut r: Vec<Piece> = Vec::new();
    push_piece(&mut r, str_chars(badge), Look { fg: Tone::Black, bg: bg, bold: true, blink: false, italic: false });
    push_piece(&mut r, str_chars("  "), Look { fg: Tone::Reset, bg: Tone::Reset, bold: false, blink: false, italic: false });
    push_piece(&mut r, str_chars(name), bold_look(Tone::White));
    assert(row_view(r@) =~= seq![
        (badge@, Look { fg: Tone::Black, bg: bg, bold: true, blink: false, italic: false }),
        ("  "@, plain()),
        (name@, bold(Tone::White)),
    ]);
    r
}

fn main_detail_rows(rows: &mut Vec<Vec<Piece>>, m: &MainInfo)
    ensures
        rows_view(final(rows)@) == rows_view(old(rows)@) + main_detail(*m),
{
    let ghost start = rows_view(rows@);
    push_row(rows, badge_row("  MAIN NEIL  ", Tone::Cyan, m.name.as_str()));
    push_row(rows, blank());
    push_row(rows, field_row_exec("status", str_chars(m.status.as_str()), status_tone_exec(m.status.as_str())));
    push_row(rows, field_row_exec("persona", str_chars(m.persona.as_str()), Tone::Rgb(180, 130, 255)));
    push_row(rows, field_row_exec("memory", str_chars(m.memory.as_str()), Tone::Rgb(100, 180, 255)));
    push_row(rows, field_row_exec("uptime", str_chars(fmt_duration(m.uptime.as_str()).as_str()), Tone::White));
    if str_chars(m.pid.as_str()).len() > 0 {
        push_row(rows, field_row_exec("pid", str_chars(m.pid.as_str()), Tone::DarkGray));
    }
    push_row(rows, field_row_exec("pending intentions", str_chars(m.pending.as_str()), Tone::White));
    match &m.task {
        Some(t) => {
            push_row(rows, blank());
            push_row(rows, row1(str_chars("  current task:"), bold_look(Tone::White)));
            push_row(rows, row1(cat(&str_chars("    "), &str_chars(t.as_str())), fg_look(Tone::White)));
        },
        None => {},
    }
    push_row(rows, blank());
    push_row(rows, row1(str_chars("  This is the running local Neil. Enter the chat view (Esc, Esc) to interact."), fg_look(Tone::DarkGray)));
    assert(rows_view(rows@) =~= start + main_detail(*m));
}

fn temp_detail_rows(rows: &mut Vec<Vec<Piece>>, t: &TempInstance)
    ensures
        rows_view(final(rows)@) == rows_view(old(rows)@) + temp_detail(*t),
{
    let ghost start = rows_view(rows@);
    push_row(rows, badge_row("  TEMP NEIL  ", Tone::Yellow, t.name.as_str()));
    push_row(rows, blank());
    push_row(rows, field_row_exec("status", str_chars(t.status.as_str()), status_tone_exec(t.status.as_str())));
    push_row(rows, field_row_exec("persona", str_chars(t.persona.as_str()), Tone::Rgb(180, 130, 255)));
    push_row(rows, field_row_exec("memory", str_chars(t.memory_type.as_str()), Tone::Rgb(100, 180, 255)));
    push_row(rows, field_row_exec("uptime", str_chars(fmt_duration(t.uptime_sec.as_str()).as_str()), Tone::White));
    let ghost mid1 = rows_view(rows@);
    match t.proposed_memories {
        Some(pm) => {
            push_row(rows, field_row_exec("proposed memories", usize_decimal(pm), if pm > 0 { Tone::Rgb(255, 200, 100) } else { Tone::DarkGray }));
        },
        None => {},
    }
    let ghost mid2 = rows_view(rows@);
    let task = str_chars(t.current_task.as_str());
    if task.len() > 0 {
        push_row(rows, blank());
        push_row(rows, row1(str_chars("  current task:"), bold_look(Tone::White)));
        let ws = textwrap_simple_chars(&task, 72);
        crate::styled::push_prefixed_rows(rows, &ws, &str_chars("    "), fg_look(Tone::White));
    }
    let ghost mid3 = rows_view(rows@);
    push_row(rows, blank());
    push_row(rows, row1(str_chars("  Ephemeral instance -- will self-destruct on fulfillment or budget exhaustion."), fg_look(Tone::DarkGray)));
    push_row(rows, blank());
    push_row(rows, row1(str_chars("  [note] SSH-into-instance is reserved for Phase 5 VM-based children."), fg_look(Tone::Rgb(80, 80, 80))));
    assert(rows_view(rows@) =~= start + temp_detail(*t));
}

/// The detail pane for the selected instance, from the scroll position on.
pub fn instance_detail_rows(m: &MainInfo, temps: &[TempInstance], selection: usize, scroll: usize) -> (r: Vec<Vec<Piece>>)
    ensures
        rows_view(r@) == instance_detail(*m, temps@, selection as nat, scroll as nat),
{
    let n = temps.len();
    let b: usize = if selection <= n { selection } else { n };
    let mut rows: Vec<Vec<Piece>> = Vec::new();
    push_row(&mut rows, blank());
    if b == 0 {
        main_detail_rows(&mut rows, m);
    } else {
        temp_detail_rows(&mut rows, &temps[b - 1]);
    }
    let ghost all = rows_view(rows@);
    let len = rows.len();
    let last: usize = if len >= 1 { len - 1 } else { 0 };
    let skip: usize = if scroll < last { scroll } else { last };
    let mut out: Vec<Vec<Piece>> = Vec::new();
    let mut k: usize = skip;
    while k < len
        invariant
            len == rows@.len(),
            skip <= k <= len,
            all.len() == len,
            forall|j: int| k <= j < len ==> row_view((#[trigger] rows@[j])@) == all[j],
            rows_view(out@) == all.subrange(skip as int, k as int),
        decreases len - k,
    {
        let mut r: Vec<Piece> = Vec::new();
        let ghost before = rows@;
        std::mem::swap(&mut r, &mut rows[k]);
        push_row(&mut out, r);
        assert(all.subrange(skip as int, k + 1) =~= all.subrange(skip as int, k as int).push(all[k as int]));
        assert forall|j: int| k + 1 <= j < len implies row_view((#[trigger] rows@[j])@) == all[j] by {
            assert(rows@[j] == before[j]);
        }
        k += 1;
    }
    assert(all.subrange(skip as int, len as int) =~= all.skip(skip as int));
    out
}

} // verus!
