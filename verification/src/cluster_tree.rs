//! The cluster as a tree: MAIN's box over its children (the temporary instances, then
//! the peers) in rows of three, then the pending promotions and the recent events.
use vstd::prelude::*;
use crate::styled::{
    bold, bold_look, cat, fg, fg_look, line1, push_piece, push_pieces, push_row, rep, rep_exec, row1, row_view,
    rows_view, Look, Piece, Tone,
};
use crate::text::{first_chars, pad_to, pad_to_spec, str_chars, take_chars};
use crate::cluster::{PeerInstance, RecentEvent, TempInstance};
use crate::cluster_view::MainInfo;
use crate::cluster_cards::{indented_rows, main_box, main_box_rows, push_indented};
use crate::cluster_tiers::{connector, task_text};
use crate::chat_view::{align_left, align_left_exec, grey};
use crate::text::{decimal, starts_with, usize_decimal};
use crate::cluster::{
    array_objects_spec, event_matches, extract_number, extract_string, number_after_spec, or_default, parse_peers,
    parse_recent, parse_temps, peer_matches, string_after_spec, temp_matches,
};
use crate::cluster_view::{main_info, main_info_ok};
use crate::cluster_layout::{fmt_duration, fmt_duration_spec, status_dot, status_dot_spec, status_kind_spec};
use crate::cluster_view::{plain, status_tone, status_tone_exec};
use crate::cluster_tiers::{blank_row, plain_look};

verus! {

/// What a child of MAIN is.
#[derive(Clone, Copy, Debug, PartialEq, Eq, Structural)]
pub enum ChildKind {
    Temp,
    Peer,
}

/// A child's card: its kind, name and status, and three lines of detail.
pub struct ChildCard {
    pub kind: ChildKind,
    pub name: String,
    pub status: String,
    pub line1: Vec<char>,
    pub line2: Vec<char>,
    pub line3: Vec<char>,
}

/// A child's card as texts.
pub struct CardModel {
    pub kind: ChildKind,
    pub name: Seq<char>,
    pub status: Seq<char>,
    pub line1: Seq<char>,
    pub line2: Seq<char>,
    pub line3: Seq<char>,
}

/// A card as texts.
pub open spec fn card_view(c: ChildCard) -> CardModel {
    CardModel { kind: c.kind, name: c.name@, status: c.status@, line1: c.line1@, line2: c.line2@, line3: c.line3@ }
}

/// The card of a temporary instance: persona, memory, and its task (its first twenty
/// characters) or, with none, its uptime.
pub open spec fn temp_card(t: TempInstance) -> CardModel {
    CardModel {
        kind: ChildKind::Temp,
        name: t.name@,
        status: t.status@,
        line1: "persona="@ + t.persona@,
        line2: "mem="@ + t.memory_type@,
        line3: if t.current_task@.len() == 0 {
            "up="@ + fmt_duration_spec(t.uptime_sec@)
        } else {
            "task: "@ + take_chars(t.current_task@, 20)
        },
    }
}

/// The card of a peer: its address, its image (the first eighteen characters) and its
/// status.
pub open spec fn peer_child_card(p: PeerInstance) -> CardModel {
    CardModel {
        kind: ChildKind::Peer,
        name: p.name@,
        status: p.status@,
        line1: "ip="@ + p.ip@,
        line2: "img="@ + take_chars(p.image@, 18),
        line3: "status="@ + p.status@,
    }
}

/// MAIN's children: the temporary instances, then the peers.
pub open spec fn children(temps: Seq<TempInstance>, peers: Seq<PeerInstance>) -> Seq<CardModel> {
    Seq::new(temps.len(), |i: int| temp_card(temps[i])) + Seq::new(peers.len(), |i: int| peer_child_card(peers[i]))
}

/// The label in a card's top border.
pub open spec fn kind_label(k: ChildKind) -> Seq<char> {
    match k {
        ChildKind::Temp => " temp "@,
        ChildKind::Peer => " peer "@,
    }
}

/// The colour of a card's label.
pub open spec fn kind_tone(k: ChildKind) -> Tone {
    match k {
        ChildKind::Temp => Tone::Yellow,
        ChildKind::Peer => Tone::Rgb(100, 200, 200),
    }
}

/// The look of a card's frame: bold cyan when selected, else dark grey.
pub open spec fn frame_look(selected: bool) -> Look {
    Look { fg: if selected { Tone::Cyan } else { Tone::DarkGray }, bg: Tone::Reset, bold: selected, blink: false, italic: false }
}

/// A line of detail inside a card's frame, padded (or cut) to the frame.
pub open spec fn detail_row(bs: Look, text: Seq<char>, tone: Tone, inner: nat) -> Seq<(Seq<char>, Look)> {
    seq![("│"@, bs), (pad_to_spec(" "@ + text, inner), fg(tone)), ("│"@, bs)]
}

/// A child's card `width` columns wide: its kind in the top border, its status dot
/// and name, its three lines of detail; a bold cyan frame when selected.
pub open spec fn child_box(c: CardModel, selected: bool, width: nat) -> Seq<Seq<(Seq<char>, Look)>> {
    let inner = (width - 2) as nat;
    let bs = frame_look(selected);
    let lhs = ((inner - 6) as nat) / 2;
    let rhs = (inner - 6 - lhs) as nat;
    seq![
        seq![("┌"@, bs), (rep('─', lhs), bs), (kind_label(c.kind), bold(kind_tone(c.kind))), (rep('─', rhs), bs), ("┐"@, bs)],
        seq![
            ("│"@, bs),
            (" "@ + status_dot_spec(status_kind_spec(c.status)) + " "@, fg(status_tone(c.status))),
            (pad_to_spec(take_chars(c.name, inner - 3), (inner - 3) as nat), bold(Tone::White)),
            ("│"@, bs),
        ],
        detail_row(bs, c.line1, Tone::Rgb(150, 150, 200), inner),
        detail_row(bs, c.line2, Tone::DarkGray, inner),
        detail_row(bs, c.line3, Tone::Rgb(180, 180, 180), inner),
        seq![("└"@, bs), (rep('─', inner), bs), ("┘"@, bs)],
    ]
}

fn detail_row_exec(bs: Look, text: &[char], tone: Tone, inner: usize) -> (r: Vec<Piece>)
    ensures
        row_view(r@) == detail_row(bs, text@, tone, inner as nat),
{
    let mut r: Vec<Piece> = Vec::new();
    push_piece(&mut r, str_chars("│"), bs);
    push_piece(&mut r, pad_to(&cat(&str_chars(" "), text), inner), fg_look(tone));
    push_piece(&mut r, str_chars("│"), bs);
    assert(row_view(r@) =~= detail_row(bs, text@, tone, inner as nat));
    r
}

/// A child's card `width` columns wide (the frame and the label need eight).
pub fn build_child_box(c: &ChildCard, selected: bool, width: usize) -> (r: Vec<Vec<Piece>>)
    requires
        width >= 8,
    ensures
        rows_view(r@) == child_box(card_view(*c), selected, width as nat),
        r@.len() == 6,
{
    let inner = width - 2;
    let bs = Look { fg: if selected { Tone::Cyan } else { Tone::DarkGray }, bg: Tone::Reset, bold: selected, blink: false, italic: false };
    let lhs = (inner - 6) / 2;
    let rhs = inner - 6 - lhs;
    let (label, label_tone) = match c.kind {
        ChildKind::Temp => (" temp ", Tone::Yellow),
        ChildKind::Peer => (" peer ", Tone::Rgb(100, 200, 200)),
    };
    let mut rows: Vec<Vec<Piece>> = Vec::new();
    let mut top: Vec<Piece> = Vec::new();
    push_piece(&mut top, str_chars("┌"), bs);
    push_piece(&mut top, rep_exec('─', lhs), bs);
    push_piece(&mut top, str_chars(label), bold_look(label_tone));
    push_piece(&mut top, rep_exec('─', rhs), bs);
    push_piece(&mut top, str_chars("┐"), bs);
    assert(row_view(top@) =~= child_box(card_view(*c), selected, width as nat)[0]);
    push_row(&mut rows, top);
    let mut name_row: Vec<Piece> = Vec::new();
    push_piece(&mut name_row, str_chars("│"), bs);
    push_piece(
        &mut name_row,
        cat(&cat(&str_chars(" "), &str_chars(status_dot(c.status.as_str()))), &str_chars(" ")),
        fg_look(status_tone_exec(c.status.as_str())),
    );
    push_piece(&mut name_row, pad_to(&first_chars(&str_chars(c.name.as_str()), inner - 3), inner - 3), bold_look(Tone::White));
    push_piece(&mut name_row, str_chars("│"), bs);
    assert(row_view(name_row@) =~= child_box(card_view(*c), selected, width as nat)[1]);
    push_row(&mut rows, name_row);
    push_row(&mut rows, detail_row_exec(bs, &c.line1, Tone::Rgb(150, 150, 200), inner));
    push_row(&mut rows, detail_row_exec(bs, &c.line2, Tone::DarkGray, inner));
    push_row(&mut rows, detail_row_exec(bs, &c.line3, Tone::Rgb(180, 180, 180), inner));
    let mut bottom: Vec<Piece> = Vec::new();
    push_piece(&mut bottom, str_chars("└"), bs);
    push_piece(&mut bottom, rep_exec('─', inner), bs);
    push_piece(&mut bottom, str_chars("┘"), bs);
    assert(row_view(bottom@) =~= child_box(card_view(*c), selected, width as nat)[5]);
    push_row(&mut rows, bottom);
    assert(rows_view(rows@) =~= child_box(card_view(*c), selected, width as nat));
    rows
}

fn temp_card_exec(t: &TempInstance) -> (c: ChildCard)
    ensures
        card_view(c) == temp_card(*t),
{
    let task = str_chars(t.current_task.as_str());
    let line3 = if task.len() == 0 {
        cat(&str_chars("up="), &str_chars(fmt_duration(t.uptime_sec.as_str()).as_str()))
    } else {
        cat(&str_chars("task: "), &first_chars(&task, 20))
    };
    let c = ChildCard {
        kind: ChildKind::Temp,
        name: t.name.clone(),
        status: t.status.clone(),
        line1: cat(&str_chars("persona="), &str_chars(t.persona.as_str())),
        line2: cat(&str_chars("mem="), &str_chars(t.memory_type.as_str())),
        line3,
    };
    assert(card_view(c) =~= temp_card(*t));
    c
}

fn peer_card_exec(p: &PeerInstance) -> (c: ChildCard)
    ensures
        card_view(c) == peer_child_card(*p),
{
    let c = ChildCard {
        kind: ChildKind::Peer,
        name: p.name.clone(),
        status: p.status.clone(),
        line1: cat(&str_chars("ip="), &str_chars(p.ip.as_str())),
        line2: cat(&str_chars("img="), &first_chars(&str_chars(p.image.as_str()), 18)),
        line3: cat(&str_chars("status="), &str_chars(p.status.as_str())),
    };
    assert(card_view(c) =~= peer_child_card(*p));
    c
}

/// The cards of MAIN's children: the temporary instances, then the peers.
pub fn child_cards(temps: &[TempInstance], peers: &[PeerInstance]) -> (r: Vec<ChildCard>)
    ensures
        r@.len() == temps@.len() + peers@.len(),
        forall|i: int| 0 <= i < r@.len() ==> card_view(#[trigger] r@[i]) == children(temps@, peers@)[i],
{
    let ghost all = children(temps@, peers@);
    let mut r: Vec<ChildCard> = Vec::new();
    for i in 0..temps.len()
        invariant
            all == children(temps@, peers@),
            r@.len() == i,
            forall|k: int| 0 <= k < i ==> card_view(#[trigger] r@[k]) == all[k],
    {
        r.push(temp_card_exec(&temps[i]));
    }
    let nt = temps.len();
    for i in 0..peers.len()
        invariant
            all == children(temps@, peers@),
            nt == temps@.len(),
            r@.len() == nt + i,
            forall|k: int| 0 <= k < nt + i ==> card_view(#[trigger] r@[k]) == all[k],
    {
        r.push(peer_card_exec(&peers[i]));
    }
    r
}

// ───────────────────────── the tree ─────────────────────────

/// The columns MAIN's box (48 wide) and the first row of cards start at, for `n`
/// cards in that row (22 wide, two apart): the narrower of the two is centred under
/// or over the wider.
pub open spec fn tree_indents(n: nat) -> (nat, nat) {
    if n == 0 {
        (2, 2)
    } else {
        let row_w = (24 * n - 2) as nat;
        if row_w >= 48 {
            (2 + ((row_w - 48) as nat) / 2, 2)
        } else {
            (2, 2 + ((48 - row_w) as nat) / 2)
        }
    }
}

/// The column of the centre of the `i`-th card of a row that starts at `ci`.
pub open spec fn card_center(ci: nat, i: nat) -> nat {
    ci + 24 * i + 11
}

/// Column `j` is the centre of one of the first `n` cards of a row that starts at `ci`.
pub open spec fn is_card_center(j: nat, ci: nat, n: nat) -> bool {
    j >= ci + 11 && (j - ci - 11) % 24 == 0 && (j - ci - 11) / 24 < n
}

/// The line that fans the trunk (at column `mc`) out to the centres of `n` cards:
/// ┌ and ┐ at the ends, ┬ over the cards between, ─ between, and where the trunk comes
/// down inside, ┴ (┼ over a card's centre).
pub open spec fn tree_fan(ci: nat, n: nat, mc: nat) -> Seq<char> {
    let lo = card_center(ci, 0);
    let hi = card_center(ci, (n - 1) as nat);
    Seq::new(
        (if hi < mc { mc } else { hi }) + 1,
        |j: int|
            if j == mc && lo < j < hi {
                if is_card_center(j as nat, ci, n) {
                    '┼'
                } else {
                    '┴'
                }
            } else if j == lo {
                '┌'
            } else if j == hi {
                '┐'
            } else if lo < j < hi && is_card_center(j as nat, ci, n) {
                '┬'
            } else if lo < j < hi {
                '─'
            } else {
                ' '
            },
    )
}

/// The look of the arrow over a card: bold cyan over the selected card, else grey.
pub open spec fn arrow_look(selected: bool) -> Look {
    if selected {
        bold(Tone::Cyan)
    } else {
        fg(Tone::Rgb(120, 120, 120))
    }
}

/// The row of arrows over the first `k` cards of the first row (selection counts MAIN
/// as 0).
pub open spec fn arrow_pieces(ci: nat, k: nat, selection: nat) -> Seq<(Seq<char>, Look)>
    decreases k,
{
    if k == 0 {
        seq![]
    } else {
        arrow_pieces(ci, (k - 1) as nat, selection) + seq![
            (rep(' ', if k == 1 { ci + 11 } else { 23 }), plain()),
            ("▼"@, arrow_look(selection == k)),
        ]
    }
}

/// Line `li` of the cards `st` up to `en`, side by side, two apart, from column `ci`.
pub open spec fn chunk_line(cs: Seq<CardModel>, st: int, en: int, selection: nat, ci: nat, li: int) -> Seq<(Seq<char>, Look)>
    decreases en - st,
{
    if en <= st {
        seq![(rep(' ', ci), plain())]
    } else {
        chunk_line(cs, st, en - 1, selection, ci, li) + (if en - 1 > st {
            seq![(rep(' ', 2), plain())]
        } else {
            seq![]
        }) + child_box(cs[en - 1], selection == en, 22)[li]
    }
}

/// The end of the `r`-th row of cards: three a row.
pub open spec fn chunk_end(len: nat, r: nat) -> int {
    if 3 * r + 3 < len {
        (3 * r + 3) as int
    } else {
        len as int
    }
}

/// The `r`-th row of cards, with a blank row after every row but the last.
pub open spec fn chunk_block(cs: Seq<CardModel>, r: nat, selection: nat, ci: nat) -> Seq<Seq<(Seq<char>, Look)>> {
    Seq::new(6, |li: int| chunk_line(cs, (3 * r) as int, chunk_end(cs.len(), r), selection, ci, li)) + (if r < ((cs.len() - 1) as nat) / 3 {
        seq![seq![]]
    } else {
        seq![]
    })
}

/// The first `c` rows of cards.
pub open spec fn tree_chunks(cs: Seq<CardModel>, c: nat, selection: nat, ci: nat) -> Seq<Seq<(Seq<char>, Look)>>
    decreases c,
{
    if c == 0 {
        seq![]
    } else {
        tree_chunks(cs, (c - 1) as nat, selection, ci) + chunk_block(cs, (c - 1) as nat, selection, ci)
    }
}

/// The number of rows of three cards.
pub open spec fn chunk_count(len: nat) -> nat {
    len / 3 + if len % 3 > 0 {
        1nat
    } else {
        0nat
    }
}

fn is_card_center_exec(j: usize, ci: usize, n: usize) -> (r: bool)
    requires
        ci <= 100,
    ensures
        r == is_card_center(j as nat, ci as nat, n as nat),
{
    j >= ci + 11 && (j - ci - 11) % 24 == 0 && (j - ci - 11) / 24 < n
}

fn tree_fan_exec(ci: usize, n: usize, mc: usize) -> (r: Vec<char>)
    requires
        1 <= n <= 3,
        ci <= 100,
        mc <= 1000,
    ensures
        r@ == tree_fan(ci as nat, n as nat, mc as nat),
{
    let lo = ci + 11;
    let hi = ci + 24 * (n - 1) + 11;
    let width: usize = (if hi < mc { mc } else { hi }) + 1;
    let ghost f = tree_fan(ci as nat, n as nat, mc as nat);
    let mut r: Vec<char> = Vec::new();
    for j in 0..width
        invariant
            lo == card_center(ci as nat, 0),
            hi == card_center(ci as nat, (n - 1) as nat),
            width == f.len(),
            f == tree_fan(ci as nat, n as nat, mc as nat),
            ci <= 100,
            r@ =~= f.take(j as int),
    {
        let center = is_card_center_exec(j, ci, n);
        let c = if j == mc && lo < j && j < hi {
            if center { '┼' } else { '┴' }
        } else if j == lo {
            '┌'
        } else if j == hi {
            '┐'
        } else if lo < j && j < hi && center {
            '┬'
        } else if lo < j && j < hi {
            '─'
        } else {
            ' '
        };
        r.push(c);
        assert(f.take(j + 1) =~= f.take(j as int).push(c));
    }
    assert(f.take(width as int) =~= f);
    r
}

fn arrow_row(ci: usize, n: usize, selection: usize) -> (r: Vec<Piece>)
    requires
        n <= 3,
        ci <= 100,
    ensures
        row_view(r@) == arrow_pieces(ci as nat, n as nat, selection as nat),
{
    let mut r: Vec<Piece> = Vec::new();
    let mut cursor: usize = 0;
    for i in 0..n
        invariant
            ci <= 100,
            n <= 3,
            cursor == (if i == 0 { 0 } else { card_center(ci as nat, (i - 1) as nat) + 1 }),
            row_view(r@) == arrow_pieces(ci as nat, i as nat, selection as nat),
    {
        let center = ci + 24 * i + 11;
        let hot = selection == i + 1;
        push_piece(&mut r, rep_exec(' ', center - cursor), plain_look());
        push_piece(&mut r, str_chars("▼"), if hot { bold_look(Tone::Cyan) } else { fg_look(Tone::Rgb(120, 120, 120)) });
        cursor = center + 1;
        assert(row_view(r@) =~= arrow_pieces(ci as nat, (i + 1) as nat, selection as nat));
    }
    r
}

/// Cards as texts.
pub open spec fn cards_view(cs: Seq<ChildCard>) -> Seq<CardModel> {
    cs.map_values(|c: ChildCard| card_view(c))
}

fn chunk_block_exec(cards: &Vec<ChildCard>, r: usize, selection: usize, ci: usize) -> (rows: Vec<Vec<Piece>>)
    requires
        3 * r < cards@.len(),
        ci <= 100,
    ensures
        rows_view(rows@) == chunk_block(cards_view(cards@), r as nat, selection as nat, ci as nat),
{
    let ghost cs = cards_view(cards@);
    let len = cards.len();
    let st = 3 * r;
    let en: usize = if len - st > 3 { st + 3 } else { len };
    assert(en as int == chunk_end(len as nat, r as nat));
    let mut boxes: Vec<Vec<Vec<Piece>>> = Vec::new();
    for k in st..en
        invariant
            st <= k <= en <= len,
            len == cards@.len(),
            cs == cards_view(cards@),
            boxes@.len() == k - st,
            forall|m: int|
                0 <= m < boxes@.len() ==> rows_view((#[trigger] boxes@[m])@) == child_box(cs[st + m], selection == st + m + 1, 22)
                    && boxes@[m]@.len() == 6,
    {
        let b = build_child_box(&cards[k], selection == k + 1, 22);
        boxes.push(b);
    }
    let ghost block = Seq::new(6, |li: int| chunk_line(cs, st as int, en as int, selection as nat, ci as nat, li));
    let mut rows: Vec<Vec<Piece>> = Vec::new();
    for li in 0..6
        invariant
            st < en <= len,
            len == cards@.len(),
            cs == cards_view(cards@),
            ci <= 100,
            boxes@.len() == en - st,
            forall|m: int|
                0 <= m < boxes@.len() ==> rows_view((#[trigger] boxes@[m])@) == child_box(cs[st + m], selection == st + m + 1, 22)
                    && boxes@[m]@.len() == 6,
            block == Seq::new(6, |li: int| chunk_line(cs, st as int, en as int, selection as nat, ci as nat, li)),
            rows_view(rows@) == block.take(li as int),
    {
        let mut row: Vec<Piece> = Vec::new();
        push_piece(&mut row, rep_exec(' ', ci), plain_look());
        assert(row_view(row@) =~= chunk_line(cs, st as int, st as int, selection as nat, ci as nat, li as int));
        for k in st..en
            invariant
                st <= k <= en,
                boxes@.len() == en - st,
                forall|m: int|
                    0 <= m < boxes@.len() ==> rows_view((#[trigger] boxes@[m])@) == child_box(cs[st + m], selection == st + m + 1, 22)
                        && boxes@[m]@.len() == 6,
                li < 6,
                row_view(row@) == chunk_line(cs, st as int, k as int, selection as nat, ci as nat, li as int),
        {
            if k > st {
                push_piece(&mut row, rep_exec(' ', 2), plain_look());
            }
            let b = &boxes[k - st];
            assert(rows_view(b@)[li as int] == row_view(b@[li as int]@));
            push_pieces(&mut row, &b[li]);
            assert(row_view(row@) =~= chunk_line(cs, st as int, k + 1, selection as nat, ci as nat, li as int));
        }
        push_row(&mut rows, row);
        assert(block.take(li + 1) =~= block.take(li as int).push(block[li as int]));
    }
    assert(block.take(6) =~= block);
    if r < (len - 1) / 3 {
        push_row(&mut rows, blank_row());
    }
    assert(rows_view(rows@) =~= chunk_block(cs, r as nat, selection as nat, ci as nat));
    rows
}

fn tree_chunks_exec(cards: &Vec<ChildCard>, selection: usize, ci: usize) -> (rows: Vec<Vec<Piece>>)
    requires
        ci <= 100,
    ensures
        rows_view(rows@) == tree_chunks(cards_view(cards@), chunk_count(cards@.len()), selection as nat, ci as nat),
{
    let len = cards.len();
    let count: usize = len / 3 + if len % 3 > 0 { 1 } else { 0 };
    let mut rows: Vec<Vec<Piece>> = Vec::new();
    for c in 0..count
        invariant
            count == chunk_count(len as nat),
            len == cards@.len(),
            ci <= 100,
            rows_view(rows@) == tree_chunks(cards_view(cards@), c as nat, selection as nat, ci as nat),
    {
        let part = chunk_block_exec(cards, c, selection, ci);
        crate::styled::append_rows(&mut rows, part);
    }
    rows
}

/// The tree: MAIN's box, and under it (through a trunk, a fan and a row of arrows,
/// the arrow over the selected card bright) its children in rows of three, the first
/// row centred with MAIN; without children, MAIN's box and a note.
pub open spec fn tree_body(m: MainInfo, cs: Seq<CardModel>, selection: nat) -> Seq<Seq<(Seq<char>, Look)>> {
    let n: nat = if cs.len() < 3 { cs.len() } else { 3 };
    let (mi, ci) = tree_indents(n);
    let main = indented_rows(main_box(m.name@, m.status@, m.persona@, m.memory@, m.uptime@, task_text(m), m.pending@, selection == 0, 46), mi);
    if cs.len() == 0 {
        main + seq![seq![], seq![(rep(' ', 2), plain()), ("(no live children)"@, fg(Tone::DarkGray))]]
    } else {
        let mc = mi + 24;
        main + seq![
            line1(rep(' ', mc) + "│"@, connector()),
            if n == 1 {
                line1(rep(' ', card_center(ci, 0)) + "│"@, connector())
            } else {
                line1(tree_fan(ci, n, mc), connector())
            },
            arrow_pieces(ci, n, selection),
        ] + tree_chunks(cs, chunk_count(cs.len()), selection, ci)
    }
}

fn connector_look() -> (l: Look)
    ensures
        l == connector(),
{
    fg_look(Tone::Rgb(90, 90, 110))
}

fn tree_body_exec(m: &MainInfo, cards: &Vec<ChildCard>, selection: usize) -> (rows: Vec<Vec<Piece>>)
    ensures
        rows_view(rows@) == tree_body(*m, cards_view(cards@), selection as nat),
{
    let ghost cs = cards_view(cards@);
    let len = cards.len();
    let n: usize = if len < 3 { len } else { 3 };
    let (mi, ci): (usize, usize) = if n == 0 {
        (2, 2)
    } else {
        let row_w: usize = 24 * n - 2;
        if row_w >= 48 { (2 + (row_w - 48) / 2, 2) } else { (2, 2 + (48 - row_w) / 2) }
    };
    assert((mi as nat, ci as nat) == tree_indents(n as nat));
    let task = match &m.task {
        Some(t) => t.clone(),
        None => String::new(),
    };
    assert(task@ == task_text(*m));
    let mut rows: Vec<Vec<Piece>> = Vec::new();
    push_indented(
        &mut rows,
        main_box_rows(m.name.as_str(), m.status.as_str(), m.persona.as_str(), m.memory.as_str(), m.uptime.as_str(), task.as_str(), m.pending.as_str(), selection == 0, 46),
        mi,
    );
    let ghost main = rows_view(rows@);
    if len == 0 {
        push_row(&mut rows, blank_row());
        let mut note: Vec<Piece> = Vec::new();
        push_piece(&mut note, rep_exec(' ', 2), plain_look());
        push_piece(&mut note, str_chars("(no live children)"), fg_look(Tone::DarkGray));
        assert(row_view(note@) =~= seq![(rep(' ', 2), plain()), ("(no live children)"@, fg(Tone::DarkGray))]);
        push_row(&mut rows, note);
        assert(rows_view(rows@) =~= tree_body(*m, cs, selection as nat));
    } else {
        let mc = mi + 24;
        push_row(&mut rows, row1(cat(&rep_exec(' ', mc), &str_chars("│")), connector_look()));
        let fan = if n == 1 {
            row1(cat(&rep_exec(' ', ci + 11), &str_chars("│")), connector_look())
        } else {
            row1(tree_fan_exec(ci, n, mc), connector_look())
        };
        push_row(&mut rows, fan);
        push_row(&mut rows, arrow_row(ci, n, selection));
        let ghost head = rows_view(rows@);
        let chunks = tree_chunks_exec(cards, selection, ci);
        crate::styled::append_rows(&mut rows, chunks);
        assert(rows_view(rows@) =~= tree_body(*m, cs, selection as nat));
    }
    rows
}

/// The tree's first rows: the node it runs on and the time of the report.
pub open spec fn tree_header(node_id: Seq<char>, ts: Seq<char>) -> Seq<Seq<(Seq<char>, Look)>> {
    seq![seq![("  Cluster on "@, fg(Tone::DarkGray)), (node_id, bold(Tone::Cyan)), ("  @ "@ + ts, fg(Tone::DarkGray))], seq![]]
}

/// The count of pending promotions, yellow from five on.
pub open spec fn tree_footer(pending: nat) -> Seq<Seq<(Seq<char>, Look)>> {
    seq![seq![], seq![
        ("  pending promotions: "@, fg(Tone::DarkGray)),
        (decimal(pending), bold(if pending >= 5 { Tone::Yellow } else { Tone::DarkGray })),
    ]]
}

/// The icon and colour of a recent event.
pub open spec fn event_mark(ev: Seq<char>) -> (Seq<char>, Tone) {
    if ev == "spawn"@ {
        ("▸"@, Tone::Yellow)
    } else if ev == "complete"@ {
        ("✓"@, Tone::Green)
    } else if ev == "fail"@ {
        ("✗"@, Tone::Red)
    } else {
        ("·"@, Tone::DarkGray)
    }
}

/// An instance id without its ten-character prefix, at most twenty characters.
pub open spec fn short_id(id: Seq<char>) -> Seq<char> {
    take_chars(if id.len() <= 10 { seq![] } else { id.skip(10) }, 20)
}

/// A recent event: its icon, time, kind, instance and (the first seventy characters
/// of) its detail.
pub open spec fn event_row(e: RecentEvent) -> Seq<(Seq<char>, Look)> {
    let (icon, tone) = event_mark(e.event@);
    seq![
        ("    "@, plain()),
        (icon, fg(tone)),
        (" "@ + e.ts@ + " "@, fg(Tone::DarkGray)),
        (align_left(e.event@, 10), fg(tone)),
        (" "@ + align_left(short_id(e.id@), 20) + " "@, fg(grey(120))),
        (take_chars(e.detail@, 70), fg(Tone::White)),
    ]
}

/// The recent events, newest first and at most ten, under a title; nothing when there
/// are none.
pub open spec fn recent_section(rs: Seq<RecentEvent>) -> Seq<Seq<(Seq<char>, Look)>> {
    if rs.len() == 0 {
        seq![]
    } else {
        let k: nat = if rs.len() < 10 { rs.len() } else { 10 };
        seq![seq![], line1("  Recent (last hour):"@, bold(Tone::White))] + Seq::new(k, |i: int| event_row(rs[rs.len() - 1 - i]))
    }
}

fn event_row_exec(e: &RecentEvent) -> (r: Vec<Piece>)
    ensures
        row_view(r@) == event_row(*e),
{
    let ev = str_chars(e.event.as_str());
    let (icon, tone) = if crate::text::chars_eq(&ev, &str_chars("spawn")) {
        ("▸", Tone::Yellow)
    } else if crate::text::chars_eq(&ev, &str_chars("complete")) {
        ("✓", Tone::Green)
    } else if crate::text::chars_eq(&ev, &str_chars("fail")) {
        ("✗", Tone::Red)
    } else {
        ("·", Tone::DarkGray)
    };
    assert((icon@, tone) == event_mark(e.event@));
    let id = str_chars(e.id.as_str());
    let rest = if id.len() <= 10 { Vec::new() } else { crate::text::slice_chars(&id, 10, id.len()) };
    assert(rest@ =~= if id@.len() <= 10 { seq![] } else { id@.skip(10) });
    let short = first_chars(&rest, 20);
    let mut r: Vec<Piece> = Vec::new();
    push_piece(&mut r, str_chars("    "), plain_look());
    push_piece(&mut r, str_chars(icon), fg_look(tone));
    push_piece(&mut r, cat(&cat(&str_chars(" "), &str_chars(e.ts.as_str())), &str_chars(" ")), fg_look(Tone::DarkGray));
    push_piece(&mut r, align_left_exec(&ev, 10), fg_look(tone));
    push_piece(&mut r, cat(&cat(&str_chars(" "), &align_left_exec(&short, 20)), &str_chars(" ")), fg_look(Tone::Rgb(120, 120, 120)));
    push_piece(&mut r, first_chars(&str_chars(e.detail.as_str()), 70), fg_look(Tone::White));
    assert(row_view(r@) =~= event_row(*e));
    r
}

fn recent_exec(recent: &[RecentEvent]) -> (rows: Vec<Vec<Piece>>)
    ensures
        rows_view(rows@) == recent_section(recent@),
{
    let mut rows: Vec<Vec<Piece>> = Vec::new();
    let len = recent.len();
    if len == 0 {
        assert(rows_view(rows@) =~= recent_section(recent@));
        return rows;
    }
    push_row(&mut rows, blank_row());
    push_row(&mut rows, row1(str_chars("  Recent (last hour):"), bold_look(Tone::White)));
    let ghost head = rows_view(rows@);
    let k: usize = if len < 10 { len } else { 10 };
    let ghost evs = Seq::new(k as nat, |i: int| event_row(recent@[len - 1 - i]));
    for i in 0..k
        invariant
            k <= len == recent@.len(),
            evs == Seq::new(k as nat, |i: int| event_row(recent@[len - 1 - i])),
            rows_view(rows@) == head + evs.take(i as int),
    {
        push_row(&mut rows, event_row_exec(&recent[len - 1 - i]));
        assert(head + evs.take(i + 1) =~= (head + evs.take(i as int)).push(evs[i as int]));
    }
    assert(evs.take(k as int) =~= evs);
    assert(rows_view(rows@) =~= recent_section(recent@));
    rows
}

/// The whole tree: the header, MAIN and its children (the temporary instances, then
/// the peers), the pending promotions and the recent events.
pub open spec fn tree_rows(
    node_id: Seq<char>,
    ts: Seq<char>,
    m: MainInfo,
    temps: Seq<TempInstance>,
    peers: Seq<PeerInstance>,
    pending: nat,
    recent: Seq<RecentEvent>,
    selection: nat,
) -> Seq<Seq<(Seq<char>, Look)>> {
    tree_header(node_id, ts) + tree_body(m, children(temps, peers), selection) + tree_footer(pending) + recent_section(recent)
}

/// The cluster as a tree, from the fields read from a report: the node and time,
/// MAIN's fields, the temporary instances, the peers, the pending promotions and the
/// recent events (selection counts MAIN as 0, then the children in order).
pub fn cluster_tree_rows(
    node_id: &str,
    ts: &str,
    m: &MainInfo,
    temps: &[TempInstance],
    peers: &[PeerInstance],
    pending: usize,
    recent: &[RecentEvent],
    selection: usize,
) -> (rows: Vec<Vec<Piece>>)
    ensures
        rows_view(rows@) == tree_rows(node_id@, ts@, *m, temps@, peers@, pending as nat, recent@, selection as nat),
{
    let mut rows: Vec<Vec<Piece>> = Vec::new();
    let mut h: Vec<Piece> = Vec::new();
    push_piece(&mut h, str_chars("  Cluster on "), fg_look(Tone::DarkGray));
    push_piece(&mut h, str_chars(node_id), bold_look(Tone::Cyan));
    push_piece(&mut h, cat(&str_chars("  @ "), &str_chars(ts)), fg_look(Tone::DarkGray));
    assert(row_view(h@) =~= tree_header(node_id@, ts@)[0]);
    push_row(&mut rows, h);
    push_row(&mut rows, blank_row());
    let ghost a = rows_view(rows@);
    assert(a =~= tree_header(node_id@, ts@));
    let cards = child_cards(temps, peers);
    assert(cards_view(cards@) =~= children(temps@, peers@));
    crate::styled::append_rows(&mut rows, tree_body_exec(m, &cards, selection));
    let ghost b = rows_view(rows@);
    push_row(&mut rows, blank_row());
    let mut f: Vec<Piece> = Vec::new();
    push_piece(&mut f, str_chars("  pending promotions: "), fg_look(Tone::DarkGray));
    push_piece(&mut f, usize_decimal(pending), bold_look(if pending >= 5 { Tone::Yellow } else { Tone::DarkGray }));
    assert(row_view(f@) =~= tree_footer(pending as nat)[1]);
    push_row(&mut rows, f);
    assert(rows_view(rows@) =~= b + tree_footer(pending as nat));
    crate::styled::append_rows(&mut rows, recent_exec(recent));
    assert(rows_view(rows@) =~= tree_rows(node_id@, ts@, *m, temps@, peers@, pending as nat, recent@, selection as nat));
    rows
}

/// The parsed report's pieces as the tree reads them: `temps`, `peers` and `recent` are
/// the objects listed under their keys.
pub open spec fn lists_ok(json: Seq<char>, temps: Seq<TempInstance>, peers: Seq<PeerInstance>, recent: Seq<RecentEvent>) -> bool {
    &&& temps.len() == array_objects_spec(json, "\"temps\""@).len()
    &&& forall|i: int| 0 <= i < temps.len() ==> temp_matches(#[trigger] temps[i], array_objects_spec(json, "\"temps\""@)[i])
    &&& peers.len() == array_objects_spec(json, "\"peers\""@).len()
    &&& forall|i: int| 0 <= i < peers.len() ==> peer_matches(#[trigger] peers[i], array_objects_spec(json, "\"peers\""@)[i])
    &&& recent.len() == array_objects_spec(json, "\"recent\""@).len()
    &&& forall|i: int| 0 <= i < recent.len() ==> event_matches(#[trigger] recent[i], array_objects_spec(json, "\"recent\""@)[i])
}

/// The count of pending promotions in a report, 0 when it gives none.
pub open spec fn pending_of(json: Seq<char>) -> nat {
    match number_after_spec(json, "\"pending_promotions_count\""@) {
        Some(n) => n,
        None => 0,
    }
}

/// The cluster as a tree for the latest report: while none has come, a note that it
/// is loading; when running the cluster tool failed, what it wrote (in red and grey)
/// or the error that kept it from starting; else the tree read from the report (the
/// node "unknown" and the time "?" where it names none).
pub fn cluster_lines(cached: &Option<String>, selection: usize) -> (rows: Vec<Vec<Piece>>)
    ensures
        match cached {
            None => rows_view(rows@) == seq![
                line1("  Cluster data loading..."@, fg(Tone::DarkGray)),
                seq![],
                line1("  (first refresh in progress; ~2s)"@, fg(Tone::DarkGray)),
            ],
            Some(j) => if starts_with(j@, "__ERROR__stderr:"@) {
                rows_view(rows@) == seq![line1("  neil-cluster failed"@, fg(Tone::Red)), line1("  "@ + j@.skip(16), fg(Tone::DarkGray))]
            } else if starts_with(j@, "__ERROR__spawn:"@) {
                rows_view(rows@) == seq![line1("  error: "@ + j@.skip(15), fg(Tone::Red))]
            } else {
                exists|m: MainInfo, temps: Seq<TempInstance>, peers: Seq<PeerInstance>, recent: Seq<RecentEvent>|
                    main_info_ok(j@, m) && lists_ok(j@, temps, peers, recent) && rows_view(rows@) == tree_rows(
                        or_default(string_after_spec(j@, "\"node_id\""@), "unknown"@),
                        or_default(string_after_spec(j@, "\"timestamp\""@), "?"@),
                        m,
                        temps,
                        peers,
                        pending_of(j@),
                        recent,
                        selection as nat,
                    )
            },
        },
{
    let mut rows: Vec<Vec<Piece>> = Vec::new();
    match cached {
        None => {
            push_row(&mut rows, row1(str_chars("  Cluster data loading..."), fg_look(Tone::DarkGray)));
            push_row(&mut rows, blank_row());
            push_row(&mut rows, row1(str_chars("  (first refresh in progress; ~2s)"), fg_look(Tone::DarkGray)));
            assert(rows_view(rows@) =~= seq![
                line1("  Cluster data loading..."@, fg(Tone::DarkGray)),
                seq![],
                line1("  (first refresh in progress; ~2s)"@, fg(Tone::DarkGray)),
            ]);
            rows
        },
        Some(j) => {
            let jc = str_chars(j.as_str());
            let stderr = str_chars("__ERROR__stderr:");
            let spawn = str_chars("__ERROR__spawn:");
            proof {
                reveal_strlit("__ERROR__stderr:");
                reveal_strlit("__ERROR__spawn:");
            }
            if crate::text::has_prefix(&jc, &stderr) {
                push_row(&mut rows, row1(str_chars("  neil-cluster failed"), fg_look(Tone::Red)));
                let rest = crate::text::slice_chars(&jc, 16, jc.len());
                assert(rest@ =~= j@.skip(16));
                push_row(&mut rows, row1(cat(&str_chars("  "), &rest), fg_look(Tone::DarkGray)));
                assert(rows_view(rows@) =~= seq![line1("  neil-cluster failed"@, fg(Tone::Red)), line1("  "@ + j@.skip(16), fg(Tone::DarkGray))]);
                rows
            } else if crate::text::has_prefix(&jc, &spawn) {
                let rest = crate::text::slice_chars(&jc, 15, jc.len());
                assert(rest@ =~= j@.skip(15));
                push_row(&mut rows, row1(cat(&str_chars("  error: "), &rest), fg_look(Tone::Red)));
                assert(rows_view(rows@) =~= seq![line1("  error: "@ + j@.skip(15), fg(Tone::Red))]);
                rows
            } else {
                let node_id = match extract_string(j.as_str(), "\"node_id\"") {
                    Some(v) => v,
                    None => String::from_str("unknown"),
                };
                let ts = match extract_string(j.as_str(), "\"timestamp\"") {
                    Some(v) => v,
                    None => String::from_str("?"),
                };
                let m = main_info(j.as_str());
                let temps = parse_temps(j.as_str());
                let peers = parse_peers(j.as_str());
                let recent = parse_recent(j.as_str());
                let pending: usize = match extract_number(j.as_str(), "\"pending_promotions_count\"") {
                    Some(n) => n,
                    None => 0,
                };
                let out = cluster_tree_rows(node_id.as_str(), ts.as_str(), &m, &temps, &peers, pending, &recent, selection);
                proof {
                    assert(main_info_ok(j@, m) && lists_ok(j@, temps@, peers@, recent@) && rows_view(out@) == tree_rows(
                        or_default(string_after_spec(j@, "\"node_id\""@), "unknown"@),
                        or_default(string_after_spec(j@, "\"timestamp\""@), "?"@),
                        m,
                        temps@,
                        peers@,
                        pending_of(j@),
                        recent@,
                        selection as nat,
                    ));
                }
                out
            }
        },
    }
}

/// An instance on one row: its kind in brackets (in the border colour), status dot,
/// name, persona, memory and uptime, and its task (the first eighty characters) on a
/// line of its own when it has one.
pub open spec fn cluster_card(
    kind: Seq<char>,
    name: Seq<char>,
    persona: Seq<char>,
    memory: Seq<char>,
    status: Seq<char>,
    uptime: Seq<char>,
    task: Option<Seq<char>>,
    border: Tone,
) -> Seq<(Seq<char>, Look)> {
    seq![
        ("  ["@ + kind + "]    "@, fg(border)),
        (status_dot_spec(status_kind_spec(status)), fg(status_tone(status))),
        (" "@, plain()),
        (name, bold(Tone::White)),
        (" persona="@ + persona + " "@, fg(Tone::Rgb(180, 130, 255))),
        ("mem="@ + memory + " "@, fg(Tone::Rgb(100, 180, 255))),
        ("up="@ + fmt_duration_spec(uptime), fg(Tone::DarkGray)),
        (match task {
            Some(t) => "\n      task: "@ + take_chars(t, 80),
            None => seq![],
        }, fg(Tone::White)),
    ]
}

/// An instance on one row (see `cluster_card`).
pub fn render_cluster_card(
    kind: &str,
    name: &str,
    persona: &str,
    memory: &str,
    status: &str,
    uptime: &str,
    task: Option<&str>,
    border: Tone,
) -> (r: Vec<Piece>)
    ensures
        row_view(r@) == cluster_card(kind@, name@, persona@, memory@, status@, uptime@, match task {
            Some(t) => Some(t@),
            None => None,
        }, border),
{
    let mut r: Vec<Piece> = Vec::new();
    push_piece(&mut r, cat(&cat(&str_chars("  ["), &str_chars(kind)), &str_chars("]    ")), fg_look(border));
    push_piece(&mut r, str_chars(status_dot(status)), fg_look(status_tone_exec(status)));
    push_piece(&mut r, str_chars(" "), plain_look());
    push_piece(&mut r, str_chars(name), bold_look(Tone::White));
    push_piece(&mut r, cat(&cat(&str_chars(" persona="), &str_chars(persona)), &str_chars(" ")), fg_look(Tone::Rgb(180, 130, 255)));
    push_piece(&mut r, cat(&cat(&str_chars("mem="), &str_chars(memory)), &str_chars(" ")), fg_look(Tone::Rgb(100, 180, 255)));
    push_piece(&mut r, cat(&str_chars("up="), &str_chars(fmt_duration(uptime).as_str())), fg_look(Tone::DarkGray));
    let t = match task {
        Some(t) => cat(&str_chars("\n      task: "), &first_chars(&str_chars(t), 80)),
        None => Vec::new(),
    };
    push_piece(&mut r, t, fg_look(Tone::White));
    assert(row_view(r@) =~= cluster_card(kind@, name@, persona@, memory@, status@, uptime@, match task {
        Some(t) => Some(t@),
        None => None,
    }, border));
    r
}

} // verus!
