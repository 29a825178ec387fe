//! The cluster overview at its wider sizes: the column of cards, the rows of pair
//! blocks under MAIN, and the choice among the layouts by the panel's width.
use vstd::prelude::*;
use crate::styled::{
    append_rows, bold, bold_look, cat, fg, fg_look, line1, push_piece, push_pieces, push_row, rep,
    rep_exec, row1, row_view, rows_view, Look, Piece, Tone,
};
use crate::text::{str_chars, str_views};
use crate::cluster::PeerInstance;
use crate::cluster_layout::{
    cards_per_row, cards_per_row_spec, dash_prefix, dash_prefix_exec, group_ok, group_peers_by_pair,
    groups_spec, idx_views, lemma_groups_partition, order_peers, peer_names, peer_order,
    pick_cluster_tier, ClusterTier,
};
use crate::cluster::{array_objects_spec, parse_peers, peer_matches};
use crate::cluster_view::{main_info, main_info_ok, MainInfo};
use crate::chat_view::sat_sub;
use crate::cluster_view::plain;
use crate::cluster_cards::{
    activity_dot, activity_mark, format_last_seen, indented_rows, last_seen, layout_order, peer_card,
    peer_card_rows, peer_name_strings, push_indented, tiny_layout, tiny_layout_rows, PeerActivity,
};

verus! {

/// The look of the tree's connectors.
pub open spec fn connector() -> Look {
    fg(Tone::Rgb(90, 90, 110))
}

/// A peer's card as the overview draws it: its activity dot, when it was last heard
/// from, and a bold frame when it is the selected one (selection counts MAIN as 0).
pub open spec fn card_of(peers: Seq<PeerInstance>, acts: Seq<PeerActivity>, idx: int, selection: nat, card_w: nat) -> Seq<Seq<(Seq<char>, Look)>> {
    let (dot, tone) = activity_mark(acts[idx]);
    peer_card(peers[idx], last_seen(acts[idx]), dot, tone, selection == idx + 1, card_w)
}

fn card_rows(peers: &[PeerInstance], acts: &[PeerActivity], idx: usize, selection: usize, card_w: usize) -> (r: Vec<Vec<Piece>>)
    requires
        idx < peers@.len(),
        acts@.len() == peers@.len(),
    ensures
        rows_view(r@) == card_of(peers@, acts@, idx as int, selection as nat, card_w as nat),
{
    let (dot, tone) = activity_dot(acts[idx]);
    let last = format_last_seen(acts[idx]);
    peer_card_rows(&peers[idx], &last, dot, tone, selection == idx + 1, card_w)
}

/// The title over a pair of peers.
pub open spec fn pair_header(prefix: Seq<char>) -> Seq<char> {
    "── "@ + prefix + " pair ──"@
}

fn pair_header_exec(name: &str) -> (r: Vec<char>)
    ensures
        r@ == pair_header(dash_prefix(name@)),
{
    cat(&cat(&str_chars("── "), &dash_prefix_exec(&str_chars(name))), &str_chars(" pair ──"))
}

pub(crate) fn blank_row() -> (r: Vec<Piece>)
    ensures
        row_view(r@) == Seq::<(Seq<char>, Look)>::empty(),
{
    let r: Vec<Piece> = Vec::new();
    assert(row_view(r@) =~= Seq::<(Seq<char>, Look)>::empty());
    r
}

pub(crate) fn plain_look() -> (l: Look)
    ensures
        l == plain(),
{
    Look { fg: Tone::Reset, bg: Tone::Reset, bold: false, blink: false, italic: false }
}

// ───────────────────────── one column of cards ─────────────────────────

/// The width of a card in the one-column layout: the panel less the indent and a
/// margin, at least 22.
pub open spec fn narrow_card_w(area_w: nat) -> nat {
    let w = sat_sub(area_w, 6);
    if w < 22 {
        22
    } else {
        w
    }
}

/// The column of the cards' centre in the one-column layout.
pub open spec fn narrow_center(card_w: nat) -> nat {
    4 + sat_sub(card_w, 1) / 2
}

/// A group in the one-column layout: a pair gets a title, both cards and a link between
/// them; a lone peer gets one line with its dot, the selection marker and its name.
pub open spec fn narrow_group(peers: Seq<PeerInstance>, acts: Seq<PeerActivity>, g: Seq<usize>, selection: nat, card_w: nat) -> Seq<Seq<(Seq<char>, Look)>> {
    if g.len() == 2 {
        let header = pair_header(dash_prefix(peers[g[0] as int].name@));
        seq![seq![(rep(' ', 4 + sat_sub(card_w, header.len()) / 2), plain()), (header, fg(Tone::DarkGray))]]
            + indented_rows(card_of(peers, acts, g[0] as int, selection, card_w), 4)
            + seq![seq![(rep(' ', sat_sub(narrow_center(card_w), 3)), plain()), ("↕ pair"@, connector())]]
            + indented_rows(card_of(peers, acts, g[1] as int, selection, card_w), 4)
    } else {
        let idx = g[0] as int;
        let (dot, tone) = activity_mark(acts[idx]);
        seq![seq![
            (rep(' ', 4), plain()),
            (seq![dot], fg(tone)),
            (" "@, plain()),
            (if selection == idx + 1 { "▶ "@ } else { "  "@ }, plain()),
            (peers[idx].name@, fg(Tone::White)),
        ]]
    }
}

/// The first `k` groups of the one-column layout, a blank line between groups.
pub open spec fn narrow_groups(peers: Seq<PeerInstance>, acts: Seq<PeerActivity>, gs: Seq<Seq<usize>>, k: int, selection: nat, card_w: nat) -> Seq<Seq<(Seq<char>, Look)>>
    decreases k,
{
    if k <= 0 {
        seq![]
    } else {
        narrow_groups(peers, acts, gs, k - 1, selection, card_w) + narrow_group(peers, acts, gs[k - 1], selection, card_w)
            + if k < gs.len() {
            seq![seq![]]
        } else {
            seq![]
        }
    }
}

/// The one-column layout: MAIN's dot and name over the cards' centre, a trunk, then
/// each group of peers.
pub open spec fn narrow_layout(main_name: Seq<char>, main_active: bool, peers: Seq<PeerInstance>, acts: Seq<PeerActivity>, selection: nat, area_w: nat) -> Seq<Seq<(Seq<char>, Look)>> {
    let card_w = narrow_card_w(area_w);
    let center = narrow_center(card_w);
    let gs = groups_spec(peer_names(peers));
    seq![
        seq![
            (rep(' ', sat_sub(center, 2)), plain()),
            ("●"@, fg(if main_active { Tone::Green } else { Tone::DarkGray })),
            (" "@, plain()),
            (main_name, if selection == 0 { bold(Tone::Cyan) } else { fg(Tone::White) }),
        ],
        line1(rep(' ', center) + "│"@, connector()),
    ] + narrow_groups(peers, acts, gs, gs.len() as int, selection, card_w)
}

fn narrow_group_rows(peers: &[PeerInstance], acts: &[PeerActivity], g: &Vec<usize>, selection: usize, card_w: usize) -> (r: Vec<Vec<Piece>>)
    requires
        acts@.len() == peers@.len(),
        group_ok(peer_names(peers@), g@),
    ensures
        rows_view(r@) == narrow_group(peers@, acts@, g@, selection as nat, card_w as nat),
{
    let mut rows: Vec<Vec<Piece>> = Vec::new();
    if g.len() == 2 {
        let header = pair_header_exec(peers[g[0]].name.as_str());
        let hl = header.len();
        let pad: usize = 4 + (if card_w >= hl { card_w - hl } else { 0 }) / 2;
        let center: usize = 4 + (if card_w >= 1 { card_w - 1 } else { 0 }) / 2;
        let ghost hv = header@;
        let mut h: Vec<Piece> = Vec::new();
        push_piece(&mut h, rep_exec(' ', pad), plain_look());
        push_piece(&mut h, header, fg_look(Tone::DarkGray));
        assert(row_view(h@) =~= seq![(rep(' ', pad as nat), plain()), (hv, fg(Tone::DarkGray))]);
        push_row(&mut rows, h);
        push_indented(&mut rows, card_rows(peers, acts, g[0], selection, card_w), 4);
        let mut l: Vec<Piece> = Vec::new();
        push_piece(&mut l, rep_exec(' ', if center >= 3 { center - 3 } else { 0 }), plain_look());
        push_piece(&mut l, str_chars("↕ pair"), fg_look(Tone::Rgb(90, 90, 110)));
        assert(row_view(l@) =~= seq![(rep(' ', sat_sub(center as nat, 3)), plain()), ("↕ pair"@, connector())]);
        let ghost r0 = rows_view(rows@);
        push_row(&mut rows, l);
        push_indented(&mut rows, card_rows(peers, acts, g[1], selection, card_w), 4);
        assert(hv == pair_header(dash_prefix(peers@[g@[0] as int].name@)));
        assert(center as nat == narrow_center(card_w as nat));
        assert(rows_view(rows@) =~= narrow_group(peers@, acts@, g@, selection as nat, card_w as nat));
    } else {
        let idx = g[0];
        let (dot, tone) = activity_dot(acts[idx]);
        let dv = vec![dot];
        assert(dv@ =~= seq![dot]);
        let mut r: Vec<Piece> = Vec::new();
        push_piece(&mut r, rep_exec(' ', 4), plain_look());
        push_piece(&mut r, dv, fg_look(tone));
        push_piece(&mut r, str_chars(" "), plain_look());
        push_piece(&mut r, if selection == idx + 1 { str_chars("▶ ") } else { str_chars("  ") }, plain_look());
        push_piece(&mut r, str_chars(peers[idx].name.as_str()), fg_look(Tone::White));
        assert(row_view(r@) =~= seq![
            (rep(' ', 4), plain()),
            (seq![dot], fg(tone)),
            (" "@, plain()),
            (if selection == idx + 1 { "▶ "@ } else { "  "@ }, plain()),
            (peers@[idx as int].name@, fg(Tone::White)),
        ]);
        push_row(&mut rows, r);
        assert(rows_view(rows@) =~= narrow_group(peers@, acts@, g@, selection as nat, card_w as nat));
    }
    rows
}

/// The one-column layout of the cluster overview.
pub fn narrow_layout_rows(main_name: &str, main_active: bool, peers: &[PeerInstance], acts: &[PeerActivity], selection: usize, area_w: u16) -> (r: Vec<Vec<Piece>>)
    requires
        acts@.len() == peers@.len(),
    ensures
        rows_view(r@) == narrow_layout(main_name@, main_active, peers@, acts@, selection as nat, area_w as nat),
{
    let aw = area_w as usize;
    let w0: usize = if aw >= 6 { aw - 6 } else { 0 };
    let card_w: usize = if w0 < 22 { 22 } else { w0 };
    let center: usize = 4 + (card_w - 1) / 2;
    let mut rows: Vec<Vec<Piece>> = Vec::new();
    let mut m: Vec<Piece> = Vec::new();
    push_piece(&mut m, rep_exec(' ', center - 2), plain_look());
    push_piece(&mut m, str_chars("●"), fg_look(if main_active { Tone::Green } else { Tone::DarkGray }));
    push_piece(&mut m, str_chars(" "), plain_look());
    push_piece(&mut m, str_chars(main_name), if selection == 0 { bold_look(Tone::Cyan) } else { fg_look(Tone::White) });
    assert(row_view(m@) =~= seq![
        (rep(' ', sat_sub(center as nat, 2)), plain()),
        ("●"@, fg(if main_active { Tone::Green } else { Tone::DarkGray })),
        (" "@, plain()),
        (main_name@, if selection == 0 { bold(Tone::Cyan) } else { fg(Tone::White) }),
    ]);
    push_row(&mut rows, m);
    push_row(&mut rows, row1(cat(&rep_exec(' ', center), &str_chars("│")), fg_look(Tone::Rgb(90, 90, 110))));
    let names = peer_name_strings(peers);
    let groups = group_peers_by_pair(&names);
    let ghost gs = idx_views(groups@);
    let ghost nv = str_views(names@);
    let nl = names.len();
    proof {
        assert(nv.len() == nl);
        lemma_groups_partition(nv);
    }
    let ghost start = rows_view(rows@);
    assert(start =~= seq![
        seq![
            (rep(' ', sat_sub(center as nat, 2)), plain()),
            ("●"@, fg(if main_active { Tone::Green } else { Tone::DarkGray })),
            (" "@, plain()),
            (main_name@, if selection == 0 { bold(Tone::Cyan) } else { fg(Tone::White) }),
        ],
        line1(rep(' ', center as nat) + "│"@, connector()),
    ]);
    let ng = groups.len();
    for k in 0..ng
        invariant
            ng == groups@.len(),
            gs == idx_views(groups@),
            gs == groups_spec(peer_names(peers@)),
            nv == peer_names(peers@),
            acts@.len() == peers@.len(),
            forall|m: int| 0 <= m < gs.len() ==> group_ok(nv, #[trigger] gs[m]),
            rows_view(rows@) == start + narrow_groups(peers@, acts@, gs, k as int, selection as nat, card_w as nat),
    {
        assert(gs[k as int] == groups@[k as int]@);
        assert(group_ok(nv, gs[k as int]));
        let ghost before = rows_view(rows@);
        let grows = narrow_group_rows(peers, acts, &groups[k], selection, card_w);
        append_rows(&mut rows, grows);
        if k + 1 < ng {
            push_row(&mut rows, blank_row());
        }
        assert(rows_view(rows@) =~= start + narrow_groups(peers@, acts@, gs, k + 1, selection as nat, card_w as nat));
    }
    rows
}

// ───────────────────────── rows of pair blocks ─────────────────────────

/// How many groups stand side by side: two in the wide layout, one otherwise.
pub open spec fn per_row(wide: bool) -> nat {
    if wide {
        2
    } else {
        1
    }
}

/// The width of a card when the blocks of a row fill the panel, at least 22.
pub open spec fn block_card_w(area_w: nat, wide: bool) -> nat {
    let w = if wide {
        sat_sub(area_w, 24) / 4
    } else {
        sat_sub(area_w, 12) / 2
    };
    if w < 22 {
        22
    } else {
        w
    }
}

/// The width of a group's block: two cards and the link between them, or one card.
pub open spec fn block_w(g: Seq<usize>, card_w: nat) -> nat {
    if g.len() == 2 {
        card_w * 2 + 8
    } else {
        card_w
    }
}

/// The width of MAIN's box: half the width of a full row of blocks, within 44 to 96.
pub open spec fn main_w(card_w: nat, wide: bool) -> nat {
    let row_w: nat = if wide {
        2 * (2 * card_w + 8) + 4
    } else {
        2 * card_w + 8
    };
    let h = row_w / 2;
    if h < 44 {
        44
    } else if h > 96 {
        96
    } else {
        h
    }
}

/// Where the `c`-th row of blocks starts among the groups.
pub open spec fn chunk_start(c: int, wide: bool) -> int {
    if wide {
        2 * c
    } else {
        c
    }
}

/// The groups of the `c`-th row of blocks.
pub open spec fn chunk(gs: Seq<Seq<usize>>, c: int, wide: bool) -> Seq<Seq<usize>> {
    let st = chunk_start(c, wide);
    let en = if st + per_row(wide) < gs.len() {
        st + per_row(wide)
    } else {
        gs.len() as int
    };
    gs.subrange(st, en)
}

/// How many rows of blocks the groups fill.
pub open spec fn chunk_count(n: nat, wide: bool) -> nat {
    if wide {
        (n + 1) / 2
    } else {
        n
    }
}

/// A block's title: the pair's name prefix, or "solo".
pub open spec fn block_title(peers: Seq<PeerInstance>, g: Seq<usize>) -> Seq<char> {
    if g.len() == 2 {
        pair_header(dash_prefix(peers[g[0] as int].name@))
    } else {
        "── solo ──"@
    }
}

/// A row of a block's cards: for a pair, the two cards' rows with the link between
/// them, which reads "pair" on the name row.
pub open spec fn block_body_row(peers: Seq<PeerInstance>, acts: Seq<PeerActivity>, g: Seq<usize>, selection: nat, card_w: nat, li: int) -> Seq<(Seq<char>, Look)> {
    let c0 = card_of(peers, acts, g[0] as int, selection, card_w);
    if g.len() == 2 {
        c0[li] + seq![(" "@, plain()), (if li == 1 { "─pair──"@ } else { rep(' ', 7) }, connector())]
            + card_of(peers, acts, g[1] as int, selection, card_w)[li]
    } else {
        c0[li]
    }
}

/// A group's block: its title centred over its width, then the rows of its cards.
pub open spec fn block(peers: Seq<PeerInstance>, acts: Seq<PeerActivity>, g: Seq<usize>, selection: nat, card_w: nat) -> Seq<Seq<(Seq<char>, Look)>> {
    let bw = block_w(g, card_w);
    let title = block_title(peers, g);
    let left = sat_sub(bw, title.len()) / 2;
    let right = sat_sub(bw, left + title.len());
    seq![seq![(rep(' ', left), plain()), (title, fg(Tone::DarkGray)), (rep(' ', right), plain()),]]
        + Seq::new(6, |li: int| block_body_row(peers, acts, g, selection, card_w, li))
}

/// A row of blocks side by side, indented by 2 and 4 apart, then a blank line.
pub open spec fn chunk_rows(peers: Seq<PeerInstance>, acts: Seq<PeerActivity>, ch: Seq<Seq<usize>>, selection: nat, card_w: nat) -> Seq<Seq<(Seq<char>, Look)>> {
    Seq::new(
        7,
        |li: int|
            seq![(rep(' ', 2), plain())] + block(peers, acts, ch[0], selection, card_w)[li] + if ch.len() == 2 {
                seq![(rep(' ', 4), plain())] + block(peers, acts, ch[1], selection, card_w)[li]
            } else {
                seq![]
            },
    ) + seq![seq![]]
}

/// The first `c` rows of blocks.
pub open spec fn chunks_rows(peers: Seq<PeerInstance>, acts: Seq<PeerActivity>, gs: Seq<Seq<usize>>, c: int, selection: nat, card_w: nat, wide: bool) -> Seq<Seq<(Seq<char>, Look)>>
    decreases c,
{
    if c <= 0 {
        seq![]
    } else {
        chunks_rows(peers, acts, gs, c - 1, selection, card_w, wide) + chunk_rows(peers, acts, chunk(gs, c - 1, wide), selection, card_w)
    }
}

/// The column of the centre of each block of the first row, at most two.
pub open spec fn first_centers(gs: Seq<Seq<usize>>, card_w: nat, wide: bool) -> Seq<nat> {
    let ch = chunk(gs, 0, wide);
    let c0: nat = 2 + sat_sub(block_w(ch[0], card_w), 1) / 2;
    if ch.len() == 2 {
        seq![c0, 2 + block_w(ch[0], card_w) + 4 + sat_sub(block_w(ch[1], card_w), 1) / 2]
    } else {
        seq![c0]
    }
}

/// The column MAIN's box starts at: its centre over the centre of the first row's
/// blocks (the midpoint of two).
pub open spec fn main_indent(gs: Seq<Seq<usize>>, card_w: nat, wide: bool) -> nat {
    let cs = first_centers(gs, card_w, wide);
    let center = if cs.len() == 1 {
        cs[0]
    } else {
        (cs[0] + cs[1]) / 2
    };
    sat_sub(center, sat_sub(main_w(card_w, wide), 1) / 2)
}

/// The line that fans the trunk out to two blocks: ┌ and ┐ over the blocks' centres,
/// ─ between, and ┴ (┼ over a block's centre) where the trunk comes down.
pub open spec fn fan_line(lo: nat, hi: nat, mc: nat) -> Seq<char> {
    Seq::new(
        (if hi < mc { mc } else { hi }) + 1,
        |j: int|
            if j == mc && lo <= j <= hi {
                if j == lo || j == hi {
                    '┼'
                } else {
                    '┴'
                }
            } else if j == lo {
                '┌'
            } else if j == hi {
                '┐'
            } else if lo < j < hi {
                '─'
            } else {
                ' '
            },
    )
}

/// The line that drops from the fan to the two blocks.
pub open spec fn drop_line(lo: nat, hi: nat) -> Seq<char> {
    Seq::new(hi + 1, |j: int| if j == lo || j == hi { '│' } else { ' ' })
}

/// The layout with rows of pair blocks: MAIN's box over the first row's centre, a
/// trunk (fanning out to two blocks in the wide layout), then each row of blocks.
/// Without peers, MAIN's box and a note.
pub open spec fn blocks_layout(
    main_name: Seq<char>,
    main_status: Seq<char>,
    persona: Seq<char>,
    mem: Seq<char>,
    up: Seq<char>,
    task: Seq<char>,
    pending: Seq<char>,
    peers: Seq<PeerInstance>,
    acts: Seq<PeerActivity>,
    selection: nat,
    wide: bool,
    area_w: nat,
) -> Seq<Seq<(Seq<char>, Look)>> {
    let gs = groups_spec(peer_names(peers));
    if gs.len() == 0 {
        indented_rows(crate::cluster_cards::main_box(main_name, main_status, persona, mem, up, task, pending, selection == 0, 46), 2)
            + seq![seq![], seq![(rep(' ', 2), plain()), ("(no live children)"@, fg(Tone::DarkGray))]]
    } else {
        let cw = block_card_w(area_w, wide);
        let mw = main_w(cw, wide);
        let mi = main_indent(gs, cw, wide);
        let mc = mi + sat_sub(mw, 1) / 2;
        let cs = first_centers(gs, cw, wide);
        indented_rows(crate::cluster_cards::main_box(main_name, main_status, persona, mem, up, task, pending, selection == 0, sat_sub(mw, 2)), mi)
            + seq![line1(rep(' ', mc) + "│"@, connector())]
            + (if cs.len() == 2 {
            seq![line1(fan_line(cs[0], cs[1], mc), connector()), line1(drop_line(cs[0], cs[1]), connector())]
        } else {
            seq![]
        }) + chunks_rows(peers, acts, gs, chunk_count(gs.len(), wide) as int, selection, cw, wide)
    }
}


fn block_rows(peers: &[PeerInstance], acts: &[PeerActivity], g: &Vec<usize>, selection: usize, card_w: usize) -> (r: Vec<Vec<Piece>>)
    requires
        acts@.len() == peers@.len(),
        group_ok(peer_names(peers@), g@),
        card_w <= 100_000,
    ensures
        rows_view(r@) == block(peers@, acts@, g@, selection as nat, card_w as nat),
        r@.len() == 7,
{
    let two = g.len() == 2;
    let bw: usize = if two { card_w * 2 + 8 } else { card_w };
    let title = if two { pair_header_exec(peers[g[0]].name.as_str()) } else { str_chars("── solo ──") };
    let tl = title.len();
    let left: usize = (if bw >= tl { bw - tl } else { 0 }) / 2;
    let right: usize = if bw >= tl { bw - tl - left } else { 0 };
    let ghost tv = title@;
    assert(tv == block_title(peers@, g@));
    let mut rows: Vec<Vec<Piece>> = Vec::new();
    let mut h: Vec<Piece> = Vec::new();
    push_piece(&mut h, rep_exec(' ', left), plain_look());
    push_piece(&mut h, title, fg_look(Tone::DarkGray));
    push_piece(&mut h, rep_exec(' ', right), plain_look());
    assert(row_view(h@) =~= seq![(rep(' ', left as nat), plain()), (tv, fg(Tone::DarkGray)), (rep(' ', right as nat), plain())]);
    push_row(&mut rows, h);
    let ghost head = rows_view(rows@);
    let ghost body = Seq::new(6, |li: int| block_body_row(peers@, acts@, g@, selection as nat, card_w as nat, li));
    let c0 = card_rows(peers, acts, g[0], selection, card_w);
    let c1 = if two { card_rows(peers, acts, g[1], selection, card_w) } else { Vec::new() };
    let ghost v0 = rows_view(c0@);
    let ghost v1 = rows_view(c1@);
    assert(v0.len() == 6);
    assert(two ==> v1 == card_of(peers@, acts@, g@[1] as int, selection as nat, card_w as nat));
    for li in 0..6
        invariant
            rows_view(c0@) == v0,
            rows_view(c1@) == v1,
            v0 == card_of(peers@, acts@, g@[0] as int, selection as nat, card_w as nat),
            two == (g@.len() == 2),
            two ==> v1 == card_of(peers@, acts@, g@[1] as int, selection as nat, card_w as nat),
            v0.len() == 6,
            two ==> v1.len() == 6,
            body == Seq::new(6, |li: int| block_body_row(peers@, acts@, g@, selection as nat, card_w as nat, li)),
            rows_view(rows@) == head + body.take(li as int),
    {
        let mut r: Vec<Piece> = Vec::new();
        assert(row_view(c0@[li as int]@) == v0[li as int]);
        push_pieces(&mut r, &c0[li]);
        if two {
            push_piece(&mut r, str_chars(" "), plain_look());
            push_piece(&mut r, if li == 1 { str_chars("─pair──") } else { rep_exec(' ', 7) }, fg_look(Tone::Rgb(90, 90, 110)));
            assert(row_view(c1@[li as int]@) == v1[li as int]);
            push_pieces(&mut r, &c1[li]);
        }
        assert(row_view(r@) =~= body[li as int]);
        push_row(&mut rows, r);
        assert(head + body.take(li + 1) =~= (head + body.take(li as int)).push(body[li as int]));
    }
    assert(body.take(6) =~= body);
    assert(rows_view(rows@) =~= block(peers@, acts@, g@, selection as nat, card_w as nat));
    rows
}

fn chunk_rows_exec(peers: &[PeerInstance], acts: &[PeerActivity], groups: &Vec<Vec<usize>>, st: usize, en: usize, selection: usize, card_w: usize) -> (r: Vec<Vec<Piece>>)
    requires
        acts@.len() == peers@.len(),
        st < en <= groups@.len(),
        en - st <= 2,
        forall|m: int| 0 <= m < groups@.len() ==> group_ok(peer_names(peers@), #[trigger] groups@[m]@),
        card_w <= 100_000,
    ensures
        rows_view(r@) == chunk_rows(peers@, acts@, idx_views(groups@).subrange(st as int, en as int), selection as nat, card_w as nat),
{
    let ghost ch = idx_views(groups@).subrange(st as int, en as int);
    let two = en - st == 2;
    assert(ch[0] == groups@[st as int]@);
    assert(group_ok(peer_names(peers@), groups@[st as int]@));
    let b0 = block_rows(peers, acts, &groups[st], selection, card_w);
    let b1 = if two {
        assert(ch[1] == groups@[st + 1]@);
        assert(group_ok(peer_names(peers@), groups@[st + 1]@));
        block_rows(peers, acts, &groups[st + 1], selection, card_w)
    } else {
        Vec::new()
    };
    let ghost v0 = rows_view(b0@);
    let ghost v1 = rows_view(b1@);
    let ghost all = Seq::new(
        7,
        |li: int|
            seq![(rep(' ', 2), plain())] + block(peers@, acts@, ch[0], selection as nat, card_w as nat)[li] + if ch.len() == 2 {
                seq![(rep(' ', 4), plain())] + block(peers@, acts@, ch[1], selection as nat, card_w as nat)[li]
            } else {
                seq![]
            },
    );
    let mut rows: Vec<Vec<Piece>> = Vec::new();
    for li in 0..7
        invariant
            rows_view(b0@) == v0,
            rows_view(b1@) == v1,
            b0@.len() == 7,
            two ==> b1@.len() == 7,
            v0 == block(peers@, acts@, ch[0], selection as nat, card_w as nat),
            two == (ch.len() == 2),
            two ==> v1 == block(peers@, acts@, ch[1], selection as nat, card_w as nat),
            all == Seq::new(
                7,
                |li: int|
                    seq![(rep(' ', 2), plain())] + block(peers@, acts@, ch[0], selection as nat, card_w as nat)[li] + if ch.len() == 2 {
                        seq![(rep(' ', 4), plain())] + block(peers@, acts@, ch[1], selection as nat, card_w as nat)[li]
                    } else {
                        seq![]
                    },
            ),
            rows_view(rows@) == all.take(li as int),
    {
        let mut r: Vec<Piece> = Vec::new();
        push_piece(&mut r, rep_exec(' ', 2), plain_look());
        assert(row_view(b0@[li as int]@) == v0[li as int]);
        push_pieces(&mut r, &b0[li]);
        if two {
            push_piece(&mut r, rep_exec(' ', 4), plain_look());
            assert(row_view(b1@[li as int]@) == v1[li as int]);
            push_pieces(&mut r, &b1[li]);
        }
        assert(row_view(r@) =~= all[li as int]);
        push_row(&mut rows, r);
        assert(all.take(li + 1) =~= all.take(li as int).push(all[li as int]));
    }
    assert(all.take(7) =~= all);
    push_row(&mut rows, blank_row());
    assert(rows_view(rows@) =~= chunk_rows(peers@, acts@, ch, selection as nat, card_w as nat));
    rows
}

fn fan_line_exec(lo: usize, hi: usize, mc: usize) -> (r: Vec<char>)
    requires
        hi < 1_000_000,
        mc < 1_000_000,
    ensures
        r@ == fan_line(lo as nat, hi as nat, mc as nat),
{
    let width: usize = (if hi < mc { mc } else { hi }) + 1;
    let mut r: Vec<char> = Vec::new();
    for j in 0..width
        invariant
            width == (if hi < mc { mc } else { hi }) + 1,
            r@ =~= fan_line(lo as nat, hi as nat, mc as nat).take(j as int),
    {
        let c = if j == mc && lo <= j && j <= hi {
            if j == lo || j == hi { '┼' } else { '┴' }
        } else if j == lo {
            '┌'
        } else if j == hi {
            '┐'
        } else if lo < j && j < hi {
            '─'
        } else {
            ' '
        };
        r.push(c);
        assert(fan_line(lo as nat, hi as nat, mc as nat).take(j + 1) =~= fan_line(lo as nat, hi as nat, mc as nat).take(j as int).push(c));
    }
    assert(fan_line(lo as nat, hi as nat, mc as nat).take(width as int) =~= fan_line(lo as nat, hi as nat, mc as nat));
    r
}

fn drop_line_exec(lo: usize, hi: usize) -> (r: Vec<char>)
    requires
        hi < 1_000_000,
    ensures
        r@ == drop_line(lo as nat, hi as nat),
{
    let mut r: Vec<char> = Vec::new();
    for j in 0..hi + 1
        invariant
            r@ =~= drop_line(lo as nat, hi as nat).take(j as int),
    {
        let c = if j == lo || j == hi { '│' } else { ' ' };
        r.push(c);
        assert(drop_line(lo as nat, hi as nat).take(j + 1) =~= drop_line(lo as nat, hi as nat).take(j as int).push(c));
    }
    assert(drop_line(lo as nat, hi as nat).take(hi + 1) =~= drop_line(lo as nat, hi as nat));
    r
}

fn no_children_rows(main_name: &str, main_status: &str, persona: &str, mem: &str, up: &str, task: &str, pending: &str, selected: bool) -> (r: Vec<Vec<Piece>>)
    ensures
        rows_view(r@) == indented_rows(crate::cluster_cards::main_box(main_name@, main_status@, persona@, mem@, up@, task@, pending@, selected, 46), 2)
            + seq![seq![], seq![(rep(' ', 2), plain()), ("(no live children)"@, fg(Tone::DarkGray))]],
{
    let mut rows: Vec<Vec<Piece>> = Vec::new();
    push_indented(&mut rows, crate::cluster_cards::main_box_rows(main_name, main_status, persona, mem, up, task, pending, selected, 46), 2);
    let ghost a = rows_view(rows@);
    push_row(&mut rows, blank_row());
    let mut note: Vec<Piece> = Vec::new();
    push_piece(&mut note, rep_exec(' ', 2), plain_look());
    push_piece(&mut note, str_chars("(no live children)"), fg_look(Tone::DarkGray));
    assert(row_view(note@) =~= seq![(rep(' ', 2), plain()), ("(no live children)"@, fg(Tone::DarkGray))]);
    push_row(&mut rows, note);
    assert(rows_view(rows@) =~= a + seq![seq![], seq![(rep(' ', 2), plain()), ("(no live children)"@, fg(Tone::DarkGray))]]);
    rows
}

/// Where things stand in the blocks layout: the card width, MAIN's width, whether the
/// first row holds two blocks, their centres, MAIN's indent and centre.
struct Geometry {
    cw: usize,
    mw: usize,
    two: bool,
    c0: usize,
    c1: usize,
    mi: usize,
    mc: usize,
}

fn widths(wide: bool, area_w: u16) -> (r: (usize, usize))
    ensures
        r.0 as nat == block_card_w(area_w as nat, wide),
        22 <= r.0 <= 100_000,
        r.1 as nat == main_w(r.0 as nat, wide),
        44 <= r.1 <= 96,
{
    let aw = area_w as usize;
    let w: usize = if wide {
        (if aw >= 24 { aw - 24 } else { 0 }) / 4
    } else {
        (if aw >= 12 { aw - 12 } else { 0 }) / 2
    };
    let cw: usize = if w < 22 { 22 } else { w };
    let row_w: usize = if wide { 2 * (2 * cw + 8) + 4 } else { 2 * cw + 8 };
    let hw = row_w / 2;
    let mw: usize = if hw < 44 { 44 } else if hw > 96 { 96 } else { hw };
    (cw, mw)
}

fn geometry(groups: &Vec<Vec<usize>>, wide: bool, area_w: u16) -> (g: Geometry)
    requires
        groups@.len() > 0,
    ensures
        g.cw as nat == block_card_w(area_w as nat, wide),
        g.cw <= 100_000,
        g.mw as nat == main_w(g.cw as nat, wide),
        g.mw >= 44,
        g.two == (first_centers(idx_views(groups@), g.cw as nat, wide).len() == 2),
        g.two ==> first_centers(idx_views(groups@), g.cw as nat, wide) == seq![g.c0 as nat, g.c1 as nat],
        g.mi as nat == main_indent(idx_views(groups@), g.cw as nat, wide),
        g.mc as nat == g.mi + sat_sub(g.mw as nat, 1) / 2,
        g.c1 < 1_000_000,
        g.mc < 1_000_000,
{
    let ghost gs = idx_views(groups@);
    let ng = groups.len();
    let (cw, mw) = widths(wide, area_w);
    let bw0: usize = if groups[0].len() == 2 { cw * 2 + 8 } else { cw };
    let c0: usize = 2 + (bw0 - 1) / 2;
    let two = wide && ng >= 2;
    let c1: usize = if two {
        let bw1: usize = if groups[1].len() == 2 { cw * 2 + 8 } else { cw };
        2 + bw0 + 4 + (bw1 - 1) / 2
    } else {
        0
    };
    let center: usize = if two { (c0 + c1) / 2 } else { c0 };
    let half: usize = (mw - 1) / 2;
    let mi: usize = if center >= half { center - half } else { 0 };
    let mc: usize = mi + half;
    proof {
        let ch = chunk(gs, 0, wide);
        assert(ch =~= gs.subrange(0, if two { 2int } else { 1int }));
        assert(ch[0] == groups@[0]@);
        assert(block_w(ch[0], cw as nat) == bw0);
        if two {
            assert(ch[1] == groups@[1]@);
        }
        let fc = first_centers(gs, cw as nat, wide);
        assert(fc =~= if two { seq![c0 as nat, c1 as nat] } else { seq![c0 as nat] });
        assert(center as nat == if fc.len() == 1 { fc[0] } else { (fc[0] + fc[1]) / 2 });
    }
    Geometry { cw, mw, two, c0, c1, mi, mc }
}

fn chunks_exec(peers: &[PeerInstance], acts: &[PeerActivity], groups: &Vec<Vec<usize>>, selection: usize, cw: usize, wide: bool) -> (r: Vec<Vec<Piece>>)
    requires
        acts@.len() == peers@.len(),
        cw <= 100_000,
        forall|m: int| 0 <= m < groups@.len() ==> group_ok(peer_names(peers@), #[trigger] groups@[m]@),
    ensures
        rows_view(r@) == chunks_rows(peers@, acts@, idx_views(groups@), chunk_count(groups@.len(), wide) as int, selection as nat, cw as nat, wide),
{
    let ghost gs = idx_views(groups@);
    let ng = groups.len();
    let mut rows: Vec<Vec<Piece>> = Vec::new();
    let count: usize = if wide { ng / 2 + ng % 2 } else { ng };
    assert(count as nat == chunk_count(ng as nat, wide));
    for c in 0..count
        invariant
            count == chunk_count(ng as nat, wide),
            ng == groups@.len(),
            gs == idx_views(groups@),
            acts@.len() == peers@.len(),
            cw <= 100_000,
            forall|m: int| 0 <= m < groups@.len() ==> group_ok(peer_names(peers@), #[trigger] groups@[m]@),
            rows_view(rows@) == chunks_rows(peers@, acts@, gs, c as int, selection as nat, cw as nat, wide),
    {
        let st: usize = if wide { 2 * c } else { c };
        let en: usize = if wide { if ng - st > 2 { st + 2 } else { ng } } else { st + 1 };
        assert(chunk(gs, c as int, wide) =~= gs.subrange(st as int, en as int));
        let part = chunk_rows_exec(peers, acts, groups, st, en, selection, cw);
        append_rows(&mut rows, part);
    }
    rows
}

/// The layout with rows of pair blocks under MAIN (two blocks a row when `wide`).
pub fn blocks_layout_rows(
    main_name: &str,
    main_status: &str,
    persona: &str,
    mem: &str,
    up: &str,
    task: &str,
    pending: &str,
    peers: &[PeerInstance],
    acts: &[PeerActivity],
    selection: usize,
    wide: bool,
    area_w: u16,
) -> (r: Vec<Vec<Piece>>)
    requires
        acts@.len() == peers@.len(),
    ensures
        rows_view(r@) == blocks_layout(main_name@, main_status@, persona@, mem@, up@, task@, pending@, peers@, acts@, selection as nat, wide, area_w as nat),
{
    let names = peer_name_strings(peers);
    let groups = group_peers_by_pair(&names);
    let ghost gs = idx_views(groups@);
    let ghost nv = str_views(names@);
    let nl = names.len();
    proof {
        assert(nv.len() == nl);
        lemma_groups_partition(nv);
    }
    if groups.len() == 0 {
        return no_children_rows(main_name, main_status, persona, mem, up, task, pending, selection == 0);
    }
    assert forall|m: int| 0 <= m < groups@.len() implies group_ok(peer_names(peers@), #[trigger] groups@[m]@) by {
        assert(gs[m] == groups@[m]@);
    }
    let geo = geometry(&groups, wide, area_w);
    let mut rows: Vec<Vec<Piece>> = Vec::new();
    push_indented(&mut rows, crate::cluster_cards::main_box_rows(main_name, main_status, persona, mem, up, task, pending, selection == 0, geo.mw - 2), geo.mi);
    push_row(&mut rows, row1(cat(&rep_exec(' ', geo.mc), &str_chars("│")), fg_look(Tone::Rgb(90, 90, 110))));
    if geo.two {
        push_row(&mut rows, row1(fan_line_exec(geo.c0, geo.c1, geo.mc), fg_look(Tone::Rgb(90, 90, 110))));
        push_row(&mut rows, row1(drop_line_exec(geo.c0, geo.c1), fg_look(Tone::Rgb(90, 90, 110))));
    }
    let ghost pre = rows_view(rows@);
    let more = chunks_exec(peers, acts, &groups, selection, geo.cw, wide);
    append_rows(&mut rows, more);
    rows
}

// ───────────────────────── the choice of layout ─────────────────────────

/// The items of `xs` in the order `order` gives.
pub open spec fn reordered<T>(xs: Seq<T>, order: Seq<usize>) -> Seq<T> {
    Seq::new(order.len(), |k: int| xs[order[k] as int])
}

/// The text of MAIN's task, empty when it has none.
pub open spec fn task_text(m: MainInfo) -> Seq<char> {
    match m.task {
        Some(t) => t@,
        None => seq![],
    }
}

/// The overview for a panel `area_w` wide: the peers (and their activity) reordered so
/// that pairs sit together, then under 40 columns the tree, under 70 the column of
/// cards, otherwise rows of blocks (two a row from 110 columns). MAIN counts as
/// active when its status is "active".
pub open spec fn overview(m: MainInfo, peers: Seq<PeerInstance>, acts: Seq<PeerActivity>, selection: nat, area_w: nat) -> Seq<Seq<(Seq<char>, Look)>> {
    let order = peer_order(peers);
    let ps = reordered(peers, order);
    let ac = reordered(acts, order);
    let active = m.status@ == "active"@;
    if area_w < 40 {
        tiny_layout(m.name@, active, ps, ac, selection)
    } else if area_w < 70 {
        narrow_layout(m.name@, active, ps, ac, selection, area_w)
    } else {
        blocks_layout(m.name@, m.status@, m.persona@, m.memory@, m.uptime@, task_text(m), m.pending@, ps, ac, selection, area_w >= 110, area_w)
    }
}

/// How many cards a visual row holds at a panel width.
pub open spec fn row_cards(area_w: nat) -> usize {
    if area_w < 70 {
        1
    } else if area_w < 110 {
        2
    } else {
        4
    }
}

fn reorder_acts(acts: &[PeerActivity], order: &Vec<usize>) -> (r: Vec<PeerActivity>)
    requires
        forall|k: int| 0 <= k < order@.len() ==> #[trigger] order@[k] < acts@.len(),
    ensures
        r@ == reordered(acts@, order@),
{
    let mut r: Vec<PeerActivity> = Vec::new();
    for k in 0..order.len()
        invariant
            forall|k: int| 0 <= k < order@.len() ==> #[trigger] order@[k] < acts@.len(),
            r@ == reordered(acts@, order@).take(k as int),
    {
        r.push(acts[order[k]]);
        assert(reordered(acts@, order@).take(k + 1) =~= reordered(acts@, order@).take(k as int).push(acts@[order@[k as int] as int]));
    }
    assert(reordered(acts@, order@).take(order@.len() as int) =~= reordered(acts@, order@));
    r
}

/// The cluster overview for MAIN's fields and the peers with their activity (in the
/// order of the report), and how many cards a visual row holds.
pub fn cluster_overview_rows(m: &MainInfo, peers: &[PeerInstance], acts: &[PeerActivity], selection: usize, area_w: u16) -> (r: (Vec<Vec<Piece>>, usize))
    requires
        acts@.len() == peers@.len(),
    ensures
        rows_view(r.0@) == overview(*m, peers@, acts@, selection as nat, area_w as nat),
        r.1 == row_cards(area_w as nat),
{
    let names = peer_name_strings(peers);
    let order = layout_order(&names);
    let pl = peers.len();
    assert(peers@.len() == pl);
    let ps = order_peers(peers);
    let ac = reorder_acts(acts, &order);
    assert(order@ == peer_order(peers@));
    assert(ps@ =~= reordered(peers@, peer_order(peers@)));
    let active = crate::text::chars_eq(&str_chars(m.status.as_str()), &str_chars("active"));
    let tier = pick_cluster_tier(area_w);
    let rows = match tier {
        ClusterTier::Tiny => tiny_layout_rows(m.name.as_str(), active, &ps, &ac, selection),
        ClusterTier::Narrow => narrow_layout_rows(m.name.as_str(), active, &ps, &ac, selection, area_w),
        _ => {
            let task = match &m.task {
                Some(t) => t.clone(),
                None => String::new(),
            };
            proof {
                assert(task@ == task_text(*m));
            }
            blocks_layout_rows(
                m.name.as_str(),
                m.status.as_str(),
                m.persona.as_str(),
                m.memory.as_str(),
                m.uptime.as_str(),
                task.as_str(),
                m.pending.as_str(),
                &ps,
                &ac,
                selection,
                tier == ClusterTier::Wide,
                area_w,
            )
        },
    };
    (rows, cards_per_row(tier))
}


/// The report is a failure notice rather than a report.
pub open spec fn is_failure_notice(s: Seq<char>) -> bool {
    crate::text::starts_with(s, "__ERROR__"@)
}

/// The cluster overview for the latest report, if any: while none has come, a note
/// that it is loading; a failure notice in red; else the overview of MAIN and the peers
/// read from it (with `acts`, the peers' activity in the report's order), with how many
/// cards a visual row holds.
pub fn cluster_lines_responsive(cached: &Option<String>, acts: &[PeerActivity], selection: usize, area_w: u16) -> (r: (Vec<Vec<Piece>>, Option<usize>))
    requires
        match cached {
            Some(j) => !is_failure_notice(j@) ==> acts@.len() == array_objects_spec(j@, "\"peers\""@).len(),
            None => true,
        },
    ensures
        match cached {
            None => rows_view(r.0@) == seq![line1("  Cluster data loading..."@, fg(Tone::DarkGray))] && r.1 is None,
            Some(j) => if is_failure_notice(j@) {
                rows_view(r.0@) == seq![line1(j@, fg(Tone::Red))] && r.1 is None
            } else {
                r.1 == Some(row_cards(area_w as nat)) && exists|m: MainInfo, ps: Seq<PeerInstance>|
                    main_info_ok(j@, m) && ps.len() == array_objects_spec(j@, "\"peers\""@).len() && (forall|i: int|
                        0 <= i < ps.len() ==> peer_matches(#[trigger] ps[i], array_objects_spec(j@, "\"peers\""@)[i]))
                        && rows_view(r.0@) == overview(m, ps, acts@, selection as nat, area_w as nat)
            },
        },
{
    match cached {
        None => {
            let mut rows: Vec<Vec<Piece>> = Vec::new();
            push_row(&mut rows, row1(str_chars("  Cluster data loading..."), fg_look(Tone::DarkGray)));
            assert(rows_view(rows@) =~= seq![line1("  Cluster data loading..."@, fg(Tone::DarkGray))]);
            (rows, None)
        },
        Some(j) => {
            if crate::text::has_prefix(&str_chars(j.as_str()), &str_chars("__ERROR__")) {
                let mut rows: Vec<Vec<Piece>> = Vec::new();
                push_row(&mut rows, row1(str_chars(j.as_str()), fg_look(Tone::Red)));
                assert(rows_view(rows@) =~= seq![line1(j@, fg(Tone::Red))]);
                (rows, None)
            } else {
                let m = main_info(j.as_str());
                let peers = parse_peers(j.as_str());
                let (rows, per_row) = cluster_overview_rows(&m, &peers, acts, selection, area_w);
                proof {
                    assert(main_info_ok(j@, m) && peers@.len() == array_objects_spec(j@, "\"peers\""@).len() && (forall|i: int|
                        0 <= i < peers@.len() ==> peer_matches(#[trigger] peers@[i], array_objects_spec(j@, "\"peers\""@)[i]))
                        && rows_view(rows@) == overview(m, peers@, acts@, selection as nat, area_w as nat));
                }
                (rows, Some(per_row))
            }
        },
    }
}


} // verus!
