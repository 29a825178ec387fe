//! Layout decisions of the cluster panel: width tiers, pairing of peers by their name
//! prefix, grid navigation, and the uptime labels on the cards.
use vstd::prelude::*;
use crate::text::{
    chars_string, decimal, find_char, lemma_find, parse_u64, parse_uint_spec, push_all,
    slice_chars, spec_find, starts_with, str_chars, u64_decimal, chars_eq, has_prefix,
};
use crate::cluster::{array_objects_spec, parse_peers, PeerInstance};

verus! {

// ───────────────────────── tiers ─────────────────────────

/// Width tier of the cluster panel, chosen from the inner-area width.
#[derive(Clone, Copy, PartialEq, Eq, Structural, Debug)]
pub enum ClusterTier {
    Wide,
    Medium,
    Narrow,
    Tiny,
}

/// The tier for a panel `w` cells wide: under 40 tiny, under 70 narrow, under 110
/// medium, otherwise wide.
pub fn pick_cluster_tier(w: u16) -> (t: ClusterTier)
    ensures
        w < 40 ==> t == ClusterTier::Tiny,
        40 <= w < 70 ==> t == ClusterTier::Narrow,
        70 <= w < 110 ==> t == ClusterTier::Medium,
        110 <= w ==> t == ClusterTier::Wide,
{
    if w < 40 {
        ClusterTier::Tiny
    } else if w < 70 {
        ClusterTier::Narrow
    } else if w < 110 {
        ClusterTier::Medium
    } else {
        ClusterTier::Wide
    }
}

pub open spec fn cards_per_row_spec(t: ClusterTier) -> usize {
    match t {
        ClusterTier::Wide => 4,
        ClusterTier::Medium => 2,
        ClusterTier::Narrow | ClusterTier::Tiny => 1,
    }
}

/// How many peer cards one visual row holds at a tier.
pub fn cards_per_row(tier: ClusterTier) -> (n: usize)
    ensures
        n == cards_per_row_spec(tier),
{
    match tier {
        ClusterTier::Wide => 4,
        ClusterTier::Medium => 2,
        ClusterTier::Narrow | ClusterTier::Tiny => 1,
    }
}

// ───────────────────────── grid navigation ─────────────────────────
// Selection 0 is the main instance; 1..=total are the peer cards, `cols` per row.

pub open spec fn nav_up_spec(sel: nat, cols: nat) -> nat {
    let c = if cols == 0 {
        1
    } else {
        cols
    };
    if sel == 0 {
        0
    } else if sel <= c {
        0
    } else {
        (sel - c) as nat
    }
}

pub open spec fn nav_down_spec(sel: nat, cols: nat, total: nat) -> nat {
    let c = if cols == 0 {
        1
    } else {
        cols
    };
    if sel == 0 {
        if total > 0 {
            1
        } else {
            0
        }
    } else if sel + c <= total {
        sel + c
    } else if sel < total {
        total
    } else {
        sel
    }
}

pub open spec fn nav_left_spec(sel: nat, cols: nat) -> nat {
    let c = if cols == 0 {
        1
    } else {
        cols
    };
    if sel >= 1 && (sel - 1) % (c as int) > 0 {
        (sel - 1) as nat
    } else {
        sel
    }
}

pub open spec fn nav_right_spec(sel: nat, cols: nat, total: nat) -> nat {
    let c = if cols == 0 {
        1
    } else {
        cols
    };
    if sel >= 1 && (sel - 1) % (c as int) < c - 1 && sel < total {
        sel + 1
    } else {
        sel
    }
}

/// Up arrow: one row up, or to the main instance from the first row.
pub fn cluster_nav_up(sel: usize, cols: usize) -> (r: usize)
    ensures
        r == nav_up_spec(sel as nat, cols as nat),
{
    let c = if cols == 0 {
        1
    } else {
        cols
    };
    if sel == 0 {
        0
    } else if sel <= c {
        0
    } else {
        sel - c
    }
}

/// Down arrow: from the main instance to the first card, else one row down, clamped to
/// the last card on a partial last row.
pub fn cluster_nav_down(sel: usize, cols: usize, total: usize) -> (r: usize)
    requires
        sel < usize::MAX,
        sel + cols <= usize::MAX,
    ensures
        r == nav_down_spec(sel as nat, cols as nat, total as nat),
{
    let c = if cols == 0 {
        1
    } else {
        cols
    };
    if sel == 0 {
        if total > 0 {
            1
        } else {
            0
        }
    } else {
        let target = sel + c;
        if target <= total {
            target
        } else if sel < total {
            total
        } else {
            sel
        }
    }
}

/// Left arrow: one card left within the row.
pub fn cluster_nav_left(sel: usize, cols: usize) -> (r: usize)
    ensures
        r == nav_left_spec(sel as nat, cols as nat),
{
    let c = if cols == 0 {
        1
    } else {
        cols
    };
    if sel >= 1 {
        let col = (sel - 1) % c;
        if col > 0 {
            return sel - 1;
        }
    }
    sel
}

/// Right arrow: one card right within the row, if that card exists.
pub fn cluster_nav_right(sel: usize, cols: usize, total: usize) -> (r: usize)
    ensures
        r == nav_right_spec(sel as nat, cols as nat, total as nat),
{
    let c = if cols == 0 {
        1
    } else {
        cols
    };
    if sel >= 1 {
        let col = (sel - 1) % c;
        if col < c - 1 && sel < total {
            return sel + 1;
        }
    }
    sel
}

/// Every arrow key keeps a valid selection valid (at most the number of peers).
pub proof fn lemma_nav_stays_in_range(sel: nat, cols: nat, total: nat)
    requires
        sel <= total,
    ensures
        nav_up_spec(sel, cols) <= total,
        nav_down_spec(sel, cols, total) <= total,
        nav_left_spec(sel, cols) <= total,
        nav_right_spec(sel, cols, total) <= total,
{
}

/// On a peer card whose card below exists, Down then Up comes back to it.
pub proof fn lemma_nav_down_up(sel: nat, cols: nat, total: nat)
    requires
        1 <= sel,
        sel + (if cols == 0 {
            1
        } else {
            cols
        }) <= total,
    ensures
        nav_up_spec(nav_down_spec(sel, cols, total), cols) == sel,
{
}

/// Left and Right never leave the row of the current card.
pub proof fn lemma_nav_same_row(sel: nat, cols: nat, total: nat)
    requires
        sel >= 1,
        cols >= 1,
    ensures
        (nav_left_spec(sel, cols) - 1) / (cols as int) == (sel - 1) / (cols as int),
        nav_right_spec(sel, cols, total) >= 1,
        (nav_right_spec(sel, cols, total) - 1) / (cols as int) == (sel - 1) / (cols as int),
{
    let s = sel - 1;
    let c = cols as int;
    vstd::arithmetic::div_mod::lemma_fundamental_div_mod(s, c);
    vstd::arithmetic::div_mod::lemma_mod_bound(s, c);
    if s % c > 0 {
        vstd::arithmetic::div_mod::lemma_fundamental_div_mod_converse(s - 1, c, s / c, s % c - 1);
    }
    if s % c < c - 1 && sel < total {
        vstd::arithmetic::div_mod::lemma_fundamental_div_mod_converse(s + 1, c, s / c, s % c + 1);
    }
}

// ───────────────────────── uptime labels ─────────────────────────

/// Seconds as a short label: `42s`, `3m7s`, `2h5m`.
pub open spec fn duration_text(sec: nat) -> Seq<char> {
    if sec < 60 {
        decimal(sec) + seq!['s']
    } else if sec < 3600 {
        decimal(sec / 60) + seq!['m'] + decimal(sec % 60) + seq!['s']
    } else {
        decimal(sec / 3600) + seq!['h'] + decimal((sec % 3600) / 60) + seq!['m']
    }
}

/// The uptime label is the uptime in the largest units it shows, rounded down: under a
/// minute, the seconds; under an hour, whole minutes and the seconds left (under sixty);
/// from an hour on, whole hours and the minutes left (under sixty), the seconds dropped.
pub proof fn lemma_duration_label(sec: nat)
    ensures
        sec < 60 ==> duration_text(sec) == decimal(sec) + seq!['s'],
        60 <= sec < 3600 ==> exists|m: nat, r: nat|
            #![trigger decimal(m), decimal(r)]
            duration_text(sec) == decimal(m) + seq!['m'] + decimal(r) + seq!['s'] && r < 60 && m * 60 + r == sec,
        sec >= 3600 ==> exists|h: nat, m: nat|
            #![trigger decimal(h), decimal(m)]
            duration_text(sec) == decimal(h) + seq!['h'] + decimal(m) + seq!['m'] && m < 60 && h * 3600 + m * 60
                <= sec < h * 3600 + m * 60 + 60,
{
    if 60 <= sec < 3600 {
        let m = sec / 60;
        let r = sec % 60;
        vstd::arithmetic::div_mod::lemma_fundamental_div_mod(sec as int, 60);
        assert(duration_text(sec) == decimal(m) + seq!['m'] + decimal(r) + seq!['s']);
        assert(m * 60 + r == sec);
    }
    if sec >= 3600 {
        let h = sec / 3600;
        let rest = sec % 3600;
        let m = rest / 60;
        vstd::arithmetic::div_mod::lemma_fundamental_div_mod(sec as int, 3600);
        vstd::arithmetic::div_mod::lemma_fundamental_div_mod(rest as int, 60);
        assert(rest < 3600);
        assert(m < 60);
        assert(h * 3600 + rest == sec);
        assert(duration_text(sec) == decimal(h) + seq!['h'] + decimal(m) + seq!['m']);
    }
}

/// The label of an uptime given as text; text that is not a `u64` counts as zero.
pub open spec fn fmt_duration_spec(s: Seq<char>) -> Seq<char> {
    duration_text(
        match parse_uint_spec(s, u64::MAX as nat) {
            Some(v) => v,
            None => 0,
        },
    )
}

/// Formats an uptime in seconds, given as text, as a short label.
pub fn fmt_duration(sec_str: &str) -> (r: String)
    ensures
        r@ == fmt_duration_spec(sec_str@),
{
    let s = str_chars(sec_str);
    let sec: u64 = match parse_u64(&s) {
        Some(v) => v,
        None => 0,
    };
    let mut out: Vec<char> = Vec::new();
    if sec < 60 {
        push_all(&mut out, &u64_decimal(sec));
        out.push('s');
    } else if sec < 3600 {
        push_all(&mut out, &u64_decimal(sec / 60));
        out.push('m');
        push_all(&mut out, &u64_decimal(sec % 60));
        out.push('s');
    } else {
        push_all(&mut out, &u64_decimal(sec / 3600));
        out.push('h');
        push_all(&mut out, &u64_decimal((sec % 3600) / 60));
        out.push('m');
    }
    assert(out@ =~= duration_text(sec as nat));
    chars_string(&out)
}

// ───────────────────────── status ─────────────────────────

/// How an instance status string is shown.
#[derive(Clone, Copy, PartialEq, Eq, Structural, Debug)]
pub enum StatusKind {
    Active,
    Idle,
    Dying,
    Error,
    Other,
}

pub open spec fn status_kind_spec(s: Seq<char>) -> StatusKind {
    if s == "active"@ {
        StatusKind::Active
    } else if s == "idle"@ {
        StatusKind::Idle
    } else if s == "dying"@ {
        StatusKind::Dying
    } else if s == "error"@ {
        StatusKind::Error
    } else {
        StatusKind::Other
    }
}

/// Whether `s` is exactly the text `lit`.
pub fn str_is(s: &str, lit: &str) -> (r: bool)
    ensures
        r == (s@ == lit@),
{
    chars_eq(&str_chars(s), &str_chars(lit))
}

/// Classifies an instance status.
pub fn status_kind(status: &str) -> (k: StatusKind)
    ensures
        k == status_kind_spec(status@),
{
    if str_is(status, "active") {
        StatusKind::Active
    } else if str_is(status, "idle") {
        StatusKind::Idle
    } else if str_is(status, "dying") {
        StatusKind::Dying
    } else if str_is(status, "error") {
        StatusKind::Error
    } else {
        StatusKind::Other
    }
}

pub open spec fn status_dot_spec(k: StatusKind) -> Seq<char> {
    match k {
        StatusKind::Active => "●"@,
        StatusKind::Idle => "○"@,
        StatusKind::Dying => "~"@,
        StatusKind::Error => "✗"@,
        StatusKind::Other => "?"@,
    }
}

/// The dot drawn for an instance status.
pub fn status_dot(status: &str) -> (r: &'static str)
    ensures
        r@ == status_dot_spec(status_kind_spec(status@)),
{
    match status_kind(status) {
        StatusKind::Active => "●",
        StatusKind::Idle => "○",
        StatusKind::Dying => "~",
        StatusKind::Error => "✗",
        StatusKind::Other => "?",
    }
}

// ───────────────────────── children count ─────────────────────────

/// Number of addressable peer cards for a cached snapshot: none while loading or after
/// a failed refresh (text starting `__ERROR__`), otherwise the listed peers.
pub open spec fn children_count_spec(cached: Option<Seq<char>>) -> nat {
    match cached {
        None => 0,
        Some(t) => if starts_with(t, "__ERROR__"@) {
            0
        } else {
            array_objects_spec(t, "\"peers\""@).len()
        },
    }
}

/// Number of peer cards the arrow keys can reach for the cached snapshot.
pub fn cluster_children_count(cached: Option<&str>) -> (n: usize)
    ensures
        n == children_count_spec(
            match cached {
                Some(t) => Some(t@),
                None => None,
            },
        ),
{
    match cached {
        None => 0,
        Some(t) => {
            if has_prefix(&str_chars(t), &str_chars("__ERROR__")) {
                0
            } else {
                parse_peers(t).len()
            }
        },
    }
}


// ───────────────────────── pairing ─────────────────────────

/// The part of a peer name before its first `-` (the whole name when there is none).
pub open spec fn dash_prefix(n: Seq<char>) -> Seq<char> {
    match spec_find(n, seq!['-']) {
        Some(i) => n.take(i),
        None => n,
    }
}

/// `m` is another peer with the same name prefix as `name`.
pub open spec fn is_mate(m: Seq<char>, name: Seq<char>) -> bool {
    m != name && dash_prefix(m) == dash_prefix(name)
}

/// The names in `all` that are mates of `name`, in order.
pub open spec fn mates(name: Seq<char>, all: Seq<Seq<char>>) -> Seq<Seq<char>>
    decreases all.len(),
{
    if all.len() == 0 {
        seq![]
    } else {
        let r = mates(name, all.drop_last());
        if is_mate(all.last(), name) {
            r.push(all.last())
        } else {
            r
        }
    }
}

/// The pair partner of `name`: its only mate, when its prefix is non-empty and it has
/// exactly one.
pub open spec fn partner_spec(name: Seq<char>, all: Seq<Seq<char>>) -> Option<Seq<char>> {
    if dash_prefix(name).len() == 0 {
        None
    } else {
        let ms = mates(name, all);
        if ms.len() == 1 {
            Some(ms[0])
        } else {
            None
        }
    }
}

/// Strict lexicographic order of character sequences (the order of `String`'s `<`,
/// since UTF-8 keeps code point order).
pub open spec fn lex_lt(a: Seq<char>, b: Seq<char>) -> bool
    decreases a.len(),
{
    if a.len() == 0 {
        b.len() > 0
    } else if b.len() == 0 {
        false
    } else if a[0] != b[0] {
        a[0] < b[0]
    } else {
        lex_lt(a.drop_first(), b.drop_first())
    }
}

/// Whether `a` sorts strictly before `b`.
pub fn chars_lt(a: &[char], b: &[char]) -> (r: bool)
    ensures
        r == lex_lt(a@, b@),
{
    let mut i: usize = 0;
    assert(a@.skip(0) == a@ && b@.skip(0) == b@);
    loop
        invariant
            0 <= i <= a@.len(),
            i <= b@.len(),
            lex_lt(a@, b@) == lex_lt(a@.skip(i as int), b@.skip(i as int)),
        decreases a.len() - i,
    {
        if i == a.len() {
            return i < b.len();
        }
        if i == b.len() {
            return false;
        }
        if a[i] != b[i] {
            return a[i] < b[i];
        }
        assert(a@.skip(i as int).drop_first() == a@.skip(i + 1));
        assert(b@.skip(i as int).drop_first() == b@.skip(i + 1));
        i += 1;
    }
}

/// The name prefix before the first `-`.
pub fn dash_prefix_exec(n: &[char]) -> (r: Vec<char>)
    ensures
        r@ == dash_prefix(n@),
{
    match find_char(n, '-') {
        Some(i) => {
            proof {
                lemma_find(n@, seq!['-']);
            }
            slice_chars(n, 0, i)
        },
        None => {
            let r = slice_chars(n, 0, n.len());
            assert(n@.subrange(0, n@.len() as int) == n@);
            r
        },
    }
}

/// The pair partner of `name` among `all`.
pub fn partner_chars(name: &[char], all: &[Vec<char>]) -> (r: Option<Vec<char>>)
    ensures
        match r {
            Some(v) => partner_spec(name@, crate::text::views(all@)) == Some(v@),
            None => partner_spec(name@, crate::text::views(all@)) is None,
        },
{
    let prefix = dash_prefix_exec(name);
    if prefix.len() == 0 {
        return None;
    }
    let ghost vs = crate::text::views(all@);
    let mut found: Vec<Vec<char>> = Vec::new();
    for k in 0..all.len()
        invariant
            vs == crate::text::views(all@),
            prefix@ == dash_prefix(name@),
            crate::text::views(found@) == mates(name@, vs.take(k as int)),
    {
        assert(vs.take(k + 1).drop_last() == vs.take(k as int));
        assert(vs.take(k + 1).last() == all@[k as int]@);
        let m = &all[k];
        if !chars_eq(m, name) && chars_eq(&dash_prefix_exec(m), &prefix) {
            let c = slice_chars(m, 0, m.len());
            assert(m@.subrange(0, m@.len() as int) == m@);
            proof {
                crate::text::lemma_views_push(found@, c);
            }
            found.push(c);
        }
    }
    assert(vs.take(all@.len() as int) == vs);
    if found.len() == 1 {
        assert(crate::text::views(found@)[0] == found@[0]@);
        let c = slice_chars(&found[0], 0, found[0].len());
        assert(found@[0]@.subrange(0, found@[0]@.len() as int) == found@[0]@);
        Some(c)
    } else {
        None
    }
}

/// The peer that `peer_name` pairs with: the only other peer sharing its name prefix
/// (the part before the first `-`).
pub fn detect_pair_partner(peer_name: &str, all_names: &[String]) -> (r: Option<String>)
    ensures
        match r {
            Some(v) => partner_spec(peer_name@, crate::text::str_views(all_names@)) == Some(v@),
            None => partner_spec(peer_name@, crate::text::str_views(all_names@)) is None,
        },
{
    let all = names_chars(all_names);
    match partner_chars(&str_chars(peer_name), &all) {
        Some(v) => Some(chars_string(&v)),
        None => None,
    }
}

/// The names as character vectors.
pub fn names_chars(names: &[String]) -> (r: Vec<Vec<char>>)
    ensures
        crate::text::views(r@) == crate::text::str_views(names@),
{
    let mut r: Vec<Vec<char>> = Vec::new();
    for i in 0..names.len()
        invariant
            crate::text::views(r@) == crate::text::str_views(names@).take(i as int),
    {
        let c = str_chars(names[i].as_str());
        proof {
            crate::text::lemma_views_push(r@, c);
            assert(crate::text::str_views(names@).take(i + 1) == crate::text::str_views(
                names@,
            ).take(i as int).push(names@[i as int]@));
        }
        r.push(c);
    }
    assert(crate::text::str_views(names@).take(names@.len() as int) == crate::text::str_views(
        names@,
    ));
    r
}

/// First index at or after `j` where `all` holds `x`.
pub open spec fn position_from(all: Seq<Seq<char>>, x: Seq<char>, j: int) -> Option<int>
    decreases all.len() - j,
{
    if j < 0 || j >= all.len() {
        None
    } else if all[j] == x {
        Some(j)
    } else {
        position_from(all, x, j + 1)
    }
}

/// The index `i` pairs with when it is grouped: its partner's first position, when that
/// peer is still unplaced and is not `i` itself.
pub open spec fn pair_target(names: Seq<Seq<char>>, placed: Seq<bool>, i: int) -> Option<int> {
    match partner_spec(names[i], names) {
        None => None,
        Some(partner) => match position_from(names, partner, 0) {
            None => None,
            Some(j) => if !placed[j] && i != j {
                Some(j)
            } else {
                None
            },
        },
    }
}

/// One step of the grouping: the peer `i`, if not yet placed, forms a pair with its
/// target (the lower name first) or a group of its own.
pub open spec fn group_step(
    names: Seq<Seq<char>>,
    placed: Seq<bool>,
    groups: Seq<Seq<usize>>,
    i: int,
) -> (Seq<bool>, Seq<Seq<usize>>) {
    if placed[i] {
        (placed, groups)
    } else {
        match pair_target(names, placed, i) {
            Some(j) => {
                let (a, b) = if lex_lt(names[i], names[j]) {
                    (i, j)
                } else {
                    (j, i)
                };
                (placed.update(a, true).update(b, true), groups.push(seq![a as usize, b as usize]))
            },
            None => (placed.update(i, true), groups.push(seq![i as usize])),
        }
    }
}

/// Placement flags and groups after the first `k` peers.
pub open spec fn group_state(names: Seq<Seq<char>>, k: int) -> (Seq<bool>, Seq<Seq<usize>>)
    decreases k,
{
    if k <= 0 {
        (Seq::new(names.len(), |_i: int| false), seq![])
    } else {
        let (p, g) = group_state(names, k - 1);
        group_step(names, p, g, k - 1)
    }
}

/// Peers grouped into pairs and singles, in the order the panel lays them out.
pub open spec fn groups_spec(names: Seq<Seq<char>>) -> Seq<Seq<usize>> {
    group_state(names, names.len() as int).1
}

/// The views of index groups.
pub open spec fn idx_views(g: Seq<Vec<usize>>) -> Seq<Seq<usize>> {
    g.map_values(|x: Vec<usize>| x@)
}

fn position_exec(all: &[Vec<char>], x: &[char]) -> (r: Option<usize>)
    ensures
        match r {
            Some(j) => position_from(crate::text::views(all@), x@, 0) == Some(j as int) && j
                < all@.len(),
            None => position_from(crate::text::views(all@), x@, 0) is None,
        },
{
    let ghost vs = crate::text::views(all@);
    let mut j: usize = 0;
    while j < all.len()
        invariant
            vs == crate::text::views(all@),
            0 <= j <= all@.len(),
            position_from(vs, x@, 0) == position_from(vs, x@, j as int),
        decreases all.len() - j,
    {
        assert(vs[j as int] == all@[j as int]@);
        if chars_eq(&all[j], x) {
            return Some(j);
        }
        j += 1;
    }
    None
}

/// Groups peers into pairs (shared name prefix, lower name first) and singles.
pub fn group_names(names: &[Vec<char>]) -> (r: Vec<Vec<usize>>)
    ensures
        idx_views(r@) == groups_spec(crate::text::views(names@)),
{
    let ghost vs = crate::text::views(names@);
    let n = names.len();
    let mut placed: Vec<bool> = Vec::new();
    for k in 0..n
        invariant
            placed@ == Seq::new(k as nat, |_i: int| false),
    {
        placed.push(false);
        assert(placed@ =~= Seq::new((k + 1) as nat, |_i: int| false));
    }
    let mut groups: Vec<Vec<usize>> = Vec::new();
    assert(idx_views(groups@) =~= seq![]);
    for i in 0..n
        invariant
            vs == crate::text::views(names@),
            n == names@.len(),
            (placed@, idx_views(groups@)) == group_state(vs, i as int),
            placed@.len() == n,
    {
        let ghost g0 = idx_views(groups@);
        if !placed[i] {
            let mut target: Option<usize> = None;
            proof {
                assert(vs[i as int] == names@[i as int]@);
            }
            match partner_chars(&names[i], names) {
                Some(partner) => {
                    match position_exec(names, &partner) {
                        Some(j) => {
                            if !placed[j] && i != j {
                                target = Some(j);
                            }
                        },
                        None => {},
                    }
                },
                None => {},
            }
            assert(target matches Some(j) ==> j < n);
            match target {
                Some(j) => {
                    assert(vs[j as int] == names@[j as int]@);
                    let (a, b) = if chars_lt(&names[i], &names[j]) {
                        (i, j)
                    } else {
                        (j, i)
                    };
                    placed.set(a, true);
                    placed.set(b, true);
                    let g = vec![a, b];
                    assert(g@ == seq![a, b]);
                    groups.push(g);
                    assert(idx_views(groups@) =~= g0.push(seq![a, b]));
                },
                None => {
                    placed.set(i, true);
                    let g = vec![i];
                    assert(g@ == seq![i]);
                    groups.push(g);
                    assert(idx_views(groups@) =~= g0.push(seq![i]));
                },
            }
        }
    }
    groups
}

/// Groups peers into pairs and singles: each pair is two peers whose names share a
/// prefix before `-` (lower name first); every other peer stands alone.
pub fn group_peers_by_pair(peer_names: &[String]) -> (r: Vec<Vec<usize>>)
    ensures
        idx_views(r@) == groups_spec(crate::text::str_views(peer_names@)),
{
    let names = names_chars(peer_names);
    group_names(&names)
}


/// Number of times `x` appears in the group `g`.
pub open spec fn count_group(g: Seq<usize>, x: int) -> nat
    decreases g.len(),
{
    if g.len() == 0 {
        0
    } else {
        count_group(g.drop_last(), x) + if g.last() as int == x {
            1nat
        } else {
            0nat
        }
    }
}

/// Number of times `x` appears across the groups `gs`.
pub open spec fn count_in(gs: Seq<Seq<usize>>, x: int) -> nat
    decreases gs.len(),
{
    if gs.len() == 0 {
        0
    } else {
        count_in(gs.drop_last(), x) + count_group(gs.last(), x)
    }
}

/// A group is one peer, or two peers with the lower name first.
pub open spec fn group_ok(names: Seq<Seq<char>>, g: Seq<usize>) -> bool {
    ||| (g.len() == 1 && g[0] < names.len())
    ||| (g.len() == 2 && g[0] < names.len() && g[1] < names.len() && lex_lt(
        names[g[0] as int],
        names[g[1] as int],
    ))
}

/// Two different sequences are ordered one way or the other.
pub proof fn lemma_lex_total(a: Seq<char>, b: Seq<char>)
    requires
        a != b,
    ensures
        lex_lt(a, b) || lex_lt(b, a),
    decreases a.len(),
{
    if a.len() == 0 {
        if b.len() == 0 {
            assert(a =~= b);
        }
    } else if b.len() == 0 {
    } else if a[0] != b[0] {
    } else {
        if a.drop_first() == b.drop_first() {
            assert(a =~= seq![a[0]] + a.drop_first());
            assert(b =~= seq![b[0]] + b.drop_first());
        }
        lemma_lex_total(a.drop_first(), b.drop_first());
    }
}

pub proof fn lemma_mates_members(name: Seq<char>, all: Seq<Seq<char>>, i: int)
    requires
        0 <= i < mates(name, all).len(),
    ensures
        is_mate(mates(name, all)[i], name),
    decreases all.len(),
{
    if all.len() > 0 {
        let r = mates(name, all.drop_last());
        if i < r.len() {
            lemma_mates_members(name, all.drop_last(), i);
        }
    }
}

pub proof fn lemma_position_from(all: Seq<Seq<char>>, x: Seq<char>, j: int)
    requires
        0 <= j,
    ensures
        position_from(all, x, j) matches Some(k) ==> j <= k < all.len() && all[k] == x,
    decreases all.len() - j,
{
    if j < all.len() && all[j] != x {
        lemma_position_from(all, x, j + 1);
    }
}

/// What holds after grouping the first `k` peers: each placed peer appears once, no
/// unplaced or out-of-range index appears, the first `k` are placed, and every group is
/// well formed.
pub open spec fn group_state_inv(names: Seq<Seq<char>>, k: int) -> bool {
    let (p, g) = group_state(names, k);
    &&& p.len() == names.len()
    &&& forall|x: int| 0 <= x < names.len() ==> count_in(g, x) == (if p[x] {
        1nat
    } else {
        0nat
    })
    &&& forall|x: int| (x < 0 || x >= names.len()) ==> count_in(g, x) == 0
    &&& forall|x: int| 0 <= x < k && x < names.len() ==> p[x]
    &&& forall|m: int| 0 <= m < g.len() ==> group_ok(names, #[trigger] g[m])
}

pub proof fn lemma_count_pair(a: usize, b: usize, x: int)
    ensures
        count_group(seq![a, b], x) == (if a as int == x {
            1nat
        } else {
            0nat
        }) + (if b as int == x {
            1nat
        } else {
            0nat
        }),
        count_group(seq![a], x) == (if a as int == x {
            1nat
        } else {
            0nat
        }),
{
    assert(seq![a, b].drop_last() == seq![a]);
    assert(seq![a].drop_last() == Seq::<usize>::empty());
    assert(count_group(Seq::<usize>::empty(), x) == 0);
    assert(count_group(seq![a], x) == count_group(Seq::<usize>::empty(), x) + (if a as int
        == x {
        1nat
    } else {
        0nat
    }));
}

pub proof fn lemma_group_state_inv(names: Seq<Seq<char>>, k: int)
    requires
        0 <= k <= names.len(),
        names.len() <= usize::MAX,
    ensures
        group_state_inv(names, k),
    decreases k,
{
    if k == 0 {
        let (p, g) = group_state(names, k);
        assert(g == Seq::<Seq<usize>>::empty());
    } else {
        lemma_group_state_inv(names, k - 1);
        let (p, g) = group_state(names, k - 1);
        let i = k - 1;
        let (p2, g2) = group_state(names, k);
        assert((p2, g2) == group_step(names, p, g, i));
        if p[i] {
        } else {
            match pair_target(names, p, i) {
                Some(j) => {
                    let partner = partner_spec(names[i], names)->0;
                    lemma_position_from(names, partner, 0);
                    lemma_mates_members(names[i], names, 0);
                    assert(names[j] == partner);
                    assert(names[j] != names[i]);
                    let (a, b) = if lex_lt(names[i], names[j]) {
                        (i, j)
                    } else {
                        (j, i)
                    };
                    if !lex_lt(names[i], names[j]) {
                        lemma_lex_total(names[i], names[j]);
                    }
                    assert(!p[a] && !p[b] && a != b);
                    let h = seq![a as usize, b as usize];
                    assert(g2 == g.push(h));
                    assert(g2.drop_last() == g);
                    assert forall|x: int| #![auto]
                        true implies count_in(g2, x) == count_in(g, x) + (if a == x {
                        1nat
                    } else {
                        0nat
                    }) + (if b == x {
                        1nat
                    } else {
                        0nat
                    }) by {
                        lemma_count_pair(a as usize, b as usize, x);
                    }
                    assert(group_ok(names, h));
                    assert forall|m: int| 0 <= m < g2.len() implies group_ok(
                        names,
                        #[trigger] g2[m],
                    ) by {
                        if m < g.len() {
                            assert(g2[m] == g[m]);
                        }
                    }
                },
                None => {
                    let h = seq![i as usize];
                    assert(g2 == g.push(h));
                    assert(g2.drop_last() == g);
                    assert forall|x: int| #![auto]
                        true implies count_in(g2, x) == count_in(g, x) + (if i == x {
                        1nat
                    } else {
                        0nat
                    }) by {
                        lemma_count_pair(i as usize, i as usize, x);
                    }
                    assert(group_ok(names, h));
                    assert forall|m: int| 0 <= m < g2.len() implies group_ok(
                        names,
                        #[trigger] g2[m],
                    ) by {
                        if m < g.len() {
                            assert(g2[m] == g[m]);
                        }
                    }
                },
            }
        }
    }
}

/// Grouping places every peer in exactly one group, mentions no other index, and
/// forms only singles and name-ordered pairs.
pub proof fn lemma_groups_partition(names: Seq<Seq<char>>)
    requires
        names.len() <= usize::MAX,
    ensures
        forall|x: int| 0 <= x < names.len() ==> count_in(groups_spec(names), x) == 1,
        forall|x: int| (x < 0 || x >= names.len()) ==> count_in(groups_spec(names), x) == 0,
        forall|m: int|
            0 <= m < groups_spec(names).len() ==> group_ok(names, #[trigger] groups_spec(names)[m]),
{
    lemma_group_state_inv(names, names.len() as int);
}


// ───────────────────────── peer order ─────────────────────────

/// The indices of the groups, in layout order.
pub open spec fn flat(gs: Seq<Seq<usize>>) -> Seq<usize>
    decreases gs.len(),
{
    if gs.len() == 0 {
        seq![]
    } else {
        flat(gs.drop_last()) + gs.last()
    }
}

/// The names of peers.
pub open spec fn peer_names(ps: Seq<PeerInstance>) -> Seq<Seq<char>> {
    ps.map_values(|p: PeerInstance| p.name@)
}

/// The peers in the order the panel lays them out (pairs adjacent).
pub open spec fn peer_order(ps: Seq<PeerInstance>) -> Seq<usize> {
    flat(groups_spec(peer_names(ps)))
}

pub proof fn lemma_flat_bounds(names: Seq<Seq<char>>, gs: Seq<Seq<usize>>)
    requires
        forall|m: int| 0 <= m < gs.len() ==> group_ok(names, #[trigger] gs[m]),
    ensures
        forall|k: int| 0 <= k < flat(gs).len() ==> flat(gs)[k] < names.len(),
    decreases gs.len(),
{
    if gs.len() > 0 {
        assert forall|m: int| 0 <= m < gs.drop_last().len() implies group_ok(
            names,
            #[trigger] gs.drop_last()[m],
        ) by {
            assert(gs.drop_last()[m] == gs[m]);
        }
        lemma_flat_bounds(names, gs.drop_last());
        let last = gs[gs.len() - 1];
        assert(group_ok(names, last));
        let pre = flat(gs.drop_last());
        assert(flat(gs) == pre + last);
        assert forall|k: int| 0 <= k < flat(gs).len() implies flat(gs)[k] < names.len() by {
            if k < pre.len() {
                assert(flat(gs)[k] == pre[k]);
            } else {
                assert(flat(gs)[k] == last[k - pre.len()]);
            }
        }
    }
}

/// A copy of a peer record.
pub fn copy_peer(p: &PeerInstance) -> (r: PeerInstance)
    ensures
        r == *p,
{
    PeerInstance {
        name: p.name.clone(),
        ip: p.ip.clone(),
        image: p.image.clone(),
        status: p.status.clone(),
    }
}

/// The peers reordered so that pairs sit together, as the panel shows them.
pub fn order_peers(peers: &[PeerInstance]) -> (r: Vec<PeerInstance>)
    requires
        peers@.len() <= usize::MAX,
    ensures
        r@.len() == peer_order(peers@).len(),
        forall|k: int|
            0 <= k < r@.len() ==> peer_order(peers@)[k] < peers@.len() && #[trigger] r@[k]
                == peers@[peer_order(peers@)[k] as int],
{
    let mut names: Vec<Vec<char>> = Vec::new();
    for i in 0..peers.len()
        invariant
            crate::text::views(names@) == peer_names(peers@).take(i as int),
    {
        let c = str_chars(peers[i].name.as_str());
        proof {
            crate::text::lemma_views_push(names@, c);
            assert(peer_names(peers@).take(i + 1) == peer_names(peers@).take(i as int).push(
                peers@[i as int].name@,
            ));
        }
        names.push(c);
    }
    assert(peer_names(peers@).take(peers@.len() as int) == peer_names(peers@));
    let groups = group_names(&names);
    let ghost gs = idx_views(groups@);
    proof {
        lemma_groups_partition(peer_names(peers@));
        lemma_flat_bounds(peer_names(peers@), gs);
    }
    let mut out: Vec<PeerInstance> = Vec::new();
    for g in 0..groups.len()
        invariant
            gs == idx_views(groups@),
            gs == groups_spec(peer_names(peers@)),
            forall|m: int| 0 <= m < gs.len() ==> group_ok(peer_names(peers@), #[trigger] gs[m]),
            out@.len() == flat(gs.take(g as int)).len(),
            forall|k: int|
                0 <= k < out@.len() ==> #[trigger] out@[k] == peers@[flat(gs.take(g as int))[k] as int],
    {
        assert(gs[g as int] == groups@[g as int]@);
        assert(gs.take(g + 1).drop_last() == gs.take(g as int));
        let grp = &groups[g];
        let ghost before = flat(gs.take(g as int));
        assert(group_ok(peer_names(peers@), gs[g as int]));
        for m in 0..grp.len()
            invariant
                grp@ == gs[g as int],
                group_ok(peer_names(peers@), grp@),
                out@.len() == before.len() + m,
                forall|k: int|
                    0 <= k < out@.len() ==> #[trigger] out@[k] == peers@[(before + grp@)[k] as int],
        {
            let idx = grp[m];
            assert(idx < peers@.len());
            let p = copy_peer(&peers[idx]);
            out.push(p);
        }
        assert(flat(gs.take(g + 1)) == before + grp@);
    }
    assert(gs.take(groups@.len() as int) == gs);
    out
}

/// The IP address behind a selection in the cluster panel: selection `k >= 1` is the
/// `k`-th peer in layout order; none for the main instance, past the end, or when the
/// address is empty or unknown (`?`).
pub open spec fn peer_ip_spec(ps: Seq<PeerInstance>, sel: nat) -> Option<Seq<char>> {
    let order = peer_order(ps);
    if 1 <= sel <= order.len() {
        let ip = ps[order[sel - 1] as int].ip@;
        if ip.len() == 0 || ip == "?"@ {
            None
        } else {
            Some(ip)
        }
    } else {
        None
    }
}

/// The IP address of the peer selected in the cluster panel, from a snapshot's peers.
pub fn peer_ip_at_selection(peers: &[PeerInstance], selection: usize) -> (r: Option<String>)
    requires
        peers@.len() <= usize::MAX,
    ensures
        match r {
            Some(v) => peer_ip_spec(peers@, selection as nat) == Some(v@),
            None => peer_ip_spec(peers@, selection as nat) is None,
        },
{
    let ordered = order_peers(peers);
    if selection >= 1 && selection <= ordered.len() {
        let ip = &ordered[selection - 1].ip;
        if ip.as_str().is_empty() || str_is(ip.as_str(), "?") {
            None
        } else {
            Some(ip.clone())
        }
    } else {
        None
    }
}

} // verus!
