//! The memory palace in numbers: notes per wing and room, read from the room index
//! (`rooms.idx`, one `wing<TAB>room<TAB>note…` line per classified note).
use vstd::prelude::*;
use crate::cluster_layout::{chars_lt, lex_lt, lemma_lex_total};
use crate::state::{PalaceState, WingInfo};
use crate::text::{chars_eq, chars_string, ends_with, has_suffix, lines, split, split_char, split_lines, str_chars, views};

verus! {

// ───────────────────────── ranking ─────────────────────────

/// `a` ranks before `b`: a larger count first, and by name between equal counts.
pub open spec fn ranks_before(a: (Seq<char>, usize), b: (Seq<char>, usize)) -> bool {
    a.1 > b.1 || (a.1 == b.1 && lex_lt(a.0, b.0))
}

/// Every item ranks before every later one.
pub open spec fn ranked(s: Seq<(Seq<char>, usize)>) -> bool {
    forall|i: int, j: int| 0 <= i < j < s.len() ==> ranks_before(#[trigger] s[i], #[trigger] s[j])
}

/// The names and counts of counted items.
pub open spec fn counted(v: Seq<(Vec<char>, usize)>) -> Seq<(Seq<char>, usize)> {
    v.map_values(|x: (Vec<char>, usize)| (x.0@, x.1))
}

/// No two items share a name.
pub open spec fn distinct_names(s: Seq<(Seq<char>, usize)>) -> bool {
    forall|i: int, j: int| 0 <= i < j < s.len() ==> (#[trigger] s[i]).0 != (#[trigger] s[j]).0
}

pub proof fn lemma_lex_irreflexive(a: Seq<char>)
    ensures
        !lex_lt(a, a),
    decreases a.len(),
{
    if a.len() > 0 {
        lemma_lex_irreflexive(a.drop_first());
    }
}

/// Two sequences are in order one way or the other, or equal.
pub proof fn lemma_lex_total_or_equal(a: Seq<char>, b: Seq<char>)
    ensures
        lex_lt(a, b) || lex_lt(b, a) || a == b,
{
    if a != b {
        lemma_lex_total(a, b);
    }
}

/// No sequence sorts both before and after another.
pub proof fn lemma_lex_asymmetric(a: Seq<char>, b: Seq<char>)
    ensures
        !(lex_lt(a, b) && lex_lt(b, a)),
{
    if lex_lt(a, b) && lex_lt(b, a) {
        lemma_lex_transitive(a, b, a);
        lemma_lex_irreflexive(a);
    }
}

pub proof fn lemma_lex_transitive(a: Seq<char>, b: Seq<char>, c: Seq<char>)
    requires
        lex_lt(a, b),
        lex_lt(b, c),
    ensures
        lex_lt(a, c),
    decreases a.len(),
{
    if a.len() > 0 && b.len() > 0 && c.len() > 0 && a[0] == b[0] && b[0] == c[0] {
        lemma_lex_transitive(a.drop_first(), b.drop_first(), c.drop_first());
    }
}

proof fn lemma_ranks_transitive(a: (Seq<char>, usize), b: (Seq<char>, usize), c: (Seq<char>, usize))
    requires
        ranks_before(a, b),
        ranks_before(b, c),
    ensures
        ranks_before(a, c),
{
    if a.1 == b.1 && b.1 == c.1 {
        lemma_lex_transitive(a.0, b.0, c.0);
    }
}

proof fn lemma_ranks_total(a: (Seq<char>, usize), b: (Seq<char>, usize))
    requires
        a.0 != b.0,
    ensures
        ranks_before(a, b) || ranks_before(b, a),
{
    if a.1 == b.1 {
        lemma_lex_total(a.0, b.0);
    }
}

fn ranks_before_exec(a: &(Vec<char>, usize), b: &(Vec<char>, usize)) -> (r: bool)
    ensures
        r == ranks_before((a.0@, a.1), (b.0@, b.1)),
{
    a.1 > b.1 || (a.1 == b.1 && chars_lt(&a.0, &b.0))
}

/// Puts items with distinct names in rank order.
pub fn rank_sort(v: Vec<(Vec<char>, usize)>) -> (r: Vec<(Vec<char>, usize)>)
    requires
        distinct_names(counted(v@)),
    ensures
        r@.len() == v@.len(),
        ranked(counted(r@)),
        distinct_names(counted(r@)),
        forall|x: (Seq<char>, usize)| counted(r@).contains(x) <==> counted(v@).contains(x),
{
    let ghost orig = counted(v@);
    let mut rest = v;
    let mut out: Vec<(Vec<char>, usize)> = Vec::new();
    assert(counted(rest@) == orig);
    while rest.len() > 0
        invariant
            distinct_names(orig),
            counted(rest@) == orig.take(rest@.len() as int),
            rest@.len() <= orig.len(),
            out@.len() + rest@.len() == orig.len(),
            ranked(counted(out@)),
            distinct_names(counted(out@)),
            forall|x: (Seq<char>, usize)| counted(out@).contains(x) <==> orig.skip(rest@.len() as int).contains(x),
        decreases rest@.len(),
    {
        let ghost before_rest = rest@;
        let x = rest.pop().unwrap();
        let ghost m = rest@.len() as int;
        let ghost xv = (x.0@, x.1);
        assert(before_rest.drop_last() == rest@);
        assert(orig[m] == xv) by {
            assert(counted(before_rest)[m] == xv);
        }
        assert(counted(rest@) =~= orig.take(m)) by {
            assert(counted(rest@) =~= counted(before_rest).drop_last());
        }
        let ghost cur = counted(out@);
        assert forall|k: int| 0 <= k < cur.len() implies (#[trigger] cur[k]).0 != xv.0 by {
            assert(cur.contains(cur[k]));
            assert(orig.skip(m + 1).contains(cur[k]));
            let w = choose|w: int| 0 <= w < orig.skip(m + 1).len() && #[trigger] orig.skip(m + 1)[w] == cur[k];
            assert(orig[m + 1 + w] == cur[k]);
        }
        let mut p: usize = 0;
        while p < out.len() && !ranks_before_exec(&x, &out[p])
            invariant
                p <= out@.len(),
                cur == counted(out@),
                xv == (x.0@, x.1),
                forall|k: int| 0 <= k < p ==> !ranks_before(xv, #[trigger] cur[k]),
            decreases out@.len() - p,
        {
            assert(cur[p as int] == (out@[p as int].0@, out@[p as int].1));
            p += 1;
        }
        proof {
            assert forall|k: int| 0 <= k < p implies ranks_before(#[trigger] cur[k], xv) by {
                lemma_ranks_total(cur[k], xv);
            }
            if p < out@.len() {
                assert(cur[p as int] == (out@[p as int].0@, out@[p as int].1));
                assert(ranks_before(xv, cur[p as int]));
                assert forall|k: int| p <= k < cur.len() implies ranks_before(xv, #[trigger] cur[k]) by {
                    if k > p {
                        lemma_ranks_transitive(xv, cur[p as int], cur[k]);
                    }
                }
            }
        }
        out.insert(p, x);
        proof {
            let nv = counted(out@);
            assert(nv =~= cur.insert(p as int, xv));
            assert forall|i: int, j: int| 0 <= i < j < nv.len() implies ranks_before(#[trigger] nv[i], #[trigger] nv[j]) by {
                if j < p {
                } else if j == p {
                } else if i < p {
                    lemma_ranks_transitive(nv[i], xv, nv[j]);
                } else if i == p {
                } else {
                }
            }
            assert forall|i: int, j: int| 0 <= i < j < nv.len() implies (#[trigger] nv[i]).0 != (#[trigger] nv[j]).0 by {
                if i == p {
                    assert(nv[j] == cur[j - 1]);
                } else if j == p {
                    assert(nv[i] == cur[i]);
                } else if i < p && j < p {
                    assert(nv[i] == cur[i] && nv[j] == cur[j]);
                } else if i < p {
                    assert(nv[i] == cur[i] && nv[j] == cur[j - 1]);
                } else {
                    assert(nv[i] == cur[i - 1] && nv[j] == cur[j - 1]);
                }
            }
            assert(orig.skip(m) =~= seq![xv] + orig.skip(m + 1));
            assert forall|y: (Seq<char>, usize)| nv.contains(y) <==> orig.skip(m).contains(y) by {
                if nv.contains(y) {
                    let w = choose|w: int| 0 <= w < nv.len() && #[trigger] nv[w] == y;
                    if w == p {
                        assert(orig.skip(m)[0] == y);
                    } else if w < p {
                        assert(cur[w] == y);
                        assert(cur.contains(y));
                        let u = choose|u: int| 0 <= u < orig.skip(m + 1).len() && #[trigger] orig.skip(m + 1)[u] == y;
                        assert(orig.skip(m)[u + 1] == y);
                    } else {
                        assert(cur[w - 1] == y);
                        assert(cur.contains(y));
                        let u = choose|u: int| 0 <= u < orig.skip(m + 1).len() && #[trigger] orig.skip(m + 1)[u] == y;
                        assert(orig.skip(m)[u + 1] == y);
                    }
                }
                if orig.skip(m).contains(y) {
                    let u = choose|u: int| 0 <= u < orig.skip(m).len() && #[trigger] orig.skip(m)[u] == y;
                    if u == 0 {
                        assert(nv[p as int] == y);
                    } else {
                        assert(orig.skip(m + 1)[u - 1] == y);
                        assert(orig.skip(m + 1).contains(y));
                        assert(cur.contains(y));
                        let w = choose|w: int| 0 <= w < cur.len() && #[trigger] cur[w] == y;
                        if w < p {
                            assert(nv[w] == y);
                        } else {
                            assert(nv[w + 1] == y);
                        }
                    }
                }
            }
        }
    }
    assert(orig.skip(0) =~= orig);
    out
}


// ───────────────────────── tallies ─────────────────────────

/// Where `name` stands among the items (the last place, should it stand twice).
pub open spec fn name_index(s: Seq<(Seq<char>, usize)>, name: Seq<char>) -> Option<int>
    decreases s.len(),
{
    if s.len() == 0 {
        None
    } else if s.last().0 == name {
        Some(s.len() - 1)
    } else {
        name_index(s.drop_last(), name)
    }
}

/// The items after one more occurrence of `name`.
pub open spec fn bump(s: Seq<(Seq<char>, usize)>, name: Seq<char>) -> Seq<(Seq<char>, usize)> {
    match name_index(s, name) {
        Some(k) => s.update(k, (name, (s[k].1 + 1) as usize)),
        None => s.push((name, 1usize)),
    }
}

/// The distinct names, in order of first occurrence, each with its number of occurrences.
pub open spec fn tally(ns: Seq<Seq<char>>) -> Seq<(Seq<char>, usize)>
    decreases ns.len(),
{
    if ns.len() == 0 {
        seq![]
    } else {
        bump(tally(ns.drop_last()), ns.last())
    }
}

/// How often `name` occurs.
pub open spec fn occurrences(ns: Seq<Seq<char>>, name: Seq<char>) -> nat
    decreases ns.len(),
{
    if ns.len() == 0 {
        0
    } else {
        occurrences(ns.drop_last(), name) + if ns.last() == name {
            1nat
        } else {
            0nat
        }
    }
}

proof fn lemma_name_index(s: Seq<(Seq<char>, usize)>, name: Seq<char>)
    ensures
        match name_index(s, name) {
            Some(k) => 0 <= k < s.len() && s[k].0 == name,
            None => forall|k: int| 0 <= k < s.len() ==> (#[trigger] s[k]).0 != name,
        },
    decreases s.len(),
{
    if s.len() > 0 && s.last().0 != name {
        lemma_name_index(s.drop_last(), name);
        assert forall|k: int| 0 <= k < s.len() - 1 implies #[trigger] s[k] == s.drop_last()[k] by {}
    }
}

proof fn lemma_occurrences_bound(ns: Seq<Seq<char>>, name: Seq<char>)
    ensures
        occurrences(ns, name) <= ns.len(),
    decreases ns.len(),
{
    if ns.len() > 0 {
        lemma_occurrences_bound(ns.drop_last(), name);
    }
}

proof fn lemma_occurrences_pos(ns: Seq<Seq<char>>, name: Seq<char>)
    ensures
        occurrences(ns, name) > 0 ==> exists|i: int| 0 <= i < ns.len() && #[trigger] ns[i] == name,
    decreases ns.len(),
{
    if ns.len() > 0 {
        lemma_occurrences_pos(ns.drop_last(), name);
        if occurrences(ns.drop_last(), name) > 0 {
            let i = choose|i: int| 0 <= i < ns.drop_last().len() && #[trigger] ns.drop_last()[i] == name;
            assert(ns[i] == name);
        } else if ns.last() == name {
            assert(ns[ns.len() - 1] == name);
        }
    }
}

/// A tally lists each name once, with its number of occurrences (at least one), and
/// lists every name that occurs.
pub proof fn lemma_tally(ns: Seq<Seq<char>>)
    requires
        ns.len() <= usize::MAX,
    ensures
        distinct_names(tally(ns)),
        forall|k: int| 0 <= k < tally(ns).len() ==> (#[trigger] tally(ns)[k]).1 == occurrences(ns, tally(ns)[k].0)
            && tally(ns)[k].1 >= 1,
        forall|i: int| 0 <= i < ns.len() ==> exists|k: int| 0 <= k < tally(ns).len() && (#[trigger] tally(ns)[k]).0 == #[trigger] ns[i],
    decreases ns.len(),
{
    if ns.len() > 0 {
        let pre = ns.drop_last();
        let x = ns.last();
        lemma_tally(pre);
        let t = tally(pre);
        lemma_name_index(t, x);
        let t2 = tally(ns);
        assert(pre.push(x) =~= ns);
        assert forall|k: int| 0 <= k < t2.len() implies (#[trigger] t2[k]).1 == occurrences(ns, t2[k].0) && t2[k].1 >= 1 by {
            match name_index(t, x) {
                Some(j) => {
                    lemma_occurrences_bound(pre, t[k].0);
                    if k != j {
                        assert(t2[k] == t[k]);
                    }
                },
                None => {
                    if k < t.len() {
                        assert(t2[k] == t[k]);
                    } else {
                        lemma_occurrences_pos(pre, x);
                        if occurrences(pre, x) > 0 {
                            let i = choose|i: int| 0 <= i < pre.len() && #[trigger] pre[i] == x;
                            let q = choose|q: int| 0 <= q < t.len() && (#[trigger] t[q]).0 == #[trigger] pre[i];
                        }
                    }
                },
            }
        }
        assert forall|i: int, j: int| 0 <= i < j < t2.len() implies (#[trigger] t2[i]).0 != (#[trigger] t2[j]).0 by {
            if j < t.len() {
                assert(t[i].0 != t[j].0);
            }
        }
        assert forall|i: int| 0 <= i < ns.len() implies exists|k: int| 0 <= k < t2.len() && (#[trigger] t2[k]).0 == #[trigger] ns[i] by {
            if i < pre.len() {
                assert(pre[i] == ns[i]);
                let k = choose|k: int| 0 <= k < t.len() && (#[trigger] t[k]).0 == #[trigger] pre[i];
                assert(t2[k].0 == ns[i]);
            } else {
                match name_index(t, x) {
                    Some(k) => {
                        assert(t2[k].0 == ns[i]);
                    },
                    None => {
                        assert(t2[t.len() as int].0 == ns[i]);
                    },
                }
            }
        }
    }
}

/// Finds `name` among the items.
fn find_name(list: &Vec<(Vec<char>, usize)>, name: &[char]) -> (r: Option<usize>)
    ensures
        match r {
            Some(k) => k < list@.len() && list@[k as int].0@ == name@,
            None => forall|k: int| 0 <= k < list@.len() ==> (#[trigger] list@[k]).0@ != name@,
        },
{
    for k in 0..list.len()
        invariant
            forall|q: int| 0 <= q < k ==> (#[trigger] list@[q]).0@ != name@,
    {
        if chars_eq(&list[k].0, name) {
            return Some(k);
        }
    }
    None
}

/// Counts one more occurrence of `name`.
fn tally_one(list: &mut Vec<(Vec<char>, usize)>, name: &[char])
    requires
        distinct_names(counted(old(list)@)),
        forall|k: int| 0 <= k < old(list)@.len() ==> (#[trigger] old(list)@[k]).1 < usize::MAX,
    ensures
        counted(final(list)@) == bump(counted(old(list)@), name@),
{
    let ghost c = counted(list@);
    proof {
        lemma_name_index(c, name@);
    }
    match find_name(list, name) {
        Some(k) => {
            assert(c[k as int].0 == name@);
            proof {
                let ki = k as int;
                match name_index(c, name@) {
                    Some(j) => {
                        if j != ki {
                            if j < ki {
                                assert(c[j].0 != c[ki].0);
                            } else {
                                assert(c[ki].0 != c[j].0);
                            }
                        }
                    },
                    None => {},
                }
            }
            let cnt = list[k].1;
            let mut item: (Vec<char>, usize) = (Vec::new(), 0);
            std::mem::swap(&mut item, &mut list[k]);
            item.1 = cnt + 1;
            list.set(k, item);
            assert(counted(list@) =~= bump(c, name@));
        },
        None => {
            assert(name_index(c, name@) is None);
            list.push((crate::text::slice_chars(name, 0, name.len()), 1));
            assert(name@.subrange(0, name@.len() as int) == name@);
            assert(counted(list@) =~= bump(c, name@));
        },
    }
}


// ───────────────────────── the room index ─────────────────────────

/// The (wing, room) of each classified note: the first two fields of each line with at
/// least three tab-separated fields.
pub open spec fn entries_of(ls: Seq<Seq<char>>) -> Seq<(Seq<char>, Seq<char>)>
    decreases ls.len(),
{
    if ls.len() == 0 {
        seq![]
    } else {
        let r = entries_of(ls.drop_last());
        let parts = split(ls.last(), '\t');
        if parts.len() >= 3 {
            r.push((parts[0], parts[1]))
        } else {
            r
        }
    }
}

/// The classified notes of a room index.
pub open spec fn room_entries(text: Seq<char>) -> Seq<(Seq<char>, Seq<char>)> {
    entries_of(lines(text))
}

/// The wing of each classified note.
pub open spec fn wing_names(es: Seq<(Seq<char>, Seq<char>)>) -> Seq<Seq<char>> {
    es.map_values(|e: (Seq<char>, Seq<char>)| e.0)
}

/// The room of each classified note in wing `w`.
pub open spec fn rooms_of(es: Seq<(Seq<char>, Seq<char>)>, w: Seq<char>) -> Seq<Seq<char>>
    decreases es.len(),
{
    if es.len() == 0 {
        seq![]
    } else {
        let r = rooms_of(es.drop_last(), w);
        if es.last().0 == w {
            r.push(es.last().1)
        } else {
            r
        }
    }
}

proof fn lemma_rooms_of_len(es: Seq<(Seq<char>, Seq<char>)>, w: Seq<char>)
    ensures
        rooms_of(es, w).len() <= es.len(),
        (forall|i: int| 0 <= i < es.len() ==> (#[trigger] es[i]).0 != w) ==> rooms_of(es, w).len() == 0,
    decreases es.len(),
{
    if es.len() > 0 {
        lemma_rooms_of_len(es.drop_last(), w);
        assert forall|i: int| 0 <= i < es.len() - 1 implies #[trigger] es.drop_last()[i] == es[i] by {}
        if forall|i: int| 0 <= i < es.len() ==> (#[trigger] es[i]).0 != w {
            assert(es[es.len() - 1] == es.last());
            assert forall|i: int| 0 <= i < es.drop_last().len() implies (#[trigger] es.drop_last()[i]).0 != w by {
                assert(es.drop_last()[i] == es[i]);
            }
        }
    }
}

/// What the counting holds after the classified notes `es`.
pub open spec fn counts_ok(es: Seq<(Seq<char>, Seq<char>)>, wings: Seq<(Vec<char>, usize)>, rooms: Seq<Vec<(Vec<char>, usize)>>) -> bool {
    &&& counted(wings) == tally(wing_names(es))
    &&& rooms.len() == wings.len()
    &&& forall|k: int| 0 <= k < rooms.len() ==> counted(#[trigger] rooms[k]@) == tally(rooms_of(es, wings[k].0@))
}

/// Counts the notes of each wing, and of each room of each wing, in order of first
/// appearance.
fn count_entries(ls: &Vec<Vec<char>>) -> (r: (Vec<(Vec<char>, usize)>, Vec<Vec<(Vec<char>, usize)>>, usize))
    ensures
        counts_ok(entries_of(views(ls@)), r.0@, r.1@),
        r.2 == entries_of(views(ls@)).len(),
        entries_of(views(ls@)).len() <= ls@.len(),
{
    let mut classified: usize = 0;
    let ghost lv = views(ls@);
    let mut wings: Vec<(Vec<char>, usize)> = Vec::new();
    let mut rooms: Vec<Vec<(Vec<char>, usize)>> = Vec::new();
    assert(entries_of(lv.take(0)) == Seq::<(Seq<char>, Seq<char>)>::empty());
    assert(wing_names(entries_of(lv.take(0))) =~= Seq::<Seq<char>>::empty());
    assert(counted(wings@) =~= Seq::<(Seq<char>, usize)>::empty());
    assert(counts_ok(entries_of(lv.take(0)), wings@, rooms@));
    for i in 0..ls.len()
        invariant
            lv == views(ls@),
            counts_ok(entries_of(lv.take(i as int)), wings@, rooms@),
            entries_of(lv.take(i as int)).len() <= i,
            classified == entries_of(lv.take(i as int)).len(),
    {
        let ghost es = entries_of(lv.take(i as int));
        assert(lv.take(i + 1).drop_last() =~= lv.take(i as int));
        assert(lv.take(i + 1).last() == ls@[i as int]@);
        let parts = split_char(&ls[i], '\t');
        if parts.len() >= 3 {
            let w = &parts[0];
            let r = &parts[1];
            assert(views(parts@)[0] == w@ && views(parts@)[1] == r@);
            let ghost e = (w@, r@);
            let ghost es2 = es.push(e);
            assert(entries_of(lv.take(i + 1)) == es2);
            assert(wing_names(es2) =~= wing_names(es).push(w@));
            assert(es2.drop_last() =~= es);
            proof {
                lemma_tally(wing_names(es));
                lemma_occurrences_bound(wing_names(es), w@);
            }
            let found = find_name(&wings, w);
            let ghost old_wings = wings@;
            let ghost old_rooms = rooms@;
            proof {
                assert forall|k: int| 0 <= k < wings@.len() implies (#[trigger] wings@[k]).1 < usize::MAX by {
                    assert(counted(wings@)[k] == tally(wing_names(es))[k]);
                    lemma_occurrences_bound(wing_names(es), tally(wing_names(es))[k].0);
                }
            }
            tally_one(&mut wings, w);
            classified = classified + 1;
            assert(wing_names(es).push(w@).drop_last() =~= wing_names(es));
            assert(tally(wing_names(es2)) == bump(tally(wing_names(es)), w@));
            assert(counted(wings@) == tally(wing_names(es2)));
            match found {
                Some(k) => {
                    proof {
                        lemma_rooms_of_len(es, w@);
                        lemma_tally(rooms_of(es, w@));
                        assert forall|q: int| 0 <= q < rooms@[k as int]@.len() implies (#[trigger] rooms@[k as int]@[q]).1 < usize::MAX by {
                            assert(counted(rooms@[k as int]@)[q] == tally(rooms_of(es, w@))[q]);
                            lemma_occurrences_bound(rooms_of(es, w@), tally(rooms_of(es, w@))[q].0);
                        }
                        assert(counted(old_wings)[k as int].0 == w@);
                    }
                    let mut row: Vec<(Vec<char>, usize)> = Vec::new();
                    std::mem::swap(&mut row, &mut rooms[k]);
                    tally_one(&mut row, r);
                    rooms.set(k, row);
                    proof {
                        let cw = counted(old_wings);
                        lemma_name_index(cw, w@);
                        match name_index(cw, w@) {
                            Some(j) => {
                                if j != k as int {
                                    if j < k as int {
                                        assert(cw[j].0 != cw[k as int].0);
                                    } else {
                                        assert(cw[k as int].0 != cw[j].0);
                                    }
                                }
                            },
                            None => {
                                assert(cw[k as int].0 == w@);
                            },
                        }
                        assert(name_index(cw, w@) == Some(k as int));
                        assert(counted(wings@).len() == wings@.len());
                        assert(cw.len() == old_wings.len());
                        assert(wings@.len() == old_wings.len());
                        let rw = rooms_of(es, w@);
                        assert(rooms_of(es2, w@) == rw.push(r@));
                        assert(rw.push(r@).drop_last() =~= rw);
                        assert(tally(rw.push(r@)) == bump(tally(rw), r@));
                        assert forall|q: int| 0 <= q < rooms@.len() implies counted(#[trigger] rooms@[q]@) == tally(rooms_of(es2, wings@[q].0@)) by {
                            assert(counted(wings@)[q] == bump(counted(old_wings), w@)[q]);
                            assert(counted(wings@)[q].0 == wings@[q].0@);
                            if q != k {
                                assert(counted(old_wings)[q].0 != w@) by {
                                    if q < k {
                                        assert(counted(old_wings)[q].0 != counted(old_wings)[k as int].0);
                                    } else {
                                        assert(counted(old_wings)[k as int].0 != counted(old_wings)[q].0);
                                    }
                                }
                                assert(counted(old_wings)[q].0 == old_wings[q].0@);
                            }
                        }
                    }
                },
                None => {
                    let mut row: Vec<(Vec<char>, usize)> = Vec::new();
                    tally_one(&mut row, r);
                    rooms.push(row);
                    proof {
                        let cw = counted(old_wings);
                        lemma_name_index(cw, w@);
                        assert(name_index(cw, w@) is None);
                        assert(counted(wings@).len() == wings@.len());
                        assert(cw.len() == old_wings.len());
                        assert(wings@.len() == old_wings.len() + 1);
                        assert(counted(wings@)[cw.len() as int] == (w@, 1usize));
                        assert forall|j: int| 0 <= j < es.len() implies (#[trigger] es[j]).0 != w@ by {
                            assert(wing_names(es)[j] == es[j].0);
                            if es[j].0 == w@ {
                                let q = choose|q: int| 0 <= q < tally(wing_names(es)).len() && (#[trigger] tally(wing_names(es))[q]).0 == #[trigger] wing_names(es)[j];
                                assert(counted(old_wings)[q].0 == old_wings[q].0@);
                            }
                        }
                        lemma_rooms_of_len(es, w@);
                        assert(rooms_of(es2, w@) =~= seq![r@]);
                        assert(tally(seq![r@]) =~= bump(Seq::<(Seq<char>, usize)>::empty(), r@)) by {
                            assert(seq![r@].drop_last() =~= Seq::<Seq<char>>::empty());
                            assert(tally(Seq::<Seq<char>>::empty()) == Seq::<(Seq<char>, usize)>::empty());
                            assert(seq![r@].last() == r@);
                        }
                        assert forall|q: int| 0 <= q < rooms@.len() implies counted(#[trigger] rooms@[q]@) == tally(rooms_of(es2, wings@[q].0@)) by {
                            assert(counted(wings@)[q] == bump(counted(old_wings), w@)[q]);
                            if q < old_rooms.len() {
                                assert(counted(old_wings)[q].0 == old_wings[q].0@);
                                assert(old_wings[q].0@ != w@);
                            }
                        }
                    }
                },
            }
        } else {
            assert(entries_of(lv.take(i + 1)) == es);
        }
    }
    assert(lv.take(ls@.len() as int) =~= lv);
    (wings, rooms, classified)
}


// ───────────────────────── the palace ─────────────────────────

/// The names and counts of rooms.
pub open spec fn room_keys(rs: Seq<(String, usize)>) -> Seq<(Seq<char>, usize)> {
    rs.map_values(|r: (String, usize)| (r.0@, r.1))
}

/// The names and counts of wings.
pub open spec fn wing_keys(ws: Seq<WingInfo>) -> Seq<(Seq<char>, usize)> {
    ws.map_values(|w: WingInfo| (w.name@, w.count))
}

/// `keys` lists each name of `ns` once, with its number of occurrences, and nothing else.
pub open spec fn lists_occurrences(ns: Seq<Seq<char>>, keys: Seq<(Seq<char>, usize)>) -> bool {
    &&& distinct_names(keys)
    &&& forall|q: int| 0 <= q < keys.len() ==> (#[trigger] keys[q]).1 == occurrences(ns, keys[q].0) && keys[q].1 >= 1
    &&& forall|i: int| 0 <= i < ns.len() ==> exists|q: int| 0 <= q < keys.len() && (#[trigger] keys[q]).0 == #[trigger] ns[i]
}

/// The rooms of wing `w`: each room once with its number of notes, in rank order.
pub open spec fn rooms_listed(es: Seq<(Seq<char>, Seq<char>)>, w: Seq<char>, rs: Seq<(String, usize)>) -> bool {
    &&& lists_occurrences(rooms_of(es, w), room_keys(rs))
    &&& ranked(room_keys(rs))
}

/// The wings: each wing once with its number of notes and its rooms, in rank order.
pub open spec fn wings_listed(es: Seq<(Seq<char>, Seq<char>)>, ws: Seq<WingInfo>) -> bool {
    &&& lists_occurrences(wing_names(es), wing_keys(ws))
    &&& ranked(wing_keys(ws))
    &&& forall|k: int| 0 <= k < ws.len() ==> rooms_listed(es, ws[k].name@, (#[trigger] ws[k]).rooms@)
}

/// The palace a note count and a room index give.
pub open spec fn palace_of(total: usize, text: Seq<char>, p: PalaceState) -> bool {
    let es = room_entries(text);
    &&& p.total_notes == total
    &&& p.classified == es.len()
    &&& p.unclassified == if total >= es.len() {
        (total - es.len()) as usize
    } else {
        0usize
    }
    &&& wings_listed(es, p.wings@)
}

proof fn lemma_lists_from_tally(ns: Seq<Seq<char>>, keys: Seq<(Seq<char>, usize)>)
    requires
        ns.len() <= usize::MAX,
        distinct_names(keys),
        forall|x: (Seq<char>, usize)| keys.contains(x) <==> tally(ns).contains(x),
    ensures
        lists_occurrences(ns, keys),
{
    lemma_tally(ns);
    let t = tally(ns);
    assert forall|q: int| 0 <= q < keys.len() implies (#[trigger] keys[q]).1 == occurrences(ns, keys[q].0) && keys[q].1 >= 1 by {
        assert(keys.contains(keys[q]));
        let k = choose|k: int| 0 <= k < t.len() && t[k] == keys[q];
        assert(t[k].1 == occurrences(ns, t[k].0));
    }
    assert forall|i: int| 0 <= i < ns.len() implies exists|q: int| 0 <= q < keys.len() && (#[trigger] keys[q]).0 == #[trigger] ns[i] by {
        let k = choose|k: int| 0 <= k < t.len() && (#[trigger] t[k]).0 == #[trigger] ns[i];
        assert(t.contains(t[k]));
        assert(keys.contains(t[k]));
        let q = choose|q: int| 0 <= q < keys.len() && keys[q] == t[k];
        assert(keys[q].0 == ns[i]);
    }
}

/// Rooms as they are shown: names as strings.
fn to_room_list(v: Vec<(Vec<char>, usize)>) -> (r: Vec<(String, usize)>)
    ensures
        room_keys(r@) == counted(v@),
{
    let mut r: Vec<(String, usize)> = Vec::new();
    for q in 0..v.len()
        invariant
            room_keys(r@) == counted(v@).take(q as int),
    {
        let name = chars_string(&v[q].0);
        let ghost old_r = r@;
        r.push((name, v[q].1));
        assert(r@ == old_r.push((name, v@[q as int].1)));
        assert(room_keys(r@) =~= room_keys(old_r).push((v@[q as int].0@, v@[q as int].1)));
        assert(counted(v@)[q as int] == (v@[q as int].0@, v@[q as int].1));
        assert(room_keys(r@) =~= counted(v@).take(q + 1));
    }
    assert(counted(v@).take(v@.len() as int) =~= counted(v@));
    r
}

/// Whether a file in the notes directory counts as a note.
pub open spec fn is_note_file_spec(name: Seq<char>) -> bool {
    ends_with(name, ".md"@) && name != "mempalace.yaml"@
}

/// A note file: a name ending in `.md` (the palace's own `mempalace.yaml` never counts).
pub fn is_note_file(name: &str) -> (r: bool)
    ensures
        r == is_note_file_spec(name@),
{
    let n = str_chars(name);
    let md = str_chars(".md");
    let own = str_chars("mempalace.yaml");
    has_suffix(&n, &md) && !chars_eq(&n, &own)
}

/// The palace from the number of note files and the room index: the classified notes
/// are the index lines with at least three tab-separated fields; wings and their rooms
/// are counted and ranked by count, largest first, then by name.
pub fn build_palace(total_notes: usize, rooms_idx: &str) -> (p: PalaceState)
    ensures
        palace_of(total_notes, rooms_idx@, p),
{
    let text = str_chars(rooms_idx);
    let ls = split_lines(&text);
    let ghost es = room_entries(rooms_idx@);
    assert(views(ls@) == lines(rooms_idx@));
    let (wings, mut rooms, classified) = count_entries(&ls);
    let ghost wn = wing_names(es);
    proof {
        assert(wn.len() == es.len());
        lemma_tally(wn);
    }
    let ghost gw = wings@;
    let ghost orig_rooms = rooms@;
    // each wing's rooms in rank order
    let mut sorted_rooms: Vec<Vec<(Vec<char>, usize)>> = Vec::new();
    let mut names: Vec<Vec<char>> = Vec::new();
    let nr = rooms.len();
    for k in 0..nr
        invariant
            nr == orig_rooms.len(),
            counts_ok(es, gw, orig_rooms),
            gw == wings@,
            es.len() <= usize::MAX,
            rooms@.len() == orig_rooms.len(),
            forall|j: int| k <= j < rooms@.len() ==> #[trigger] rooms@[j] == orig_rooms[j],
            sorted_rooms@.len() == k,
            names@.len() == k,
            forall|j: int| 0 <= j < k ==> (#[trigger] names@[j])@ == gw[j].0@,
            forall|j: int| 0 <= j < k ==> rooms_ok(es, gw[j].0@, #[trigger] sorted_rooms@[j]@),
    {
        let mut row: Vec<(Vec<char>, usize)> = Vec::new();
        let ghost before = rooms@;
        std::mem::swap(&mut row, &mut rooms[k]);
        proof {
            lemma_rooms_of_len(es, gw[k as int].0@);
            lemma_tally(rooms_of(es, gw[k as int].0@));
            assert(row@ == orig_rooms[k as int]@);
            assert(counted(row@) == tally(rooms_of(es, gw[k as int].0@)));
            assert forall|j: int| k < j < rooms@.len() implies #[trigger] rooms@[j] == orig_rooms[j] by {
                assert(rooms@[j] == before[j]);
            }
        }
        let srt = rank_sort(row);
        sorted_rooms.push(srt);
        names.push(crate::text::slice_chars(&wings[k].0, 0, wings[k].0.len()));
        assert(gw[k as int].0@.subrange(0, gw[k as int].0@.len() as int) == gw[k as int].0@);
    }
    // the wings in rank order, each with its rooms
    assert(counted(gw).len() == gw.len());
    let sorted = rank_sort(wings);
    let ghost sk = counted(sorted@);
    let mut out: Vec<WingInfo> = Vec::new();
    for step in 0..sorted.len()
        invariant
            sk == counted(sorted@),
            ranked(sk),
            distinct_names(sk),
            forall|x: (Seq<char>, usize)| sk.contains(x) <==> counted(gw).contains(x),
            counted(gw) == tally(wn),
            wn == wing_names(es),
            es.len() <= usize::MAX,
            names@.len() == gw.len(),
            sorted_rooms@.len() == gw.len(),
            forall|j: int| 0 <= j < names@.len() ==> (#[trigger] names@[j])@ == gw[j].0@,
            forall|j: int| 0 <= j < names@.len() ==> (forall|q: int| 0 <= q < step ==> (#[trigger] sk[q]).0 != names@[j]@)
                ==> rooms_ok(es, gw[j].0@, #[trigger] sorted_rooms@[j]@),
            out@.len() == step,
            wing_keys(out@) == sk.take(step as int),
            forall|q: int| 0 <= q < step ==> rooms_listed(es, out@[q].name@, (#[trigger] out@[q]).rooms@),
    {
        let ghost x = sk[step as int];
        assert(x == (sorted@[step as int].0@, sorted@[step as int].1));
        assert(sk.contains(x));
        let found = find_chars(&names, &sorted[step].0);
        match found {
            Some(j) => {
                let mut row: Vec<(Vec<char>, usize)> = Vec::new();
                let ghost before = sorted_rooms@;
                assert(rooms_ok(es, gw[j as int].0@, before[j as int]@)) by {
                    assert forall|q: int| 0 <= q < step implies (#[trigger] sk[q]).0 != names@[j as int]@ by {
                        assert(sk[q].0 != sk[step as int].0);
                    }
                }
                std::mem::swap(&mut row, &mut sorted_rooms[j]);
                proof {
                    lemma_rooms_of_len(es, gw[j as int].0@);
                    lemma_lists_from_tally(rooms_of(es, gw[j as int].0@), counted(row@));
                }
                let rl = to_room_list(row);
                let name = chars_string(&sorted[step].0);
                out.push(WingInfo { name, count: sorted[step].1, rooms: rl });
                proof {
                    assert(wing_keys(out@) =~= sk.take(step + 1));
                    assert forall|jj: int| 0 <= jj < names@.len() && (forall|q: int| 0 <= q < step + 1 ==> (#[trigger] sk[q]).0 != names@[jj]@)
                        implies rooms_ok(es, gw[jj].0@, #[trigger] sorted_rooms@[jj]@) by {
                        assert(sk[step as int].0 != names@[jj]@);
                        assert(jj != j);
                        assert(sorted_rooms@[jj] == before[jj]);
                    }
                }
            },
            None => {
                proof {
                    let t = tally(wn);
                    let k = choose|k: int| 0 <= k < counted(gw).len() && counted(gw)[k] == x;
                    assert(names@[k]@ == gw[k].0@);
                    assert(counted(gw)[k].0 == gw[k].0@);
                    assert(false);
                }
            },
        }
    }
    proof {
        assert(sk.take(sorted@.len() as int) =~= sk);
        lemma_lists_from_tally(wn, sk);
        assert(wing_keys(out@) == sk);
    }
    let unclassified = if total_notes >= classified {
        total_notes - classified
    } else {
        0
    };
    PalaceState { total_notes, classified, unclassified, wings: out }
}

/// `v` holds the rooms of wing `w` in rank order.
pub open spec fn rooms_ok(es: Seq<(Seq<char>, Seq<char>)>, w: Seq<char>, v: Seq<(Vec<char>, usize)>) -> bool {
    &&& ranked(counted(v))
    &&& distinct_names(counted(v))
    &&& forall|x: (Seq<char>, usize)| counted(v).contains(x) <==> tally(rooms_of(es, w)).contains(x)
}

/// Finds `x` among the names.
fn find_chars(names: &Vec<Vec<char>>, x: &[char]) -> (r: Option<usize>)
    ensures
        match r {
            Some(j) => j < names@.len() && names@[j as int]@ == x@,
            None => forall|j: int| 0 <= j < names@.len() ==> (#[trigger] names@[j])@ != x@,
        },
{
    for j in 0..names.len()
        invariant
            forall|q: int| 0 <= q < j ==> (#[trigger] names@[q])@ != x@,
    {
        if chars_eq(&names[j], x) {
            return Some(j);
        }
    }
    None
}

} // verus!
