//! The note graph behind the topology panel: which notes are linked (explicit links or
//! shared tags), node degrees, orphans, and the seeded random draws that place nodes.
//! The force layout itself, with its floating-point positions, lives with the renderer.
use vstd::prelude::*;
use crate::text::{chars_eq, str_chars, views, lemma_views_push};
use vstd::hash_map::{HashMapWithView, StringHashMap};
use crate::styled::Tone;

verus! {

// ───────────────────────── random draws ─────────────────────────

/// One xorshift step from a non-zero state.
pub open spec fn xorshift_step(s: u64) -> u64 {
    let a = s ^ (s << 13u64);
    let b = a ^ (a >> 7u64);
    b ^ (b << 17u64)
}

/// The state a zero state is replaced with before stepping.
pub open spec fn xorshift_spec(s: u64) -> u64 {
    if s == 0 {
        xorshift_step(0xdead_beef_dead_beefu64)
    } else {
        xorshift_step(s)
    }
}

/// Advances the xorshift64 generator and returns its new state (a zero state is first
/// replaced by a fixed seed).
pub fn xorshift(state: &mut u64) -> (r: u64)
    ensures
        r == xorshift_spec(*old(state)),
        *final(state) == r,
{
    if *state == 0 {
        *state = 0xdead_beef_dead_beef;
    }
    *state ^= *state << 13;
    *state ^= *state >> 7;
    *state ^= *state << 17;
    *state
}

/// The high 32 bits of the next xorshift value: what a position coordinate is scaled from.
pub fn xrand_raw(state: &mut u64) -> (r: u32)
    ensures
        *final(state) == xorshift_spec(*old(state)),
        r == (xorshift_spec(*old(state)) >> 32u64) as u32,
{
    let v = xorshift(state);
    (v >> 32) as u32
}

/// Multiplier and increment of the seed sequence.
pub open spec fn lcg_mul() -> u64 {
    6364136223846793005u64
}

pub open spec fn lcg_inc() -> u64 {
    1442695040888963407u64
}

/// `x * y` modulo 2^64.
pub open spec fn wrap_mul(x: u64, y: u64) -> u64 {
    ((x as nat * y as nat) % 0x1_0000_0000_0000_0000) as u64
}

/// `x + y` modulo 2^64.
pub open spec fn wrap_add(x: u64, y: u64) -> u64 {
    if x + y > u64::MAX {
        (x + y - 0x1_0000_0000_0000_0000) as u64
    } else {
        (x + y) as u64
    }
}

/// The next seed.
pub open spec fn next_seed(s: u64) -> u64 {
    wrap_add(wrap_mul(s, lcg_mul()), lcg_inc())
}

/// Pairs of raw draws, two per node, from the generator state `s`.
pub open spec fn draws_from(s: u64, n: nat) -> Seq<(u32, u32)>
    decreases n,
{
    if n == 0 {
        seq![]
    } else {
        let s1 = xorshift_spec(s);
        let s2 = xorshift_spec(s1);
        seq![((s1 >> 32u64) as u32, (s2 >> 32u64) as u32)] + draws_from(s2, (n - 1) as nat)
    }
}

fn draws(seed: u64, n: usize) -> (r: Vec<(u32, u32)>)
    ensures
        r@ == draws_from(seed, n as nat),
{
    let mut rng = seed;
    let mut out: Vec<(u32, u32)> = Vec::new();
    let mut k: usize = 0;
    while k < n
        invariant
            k <= n,
            draws_from(seed, n as nat) == out@ + draws_from(rng, (n - k) as nat),
        decreases n - k,
    {
        let a = xrand_raw(&mut rng);
        let b = xrand_raw(&mut rng);
        let ghost rest = draws_from(rng, (n - k - 1) as nat);
        assert(out@ + (seq![(a, b)] + rest) == out@.push((a, b)) + rest);
        out.push((a, b));
        k += 1;
    }
    out
}

// ───────────────────────── the graph ─────────────────────────

/// A note as listed by the palace (`zettel list --json`).
#[derive(Clone, Debug, Default)]
pub struct NoteRecord {
    pub id: String,
    pub wing: String,
    pub room: String,
    pub preview: String,
    pub tags: Vec<String>,
    pub links: Vec<String>,
}

/// A node of the graph: one note and its number of edges.
#[derive(Clone, Debug)]
pub struct GraphNode {
    pub id: String,
    pub wing: String,
    pub preview: String,
    pub degree: usize,
}

/// An edge between nodes `i <= j`: whether an explicit link made it, how many explicit
/// links it carries, and the size of each shared tag it came from.
#[derive(Clone, Debug)]
pub struct GraphEdge {
    pub i: usize,
    pub j: usize,
    pub explicit: bool,
    pub link_hits: usize,
    pub tag_sizes: Vec<usize>,
}

/// How strongly nodes are pulled toward the centre of their wing.
#[derive(Clone, Copy, Debug, PartialEq, Eq, Structural)]
pub enum AnchorMode {
    /// No pull: the layout follows links and tags alone.
    Free,
    /// A soft pull: wings bias the clustering.
    Soft,
    /// A strong pull: wings dominate the layout.
    Strong,
}

/// The note graph and the layout bookkeeping that is not geometry.
#[derive(Debug)]
pub struct GraphState {
    pub nodes: Vec<GraphNode>,
    pub edges: Vec<GraphEdge>,
    pub explicit_count: usize,
    pub orphan_count: usize,
    pub settle_ticks: u32,
    pub last_load_version: u64,
    pub seed_state: u64,
    pub anchor: AnchorMode,
}

impl GraphState {
    /// An empty graph.
    pub fn new() -> (g: GraphState)
        ensures
            g.nodes@.len() == 0,
            g.edges@.len() == 0,
            g.explicit_count == 0,
            g.orphan_count == 0,
            g.settle_ticks == 0,
            g.last_load_version == 0,
            g.seed_state == 0,
            g.anchor == AnchorMode::Free,
    {
        GraphState {
            nodes: Vec::new(),
            edges: Vec::new(),
            explicit_count: 0,
            orphan_count: 0,
            settle_ticks: 0,
            last_load_version: 0,
            seed_state: 0,
            anchor: AnchorMode::Free,
        }
    }

    /// Counts one physics step (saturating).
    pub fn count_settle_tick(&mut self)
        ensures
            final(self).settle_ticks == if old(self).settle_ticks < u32::MAX {
                (old(self).settle_ticks + 1) as u32
            } else {
                u32::MAX
            },
            final(self).nodes == old(self).nodes,
            final(self).edges == old(self).edges,
            final(self).seed_state == old(self).seed_state,
    {
        self.settle_ticks = self.settle_ticks.saturating_add(1);
    }
}

/// Number of notes in the graph.
pub fn node_count(g: &GraphState) -> (n: usize)
    ensures
        n == g.nodes@.len(),
{
    g.nodes.len()
}

/// Number of edges (explicit and tag-made).
pub fn edge_count(g: &GraphState) -> (n: usize)
    ensures
        n == g.edges@.len(),
{
    g.edges.len()
}

/// Number of edges made by an explicit link.
pub fn explicit_count(g: &GraphState) -> (n: usize)
    ensures
        n == g.explicit_count,
{
    g.explicit_count
}

/// Number of notes without any edge.
pub fn orphan_count(g: &GraphState) -> (n: usize)
    ensures
        n == g.orphan_count,
{
    g.orphan_count
}

/// Re-randomises the layout: advances the seed, draws two raw coordinates per node from
/// it (to be scaled to positions), and restarts the cooling schedule. The graph itself
/// is unchanged.
pub fn reseed(g: &mut GraphState) -> (r: Vec<(u32, u32)>)
    ensures
        final(g).seed_state == next_seed(old(g).seed_state),
        r@ == draws_from(final(g).seed_state, old(g).nodes@.len()),
        final(g).settle_ticks == 0,
        final(g).nodes == old(g).nodes,
        final(g).edges == old(g).edges,
        final(g).explicit_count == old(g).explicit_count,
        final(g).orphan_count == old(g).orphan_count,
        final(g).last_load_version == old(g).last_load_version,
        final(g).anchor == old(g).anchor,
{
    g.seed_state = g.seed_state.wrapping_mul(6364136223846793005).wrapping_add(
        1442695040888963407,
    );
    let d = draws(g.seed_state, g.nodes.len());
    g.settle_ticks = 0;
    d
}


// ───────────────────────── building the graph ─────────────────────────

/// The ids of the notes.
pub open spec fn note_ids(ns: Seq<NoteRecord>) -> Seq<Seq<char>> {
    ns.map_values(|n: NoteRecord| n.id@)
}

/// The last index below `k` whose id is `x`.
pub open spec fn resolve_from(ids: Seq<Seq<char>>, x: Seq<char>, k: int) -> Option<int>
    decreases k,
{
    if k <= 0 {
        None
    } else if ids[k - 1] == x {
        Some(k - 1)
    } else {
        resolve_from(ids, x, k - 1)
    }
}

/// The node an id names: the last note with that id (a later note replaces an earlier
/// one with the same id).
pub open spec fn resolve(ids: Seq<Seq<char>>, x: Seq<char>) -> Option<int> {
    resolve_from(ids, x, ids.len() as int)
}

/// The node that note `a` stands for.
pub open spec fn home(ns: Seq<NoteRecord>, a: int) -> int {
    match resolve(note_ids(ns), ns[a].id@) {
        Some(k) => k,
        None => a,
    }
}

/// The unordered pair `{i, j}` as `(low, high)`.
pub open spec fn edge_key(i: int, j: int) -> (int, int) {
    if i < j {
        (i, j)
    } else {
        (j, i)
    }
}

/// The explicit-link edges named by the first `l` links of note `a`: links to known
/// notes other than the note itself.
pub open spec fn link_keys(ns: Seq<NoteRecord>, a: int, l: int) -> Seq<(int, int)>
    decreases l,
{
    if l <= 0 {
        seq![]
    } else {
        let r = link_keys(ns, a, l - 1);
        match resolve(note_ids(ns), ns[a].links@[l - 1]@) {
            Some(j) => if home(ns, a) != j {
                r.push(edge_key(home(ns, a), j))
            } else {
                r
            },
            None => r,
        }
    }
}

/// The explicit-link edge occurrences of the first `a` notes, in order.
pub open spec fn explicit_keys(ns: Seq<NoteRecord>, a: int) -> Seq<(int, int)>
    decreases a,
{
    if a <= 0 {
        seq![]
    } else {
        explicit_keys(ns, a - 1) + link_keys(ns, a - 1, ns[a - 1].links@.len() as int)
    }
}

pub proof fn lemma_resolve_from(ids: Seq<Seq<char>>, x: Seq<char>, k: int)
    requires
        k <= ids.len(),
    ensures
        resolve_from(ids, x, k) matches Some(j) ==> 0 <= j < k && ids[j] == x,
        (exists|j: int| 0 <= j < k && ids[j] == x) ==> resolve_from(ids, x, k) is Some,
    decreases k,
{
    if k > 0 && ids[k - 1] != x {
        lemma_resolve_from(ids, x, k - 1);
        if exists|j: int| 0 <= j < k && ids[j] == x {
            let j = choose|j: int| 0 <= j < k && ids[j] == x;
            assert(j < k - 1);
        }
    }
}

pub proof fn lemma_home(ns: Seq<NoteRecord>, a: int)
    requires
        0 <= a < ns.len(),
    ensures
        0 <= home(ns, a) < ns.len(),
        resolve(note_ids(ns), ns[a].id@) == Some(home(ns, a)),
{
    lemma_resolve_from(note_ids(ns), ns[a].id@, ns.len() as int);
    assert(note_ids(ns)[a] == ns[a].id@);
}

fn resolve_exec(ids: &[Vec<char>], x: &[char]) -> (r: Option<usize>)
    ensures
        match r {
            Some(j) => resolve(views(ids@), x@) == Some(j as int),
            None => resolve(views(ids@), x@) is None,
        },
{
    let ghost vs = views(ids@);
    let mut k: usize = ids.len();
    while k > 0
        invariant
            vs == views(ids@),
            k <= ids@.len(),
            resolve(vs, x@) == resolve_from(vs, x@, k as int),
        decreases k,
    {
        assert(vs[k - 1] == ids@[k - 1]@);
        if chars_eq(&ids[k - 1], x) {
            return Some(k - 1);
        }
        k -= 1;
    }
    None
}

fn note_id_chars(notes: &[NoteRecord]) -> (r: Vec<Vec<char>>)
    ensures
        views(r@) == note_ids(notes@),
{
    let mut r: Vec<Vec<char>> = Vec::new();
    for i in 0..notes.len()
        invariant
            views(r@) == note_ids(notes@).take(i as int),
    {
        let c = str_chars(notes[i].id.as_str());
        proof {
            lemma_views_push(r@, c);
            assert(note_ids(notes@).take(i + 1) == note_ids(notes@).take(i as int).push(
                notes@[i as int].id@,
            ));
        }
        r.push(c);
    }
    assert(note_ids(notes@).take(notes@.len() as int) == note_ids(notes@));
    r
}

/// The pair as `(low, high)`.
fn key_of(i: usize, j: usize) -> (r: (usize, usize))
    ensures
        (r.0 as int, r.1 as int) == edge_key(i as int, j as int),
{
    if i < j {
        (i, j)
    } else {
        (j, i)
    }
}

/// The views of index pairs.
pub open spec fn pair_views(v: Seq<(usize, usize)>) -> Seq<(int, int)> {
    v.map_values(|p: (usize, usize)| (p.0 as int, p.1 as int))
}

/// The nodes notes stand for, and the explicit-link edge occurrences.
fn explicit_occurrences(notes: &[NoteRecord], ids: &Vec<Vec<char>>) -> (r: (Vec<usize>, Vec<(usize, usize)>))
    requires
        views(ids@) == note_ids(notes@),
    ensures
        r.0@.len() == notes@.len(),
        forall|a: int| 0 <= a < notes@.len() ==> r.0@[a] as int == home(notes@, a),
        pair_views(r.1@) == explicit_keys(notes@, notes@.len() as int),
        forall|k: int| 0 <= k < r.1@.len() ==> (#[trigger] r.1@[k]).0 <= r.1@[k].1 < notes@.len(),
{
    let ghost ns = notes@;
    let mut homes: Vec<usize> = Vec::new();
    let mut occ: Vec<(usize, usize)> = Vec::new();
    assert(pair_views(occ@) =~= seq![]);
    for a in 0..notes.len()
        invariant
            ns == notes@,
            views(ids@) == note_ids(ns),
            homes@.len() == a,
            forall|b: int| 0 <= b < a ==> homes@[b] as int == home(ns, b),
            pair_views(occ@) == explicit_keys(ns, a as int),
            forall|k: int| 0 <= k < occ@.len() ==> (#[trigger] occ@[k]).0 <= occ@[k].1 < ns.len(),
    {
        let h = match resolve_exec(ids, &str_chars(notes[a].id.as_str())) {
            Some(k) => k,
            None => a,
        };
        proof {
            lemma_home(ns, a as int);
        }
        homes.push(h);
        let links = &notes[a].links;
        let ghost base = pair_views(occ@);
        for l in 0..links.len()
            invariant
                ns == notes@,
                views(ids@) == note_ids(ns),
                0 <= a < ns.len(),
                h as int == home(ns, a as int),
                h < ns.len(),
                links@ == ns[a as int].links@,
                pair_views(occ@) == base + link_keys(ns, a as int, l as int),
                forall|k: int| 0 <= k < occ@.len() ==> (#[trigger] occ@[k]).0 <= occ@[k].1 < ns.len(),
        {
            match resolve_exec(ids, &str_chars(links[l].as_str())) {
                Some(j) => {
                    proof {
                        lemma_resolve_from(note_ids(ns), links@[l as int]@, ns.len() as int);
                    }
                    if h != j {
                        let key = key_of(h, j);
                        assert(pair_views(occ@.push(key)) =~= pair_views(occ@).push(
                            (key.0 as int, key.1 as int),
                        ));
                        occ.push(key);
                    }
                },
                None => {},
            }
        }
    }
    (homes, occ)
}


// ───────────────────────── shared tags ─────────────────────────

/// The (tag, node) occurrences of the first `l` tags of note `a`: each non-empty tag,
/// with the node the note stands for.
pub open spec fn note_tag_occ(ns: Seq<NoteRecord>, a: int, l: int) -> Seq<(Seq<char>, int)>
    decreases l,
{
    if l <= 0 {
        seq![]
    } else {
        let r = note_tag_occ(ns, a, l - 1);
        let t = ns[a].tags@[l - 1]@;
        if t.len() > 0 {
            r.push((t, home(ns, a)))
        } else {
            r
        }
    }
}

/// The (tag, node) occurrences of the first `a` notes, in order.
pub open spec fn tag_occ(ns: Seq<NoteRecord>, a: int) -> Seq<(Seq<char>, int)>
    decreases a,
{
    if a <= 0 {
        seq![]
    } else {
        tag_occ(ns, a - 1) + note_tag_occ(ns, a - 1, ns[a - 1].tags@.len() as int)
    }
}

/// The distinct tags of the occurrences, in order of first appearance.
pub open spec fn tag_names(o: Seq<(Seq<char>, int)>) -> Seq<Seq<char>>
    decreases o.len(),
{
    if o.len() == 0 {
        seq![]
    } else {
        let r = tag_names(o.drop_last());
        if r.contains(o.last().0) {
            r
        } else {
            r.push(o.last().0)
        }
    }
}

/// The nodes carrying tag `t`, each once, in order of first occurrence.
pub open spec fn tag_members(o: Seq<(Seq<char>, int)>, t: Seq<char>) -> Seq<int>
    decreases o.len(),
{
    if o.len() == 0 {
        seq![]
    } else {
        let r = tag_members(o.drop_last(), t);
        if o.last().0 == t && !r.contains(o.last().1) {
            r.push(o.last().1)
        } else {
            r
        }
    }
}

/// `s` holds the integers `m`.
pub open spec fn same_ints(s: Seq<usize>, m: Seq<int>) -> bool {
    s.len() == m.len() && forall|k: int| 0 <= k < s.len() ==> s[k] as int == #[trigger] m[k]
}

/// What the tag grouping holds after the occurrences `o`.
pub open spec fn groups_ok(
    o: Seq<(Seq<char>, int)>,
    index: Map<Seq<char>, usize>,
    members: Seq<Vec<usize>>,
    n: int,
) -> bool {
    let names = tag_names(o);
    &&& members.len() == names.len()
    &&& forall|t: Seq<char>| index.contains_key(t) <==> names.contains(t)
    &&& forall|i: int| 0 <= i < names.len() ==> index[#[trigger] names[i]] == i
    &&& forall|i: int| 0 <= i < names.len() ==> same_ints(#[trigger] members[i]@, tag_members(o, names[i]))
    &&& forall|i: int, k: int| 0 <= i < members.len() && 0 <= k < members[i]@.len() ==> #[trigger] members[i]@[k] < n
}

proof fn lemma_names_distinct(o: Seq<(Seq<char>, int)>)
    ensures
        forall|i: int, j: int| 0 <= i < j < tag_names(o).len() ==> tag_names(o)[i] != tag_names(o)[j],
    decreases o.len(),
{
    if o.len() > 0 {
        lemma_names_distinct(o.drop_last());
        let r = tag_names(o.drop_last());
        let x = o.last().0;
        if !r.contains(x) {
            assert forall|i: int| 0 <= i < r.len() implies r[i] != x by {
                if r[i] == x {
                    assert(r.contains(x));
                }
            }
        }
    }
}

/// Adds one (tag, node) occurrence to the grouping.
fn add_tag_occurrence(
    index: &mut StringHashMap<usize>,
    members: &mut Vec<Vec<usize>>,
    t: &String,
    h: usize,
    Ghost(o): Ghost<Seq<(Seq<char>, int)>>,
    Ghost(n): Ghost<int>,
)
    requires
        groups_ok(o, old(index)@, old(members)@, n),
        h < n,
    ensures
        groups_ok(o.push((t@, h as int)), final(index)@, final(members)@, n),
{
    let ghost o2 = o.push((t@, h as int));
    assert(o2.drop_last() =~= o);
    proof {
        lemma_names_distinct(o);
    }
    let ghost names = tag_names(o);
    match index.get(t.as_str()) {
        Some(ix) => {
            let ix = *ix;
            assert(names.contains(t@));
            let ghost w = choose|w: int| 0 <= w < names.len() && names[w] == t@;
            assert(index@[names[w]] == w);
            assert(ix as int == w);
            assert(tag_names(o2) == names);
            let ghost m0 = tag_members(o, t@);
            assert(same_ints(members@[w]@, m0));
            let mut seen = false;
            let mut k: usize = 0;
            let rl = members[ix].len();
            while k < rl
                invariant
                    rl == members@[w]@.len(),
                    ix as int == w,
                    0 <= w < members@.len(),
                    same_ints(members@[w]@, m0),
                    k <= rl,
                    seen <==> exists|q: int| 0 <= q < k && m0[q] == h as int,
                decreases rl - k,
            {
                assert(members@[w]@[k as int] as int == m0[k as int]);
                if members[ix][k] == h {
                    seen = true;
                }
                assert(seen <==> exists|q: int| 0 <= q < k + 1 && m0[q] == h as int) by {
                    if exists|q: int| 0 <= q < k + 1 && m0[q] == h as int {
                        let q = choose|q: int| 0 <= q < k + 1 && m0[q] == h as int;
                        if q < k {
                        }
                    }
                }
                k += 1;
            }
            assert(seen <==> m0.contains(h as int)) by {
                if m0.contains(h as int) {
                    let q = choose|q: int| 0 <= q < m0.len() && m0[q] == h as int;
                    assert(0 <= q < rl);
                }
            }
            if !seen {
                let mut row = Vec::new();
                std::mem::swap(&mut row, &mut members[ix]);
                row.push(h);
                members.set(ix, row);
            }
            assert forall|i: int| 0 <= i < names.len() implies same_ints(#[trigger] members@[i]@, tag_members(o2, names[i])) by {
                if i != w {
                    assert(names[i] != t@);
                }
            }
        },
        None => {
            assert(!names.contains(t@));
            assert(tag_names(o2) == names.push(t@));
            index.insert(t.clone(), members.len());
            members.push(vec![h]);
            let ghost names2 = names.push(t@);
            assert forall|i: int| 0 <= i < names2.len() implies index@[#[trigger] names2[i]] == i by {
                if i < names.len() {
                    assert(names[i] != t@);
                }
            }
            assert forall|s: Seq<char>| index@.contains_key(s) <==> names2.contains(s) by {
                if s == t@ {
                    assert(names2[names.len() as int] == s);
                } else {
                    if names.contains(s) {
                        let w = choose|w: int| 0 <= w < names.len() && names[w] == s;
                        assert(names2[w] == s);
                    }
                    if names2.contains(s) {
                        let w = choose|w: int| 0 <= w < names2.len() && names2[w] == s;
                        assert(w < names.len());
                        assert(names[w] == s);
                    }
                }
            }
            assert(tag_members(o, t@) == Seq::<int>::empty()) by {
                lemma_members_absent(o, t@);
            }
            assert forall|i: int| 0 <= i < names2.len() implies same_ints(#[trigger] members@[i]@, tag_members(o2, names2[i])) by {
                if i < names.len() {
                    assert(names[i] != t@);
                }
            }
        },
    }
}

proof fn lemma_members_absent(o: Seq<(Seq<char>, int)>, t: Seq<char>)
    requires
        !tag_names(o).contains(t),
    ensures
        tag_members(o, t) == Seq::<int>::empty(),
    decreases o.len(),
{
    if o.len() > 0 {
        let r = tag_names(o.drop_last());
        if r.contains(t) {
            let w = choose|w: int| 0 <= w < r.len() && r[w] == t;
            if !r.contains(o.last().0) {
                assert(tag_names(o)[w] == t);
            } else {
                assert(tag_names(o)[w] == t);
            }
        }
        if o.last().0 == t {
            if r.contains(t) {
            } else {
                assert(tag_names(o).last() == t);
            }
        }
        lemma_members_absent(o.drop_last(), t);
    }
}


// ───────────────────────── collecting edges ─────────────────────────

/// An edge occurrence: the pair it joins, and `None` for an explicit link or the size
/// of the shared tag it came from.
pub type Occurrence = ((int, int), Option<usize>);

/// The pair an edge joins.
pub open spec fn edge_pair(e: GraphEdge) -> (int, int) {
    (e.i as int, e.j as int)
}

/// How many explicit links among the occurrences join `key`.
pub open spec fn key_hits(occ: Seq<Occurrence>, key: (int, int)) -> nat
    decreases occ.len(),
{
    if occ.len() == 0 {
        0
    } else {
        key_hits(occ.drop_last(), key) + if occ.last() == (key, None::<usize>) {
            1nat
        } else {
            0nat
        }
    }
}

/// The sizes of the shared tags among the occurrences that join `key`, in order.
pub open spec fn key_sizes(occ: Seq<Occurrence>, key: (int, int)) -> Seq<usize>
    decreases occ.len(),
{
    if occ.len() == 0 {
        seq![]
    } else {
        let r = key_sizes(occ.drop_last(), key);
        match occ.last().1 {
            Some(k) => if occ.last().0 == key {
                r.push(k)
            } else {
                r
            },
            None => r,
        }
    }
}

/// The number an edge is filed under while collecting.
pub open spec fn pair_code(key: (int, int)) -> int {
    key.0 * 0x1_0000_0000_0000_0000 + key.1
}

/// The edges are exactly the distinct pairs of the occurrences, each with its explicit
/// link count and its shared tag sizes.
pub open spec fn edges_match(occ: Seq<Occurrence>, edges: Seq<GraphEdge>, n: int) -> bool {
    &&& forall|e: int| 0 <= e < edges.len() ==> (#[trigger] edges[e]).i <= edges[e].j < n
    &&& forall|e1: int, e2: int|
        0 <= e1 < edges.len() && 0 <= e2 < edges.len() && e1 != e2 ==> edge_pair(#[trigger] edges[e1])
            != edge_pair(#[trigger] edges[e2])
    &&& forall|e: int|
        0 <= e < edges.len() ==> exists|o: int| 0 <= o < occ.len() && (#[trigger] occ[o]).0 == edge_pair(#[trigger] edges[e])
    &&& forall|o: int|
        0 <= o < occ.len() ==> exists|e: int| 0 <= e < edges.len() && edge_pair(#[trigger] edges[e]) == (#[trigger] occ[o]).0
    &&& forall|e: int|
        0 <= e < edges.len() ==> {
            &&& (#[trigger] edges[e]).link_hits == key_hits(occ, edge_pair(edges[e]))
            &&& edges[e].tag_sizes@ == key_sizes(occ, edge_pair(edges[e]))
            &&& edges[e].explicit == (edges[e].link_hits > 0)
        }
}

/// What the collection holds after the occurrences `occ`: the edges match them, and
/// `index` files each edge under its pair's number.
pub open spec fn collect_ok(occ: Seq<Occurrence>, edges: Seq<GraphEdge>, index: Map<u128, usize>, n: int) -> bool {
    &&& edges_match(occ, edges, n)
    &&& forall|e: int|
        0 <= e < edges.len() ==> index.contains_key(pair_code(edge_pair(#[trigger] edges[e])) as u128)
            && index[pair_code(edge_pair(edges[e])) as u128] == e
    &&& forall|c: u128|
        #[trigger] index.contains_key(c) ==> index[c] < edges.len() && pair_code(edge_pair(edges[index[c] as int])) == c
}

proof fn lemma_hits_bound(occ: Seq<Occurrence>, key: (int, int))
    ensures
        key_hits(occ, key) <= occ.len(),
    decreases occ.len(),
{
    if occ.len() > 0 {
        lemma_hits_bound(occ.drop_last(), key);
    }
}

proof fn lemma_key_absent(occ: Seq<Occurrence>, key: (int, int))
    requires
        forall|o: int| 0 <= o < occ.len() ==> (#[trigger] occ[o]).0 != key,
    ensures
        key_hits(occ, key) == 0,
        key_sizes(occ, key) == Seq::<usize>::empty(),
    decreases occ.len(),
{
    if occ.len() > 0 {
        assert(occ.last() == occ[occ.len() - 1]);
        lemma_key_absent(occ.drop_last(), key);
    }
}

proof fn lemma_bump(
    occ: Seq<Occurrence>,
    old_e: Seq<GraphEdge>,
    new_e: Seq<GraphEdge>,
    index: Map<u128, usize>,
    n: int,
    e: int,
    x: Occurrence,
)
    requires
        collect_ok(occ, old_e, index, n),
        0 <= e < old_e.len(),
        edge_pair(old_e[e]) == x.0,
        new_e.len() == old_e.len(),
        forall|e2: int| 0 <= e2 < old_e.len() && e2 != e ==> new_e[e2] == old_e[e2],
        new_e[e].i == old_e[e].i,
        new_e[e].j == old_e[e].j,
        new_e[e].link_hits == key_hits(occ.push(x), x.0),
        new_e[e].tag_sizes@ == key_sizes(occ.push(x), x.0),
        new_e[e].explicit == (new_e[e].link_hits > 0),
    ensures
        collect_ok(occ.push(x), new_e, index, n),
{
    let occ2 = occ.push(x);
    assert(occ2.drop_last() =~= occ);
    assert forall|e2: int| 0 <= e2 < new_e.len() implies exists|o: int|
        0 <= o < occ2.len() && (#[trigger] occ2[o]).0 == edge_pair(#[trigger] new_e[e2]) by {
        let o = choose|o: int| 0 <= o < occ.len() && (#[trigger] occ[o]).0 == edge_pair(old_e[e2]);
        assert(occ2[o] == occ[o]);
    }
    assert forall|o: int| 0 <= o < occ2.len() implies exists|e2: int|
        0 <= e2 < new_e.len() && edge_pair(#[trigger] new_e[e2]) == (#[trigger] occ2[o]).0 by {
        if o < occ.len() {
            assert(occ2[o] == occ[o]);
            let e2 = choose|e2: int| 0 <= e2 < old_e.len() && edge_pair(#[trigger] old_e[e2]) == occ[o].0;
            assert(edge_pair(new_e[e2]) == occ2[o].0);
        } else {
            assert(edge_pair(new_e[e]) == occ2[o].0);
        }
    }
    assert forall|e2: int| 0 <= e2 < new_e.len() implies {
        &&& (#[trigger] new_e[e2]).link_hits == key_hits(occ2, edge_pair(new_e[e2]))
        &&& new_e[e2].tag_sizes@ == key_sizes(occ2, edge_pair(new_e[e2]))
        &&& new_e[e2].explicit == (new_e[e2].link_hits > 0)
    } by {
        if e2 != e {
            assert(edge_pair(old_e[e2]) != edge_pair(old_e[e]));
        }
    }
    assert forall|e1: int, e2: int|
        0 <= e1 < new_e.len() && 0 <= e2 < new_e.len() && e1 != e2 implies edge_pair(#[trigger] new_e[e1])
            != edge_pair(#[trigger] new_e[e2]) by {
        assert(edge_pair(old_e[e1]) != edge_pair(old_e[e2]));
    }
    assert forall|e2: int| 0 <= e2 < new_e.len() implies index.contains_key(pair_code(edge_pair(#[trigger] new_e[e2])) as u128)
        && index[pair_code(edge_pair(new_e[e2])) as u128] == e2 by {
        assert(edge_pair(new_e[e2]) == edge_pair(old_e[e2]));
    }
    assert forall|c: u128| #[trigger] index.contains_key(c) implies index[c] < new_e.len()
        && pair_code(edge_pair(new_e[index[c] as int])) == c by {
        assert(edge_pair(new_e[index[c] as int]) == edge_pair(old_e[index[c] as int]));
    }
}

proof fn lemma_code_injective(p: (int, int), q: (int, int))
    requires
        0 <= p.0 < 0x1_0000_0000_0000_0000,
        0 <= p.1 < 0x1_0000_0000_0000_0000,
        0 <= q.0 < 0x1_0000_0000_0000_0000,
        0 <= q.1 < 0x1_0000_0000_0000_0000,
    ensures
        0 <= pair_code(p) <= u128::MAX,
        pair_code(p) as u128 == pair_code(q) as u128 ==> p == q,
{
    if p.0 < q.0 {
        assert(pair_code(p) < pair_code(q));
    } else if q.0 < p.0 {
        assert(pair_code(q) < pair_code(p));
    }
}

proof fn lemma_add(
    occ: Seq<Occurrence>,
    old_e: Seq<GraphEdge>,
    new_e: Seq<GraphEdge>,
    index: Map<u128, usize>,
    n: int,
    x: Occurrence,
    ed: GraphEdge,
)
    requires
        collect_ok(occ, old_e, index, n),
        !index.contains_key(pair_code(x.0) as u128),
        0 <= x.0.0 < 0x1_0000_0000_0000_0000,
        0 <= x.0.1 < 0x1_0000_0000_0000_0000,
        n <= 0x1_0000_0000_0000_0000,
        old_e.len() < usize::MAX,
        new_e == old_e.push(ed),
        edge_pair(ed) == x.0,
        ed.i <= ed.j < n,
        ed.link_hits == (if x.1 is None { 1nat } else { 0nat }),
        ed.tag_sizes@ == (match x.1 {
            Some(k) => seq![k],
            None => Seq::<usize>::empty(),
        }),
        ed.explicit == (ed.link_hits > 0),
    ensures
        collect_ok(occ.push(x), new_e, index.insert(pair_code(x.0) as u128, old_e.len() as usize), n),
{
    let occ2 = occ.push(x);
    let key = x.0;
    let ne = old_e.len() as int;
    let index2 = index.insert(pair_code(x.0) as u128, old_e.len() as usize);
    assert(occ2.drop_last() =~= occ);
    assert(occ2[occ.len() as int] == x);
    assert forall|o: int| 0 <= o < occ.len() implies (#[trigger] occ[o]).0 != key by {
        if occ[o].0 == key {
            let e2 = choose|e2: int| 0 <= e2 < old_e.len() && edge_pair(#[trigger] old_e[e2]) == occ[o].0;
            assert(index.contains_key(pair_code(edge_pair(old_e[e2])) as u128));
        }
    }
    lemma_key_absent(occ, key);
    assert forall|e2: int| 0 <= e2 < ne implies edge_pair(#[trigger] old_e[e2]) != key by {
        let o = choose|o: int| 0 <= o < occ.len() && (#[trigger] occ[o]).0 == edge_pair(old_e[e2]);
    }
    assert forall|e2: int| 0 <= e2 < new_e.len() implies exists|o: int|
        0 <= o < occ2.len() && (#[trigger] occ2[o]).0 == edge_pair(#[trigger] new_e[e2]) by {
        if e2 < ne {
            assert(new_e[e2] == old_e[e2]);
            let o = choose|o: int| 0 <= o < occ.len() && (#[trigger] occ[o]).0 == edge_pair(old_e[e2]);
            assert(occ2[o] == occ[o]);
        } else {
            assert(occ2[occ.len() as int].0 == edge_pair(new_e[e2]));
        }
    }
    assert forall|o: int| 0 <= o < occ2.len() implies exists|e2: int|
        0 <= e2 < new_e.len() && edge_pair(#[trigger] new_e[e2]) == (#[trigger] occ2[o]).0 by {
        if o < occ.len() {
            assert(occ2[o] == occ[o]);
            let e2 = choose|e2: int| 0 <= e2 < old_e.len() && edge_pair(#[trigger] old_e[e2]) == occ[o].0;
            assert(new_e[e2] == old_e[e2]);
        } else {
            assert(edge_pair(new_e[ne]) == occ2[o].0);
        }
    }
    assert forall|e2: int| 0 <= e2 < new_e.len() implies {
        &&& (#[trigger] new_e[e2]).link_hits == key_hits(occ2, edge_pair(new_e[e2]))
        &&& new_e[e2].tag_sizes@ == key_sizes(occ2, edge_pair(new_e[e2]))
        &&& new_e[e2].explicit == (new_e[e2].link_hits > 0)
    } by {
        if e2 < ne {
            assert(new_e[e2] == old_e[e2]);
        }
    }
    assert forall|e2: int| 0 <= e2 < new_e.len() implies (#[trigger] new_e[e2]).i <= new_e[e2].j < n by {
        if e2 < ne {
            assert(new_e[e2] == old_e[e2]);
        }
    }
    assert forall|e1: int, e2: int|
        0 <= e1 < new_e.len() && 0 <= e2 < new_e.len() && e1 != e2 implies edge_pair(#[trigger] new_e[e1])
            != edge_pair(#[trigger] new_e[e2]) by {
        if e1 < ne && e2 < ne {
            assert(new_e[e1] == old_e[e1]);
            assert(new_e[e2] == old_e[e2]);
        } else if e1 < ne {
            assert(new_e[e1] == old_e[e1]);
        } else {
            assert(new_e[e2] == old_e[e2]);
        }
    }
    assert forall|e2: int| 0 <= e2 < new_e.len() implies index2.contains_key(pair_code(edge_pair(#[trigger] new_e[e2])) as u128)
        && index2[pair_code(edge_pair(new_e[e2])) as u128] == e2 by {
        if e2 < ne {
            assert(new_e[e2] == old_e[e2]);
            lemma_code_injective(edge_pair(old_e[e2]), key);
        }
    }
    assert forall|c: u128| #[trigger] index2.contains_key(c) implies index2[c] < new_e.len()
        && pair_code(edge_pair(new_e[index2[c] as int])) == c by {
        if c != pair_code(key) as u128 {
            assert(new_e[index[c] as int] == old_e[index[c] as int]);
        }
    }
}

/// Files one occurrence: a new pair becomes a new edge, a known one gains a link or a
/// tag size.
fn record_occurrence(
    edges: &mut Vec<GraphEdge>,
    index: &mut HashMapWithView<u128, usize>,
    i: usize,
    j: usize,
    size: Option<usize>,
    Ghost(occ): Ghost<Seq<Occurrence>>,
    Ghost(n): Ghost<int>,
)
    requires
        collect_ok(occ, old(edges)@, old(index)@, n),
        i <= j < n,
        n <= 0x1_0000_0000_0000_0000,
        size is None ==> occ.len() < usize::MAX,
    ensures
        collect_ok(occ.push(((i as int, j as int), size)), final(edges)@, final(index)@, n),
{
    let ghost key = (i as int, j as int);
    let ghost x: Occurrence = (key, size);
    let ghost occ2 = occ.push(x);
    proof {
        assert(occ2.drop_last() =~= occ);
    }
    let c: u128 = (i as u128) * 0x1_0000_0000_0000_0000u128 + (j as u128);
    assert(c == pair_code(key));
    match index.get(&c) {
        Some(e) => {
            let e = *e;
            let ghost old_edges = edges@;
            assert(edge_pair(old_edges[e as int]) == key);
            let mut ed = GraphEdge { i: 0, j: 0, explicit: false, link_hits: 0, tag_sizes: Vec::new() };
            std::mem::swap(&mut ed, &mut edges[e]);
            match size {
                None => {
                    proof {
                        lemma_hits_bound(occ, key);
                    }
                    ed.link_hits = ed.link_hits + 1;
                    ed.explicit = true;
                },
                Some(k) => {
                    ed.tag_sizes.push(k);
                },
            }
            edges.set(e, ed);
            proof {
                lemma_bump(occ, old_edges, edges@, index@, n, e as int, x);
            }
        },
        None => {
            let ghost old_edges = edges@;
            let ghost old_index = index@;
            let mut sizes: Vec<usize> = Vec::new();
            let mut hits: usize = 0;
            match size {
                None => {
                    hits = 1;
                },
                Some(k) => {
                    sizes.push(k);
                },
            }
            index.insert(c, edges.len());
            edges.push(GraphEdge { i, j, explicit: hits > 0, link_hits: hits, tag_sizes: sizes });
            let new_len = edges.len();
            assert(old_edges.len() + 1 == new_len);
            proof {
                lemma_add(occ, old_edges, edges@, old_index, n, x, edges@.last());
            }
        },
    }
}


/// The member lists of the distinct tags, in order of first appearance.
fn group_tags(notes: &[NoteRecord], homes: &Vec<usize>) -> (r: Vec<Vec<usize>>)
    requires
        homes@.len() == notes@.len(),
        forall|a: int| 0 <= a < notes@.len() ==> #[trigger] homes@[a] as int == home(notes@, a),
    ensures
        r@.len() == tag_names(tag_occ(notes@, notes@.len() as int)).len(),
        forall|i: int| 0 <= i < r@.len() ==> same_ints(#[trigger] r@[i]@, tag_members(
            tag_occ(notes@, notes@.len() as int),
            tag_names(tag_occ(notes@, notes@.len() as int))[i],
        )),
        forall|i: int, k: int| 0 <= i < r@.len() && 0 <= k < r@[i]@.len() ==> #[trigger] r@[i]@[k] < notes@.len(),
{
    let ghost ns = notes@;
    let ghost n = ns.len() as int;
    let mut index: StringHashMap<usize> = StringHashMap::new();
    let mut members: Vec<Vec<usize>> = Vec::new();
    assert(groups_ok(tag_occ(ns, 0), index@, members@, n));
    for a in 0..notes.len()
        invariant
            ns == notes@,
            n == ns.len(),
            homes@.len() == ns.len(),
            forall|b: int| 0 <= b < ns.len() ==> #[trigger] homes@[b] as int == home(ns, b),
            groups_ok(tag_occ(ns, a as int), index@, members@, n),
    {
        let tags = &notes[a].tags;
        let h = homes[a];
        proof {
            lemma_home(ns, a as int);
        }
        let ghost base = tag_occ(ns, a as int);
        assert(base + note_tag_occ(ns, a as int, 0) =~= base);
        for l in 0..tags.len()
            invariant
                ns == notes@,
                n == ns.len(),
                0 <= a < ns.len(),
                tags@ == ns[a as int].tags@,
                h as int == home(ns, a as int),
                h < n,
                groups_ok(base + note_tag_occ(ns, a as int, l as int), index@, members@, n),
        {
            let ghost pre = base + note_tag_occ(ns, a as int, l as int);
            if !tags[l].as_str().is_empty() {
                add_tag_occurrence(&mut index, &mut members, &tags[l], h, Ghost(pre), Ghost(n));
                assert(base + note_tag_occ(ns, a as int, l + 1) =~= pre.push((tags@[l as int]@, h as int)));
            } else {
                assert(base + note_tag_occ(ns, a as int, l + 1) =~= pre);
            }
        }
        assert(tag_occ(ns, a + 1) == base + note_tag_occ(ns, a as int, tags@.len() as int));
    }
    members
}


/// The explicit links as edge occurrences.
pub open spec fn link_occ(keys: Seq<(int, int)>) -> Seq<Occurrence> {
    Seq::new(keys.len(), |q: int| (keys[q], None::<usize>))
}

/// The pairs `(m[a], m[c])` for `a < c < b`, in order.
pub open spec fn row_keys(m: Seq<int>, a: int, b: int) -> Seq<(int, int)>
    decreases b - a,
{
    if b <= a + 1 {
        seq![]
    } else {
        row_keys(m, a, b - 1).push(edge_key(m[a], m[b - 1]))
    }
}

/// The pairs of members whose first index is below `a`, row by row.
pub open spec fn pair_keys(m: Seq<int>, a: int) -> Seq<(int, int)>
    decreases a,
{
    if a <= 0 {
        seq![]
    } else {
        pair_keys(m, a - 1) + row_keys(m, a - 1, m.len() as int)
    }
}

/// Pairs tagged with the size of the tag they come from.
pub open spec fn sized(keys: Seq<(int, int)>, k: usize) -> Seq<Occurrence> {
    Seq::new(keys.len(), |q: int| (keys[q], Some(k)))
}

/// Largest number of notes a tag may be on and still link them.
pub open spec fn max_tag_fanout() -> int {
    30
}

/// The edge occurrences one tag gives: every pair of its members, when it is on at least
/// two and at most thirty notes.
pub open spec fn tag_pair_occ(m: Seq<int>) -> Seq<Occurrence> {
    if 2 <= m.len() <= max_tag_fanout() {
        sized(pair_keys(m, m.len() as int), m.len() as usize)
    } else {
        seq![]
    }
}

/// The edge occurrences of the first `i` distinct tags.
pub open spec fn tags_occ(o: Seq<(Seq<char>, int)>, i: int) -> Seq<Occurrence>
    decreases i,
{
    if i <= 0 {
        seq![]
    } else {
        tags_occ(o, i - 1) + tag_pair_occ(tag_members(o, tag_names(o)[i - 1]))
    }
}

/// All edge occurrences of the notes: the explicit links first, then the shared tags.
pub open spec fn edge_occ(ns: Seq<NoteRecord>) -> Seq<Occurrence> {
    let o = tag_occ(ns, ns.len() as int);
    link_occ(explicit_keys(ns, ns.len() as int)) + tags_occ(o, tag_names(o).len() as int)
}

/// Collects the edges of the notes.
fn collect_edges(notes: &[NoteRecord]) -> (r: (Vec<usize>, Vec<GraphEdge>))
    ensures
        r.0@.len() == notes@.len(),
        forall|a: int| 0 <= a < notes@.len() ==> #[trigger] r.0@[a] as int == home(notes@, a),
        edges_match(edge_occ(notes@), r.1@, notes@.len() as int),
{
    let ghost ns = notes@;
    let ghost n = ns.len() as int;
    let nl = notes.len();
    assert(n == nl);
    let ids = note_id_chars(notes);
    let (homes, links) = explicit_occurrences(notes, &ids);
    let mut edges: Vec<GraphEdge> = Vec::new();
    let mut index: HashMapWithView<u128, usize> = HashMapWithView::new();
    let ghost lk = explicit_keys(ns, n);
    assert(collect_ok(link_occ(lk).take(0), edges@, index@, n));
    for q in 0..links.len()
        invariant
            ns == notes@,
            n == ns.len(),
            n <= usize::MAX,
            pair_views(links@) == lk,
            forall|k: int| 0 <= k < links@.len() ==> (#[trigger] links@[k]).0 <= links@[k].1 < ns.len(),
            collect_ok(link_occ(lk).take(q as int), edges@, index@, n),
    {
        let (i, j) = links[q];
        assert(pair_views(links@)[q as int] == (i as int, j as int));
        assert(link_occ(lk).take(q + 1) =~= link_occ(lk).take(q as int).push(((i as int, j as int), None)));
        record_occurrence(&mut edges, &mut index, i, j, None, Ghost(link_occ(lk).take(q as int)), Ghost(n));
    }
    assert(link_occ(lk).take(links@.len() as int) =~= link_occ(lk));
    let groups = group_tags(notes, &homes);
    let ghost o = tag_occ(ns, n);
    let ghost names = tag_names(o);
    let ghost base = link_occ(lk);
    assert(base + tags_occ(o, 0) =~= base);
    for t in 0..groups.len()
        invariant
            ns == notes@,
            n == ns.len(),
            n <= usize::MAX,
            names == tag_names(o),
            groups@.len() == names.len(),
            forall|i: int| 0 <= i < groups@.len() ==> same_ints(#[trigger] groups@[i]@, tag_members(o, names[i])),
            forall|i: int, k: int| 0 <= i < groups@.len() && 0 <= k < groups@[i]@.len() ==> #[trigger] groups@[i]@[k] < ns.len(),
            collect_ok(base + tags_occ(o, t as int), edges@, index@, n),
    {
        let m = &groups[t];
        let k = m.len();
        let ghost mi = tag_members(o, names[t as int]);
        let ghost pre = base + tags_occ(o, t as int);
        assert(same_ints(groups@[t as int]@, mi));
        if 2 <= k && k <= 30 {
            assert(pre + sized(pair_keys(mi, 0), k) =~= pre);
            for a in 0..k
                invariant
                    ns == notes@,
                    n == ns.len(),
                    n <= usize::MAX,
                    k == m@.len(),
                    same_ints(m@, mi),
                    forall|x: int| 0 <= x < m@.len() ==> #[trigger] m@[x] < ns.len(),
                    collect_ok(pre + sized(pair_keys(mi, a as int), k), edges@, index@, n),
            {
                let ghost pa = pre + sized(pair_keys(mi, a as int), k);
                assert(pre + sized(pair_keys(mi, a as int) + row_keys(mi, a as int, a + 1), k) =~= pa);
                for b in a + 1..k
                    invariant
                        ns == notes@,
                        n == ns.len(),
                        n <= usize::MAX,
                        k == m@.len(),
                        a < b <= k,
                        same_ints(m@, mi),
                        forall|x: int| 0 <= x < m@.len() ==> #[trigger] m@[x] < ns.len(),
                        collect_ok(pre + sized(pair_keys(mi, a as int) + row_keys(mi, a as int, b as int), k), edges@, index@, n),
                {
                    let (x, y) = key_of(m[a], m[b]);
                    let ghost cur = pre + sized(pair_keys(mi, a as int) + row_keys(mi, a as int, b as int), k);
                    assert(mi[a as int] == m@[a as int] && mi[b as int] == m@[b as int]);
                    assert(pair_keys(mi, a as int) + row_keys(mi, a as int, b + 1) =~= (pair_keys(mi, a as int)
                        + row_keys(mi, a as int, b as int)).push(edge_key(mi[a as int], mi[b as int])));
                    assert(pre + sized(pair_keys(mi, a as int) + row_keys(mi, a as int, b + 1), k) =~= cur.push(
                        ((x as int, y as int), Some(k)),
                    ));
                    record_occurrence(&mut edges, &mut index, x, y, Some(k), Ghost(cur), Ghost(n));
                }
                assert(pair_keys(mi, a + 1) =~= pair_keys(mi, a as int) + row_keys(mi, a as int, k as int));
            }
            assert(mi.len() == k);
            assert(tag_pair_occ(mi) == sized(pair_keys(mi, k as int), k));
            assert(tags_occ(o, t + 1) == tags_occ(o, t as int) + tag_pair_occ(mi));
            assert(base + tags_occ(o, t + 1) =~= pre + sized(pair_keys(mi, k as int), k));
        } else {
            assert(mi.len() == k);
            assert(tag_pair_occ(mi) == Seq::<Occurrence>::empty());
            assert(tags_occ(o, t + 1) == tags_occ(o, t as int) + tag_pair_occ(mi));
            assert(tags_occ(o, t + 1) =~= tags_occ(o, t as int));
        }
    }
    (homes, edges)
}


// ───────────────────────── degrees and counts ─────────────────────────

/// The number of edge ends at node `v` (an edge from a node to itself counts twice).
pub open spec fn degree_in(edges: Seq<GraphEdge>, v: int) -> nat
    decreases edges.len(),
{
    if edges.len() == 0 {
        0
    } else {
        let e = edges.last();
        degree_in(edges.drop_last(), v) + (if e.i == v {
            1nat
        } else {
            0nat
        }) + (if e.j == v {
            1nat
        } else {
            0nat
        })
    }
}

/// `x`, or `usize::MAX` where it is larger.
pub open spec fn capped(x: nat) -> usize {
    if x < usize::MAX {
        x as usize
    } else {
        usize::MAX
    }
}

/// The number of edges made by an explicit link.
pub open spec fn explicit_edges(edges: Seq<GraphEdge>) -> nat
    decreases edges.len(),
{
    if edges.len() == 0 {
        0
    } else {
        explicit_edges(edges.drop_last()) + if edges.last().explicit {
            1nat
        } else {
            0nat
        }
    }
}

/// The number of nodes without any edge.
pub open spec fn orphans(nodes: Seq<GraphNode>) -> nat
    decreases nodes.len(),
{
    if nodes.len() == 0 {
        0
    } else {
        orphans(nodes.drop_last()) + if nodes.last().degree == 0 {
            1nat
        } else {
            0nat
        }
    }
}

fn bump_capped(x: usize) -> (r: usize)
    ensures
        r == if x < usize::MAX { (x + 1) as usize } else { usize::MAX },
{
    if x < usize::MAX {
        x + 1
    } else {
        x
    }
}

/// The degree of each of the `n` nodes (capped at `usize::MAX`).
fn degrees(n: usize, edges: &Vec<GraphEdge>) -> (d: Vec<usize>)
    requires
        forall|e: int| 0 <= e < edges@.len() ==> (#[trigger] edges@[e]).i <= edges@[e].j < n,
    ensures
        d@.len() == n,
        forall|v: int| 0 <= v < n ==> #[trigger] d@[v] == capped(degree_in(edges@, v)),
{
    let mut d: Vec<usize> = Vec::new();
    for v in 0..n
        invariant
            d@.len() == v,
            forall|w: int| 0 <= w < v ==> #[trigger] d@[w] == 0,
    {
        d.push(0);
    }
    assert(forall|v: int| 0 <= v < n ==> degree_in(edges@.take(0), v) == 0);
    for e in 0..edges.len()
        invariant
            d@.len() == n,
            forall|x: int| 0 <= x < edges@.len() ==> (#[trigger] edges@[x]).i <= edges@[x].j < n,
            forall|v: int| 0 <= v < n ==> #[trigger] d@[v] == capped(degree_in(edges@.take(e as int), v)),
    {
        let i = edges[e].i;
        let j = edges[e].j;
        let ghost pre = d@;
        let ghost tk = edges@.take(e + 1);
        assert(tk.drop_last() =~= edges@.take(e as int));
        assert(tk.last() == edges@[e as int]);
        let di = bump_capped(d[i]);
        d.set(i, di);
        let dj = bump_capped(d[j]);
        d.set(j, dj);
        assert forall|v: int| 0 <= v < n implies #[trigger] d@[v] == capped(degree_in(tk, v)) by {
            if v != i && v != j {
                assert(d@[v] == pre[v]);
            }
        }
    }
    assert(edges@.take(edges@.len() as int) =~= edges@);
    d
}

/// The number of edges made by an explicit link.
fn count_explicit(edges: &Vec<GraphEdge>) -> (c: usize)
    ensures
        c == explicit_edges(edges@),
{
    let mut c: usize = 0;
    for e in 0..edges.len()
        invariant
            c == explicit_edges(edges@.take(e as int)),
            c <= e,
    {
        assert(edges@.take(e + 1).drop_last() =~= edges@.take(e as int));
        if edges[e].explicit {
            c += 1;
        }
    }
    assert(edges@.take(edges@.len() as int) =~= edges@);
    c
}

/// The number of nodes without any edge.
fn count_orphans(nodes: &Vec<GraphNode>) -> (c: usize)
    ensures
        c == orphans(nodes@),
{
    let mut c: usize = 0;
    for a in 0..nodes.len()
        invariant
            c == orphans(nodes@.take(a as int)),
            c <= a,
    {
        assert(nodes@.take(a + 1).drop_last() =~= nodes@.take(a as int));
        if nodes[a].degree == 0 {
            c += 1;
        }
    }
    assert(nodes@.take(nodes@.len() as int) =~= nodes@);
    c
}

/// The node of note `a`: its id, wing and preview, and its degree.
pub open spec fn node_of(ns: Seq<NoteRecord>, a: int, node: GraphNode, edges: Seq<GraphEdge>) -> bool {
    &&& node.id@ == ns[a].id@
    &&& node.wing@ == ns[a].wing@
    &&& node.preview@ == ns[a].preview@
    &&& node.degree == capped(degree_in(edges, a))
}

/// What a rebuild leaves: one node per note, the edges of the notes, and the counts.
pub open spec fn graph_of(ns: Seq<NoteRecord>, g: GraphState) -> bool {
    &&& g.nodes@.len() == ns.len()
    &&& forall|a: int| 0 <= a < ns.len() ==> node_of(ns, a, #[trigger] g.nodes@[a], g.edges@)
    &&& edges_match(edge_occ(ns), g.edges@, ns.len() as int)
    &&& g.explicit_count == explicit_edges(g.edges@)
    &&& g.orphan_count == orphans(g.nodes@)
}

/// Rebuilds the graph from a note listing: one node per note; an edge for each linked
/// pair of notes (a link to an unknown note or to the note itself is dropped) and for
/// each pair of notes sharing a tag that is on two to thirty notes (a note counts once
/// for a tag, however often it lists it); node degrees,
/// orphan and explicit counts. Advances the seed and returns two raw draws per node
/// for its starting position; the cooling schedule restarts.
pub fn rebuild(g: &mut GraphState, notes: &[NoteRecord]) -> (r: Vec<(u32, u32)>)
    ensures
        final(g).seed_state == next_seed(wrap_add(old(g).seed_state, 1)),
        r@ == draws_from(final(g).seed_state, notes@.len()),
        graph_of(notes@, *final(g)),
        final(g).settle_ticks == 0,
        final(g).last_load_version == old(g).last_load_version,
        final(g).anchor == old(g).anchor,
{
    g.seed_state = g.seed_state.wrapping_add(1).wrapping_mul(6364136223846793005).wrapping_add(
        1442695040888963407,
    );
    let d = draws(g.seed_state, notes.len());
    let (_homes, edges) = collect_edges(notes);
    let deg = degrees(notes.len(), &edges);
    let mut nodes: Vec<GraphNode> = Vec::new();
    for a in 0..notes.len()
        invariant
            deg@.len() == notes@.len(),
            forall|v: int| 0 <= v < notes@.len() ==> #[trigger] deg@[v] == capped(degree_in(edges@, v)),
            nodes@.len() == a,
            forall|b: int| 0 <= b < a ==> node_of(notes@, b, #[trigger] nodes@[b], edges@),
    {
        let nd = &notes[a];
        nodes.push(GraphNode {
            id: nd.id.clone(),
            wing: nd.wing.clone(),
            preview: nd.preview.clone(),
            degree: deg[a],
        });
    }
    g.explicit_count = count_explicit(&edges);
    g.orphan_count = count_orphans(&nodes);
    g.nodes = nodes;
    g.edges = edges;
    g.settle_ticks = 0;
    d
}


// ───────────────────────── anchors and loading ─────────────────────────

/// The mode after `m` in the cycle free → soft → strong → free.
pub open spec fn next_anchor(m: AnchorMode) -> AnchorMode {
    match m {
        AnchorMode::Free => AnchorMode::Soft,
        AnchorMode::Soft => AnchorMode::Strong,
        AnchorMode::Strong => AnchorMode::Free,
    }
}

/// Moves the wing anchor to its next mode and restarts the cooling schedule, so that
/// the layout visibly moves to the new mode. Returns the new mode.
pub fn toggle_anchors(g: &mut GraphState) -> (m: AnchorMode)
    ensures
        m == next_anchor(old(g).anchor),
        final(g).anchor == m,
        final(g).settle_ticks == 0,
        final(g).nodes == old(g).nodes,
        final(g).edges == old(g).edges,
        final(g).explicit_count == old(g).explicit_count,
        final(g).orphan_count == old(g).orphan_count,
        final(g).seed_state == old(g).seed_state,
        final(g).last_load_version == old(g).last_load_version,
{
    let m = match g.anchor {
        AnchorMode::Free => AnchorMode::Soft,
        AnchorMode::Soft => AnchorMode::Strong,
        AnchorMode::Strong => AnchorMode::Free,
    };
    g.anchor = m;
    g.settle_ticks = 0;
    m
}

/// Three toggles bring the anchor back to where it was.
pub proof fn lemma_anchor_cycle(m: AnchorMode)
    ensures
        next_anchor(next_anchor(next_anchor(m))) == m,
        next_anchor(m) != m,
{
}

/// What the loader has for a new listing version.
pub enum Listing {
    /// No listing has been produced yet.
    Missing,
    /// A listing came but could not be read.
    Unreadable,
    /// The notes of the listing.
    Notes(Vec<NoteRecord>),
}

/// Takes up the loader's listing when its version differs from the one last taken:
/// readable notes rebuild the graph (their draws are returned), an unreadable listing
/// leaves the graph as it was; either way the version counts as taken. With no listing
/// yet, or the same version, nothing changes.
pub fn refresh(g: &mut GraphState, version: u64, listing: &Listing) -> (r: Option<Vec<(u32, u32)>>)
    ensures
        version == old(g).last_load_version ==> r is None && *final(g) == *old(g),
        version != old(g).last_load_version ==> match listing {
            Listing::Missing => r is None && *final(g) == *old(g),
            Listing::Unreadable => {
                &&& r is None
                &&& final(g).last_load_version == version
                &&& final(g).nodes == old(g).nodes
                &&& final(g).edges == old(g).edges
                &&& final(g).seed_state == old(g).seed_state
                &&& final(g).settle_ticks == old(g).settle_ticks
                &&& final(g).explicit_count == old(g).explicit_count
                &&& final(g).orphan_count == old(g).orphan_count
                &&& final(g).anchor == old(g).anchor
            },
            Listing::Notes(ns) => {
                &&& r is Some
                &&& final(g).last_load_version == version
                &&& final(g).seed_state == next_seed(wrap_add(old(g).seed_state, 1))
                &&& r->0@ == draws_from(final(g).seed_state, ns@.len())
                &&& graph_of(ns@, *final(g))
                &&& final(g).settle_ticks == 0
                &&& final(g).anchor == old(g).anchor
            },
        },
{
    if version == g.last_load_version {
        return None;
    }
    match listing {
        Listing::Missing => None,
        Listing::Unreadable => {
            g.last_load_version = version;
            None
        },
        Listing::Notes(ns) => {
            let d = rebuild(g, ns.as_slice());
            g.last_load_version = version;
            Some(d)
        },
    }
}


// ───────────────────────── graph laws ─────────────────────────

/// The degrees of nodes `0..n`, summed.
pub open spec fn degree_total(edges: Seq<GraphEdge>, n: int) -> nat
    decreases n,
{
    if n <= 0 {
        0
    } else {
        degree_total(edges, n - 1) + degree_in(edges, n - 1)
    }
}

proof fn lemma_total_push(edges: Seq<GraphEdge>, e: GraphEdge, n: int)
    ensures
        degree_total(edges.push(e), n) == degree_total(edges, n) + (if e.i < n {
            1nat
        } else {
            0nat
        }) + (if e.j < n {
            1nat
        } else {
            0nat
        }),
    decreases n,
{
    assert(edges.push(e).drop_last() =~= edges);
    if n > 0 {
        lemma_total_push(edges, e, n - 1);
    }
}

/// Every edge adds two to the degrees of the nodes it joins, so the degrees of all
/// nodes add up to twice the number of edges.
pub proof fn lemma_degree_sum(edges: Seq<GraphEdge>, n: int)
    requires
        forall|e: int| 0 <= e < edges.len() ==> (#[trigger] edges[e]).i <= edges[e].j < n,
    ensures
        degree_total(edges, n) == 2 * edges.len(),
    decreases edges.len(),
{
    if edges.len() == 0 {
        assert(degree_total(edges, n) == 0) by {
            lemma_total_empty(edges, n);
        }
    } else {
        let pre = edges.drop_last();
        assert(pre.push(edges.last()) =~= edges);
        lemma_degree_sum(pre, n);
        lemma_total_push(pre, edges.last(), n);
    }
}

proof fn lemma_total_empty(edges: Seq<GraphEdge>, n: int)
    requires
        edges.len() == 0,
    ensures
        degree_total(edges, n) == 0,
    decreases n,
{
    if n > 0 {
        lemma_total_empty(edges, n - 1);
    }
}

/// A node has degree zero exactly when no edge touches it.
pub proof fn lemma_orphan_untouched(edges: Seq<GraphEdge>, v: int)
    ensures
        degree_in(edges, v) == 0 <==> forall|e: int| 0 <= e < edges.len() ==> (#[trigger] edges[e]).i != v
            && edges[e].j != v,
    decreases edges.len(),
{
    if edges.len() > 0 {
        let pre = edges.drop_last();
        lemma_orphan_untouched(pre, v);
        assert forall|e: int| 0 <= e < pre.len() implies #[trigger] pre[e] == edges[e] by {}
        if degree_in(edges, v) == 0 {
            assert forall|e: int| 0 <= e < edges.len() implies (#[trigger] edges[e]).i != v && edges[e].j != v by {
                if e < pre.len() {
                    assert(pre[e] == edges[e]);
                }
            }
        }
        if forall|e: int| 0 <= e < edges.len() ==> (#[trigger] edges[e]).i != v && edges[e].j != v {
            assert(edges[edges.len() - 1] == edges.last());
            assert forall|e: int| 0 <= e < pre.len() implies (#[trigger] pre[e]).i != v && pre[e].j != v by {
                assert(pre[e] == edges[e]);
            }
        }
    }
}

// ───────────────────────── what a rebuild leaves ─────────────────────────

proof fn lemma_members_distinct(o: Seq<(Seq<char>, int)>, t: Seq<char>)
    ensures
        forall|i: int, j: int| 0 <= i < j < tag_members(o, t).len() ==> tag_members(o, t)[i] != tag_members(o, t)[j],
    decreases o.len(),
{
    if o.len() > 0 {
        lemma_members_distinct(o.drop_last(), t);
        let r = tag_members(o.drop_last(), t);
        if o.last().0 == t && !r.contains(o.last().1) {
            assert forall|i: int, j: int| 0 <= i < j < r.push(o.last().1).len() implies r.push(o.last().1)[i] != r.push(o.last().1)[j] by {
                if j == r.len() {
                    assert(r.push(o.last().1)[i] == r[i]);
                    if r[i] == o.last().1 {
                        assert(r.contains(o.last().1));
                    }
                }
            }
        }
    }
}

/// Every pair of an occurrence sequence joins a lower node to a higher one.
pub open spec fn keys_ordered(occ: Seq<Occurrence>) -> bool {
    forall|q: int| 0 <= q < occ.len() ==> (#[trigger] occ[q]).0.0 < occ[q].0.1
}

proof fn lemma_link_keys_ordered(ns: Seq<NoteRecord>, a: int, l: int)
    ensures
        forall|q: int| 0 <= q < link_keys(ns, a, l).len() ==> (#[trigger] link_keys(ns, a, l)[q]).0 < link_keys(ns, a, l)[q].1,
    decreases l,
{
    if l > 0 {
        lemma_link_keys_ordered(ns, a, l - 1);
        let r = link_keys(ns, a, l - 1);
        match resolve(note_ids(ns), ns[a].links@[l - 1]@) {
            Some(j) => if home(ns, a) != j {
                let k = edge_key(home(ns, a), j);
                assert forall|q: int| 0 <= q < r.push(k).len() implies (#[trigger] r.push(k)[q]).0 < r.push(k)[q].1 by {
                    if q < r.len() {
                        assert(r.push(k)[q] == r[q]);
                    }
                }
            },
            None => {},
        }
    }
}

proof fn lemma_explicit_keys_ordered(ns: Seq<NoteRecord>, a: int)
    ensures
        forall|q: int| 0 <= q < explicit_keys(ns, a).len() ==> (#[trigger] explicit_keys(ns, a)[q]).0 < explicit_keys(ns, a)[q].1,
    decreases a,
{
    if a > 0 {
        lemma_explicit_keys_ordered(ns, a - 1);
        let l = ns[a - 1].links@.len() as int;
        lemma_link_keys_ordered(ns, a - 1, l);
        let p = explicit_keys(ns, a - 1);
        let r = link_keys(ns, a - 1, l);
        assert forall|q: int| 0 <= q < (p + r).len() implies (#[trigger] (p + r)[q]).0 < (p + r)[q].1 by {
            if q < p.len() {
                assert((p + r)[q] == p[q]);
            } else {
                assert((p + r)[q] == r[q - p.len()]);
            }
        }
    }
}

proof fn lemma_pair_keys_ordered(m: Seq<int>, a: int)
    requires
        forall|i: int, j: int| 0 <= i < j < m.len() ==> m[i] != m[j],
        a <= m.len(),
    ensures
        forall|q: int| 0 <= q < pair_keys(m, a).len() ==> (#[trigger] pair_keys(m, a)[q]).0 < pair_keys(m, a)[q].1,
    decreases a,
{
    if a > 0 {
        lemma_pair_keys_ordered(m, a - 1);
        lemma_row_keys_ordered(m, a - 1, m.len() as int);
        let p = pair_keys(m, a - 1);
        let r = row_keys(m, a - 1, m.len() as int);
        assert forall|q: int| 0 <= q < (p + r).len() implies (#[trigger] (p + r)[q]).0 < (p + r)[q].1 by {
            if q < p.len() {
                assert((p + r)[q] == p[q]);
            } else {
                assert((p + r)[q] == r[q - p.len()]);
            }
        }
    }
}

proof fn lemma_row_keys_ordered(m: Seq<int>, a: int, b: int)
    requires
        forall|i: int, j: int| 0 <= i < j < m.len() ==> m[i] != m[j],
        0 <= a,
        b <= m.len(),
    ensures
        forall|q: int| 0 <= q < row_keys(m, a, b).len() ==> (#[trigger] row_keys(m, a, b)[q]).0 < row_keys(m, a, b)[q].1,
    decreases b - a,
{
    if b > a + 1 {
        lemma_row_keys_ordered(m, a, b - 1);
        assert(m[a] != m[b - 1]);
        let r = row_keys(m, a, b - 1);
        let k = edge_key(m[a], m[b - 1]);
        assert forall|q: int| 0 <= q < r.push(k).len() implies (#[trigger] r.push(k)[q]).0 < r.push(k)[q].1 by {
            if q < r.len() {
                assert(r.push(k)[q] == r[q]);
            }
        }
    }
}

proof fn lemma_tags_occ_ordered(o: Seq<(Seq<char>, int)>, i: int)
    ensures
        keys_ordered(tags_occ(o, i)),
    decreases i,
{
    if i > 0 {
        lemma_tags_occ_ordered(o, i - 1);
        let m = tag_members(o, tag_names(o)[i - 1]);
        lemma_members_distinct(o, tag_names(o)[i - 1]);
        lemma_pair_keys_ordered(m, m.len() as int);
        let p = tags_occ(o, i - 1);
        let r = tag_pair_occ(m);
        assert forall|q: int| 0 <= q < (p + r).len() implies (#[trigger] (p + r)[q]).0.0 < (p + r)[q].0.1 by {
            if q < p.len() {
                assert((p + r)[q] == p[q]);
            } else {
                assert((p + r)[q] == r[q - p.len()]);
            }
        }
    }
}

proof fn lemma_edge_occ_ordered(ns: Seq<NoteRecord>)
    ensures
        keys_ordered(edge_occ(ns)),
{
    let o = tag_occ(ns, ns.len() as int);
    let lk = explicit_keys(ns, ns.len() as int);
    lemma_explicit_keys_ordered(ns, ns.len() as int);
    lemma_tags_occ_ordered(o, tag_names(o).len() as int);
    let p = link_occ(lk);
    let r = tags_occ(o, tag_names(o).len() as int);
    assert forall|q: int| 0 <= q < (p + r).len() implies (#[trigger] (p + r)[q]).0.0 < (p + r)[q].0.1 by {
        if q < p.len() {
            assert((p + r)[q] == p[q]);
        } else {
            assert((p + r)[q] == r[q - p.len()]);
        }
    }
}

/// The number of edges with an end at node `v`.
pub open spec fn touching_count(edges: Seq<GraphEdge>, v: int) -> nat
    decreases edges.len(),
{
    if edges.len() == 0 {
        0
    } else {
        touching_count(edges.drop_last(), v) + if edges.last().i == v || edges.last().j == v {
            1nat
        } else {
            0nat
        }
    }
}

proof fn lemma_degree_is_touching(edges: Seq<GraphEdge>, v: int)
    requires
        forall|e: int| 0 <= e < edges.len() ==> (#[trigger] edges[e]).i < edges[e].j,
    ensures
        degree_in(edges, v) == touching_count(edges, v),
    decreases edges.len(),
{
    if edges.len() > 0 {
        let pre = edges.drop_last();
        assert forall|e: int| 0 <= e < pre.len() implies (#[trigger] pre[e]).i < pre[e].j by {
            assert(pre[e] == edges[e]);
        }
        lemma_degree_is_touching(pre, v);
        assert(edges[edges.len() - 1] == edges.last());
    }
}

/// After a rebuild each edge joins a lower node to a higher one, both nodes of the
/// graph, no pair of nodes has two edges, and each node's degree is the number of
/// edges at it.
pub proof fn lemma_rebuilt_edges(ns: Seq<NoteRecord>, g: GraphState)
    requires
        graph_of(ns, g),
    ensures
        forall|e: int| 0 <= e < g.edges@.len() ==> (#[trigger] g.edges@[e]).i < g.edges@[e].j < ns.len(),
        forall|e1: int, e2: int|
            0 <= e1 < e2 < g.edges@.len() ==> edge_pair(#[trigger] g.edges@[e1]) != edge_pair(#[trigger] g.edges@[e2]),
        forall|a: int| 0 <= a < ns.len() ==> (#[trigger] g.nodes@[a]).degree == capped(touching_count(g.edges@, a)),
{
    let occ = edge_occ(ns);
    let edges = g.edges@;
    lemma_edge_occ_ordered(ns);
    assert forall|e: int| 0 <= e < edges.len() implies (#[trigger] edges[e]).i < edges[e].j < ns.len() by {
        let o = choose|o: int| 0 <= o < occ.len() && (#[trigger] occ[o]).0 == edge_pair(edges[e]);
        assert(occ[o].0.0 < occ[o].0.1);
    }
    assert forall|a: int| 0 <= a < ns.len() implies (#[trigger] g.nodes@[a]).degree == capped(touching_count(edges, a)) by {
        assert(node_of(ns, a, g.nodes@[a], edges));
        lemma_degree_is_touching(edges, a);
    }
}

/// Node `k` is the end of no edge.
pub open spec fn untouched(edges: Seq<GraphEdge>, k: int) -> bool {
    forall|e: int| 0 <= e < edges.len() ==> (#[trigger] edges[e]).i != k && edges[e].j != k
}

/// How many of the nodes `0..n` are the end of no edge.
pub open spec fn untouched_count(edges: Seq<GraphEdge>, n: int) -> nat
    decreases n,
{
    if n <= 0 {
        0
    } else {
        untouched_count(edges, n - 1) + if untouched(edges, n - 1) {
            1nat
        } else {
            0nat
        }
    }
}

proof fn lemma_orphans_prefix(ns: Seq<NoteRecord>, g: GraphState, k: int)
    requires
        graph_of(ns, g),
        0 <= k <= ns.len(),
    ensures
        orphans(g.nodes@.take(k)) == untouched_count(g.edges@, k),
        untouched_count(g.edges@, k) <= k,
        untouched_count(g.edges@, k) == k ==> forall|v: int| 0 <= v < k ==> untouched(g.edges@, v),
    decreases k,
{
    if k > 0 {
        lemma_orphans_prefix(ns, g, k - 1);
        let nodes = g.nodes@;
        assert(nodes.take(k).drop_last() =~= nodes.take(k - 1));
        assert(nodes.take(k).last() == nodes[k - 1]);
        assert(node_of(ns, k - 1, nodes[k - 1], g.edges@));
        lemma_orphan_untouched(g.edges@, k - 1);
        assert(nodes[k - 1].degree == 0 <==> degree_in(g.edges@, k - 1) == 0);
    }
}

/// After a rebuild the orphan count is the number of nodes that are the end of no
/// edge: at most the number of nodes, and all of them exactly when there is no edge.
pub proof fn lemma_rebuilt_orphans(ns: Seq<NoteRecord>, g: GraphState)
    requires
        graph_of(ns, g),
    ensures
        g.orphan_count == untouched_count(g.edges@, ns.len() as int),
        g.orphan_count <= g.nodes@.len(),
        g.orphan_count == g.nodes@.len() <==> g.edges@.len() == 0,
{
    let n = ns.len() as int;
    lemma_orphans_prefix(ns, g, n);
    assert(g.nodes@.take(n) =~= g.nodes@);
    lemma_rebuilt_edges(ns, g);
    if g.edges@.len() == 0 {
        assert(untouched_count(g.edges@, n) == n) by {
            lemma_all_untouched(g.edges@, n);
        }
    } else if g.orphan_count == g.nodes@.len() {
        let e0 = g.edges@[0];
        assert(e0.i < n);
        assert(untouched(g.edges@, e0.i as int));
        assert(false);
    }
}

proof fn lemma_all_untouched(edges: Seq<GraphEdge>, n: int)
    requires
        edges.len() == 0,
        n >= 0,
    ensures
        untouched_count(edges, n) == n,
    decreases n,
{
    if n > 0 {
        lemma_all_untouched(edges, n - 1);
    }
}

proof fn lemma_key_hits_pos(occ: Seq<Occurrence>, key: (int, int))
    ensures
        key_hits(occ, key) > 0 <==> exists|o: int| 0 <= o < occ.len() && #[trigger] occ[o] == (key, None::<usize>),
    decreases occ.len(),
{
    if occ.len() > 0 {
        let pre = occ.drop_last();
        lemma_key_hits_pos(pre, key);
        if exists|o: int| 0 <= o < pre.len() && #[trigger] pre[o] == (key, None::<usize>) {
            let o = choose|o: int| 0 <= o < pre.len() && #[trigger] pre[o] == (key, None::<usize>);
            assert(occ[o] == pre[o]);
        }
        if exists|o: int| 0 <= o < occ.len() && #[trigger] occ[o] == (key, None::<usize>) {
            let o = choose|o: int| 0 <= o < occ.len() && #[trigger] occ[o] == (key, None::<usize>);
            if o < pre.len() {
                assert(pre[o] == occ[o]);
            }
        }
    }
}

proof fn lemma_tags_occ_sized(o: Seq<(Seq<char>, int)>, i: int)
    ensures
        forall|q: int| 0 <= q < tags_occ(o, i).len() ==> (#[trigger] tags_occ(o, i)[q]).1 is Some,
    decreases i,
{
    if i > 0 {
        lemma_tags_occ_sized(o, i - 1);
        let p = tags_occ(o, i - 1);
        let r = tag_pair_occ(tag_members(o, tag_names(o)[i - 1]));
        assert forall|q: int| 0 <= q < (p + r).len() implies (#[trigger] (p + r)[q]).1 is Some by {
            if q < p.len() {
                assert((p + r)[q] == p[q]);
            } else {
                assert((p + r)[q] == r[q - p.len()]);
            }
        }
    }
}

/// The pairs joined by the explicit edges among `edges`.
pub open spec fn explicit_pairs(edges: Seq<GraphEdge>) -> Set<(int, int)>
    decreases edges.len(),
{
    if edges.len() == 0 {
        Set::empty()
    } else {
        let r = explicit_pairs(edges.drop_last());
        if edges.last().explicit {
            r.insert(edge_pair(edges.last()))
        } else {
            r
        }
    }
}

proof fn lemma_explicit_pairs(edges: Seq<GraphEdge>)
    requires
        forall|e1: int, e2: int|
            0 <= e1 < e2 < edges.len() ==> edge_pair(#[trigger] edges[e1]) != edge_pair(#[trigger] edges[e2]),
    ensures
        explicit_pairs(edges).finite(),
        explicit_pairs(edges).len() == explicit_edges(edges),
        explicit_edges(edges) <= edges.len(),
        forall|p: (int, int)|
            explicit_pairs(edges).contains(p) <==> exists|e: int|
                0 <= e < edges.len() && (#[trigger] edges[e]).explicit && edge_pair(edges[e]) == p,
    decreases edges.len(),
{
    if edges.len() > 0 {
        let pre = edges.drop_last();
        assert forall|e1: int, e2: int| 0 <= e1 < e2 < pre.len() implies edge_pair(#[trigger] pre[e1]) != edge_pair(#[trigger] pre[e2]) by {
            assert(pre[e1] == edges[e1] && pre[e2] == edges[e2]);
        }
        lemma_explicit_pairs(pre);
        let last = edges.last();
        assert(edges[edges.len() - 1] == last);
        assert(!explicit_pairs(pre).contains(edge_pair(last))) by {
            if explicit_pairs(pre).contains(edge_pair(last)) {
                let e = choose|e: int| 0 <= e < pre.len() && (#[trigger] pre[e]).explicit && edge_pair(pre[e]) == edge_pair(last);
                assert(edges[e] == pre[e]);
            }
        }
        assert forall|p: (int, int)|
            explicit_pairs(edges).contains(p) <==> exists|e: int|
                0 <= e < edges.len() && (#[trigger] edges[e]).explicit && edge_pair(edges[e]) == p by {
            if exists|e: int| 0 <= e < pre.len() && (#[trigger] pre[e]).explicit && edge_pair(pre[e]) == p {
                let e = choose|e: int| 0 <= e < pre.len() && (#[trigger] pre[e]).explicit && edge_pair(pre[e]) == p;
                assert(edges[e] == pre[e]);
            }
            if exists|e: int| 0 <= e < edges.len() && (#[trigger] edges[e]).explicit && edge_pair(edges[e]) == p {
                let e = choose|e: int| 0 <= e < edges.len() && (#[trigger] edges[e]).explicit && edge_pair(edges[e]) == p;
                if e < pre.len() {
                    assert(pre[e] == edges[e]);
                }
            }
        }
    }
}

/// After a rebuild the explicit count is the number of distinct pairs of notes joined
/// by a link (links in both directions, or repeated, count once), and it is at most
/// the number of edges.
pub proof fn lemma_rebuilt_explicit(ns: Seq<NoteRecord>, g: GraphState)
    requires
        graph_of(ns, g),
    ensures
        g.explicit_count == explicit_keys(ns, ns.len() as int).to_set().len(),
        g.explicit_count <= g.edges@.len(),
{
    let n = ns.len() as int;
    let edges = g.edges@;
    let o = tag_occ(ns, n);
    let lk = explicit_keys(ns, n);
    let base = link_occ(lk);
    let rest = tags_occ(o, tag_names(o).len() as int);
    let occ = edge_occ(ns);
    assert(occ == base + rest);
    lemma_tags_occ_sized(o, tag_names(o).len() as int);
    lemma_rebuilt_edges(ns, g);
    lemma_explicit_pairs(edges);
    assert forall|p: (int, int)| explicit_pairs(edges).contains(p) <==> lk.to_set().contains(p) by {
        if explicit_pairs(edges).contains(p) {
            let e = choose|e: int| 0 <= e < edges.len() && (#[trigger] edges[e]).explicit && edge_pair(edges[e]) == p;
            lemma_key_hits_pos(occ, p);
            let q = choose|q: int| 0 <= q < occ.len() && #[trigger] occ[q] == (p, None::<usize>);
            if q >= base.len() {
                assert(occ[q] == rest[q - base.len()]);
                assert(false);
            }
            assert(occ[q] == base[q]);
            assert(lk[q] == p);
        }
        if lk.to_set().contains(p) {
            let q = choose|q: int| 0 <= q < lk.len() && lk[q] == p;
            assert(occ[q] == base[q]);
            assert(occ[q] == (p, None::<usize>));
            let e = choose|e: int| 0 <= e < edges.len() && edge_pair(#[trigger] edges[e]) == (#[trigger] occ[q]).0;
            lemma_key_hits_pos(occ, p);
            assert(edges[e].link_hits == key_hits(occ, edge_pair(edges[e])));
            assert(edges[e].explicit);
        }
    }
    assert(explicit_pairs(edges) =~= lk.to_set());
}

/// Some occurrence joins the pair `k`.
pub open spec fn has_key(occ: Seq<Occurrence>, k: (int, int)) -> bool {
    exists|q: int| 0 <= q < occ.len() && (#[trigger] occ[q]).0 == k
}

proof fn lemma_has_key_concat(a: Seq<Occurrence>, b: Seq<Occurrence>, k: (int, int))
    ensures
        has_key(a + b, k) <==> has_key(a, k) || has_key(b, k),
{
    if has_key(a + b, k) {
        let q = choose|q: int| 0 <= q < (a + b).len() && (#[trigger] (a + b)[q]).0 == k;
        if q < a.len() {
            assert((a + b)[q] == a[q]);
        } else {
            assert((a + b)[q] == b[q - a.len()]);
        }
    }
    if has_key(a, k) {
        let q = choose|q: int| 0 <= q < a.len() && (#[trigger] a[q]).0 == k;
        assert((a + b)[q] == a[q]);
    }
    if has_key(b, k) {
        let q = choose|q: int| 0 <= q < b.len() && (#[trigger] b[q]).0 == k;
        assert((a + b)[q + a.len()] == b[q]);
    }
}

/// Positions `p < c` of `m` whose members make the pair `k`.
pub open spec fn joins(m: Seq<int>, p: int, c: int, k: (int, int)) -> bool {
    0 <= p < c < m.len() && edge_key(m[p], m[c]) == k
}

proof fn lemma_row_keys_has(m: Seq<int>, a: int, b: int, k: (int, int))
    requires
        0 <= a,
        b <= m.len(),
    ensures
        row_keys(m, a, b).contains(k) <==> exists|c: int| a < c < b && #[trigger] joins(m, a, c, k),
    decreases b - a,
{
    if b > a + 1 {
        lemma_row_keys_has(m, a, b - 1, k);
        let r = row_keys(m, a, b - 1);
        let kk = edge_key(m[a], m[b - 1]);
        if r.push(kk).contains(k) {
            let q = choose|q: int| 0 <= q < r.push(kk).len() && r.push(kk)[q] == k;
            if q < r.len() {
                assert(r[q] == k);
                assert(r.contains(k));
            } else {
                assert(joins(m, a, b - 1, k));
            }
        }
        if exists|c: int| a < c < b && #[trigger] joins(m, a, c, k) {
            let c = choose|c: int| a < c < b && #[trigger] joins(m, a, c, k);
            if c < b - 1 {
                let q = choose|q: int| 0 <= q < r.len() && r[q] == k;
                assert(r.push(kk)[q] == k);
            } else {
                assert(r.push(kk)[r.len() as int] == k);
            }
        }
    } else {
        if exists|c: int| a < c < b && #[trigger] joins(m, a, c, k) {
            let c = choose|c: int| a < c < b && #[trigger] joins(m, a, c, k);
        }
    }
}

proof fn lemma_pair_keys_has(m: Seq<int>, a: int, k: (int, int))
    requires
        a <= m.len(),
    ensures
        pair_keys(m, a).contains(k) <==> exists|p: int, c: int| p < a && #[trigger] joins(m, p, c, k),
    decreases a,
{
    if a > 0 {
        lemma_pair_keys_has(m, a - 1, k);
        lemma_row_keys_has(m, a - 1, m.len() as int, k);
        let p0 = pair_keys(m, a - 1);
        let r = row_keys(m, a - 1, m.len() as int);
        if (p0 + r).contains(k) {
            let q = choose|q: int| 0 <= q < (p0 + r).len() && (p0 + r)[q] == k;
            if q < p0.len() {
                assert(p0[q] == k);
                assert(p0.contains(k));
            } else {
                assert(r[q - p0.len()] == k);
                assert(r.contains(k));
            }
        }
        if exists|p: int, c: int| p < a && #[trigger] joins(m, p, c, k) {
            let (p, c) = choose|p: int, c: int| p < a && #[trigger] joins(m, p, c, k);
            if p < a - 1 {
                assert(p0.contains(k));
                let q = choose|q: int| 0 <= q < p0.len() && p0[q] == k;
                assert((p0 + r)[q] == k);
            } else {
                assert(r.contains(k));
                let q = choose|q: int| 0 <= q < r.len() && r[q] == k;
                assert((p0 + r)[q + p0.len()] == k);
            }
        }
    } else {
        if exists|p: int, c: int| p < a && #[trigger] joins(m, p, c, k) {
            let (p, c) = choose|p: int, c: int| p < a && #[trigger] joins(m, p, c, k);
        }
    }
}

/// The members `m` of a tag include both `i` and `j`.
pub open spec fn holds_both(m: Seq<int>, i: int, j: int) -> bool {
    m.contains(i) && m.contains(j)
}

proof fn lemma_tag_pair_has(m: Seq<int>, i: int, j: int)
    requires
        i < j,
        forall|x: int, y: int| 0 <= x < y < m.len() ==> m[x] != m[y],
    ensures
        has_key(tag_pair_occ(m), (i, j)) <==> 2 <= m.len() <= max_tag_fanout() && holds_both(m, i, j),
{
    let k = (i, j);
    let keys = pair_keys(m, m.len() as int);
    lemma_pair_keys_has(m, m.len() as int, k);
    if 2 <= m.len() <= max_tag_fanout() {
        let occ = sized(keys, m.len() as usize);
        if has_key(occ, k) {
            let q = choose|q: int| 0 <= q < occ.len() && (#[trigger] occ[q]).0 == k;
            assert(keys[q] == k);
            assert(keys.contains(k));
            let (p, c) = choose|p: int, c: int| p < m.len() && #[trigger] joins(m, p, c, k);
            if m[p] < m[c] {
                assert(m[p] == i && m[c] == j);
                assert(m.contains(i) && m.contains(j));
            } else {
                assert(m[c] == i && m[p] == j);
                assert(m.contains(i) && m.contains(j));
            }
        }
        if holds_both(m, i, j) {
            let x = choose|x: int| 0 <= x < m.len() && m[x] == i;
            let y = choose|y: int| 0 <= y < m.len() && m[y] == j;
            if x < y {
                assert(joins(m, x, y, k));
            } else {
                assert(joins(m, y, x, k));
            }
            let q = choose|q: int| 0 <= q < keys.len() && keys[q] == k;
            assert(occ[q].0 == k);
        }
    }
}

/// Notes `i` and `j` share a tag that is on two to thirty notes.
pub open spec fn share_tag(ns: Seq<NoteRecord>, i: int, j: int) -> bool {
    let o = tag_occ(ns, ns.len() as int);
    exists|t: int|
        0 <= t < tag_names(o).len() && 2 <= tag_members(o, tag_names(o)[t]).len() <= max_tag_fanout() && holds_both(
            #[trigger] tag_members(o, tag_names(o)[t]),
            i,
            j,
        )
}

proof fn lemma_tags_occ_has(o: Seq<(Seq<char>, int)>, n: int, i: int, j: int)
    requires
        i < j,
        0 <= n <= tag_names(o).len(),
    ensures
        has_key(tags_occ(o, n), (i, j)) <==> exists|t: int|
            0 <= t < n && 2 <= tag_members(o, tag_names(o)[t]).len() <= max_tag_fanout() && holds_both(
                #[trigger] tag_members(o, tag_names(o)[t]),
                i,
                j,
            ),
    decreases n,
{
    if n > 0 {
        lemma_tags_occ_has(o, n - 1, i, j);
        let m = tag_members(o, tag_names(o)[n - 1]);
        lemma_members_distinct(o, tag_names(o)[n - 1]);
        lemma_tag_pair_has(m, i, j);
        lemma_has_key_concat(tags_occ(o, n - 1), tag_pair_occ(m), (i, j));
    } else {
        assert(!has_key(tags_occ(o, n), (i, j)));
    }
}

/// After a rebuild two notes `i < j` are joined by an edge exactly when one of them
/// links to the other or they share a tag that is on two to thirty notes.
pub proof fn lemma_rebuilt_edge_exists(ns: Seq<NoteRecord>, g: GraphState, i: int, j: int)
    requires
        graph_of(ns, g),
        i < j,
    ensures
        (exists|e: int| 0 <= e < g.edges@.len() && edge_pair(#[trigger] g.edges@[e]) == (i, j)) <==> (explicit_keys(
            ns,
            ns.len() as int,
        ).contains((i, j)) || share_tag(ns, i, j)),
{
    let n = ns.len() as int;
    let edges = g.edges@;
    let o = tag_occ(ns, n);
    let lk = explicit_keys(ns, n);
    let base = link_occ(lk);
    let rest = tags_occ(o, tag_names(o).len() as int);
    let occ = edge_occ(ns);
    let k = (i, j);
    assert(occ == base + rest);
    lemma_has_key_concat(base, rest, k);
    lemma_tags_occ_has(o, tag_names(o).len() as int, i, j);
    if has_key(base, k) {
        let q = choose|q: int| 0 <= q < base.len() && (#[trigger] base[q]).0 == k;
        assert(lk[q] == k);
    }
    if lk.contains(k) {
        let q = choose|q: int| 0 <= q < lk.len() && lk[q] == k;
        assert(base[q].0 == k);
    }
    if exists|e: int| 0 <= e < edges.len() && edge_pair(#[trigger] edges[e]) == k {
        let e = choose|e: int| 0 <= e < edges.len() && edge_pair(#[trigger] edges[e]) == k;
        let q = choose|q: int| 0 <= q < occ.len() && (#[trigger] occ[q]).0 == edge_pair(edges[e]);
        assert(has_key(occ, k));
    }
    if has_key(occ, k) {
        let q = choose|q: int| 0 <= q < occ.len() && (#[trigger] occ[q]).0 == k;
        let e = choose|e: int| 0 <= e < edges.len() && edge_pair(#[trigger] edges[e]) == (#[trigger] occ[q]).0;
    }
}

/// No two notes share an id.
pub open spec fn ids_distinct(ns: Seq<NoteRecord>) -> bool {
    forall|i: int, j: int| 0 <= i < j < ns.len() ==> (#[trigger] ns[i]).id@ != (#[trigger] ns[j]).id@
}

/// One of note `a`'s links names note `b`.
pub open spec fn links_to(ns: Seq<NoteRecord>, a: int, b: int) -> bool {
    exists|l: int| 0 <= l < ns[a].links@.len() && (#[trigger] ns[a].links@[l])@ == ns[b].id@
}

/// The pairs of notes `i < j` where one links to the other.
pub open spec fn linked_pairs(ns: Seq<NoteRecord>) -> Set<(int, int)> {
    Set::new(|p: (int, int)| 0 <= p.0 < p.1 < ns.len() && (links_to(ns, p.0, p.1) || links_to(ns, p.1, p.0)))
}

proof fn lemma_resolve_unique(ns: Seq<NoteRecord>, x: Seq<char>)
    requires
        ids_distinct(ns),
    ensures
        resolve(note_ids(ns), x) matches Some(k) ==> 0 <= k < ns.len() && ns[k].id@ == x,
        forall|k: int| 0 <= k < ns.len() && #[trigger] ns[k].id@ == x ==> resolve(note_ids(ns), x) == Some(k),
{
    let ids = note_ids(ns);
    lemma_resolve_from(ids, x, ns.len() as int);
    assert forall|k: int| 0 <= k < ns.len() && #[trigger] ns[k].id@ == x implies resolve(ids, x) == Some(k) by {
        assert(ids[k] == x);
        let r = resolve(ids, x)->0;
        assert(ids[r] == x);
        assert(ns[r].id@ == x);
        if r < k {
            assert(ns[r].id@ != ns[k].id@);
        } else if r > k {
            assert(ns[k].id@ != ns[r].id@);
        }
    }
}

proof fn lemma_link_keys_has(ns: Seq<NoteRecord>, a: int, l: int, p: (int, int))
    requires
        ids_distinct(ns),
        0 <= a < ns.len(),
        l <= ns[a].links@.len(),
    ensures
        link_keys(ns, a, l).contains(p) <==> exists|q: int, j: int|
            0 <= q < l && 0 <= j < ns.len() && j != a && (#[trigger] ns[a].links@[q])@ == (#[trigger] ns[j]).id@ && p
                == edge_key(a, j),
    decreases l,
{
    lemma_resolve_unique(ns, ns[a].id@);
    assert(home(ns, a) == a);
    if l > 0 {
        lemma_link_keys_has(ns, a, l - 1, p);
        let r = link_keys(ns, a, l - 1);
        let x = ns[a].links@[l - 1]@;
        lemma_resolve_unique(ns, x);
        let full = link_keys(ns, a, l);
        if full.contains(p) {
            let w = choose|w: int| 0 <= w < full.len() && full[w] == p;
            if w < r.len() {
                assert(r[w] == p && r.contains(p));
            } else {
                let j = resolve(note_ids(ns), x)->0;
                assert(ns[a].links@[l - 1]@ == ns[j].id@);
            }
        }
        if exists|q: int, j: int|
            0 <= q < l && 0 <= j < ns.len() && j != a && (#[trigger] ns[a].links@[q])@ == (#[trigger] ns[j]).id@ && p == edge_key(a, j) {
            let (q, j) = choose|q: int, j: int|
                0 <= q < l && 0 <= j < ns.len() && j != a && (#[trigger] ns[a].links@[q])@ == (#[trigger] ns[j]).id@ && p == edge_key(a, j);
            if q < l - 1 {
                assert(r.contains(p));
                let w = choose|w: int| 0 <= w < r.len() && r[w] == p;
                assert(full == r || full == r.push(edge_key(a, resolve(note_ids(ns), x)->0)));
                assert(full[w] == p);
            } else {
                assert(resolve(note_ids(ns), x) == Some(j));
                assert(full == r.push(p));
                assert(full[r.len() as int] == p);
            }
        }
    } else {
        assert(link_keys(ns, a, l).len() == 0);
    }
}

proof fn lemma_explicit_keys_has(ns: Seq<NoteRecord>, a: int, p: (int, int))
    requires
        ids_distinct(ns),
        0 <= a <= ns.len(),
    ensures
        explicit_keys(ns, a).contains(p) <==> exists|b: int, q: int, j: int|
            0 <= b < a && 0 <= q < ns[b].links@.len() && 0 <= j < ns.len() && j != b && (#[trigger] ns[b].links@[q])@
                == (#[trigger] ns[j]).id@ && p == edge_key(b, j),
    decreases a,
{
    if a > 0 {
        lemma_explicit_keys_has(ns, a - 1, p);
        lemma_link_keys_has(ns, a - 1, ns[a - 1].links@.len() as int, p);
        let e = explicit_keys(ns, a - 1);
        let r = link_keys(ns, a - 1, ns[a - 1].links@.len() as int);
        if (e + r).contains(p) {
            let w = choose|w: int| 0 <= w < (e + r).len() && (e + r)[w] == p;
            if w < e.len() {
                assert(e[w] == p && e.contains(p));
            } else {
                assert(r[w - e.len()] == p && r.contains(p));
            }
        }
        if exists|b: int, q: int, j: int|
            0 <= b < a && 0 <= q < ns[b].links@.len() && 0 <= j < ns.len() && j != b && (#[trigger] ns[b].links@[q])@
                == (#[trigger] ns[j]).id@ && p == edge_key(b, j) {
            let (b, q, j) = choose|b: int, q: int, j: int|
                0 <= b < a && 0 <= q < ns[b].links@.len() && 0 <= j < ns.len() && j != b && (#[trigger] ns[b].links@[q])@
                    == (#[trigger] ns[j]).id@ && p == edge_key(b, j);
            if b < a - 1 {
                let w = choose|w: int| 0 <= w < e.len() && e[w] == p;
                assert((e + r)[w] == p);
            } else {
                assert(r.contains(p));
                let w = choose|w: int| 0 <= w < r.len() && r[w] == p;
                assert((e + r)[w + e.len()] == p);
            }
        }
    } else {
        assert(explicit_keys(ns, a).len() == 0);
    }
}

/// With distinct note ids, the explicit count after a rebuild is the number of pairs of
/// notes where one links to the other (links to unknown ids and to the note itself are
/// ignored, and links both ways count once), and it is at most the number of edges.
pub proof fn lemma_explicit_linked_pairs(ns: Seq<NoteRecord>, g: GraphState)
    requires
        graph_of(ns, g),
        ids_distinct(ns),
    ensures
        linked_pairs(ns).finite(),
        g.explicit_count == linked_pairs(ns).len(),
        g.explicit_count <= g.edges@.len(),
{
    let n = ns.len() as int;
    let lk = explicit_keys(ns, n);
    lemma_rebuilt_explicit(ns, g);
    assert forall|p: (int, int)| lk.to_set().contains(p) <==> linked_pairs(ns).contains(p) by {
        lemma_explicit_keys_has(ns, n, p);
        if lk.contains(p) {
            let (b, q, j) = choose|b: int, q: int, j: int|
                0 <= b < n && 0 <= q < ns[b].links@.len() && 0 <= j < ns.len() && j != b && (#[trigger] ns[b].links@[q])@
                    == (#[trigger] ns[j]).id@ && p == edge_key(b, j);
            assert(links_to(ns, b, j));
        }
        if linked_pairs(ns).contains(p) {
            if links_to(ns, p.0, p.1) {
                let q = choose|q: int| 0 <= q < ns[p.0].links@.len() && (#[trigger] ns[p.0].links@[q])@ == ns[p.1].id@;
                assert(ns[p.0].links@[q]@ == ns[p.1].id@ && p == edge_key(p.0, p.1));
            } else {
                let q = choose|q: int| 0 <= q < ns[p.1].links@.len() && (#[trigger] ns[p.1].links@[q])@ == ns[p.0].id@;
                assert(ns[p.1].links@[q]@ == ns[p.0].id@ && p == edge_key(p.1, p.0));
            }
        }
    }
    assert(lk.to_set() =~= linked_pairs(ns));
    lk.lemma_cardinality_of_set();
}

// ───────────────────────── wing colours ─────────────────────────

/// The djb2 hash of bytes, on 32 bits.
pub open spec fn djb2(bytes: Seq<u8>) -> u32
    decreases bytes.len(),
{
    if bytes.len() == 0 {
        5381
    } else {
        djb2(bytes.drop_last()).wrapping_mul(33).wrapping_add(bytes.last() as u32)
    }
}

/// The colours wings are drawn in.
pub open spec fn wing_palette() -> Seq<Tone> {
    seq![Tone::Cyan, Tone::Magenta, Tone::Yellow, Tone::Green, Tone::Blue, Tone::LightCyan, Tone::LightYellow, Tone::LightGreen]
}

/// A wing's colour: picked from the palette by the hash of its name's UTF-8 bytes, so a
/// wing keeps its colour; dark grey for notes without a wing.
pub open spec fn wing_tone(wing: Seq<char>) -> Tone {
    if wing.len() == 0 {
        Tone::DarkGray
    } else {
        wing_palette()[(djb2(vstd::utf8::encode_utf8(wing)) % 8) as int]
    }
}

/// A wing's colour.
pub fn wing_color(wing: &str) -> (t: Tone)
    ensures
        t == wing_tone(wing@),
{
    if str_chars(wing).len() == 0 {
        return Tone::DarkGray;
    }
    let bytes = wing.as_bytes();
    let mut h: u32 = 5381;
    for i in 0..bytes.len()
        invariant
            bytes@ == vstd::utf8::encode_utf8(wing@),
            h == djb2(bytes@.take(i as int)),
    {
        assert(bytes@.take(i + 1).drop_last() =~= bytes@.take(i as int));
        h = h.wrapping_mul(33).wrapping_add(bytes[i] as u32);
    }
    assert(bytes@.take(bytes@.len() as int) =~= bytes@);
    let palette = [Tone::Cyan, Tone::Magenta, Tone::Yellow, Tone::Green, Tone::Blue, Tone::LightCyan, Tone::LightYellow, Tone::LightGreen];
    let k = (h % 8) as usize;
    assert(palette@ =~= wing_palette());
    palette[k]
}

} // verus!
