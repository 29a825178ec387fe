//! The cluster panel's overview: how recently each peer spoke, peer cards, MAIN's box,
//! and the smallest (single column) layout.
use vstd::prelude::*;
use crate::styled::{
    bold, bold_look, cat, copy, fg, fg_look, line1, push_piece, push_row, rep, rep_exec, row1, row_view,
    rows_view, Look, Piece, Tone,
};
use crate::text::{decimal, first_chars, str_chars, str_views, take_chars, u64_decimal, views};
use crate::cluster::PeerInstance;
use crate::cluster_layout::{
    dash_prefix, dash_prefix_exec, detect_pair_partner, flat, group_ok, group_peers_by_pair, groups_spec,
    idx_views, lemma_flat_bounds, lemma_groups_partition, partner_spec, peer_names, status_dot,
    status_dot_spec, status_kind_spec,
};
use crate::chat_view::sat_sub;
use crate::cluster::{extract_obj_field_chars, obj_field_spec, or_default};
use crate::text::{contains, contains_seq, lines, split_lines};
use crate::clock::{elapsed_minutes, minutes_between, parse_rfc3339_instant, rfc3339_instant, utc_now_instant};
use crate::cluster_view::plain;

verus! {

/// The curated state of a peer's session.
#[derive(Clone, Copy, Debug, PartialEq, Eq, Structural)]
pub enum PeerSession {
    Completed,
    Stalled,
    Unknown,
}

/// What is known of a peer's activity: its session state and, when its last message
/// has a readable time, how many minutes ago that was.
#[derive(Clone, Copy, Debug, PartialEq, Eq, Structural)]
pub struct PeerActivity {
    pub session: PeerSession,
    pub age_minutes: Option<i64>,
}

/// The dot of a peer: a completed session is ticked, a stalled one hollow; else by the
/// age of its last message: full within the hour, half within two days, hollow beyond.
pub open spec fn activity_mark(a: PeerActivity) -> (char, Tone) {
    match a.session {
        PeerSession::Completed => ('✓', Tone::Rgb(80, 220, 110)),
        PeerSession::Stalled => ('○', Tone::Rgb(220, 80, 80)),
        PeerSession::Unknown => match a.age_minutes {
            None => ('○', Tone::Rgb(220, 80, 80)),
            Some(m) => if m < 60 {
                ('●', Tone::Rgb(80, 220, 110))
            } else if m < 60 * 48 {
                ('◐', Tone::Rgb(220, 200, 80))
            } else {
                ('○', Tone::Rgb(220, 80, 80))
            },
        },
    }
}

/// The dot of a peer.
pub fn activity_dot(a: PeerActivity) -> (r: (char, Tone))
    ensures
        r == activity_mark(a),
{
    match a.session {
        PeerSession::Completed => ('✓', Tone::Rgb(80, 220, 110)),
        PeerSession::Stalled => ('○', Tone::Rgb(220, 80, 80)),
        PeerSession::Unknown => match a.age_minutes {
            None => ('○', Tone::Rgb(220, 80, 80)),
            Some(m) => if m < 60 {
                ('●', Tone::Rgb(80, 220, 110))
            } else if m < 60 * 48 {
                ('◐', Tone::Rgb(220, 200, 80))
            } else {
                ('○', Tone::Rgb(220, 80, 80))
            },
        },
    }
}

/// When a peer was last heard from: a completed session is closed; else the age of its
/// last message in minutes, hours or days.
pub open spec fn last_seen(a: PeerActivity) -> Seq<char> {
    if a.session == PeerSession::Completed {
        "closed (synthesized)"@
    } else {
        match a.age_minutes {
            None => "last seen never"@,
            Some(m) => if m < 1 {
                "last seen just now"@
            } else if m < 60 {
                "last seen "@ + decimal(m as nat) + "m ago"@
            } else if m < 60 * 24 {
                "last seen "@ + decimal((m / 60i64) as nat) + "h ago"@
            } else {
                "last seen "@ + decimal((m / 1440i64) as nat) + "d ago"@
            },
        }
    }
}

/// When a peer was last heard from.
pub fn format_last_seen(a: PeerActivity) -> (r: Vec<char>)
    ensures
        r@ == last_seen(a),
{
    if a.session == PeerSession::Completed {
        return str_chars("closed (synthesized)");
    }
    match a.age_minutes {
        None => str_chars("last seen never"),
        Some(m) => if m < 1 {
            str_chars("last seen just now")
        } else if m < 60 {
            cat(&cat(&str_chars("last seen "), &u64_decimal(m as u64)), &str_chars("m ago"))
        } else if m < 60 * 24 {
            cat(&cat(&str_chars("last seen "), &u64_decimal((m / 60) as u64)), &str_chars("h ago"))
        } else {
            cat(&cat(&str_chars("last seen "), &u64_decimal((m / (60 * 24)) as u64)), &str_chars("d ago"))
        },
    }
}

// ───────────────────────── what the logs say of the peers ─────────────────────────

/// A peer's session state as the session file names it.
pub open spec fn session_of(state: Seq<char>) -> PeerSession {
    if state == "completed"@ {
        PeerSession::Completed
    } else if state == "stalled"@ {
        PeerSession::Stalled
    } else {
        PeerSession::Unknown
    }
}

/// A peer's session state as the session file names it ("completed", "stalled";
/// anything else is unknown).
pub fn peer_session_from_state(state: &str) -> (r: PeerSession)
    ensures
        r == session_of(state@),
{
    let s = str_chars(state);
    if crate::text::chars_eq(&s, &str_chars("completed")) {
        PeerSession::Completed
    } else if crate::text::chars_eq(&s, &str_chars("stalled")) {
        PeerSession::Stalled
    } else {
        PeerSession::Unknown
    }
}

/// What serde_json reads from the session file `content`: for a JSON object, each of
/// its keys (in the order its map keeps them) with the text of the key's `"state"`
/// field when that is a string; `None` when the text is not JSON or not an object.
pub uninterp spec fn json_peer_states(content: Seq<char>) -> Option<Seq<(Seq<char>, Option<Seq<char>>)>>;

/// The peers and states as texts.
pub open spec fn state_views(v: Seq<(String, Option<String>)>) -> Seq<(Seq<char>, Option<Seq<char>>)> {
    v.map_values(|p: (String, Option<String>)| (p.0@, match p.1 {
        Some(s) => Some(s@),
        None => None,
    }))
}

/// serde_json's `from_str` into a `Value`, then its object's entries, each key with its
/// `"state"` field's string (`as_object`, `get`, `as_str`). Claimed: the result is
/// `json_peer_states(content)`, read through `state_views`.
#[verifier::external_body]
pub(crate) fn read_json_peer_states(content: &str) -> (r: Option<Vec<(String, Option<String>)>>)
    ensures
        match r {
            None => json_peer_states(content@) is None,
            Some(v) => json_peer_states(content@) == Some(state_views(v@)),
        },
{
    let v = serde_json::from_str::<serde_json::Value>(content).ok()?;
    let obj = v.as_object()?;
    Some(obj.iter().map(|(k, val)| (k.clone(), val.get("state").and_then(|s| s.as_str()).map(|s| s.to_string()))).collect())
}

/// A peer's session state from the state text read for it (unknown when there is none).
pub open spec fn session_of_read(state: Option<Seq<char>>) -> PeerSession {
    match state {
        Some(s) => session_of(s),
        None => PeerSession::Unknown,
    }
}

/// The curated session state of each peer in the session file `content`: each key of
/// its top-level object with the state its `"state"` field names; nothing when the file
/// is not a JSON object.
pub fn peer_sessions_of(content: &str) -> (r: Vec<(String, PeerSession)>)
    ensures
        match json_peer_states(content@) {
            None => r@.len() == 0,
            Some(s) => r@.len() == s.len() && forall|i: int|
                0 <= i < s.len() ==> (#[trigger] r@[i]).0@ == s[i].0 && r@[i].1 == session_of_read(s[i].1),
        },
{
    let mut r: Vec<(String, PeerSession)> = Vec::new();
    match read_json_peer_states(content) {
        None => r,
        Some(v) => {
            let ghost s = state_views(v@);
            for i in 0..v.len()
                invariant
                    s == state_views(v@),
                    r@.len() == i,
                    forall|k: int| 0 <= k < i ==> (#[trigger] r@[k]).0@ == s[k].0 && r@[k].1 == session_of_read(s[k].1),
            {
                let session = match &v[i].1 {
                    Some(st) => peer_session_from_state(st.as_str()),
                    None => PeerSession::Unknown,
                };
                r.push((v[i].0.clone(), session));
            }
            r
        },
    }
}

/// The peer and time of a line of the activity log, when it records a message sent
/// to a peer (it mentions `peer_send`) and names both.
pub open spec fn send_event(line: Seq<char>) -> Option<(Seq<char>, Seq<char>)> {
    if contains_seq(line, "peer_send"@) {
        let peer = or_default(obj_field_spec(line, "peer"@), ""@);
        let ts = or_default(obj_field_spec(line, "ts"@), ""@);
        if peer.len() > 0 && ts.len() > 0 {
            Some((peer, ts))
        } else {
            None
        }
    } else {
        None
    }
}

/// The time of the latest message sent to each peer in the lines `ls` (a later line
/// overrides an earlier one).
pub open spec fn latest_sends(ls: Seq<Seq<char>>) -> Map<Seq<char>, Seq<char>>
    decreases ls.len(),
{
    if ls.len() == 0 {
        Map::empty()
    } else {
        let m = latest_sends(ls.drop_last());
        match send_event(ls.last()) {
            Some((p, t)) => m.insert(p, t),
            None => m,
        }
    }
}

/// The pairs list each key of `m` once, with its value, and nothing else.
pub open spec fn lists_map(v: Seq<(String, String)>, m: Map<Seq<char>, Seq<char>>) -> bool {
    &&& forall|i: int, j: int| 0 <= i < j < v.len() ==> (#[trigger] v[i]).0@ != (#[trigger] v[j]).0@
    &&& forall|i: int| 0 <= i < v.len() ==> m.dom().contains((#[trigger] v[i]).0@) && m[v[i].0@] == v[i].1@
    &&& forall|k: Seq<char>| #[trigger] m.dom().contains(k) ==> exists|i: int| 0 <= i < v.len() && (#[trigger] v[i]).0@ == k
}

fn field_or_empty(line: &[char], field: &str) -> (r: Vec<char>)
    ensures
        r@ == or_default(obj_field_spec(line@, field@), ""@),
{
    match extract_obj_field_chars(line, &str_chars(field)) {
        Some(v) => v,
        None => {
            let e: Vec<char> = Vec::new();
            proof {
                reveal_strlit("");
            }
            assert(e@ =~= ""@);
            e
        },
    }
}

/// The time of the latest message sent to each peer, read from the cluster's activity
/// log: each peer once, with the `ts` of the last line that mentions `peer_send` and
/// names that peer and a time.
pub fn latest_peer_sends(log: &str) -> (r: Vec<(String, String)>)
    ensures
        lists_map(r@, latest_sends(lines(log@))),
{
    let ls = split_lines(&str_chars(log));
    let ghost lv = views(ls@);
    let mut out: Vec<(String, String)> = Vec::new();
    assert(lv.take(0) =~= seq![]);
    for i in 0..ls.len()
        invariant
            lv == views(ls@),
            lv == lines(log@),
            lists_map(out@, latest_sends(lv.take(i as int))),
    {
        let line = &ls[i];
        let ghost m0 = latest_sends(lv.take(i as int));
        assert(lv.take(i + 1).drop_last() =~= lv.take(i as int));
        assert(lv.take(i + 1).last() == line@);
        if contains(line, &str_chars("peer_send")) {
            let peer = field_or_empty(line, "peer");
            let ts = field_or_empty(line, "ts");
            if peer.len() > 0 && ts.len() > 0 {
                let ghost m1 = m0.insert(peer@, ts@);
                assert(latest_sends(lv.take(i + 1)) == m1);
                let p = crate::text::chars_string(&peer);
                let t = crate::text::chars_string(&ts);
                let mut k: usize = 0;
                let mut found = false;
                while !found && k < out.len()
                    invariant
                        k <= out@.len(),
                        lists_map(out@, m0),
                        p@ == peer@,
                        found ==> k < out@.len() && out@[k as int].0@ == p@,
                        forall|j: int| 0 <= j < k ==> (#[trigger] out@[j]).0@ != p@,
                    decreases out@.len() - k, if found { 0int } else { 1int },
                {
                    if crate::text::chars_eq(&str_chars(out[k].0.as_str()), &peer) {
                        found = true;
                    } else {
                        k += 1;
                    }
                }
                if found {
                    let ghost before = out@;
                    assert(before[k as int].0@ == p@);
                    out.set(k, (p, t));
                    assert forall|a: int, b: int| 0 <= a < b < out@.len() implies (#[trigger] out@[a]).0@ != (#[trigger] out@[b]).0@ by {
                        assert(before[a].0@ != before[b].0@);
                    }
                    assert forall|a: int| 0 <= a < out@.len() implies m1.dom().contains((#[trigger] out@[a]).0@) && m1[out@[a].0@] == out@[a].1@ by {
                        if a != k {
                            assert(before[a].0@ != before[k as int].0@);
                        }
                    }
                    assert forall|key: Seq<char>| #[trigger] m1.dom().contains(key) implies exists|a: int| 0 <= a < out@.len() && (#[trigger] out@[a]).0@ == key by {
                        if key == p@ {
                            assert(out@[k as int].0@ == key);
                        } else {
                            assert(m0.dom().contains(key));
                            let a = choose|a: int| 0 <= a < before.len() && (#[trigger] before[a]).0@ == key;
                            assert(out@[a].0@ == key);
                        }
                    }
                } else {
                    let ghost before = out@;
                    out.push((p, t));
                    assert(!m0.dom().contains(peer@)) by {
                        if m0.dom().contains(peer@) {
                            let a = choose|a: int| 0 <= a < before.len() && (#[trigger] before[a]).0@ == peer@;
                            assert(before[a].0@ != p@);
                        }
                    }
                    assert forall|a: int, b: int| 0 <= a < b < out@.len() implies (#[trigger] out@[a]).0@ != (#[trigger] out@[b]).0@ by {
                        if b < before.len() {
                            assert(before[a].0@ != before[b].0@);
                        } else {
                            assert(out@[a] == before[a]);
                        }
                    }
                    assert forall|a: int| 0 <= a < out@.len() implies m1.dom().contains((#[trigger] out@[a]).0@) && m1[out@[a].0@] == out@[a].1@ by {
                        if a < before.len() {
                            assert(out@[a] == before[a]);
                            assert(before[a].0@ != p@);
                        }
                    }
                    assert forall|key: Seq<char>| #[trigger] m1.dom().contains(key) implies exists|a: int| 0 <= a < out@.len() && (#[trigger] out@[a]).0@ == key by {
                        if key == p@ {
                            assert(out@[before.len() as int].0@ == key);
                        } else {
                            assert(m0.dom().contains(key));
                            let a = choose|a: int| 0 <= a < before.len() && (#[trigger] before[a]).0@ == key;
                            assert(out@[a] == before[a]);
                        }
                    }
                }
            } else {
                assert(latest_sends(lv.take(i + 1)) == m0);
            }
        } else {
            assert(latest_sends(lv.take(i + 1)) == m0);
        }
    }
    assert(lv.take(ls@.len() as int) =~= lv);
    out
}

/// The value paired with `name` (the first pair that names it).
pub open spec fn lookup<V>(v: Seq<(String, V)>, name: Seq<char>) -> Option<V>
    decreases v.len(),
{
    if v.len() == 0 {
        None
    } else if v[0].0@ == name {
        Some(v[0].1)
    } else {
        lookup(v.skip(1), name)
    }
}

proof fn lemma_lookup_step<V>(v: Seq<(String, V)>, name: Seq<char>, i: int)
    requires
        0 <= i < v.len(),
        forall|j: int| 0 <= j < i ==> (#[trigger] v[j]).0@ != name,
    ensures
        lookup(v, name) == lookup(v.skip(i), name),
    decreases i,
{
    if i > 0 {
        assert(v[0].0@ != name);
        let w = v.skip(1);
        assert forall|j: int| 0 <= j < i - 1 implies (#[trigger] w[j]).0@ != name by {
            assert(w[j] == v[j + 1]);
        }
        lemma_lookup_step(w, name, i - 1);
        assert(w.skip(i - 1) =~= v.skip(i));
    } else {
        assert(v.skip(0) =~= v);
    }
}

proof fn lemma_lookup_none<V>(v: Seq<(String, V)>, name: Seq<char>)
    requires
        forall|j: int| 0 <= j < v.len() ==> (#[trigger] v[j]).0@ != name,
    ensures
        lookup(v, name) is None,
    decreases v.len(),
{
    if v.len() > 0 {
        let w = v.skip(1);
        assert forall|j: int| 0 <= j < w.len() implies (#[trigger] w[j]).0@ != name by {
            assert(w[j] == v[j + 1]);
        }
        lemma_lookup_none(w, name);
    }
}

fn session_for(sessions: &[(String, PeerSession)], name: &str) -> (r: PeerSession)
    ensures
        r == match lookup(sessions@, name@) {
            Some(s) => s,
            None => PeerSession::Unknown,
        },
{
    let n = str_chars(name);
    for i in 0..sessions.len()
        invariant
            n@ == name@,
            forall|j: int| 0 <= j < i ==> (#[trigger] sessions@[j]).0@ != name@,
    {
        if crate::text::chars_eq(&str_chars(sessions[i].0.as_str()), &n) {
            proof {
                lemma_lookup_step(sessions@, name@, i as int);
            }
            return sessions[i].1;
        }
    }
    proof {
        lemma_lookup_none(sessions@, name@);
    }
    PeerSession::Unknown
}

fn time_for<'a>(times: &'a [(String, String)], name: &str) -> (r: Option<&'a String>)
    ensures
        match lookup(times@, name@) {
            Some(t) => r is Some && r->0@ == t@,
            None => r is None,
        },
{
    let n = str_chars(name);
    for i in 0..times.len()
        invariant
            n@ == name@,
            forall|j: int| 0 <= j < i ==> (#[trigger] times@[j]).0@ != name@,
    {
        if crate::text::chars_eq(&str_chars(times[i].0.as_str()), &n) {
            proof {
                lemma_lookup_step(times@, name@, i as int);
            }
            return Some(&times[i].1);
        }
    }
    proof {
        lemma_lookup_none(times@, name@);
    }
    None
}

/// What is known of the peer `name` at the instant `now`: its curated session state
/// (unknown when none is recorded) and, when the clock could be read and the time of its
/// last message reads as an RFC 3339 time, the whole minutes since.
pub open spec fn activity_at(name: Seq<char>, times: Seq<(String, String)>, sessions: Seq<(String, PeerSession)>, now: Option<(i64, u32)>) -> PeerActivity {
    PeerActivity {
        session: match lookup(sessions, name) {
            Some(s) => s,
            None => PeerSession::Unknown,
        },
        age_minutes: match lookup(times, name) {
            Some(ts) => match (now, rfc3339_instant(ts@)) {
                (Some(n), Some(t)) => Some(elapsed_minutes(n, t) as i64),
                _ => None,
            },
            None => None,
        },
    }
}

/// `r` holds the activity of each peer at the clock reading `now` (a reading has its
/// nanoseconds below a billion).
pub open spec fn activities_at(
    r: Seq<PeerActivity>,
    peers: Seq<PeerInstance>,
    times: Seq<(String, String)>,
    sessions: Seq<(String, PeerSession)>,
    now: Option<(i64, u32)>,
) -> bool {
    &&& now matches Some((_, n)) ==> n < 1_000_000_000
    &&& r.len() == peers.len()
    &&& forall|i: int| 0 <= i < peers.len() ==> #[trigger] r[i] == activity_at(peers[i].name@, times, sessions, now)
}

/// The activity of each peer, in order, from the times of the latest messages sent to
/// the peers and their curated session states, all measured at one reading of the
/// clock (no ages when the clock cannot be read).
pub fn peer_activity(peers: &[PeerInstance], times: &[(String, String)], sessions: &[(String, PeerSession)]) -> (r: Vec<PeerActivity>)
    ensures
        r@.len() == peers@.len(),
        exists|now: Option<(i64, u32)>| #[trigger] activities_at(r@, peers@, times@, sessions@, now),
{
    let now = utc_now_instant();
    let mut r: Vec<PeerActivity> = Vec::new();
    for i in 0..peers.len()
        invariant
            now matches Some((_, n)) ==> n < 1_000_000_000,
            r@.len() == i,
            forall|k: int| 0 <= k < i ==> #[trigger] r@[k] == activity_at(peers@[k].name@, times@, sessions@, now),
    {
        let name = peers[i].name.as_str();
        let session = session_for(sessions, name);
        let age_minutes = match time_for(times, name) {
            Some(ts) => match (now, parse_rfc3339_instant(ts.as_str())) {
                (Some(n), Some(t)) => Some(minutes_between(n, t)),
                _ => None,
            },
            None => None,
        };
        r.push(PeerActivity { session, age_minutes });
    }
    assert(activities_at(r@, peers@, times@, sessions@, now));
    r
}

// ───────────────────────── peer cards ─────────────────────────

/// The colour of a peer's status.
pub open spec fn peer_status_tone(s: Seq<char>) -> Tone {
    if s == "active"@ || s == "running"@ || s == "ready"@ {
        Tone::Green
    } else {
        Tone::DarkGray
    }
}

/// A text row of a card: the text cut to fit and padded to the card.
pub open spec fn card_text_row(border: Look, look: Look, text: Seq<char>, inner: nat) -> Seq<(Seq<char>, Look)> {
    let t = take_chars(text, sat_sub(inner, 1) as int);
    seq![
        ("│"@, border),
        (" "@, plain()),
        (t, look),
        (rep(' ', sat_sub(inner, 1 + t.len())), plain()),
        ("│"@, border),
    ]
}

/// A peer card `card_w` wide: its dot and name, status, address and when it was last
/// heard from, framed; a selected card is framed bold in cyan.
pub open spec fn peer_card(p: PeerInstance, last: Seq<char>, dot: char, dot_tone: Tone, selected: bool, card_w: nat) -> Seq<Seq<(Seq<char>, Look)>> {
    let border = if selected { bold(Tone::Cyan) } else { fg(Tone::Rgb(90, 90, 110)) };
    let name_look = if selected { bold(Tone::Cyan) } else { fg(Tone::White) };
    let dim = fg(Tone::Rgb(150, 150, 150));
    let inner = sat_sub(card_w, 2);
    let name = take_chars(p.name@, sat_sub(inner, 3) as int);
    seq![
        line1("┌"@ + rep('─', inner) + "┐"@, border),
        seq![
            ("│"@, border),
            (" "@, plain()),
            (seq![dot], fg(dot_tone)),
            (" "@, plain()),
            (name, name_look),
            (rep(' ', sat_sub(inner, 3 + name.len())), plain()),
            ("│"@, border),
        ],
        card_text_row(border, fg(peer_status_tone(p.status@)), "status="@ + p.status@, inner),
        card_text_row(border, dim, "ip="@ + p.ip@, inner),
        card_text_row(border, dim, last, inner),
        line1("└"@ + rep('─', inner) + "┘"@, border),
    ]
}

fn card_text_row_exec(border: Look, look: Look, text: Vec<char>, inner: usize) -> (r: Vec<Piece>)
    ensures
        row_view(r@) == card_text_row(border, look, text@, inner as nat),
{
    let max_t: usize = if inner >= 1 { inner - 1 } else { 0 };
    let t = first_chars(&text, max_t);
    let tl = t.len();
    let used: u128 = 1 + tl as u128;
    let pad: usize = if (inner as u128) >= used { (inner as u128 - used) as usize } else { 0 };
    let ghost tv = t@;
    let mut r: Vec<Piece> = Vec::new();
    push_piece(&mut r, str_chars("│"), border);
    push_piece(&mut r, str_chars(" "), Look { fg: Tone::Reset, bg: Tone::Reset, bold: false, blink: false, italic: false });
    push_piece(&mut r, t, look);
    push_piece(&mut r, rep_exec(' ', pad), Look { fg: Tone::Reset, bg: Tone::Reset, bold: false, blink: false, italic: false });
    push_piece(&mut r, str_chars("│"), border);
    assert(row_view(r@) =~= card_text_row(border, look, text@, inner as nat));
    r
}

fn peer_status_tone_exec(s: &str) -> (t: Tone)
    ensures
        t == peer_status_tone(s@),
{
    let c = str_chars(s);
    if crate::text::chars_eq(&c, &str_chars("active")) || crate::text::chars_eq(&c, &str_chars("running"))
        || crate::text::chars_eq(&c, &str_chars("ready")) {
        Tone::Green
    } else {
        Tone::DarkGray
    }
}

/// A peer card.
pub fn peer_card_rows(p: &PeerInstance, last: &[char], dot: char, dot_tone: Tone, selected: bool, card_w: usize) -> (r: Vec<Vec<Piece>>)
    ensures
        rows_view(r@) == peer_card(*p, last@, dot, dot_tone, selected, card_w as nat),
{
    let border = if selected { bold_look(Tone::Cyan) } else { fg_look(Tone::Rgb(90, 90, 110)) };
    let name_look = if selected { bold_look(Tone::Cyan) } else { fg_look(Tone::White) };
    let dim = fg_look(Tone::Rgb(150, 150, 150));
    let inner: usize = if card_w >= 2 { card_w - 2 } else { 0 };
    let max_name: usize = if inner >= 3 { inner - 3 } else { 0 };
    let name = first_chars(&str_chars(p.name.as_str()), max_name);
    let used: u128 = 3 + name.len() as u128;
    let pad: usize = if (inner as u128) >= used { (inner as u128 - used) as usize } else { 0 };
    let ghost nv = name@;
    let mut rows: Vec<Vec<Piece>> = Vec::new();
    push_row(&mut rows, row1(cat(&cat(&str_chars("┌"), &rep_exec('─', inner)), &str_chars("┐")), border));
    let mut r: Vec<Piece> = Vec::new();
    push_piece(&mut r, str_chars("│"), border);
    push_piece(&mut r, str_chars(" "), Look { fg: Tone::Reset, bg: Tone::Reset, bold: false, blink: false, italic: false });
    let dv = vec![dot];
    assert(dv@ =~= seq![dot]);
    push_piece(&mut r, dv, fg_look(dot_tone));
    push_piece(&mut r, str_chars(" "), Look { fg: Tone::Reset, bg: Tone::Reset, bold: false, blink: false, italic: false });
    push_piece(&mut r, name, name_look);
    push_piece(&mut r, rep_exec(' ', pad), Look { fg: Tone::Reset, bg: Tone::Reset, bold: false, blink: false, italic: false });
    push_piece(&mut r, str_chars("│"), border);
    assert(row_view(r@) =~= seq![
        ("│"@, border),
        (" "@, plain()),
        (seq![dot], fg(dot_tone)),
        (" "@, plain()),
        (nv, name_look),
        (rep(' ', sat_sub(inner as nat, 3 + nv.len())), plain()),
        ("│"@, border),
    ]);
    push_row(&mut rows, r);
    push_row(&mut rows, card_text_row_exec(border, fg_look(peer_status_tone_exec(p.status.as_str())), cat(&str_chars("status="), &str_chars(p.status.as_str())), inner));
    push_row(&mut rows, card_text_row_exec(border, dim, cat(&str_chars("ip="), &str_chars(p.ip.as_str())), inner));
    push_row(&mut rows, card_text_row_exec(border, dim, copy(last), inner));
    push_row(&mut rows, row1(cat(&cat(&str_chars("└"), &rep_exec('─', inner)), &str_chars("┘")), border));
    assert(rows_view(rows@) =~= peer_card(*p, last@, dot, dot_tone, selected, card_w as nat));
    rows
}

/// The row shifted right by `indent` spaces.
pub open spec fn indented(r: Seq<(Seq<char>, Look)>, indent: nat) -> Seq<(Seq<char>, Look)> {
    seq![(rep(' ', indent), plain())] + r
}

/// Rows shifted right by `indent` spaces.
pub open spec fn indented_rows(rs: Seq<Seq<(Seq<char>, Look)>>, indent: nat) -> Seq<Seq<(Seq<char>, Look)>>
    decreases rs.len(),
{
    if rs.len() == 0 {
        seq![]
    } else {
        indented_rows(rs.drop_last(), indent).push(indented(rs.last(), indent))
    }
}

/// Appends the rows shifted right by `indent` spaces.
pub fn push_indented(rows: &mut Vec<Vec<Piece>>, more: Vec<Vec<Piece>>, indent: usize)
    ensures
        rows_view(final(rows)@) == rows_view(old(rows)@) + indented_rows(rows_view(more@), indent as nat),
{
    let ghost start = rows_view(rows@);
    let ghost all = rows_view(more@);
    let mut more = more;
    let n = more.len();
    assert(start + indented_rows(all.take(0), indent as nat) =~= start);
    for i in 0..n
        invariant
            n == more@.len(),
            all.len() == n,
            forall|j: int| i <= j < n ==> row_view((#[trigger] more@[j])@) == all[j],
            rows_view(rows@) == start + indented_rows(all.take(i as int), indent as nat),
    {
        let mut r: Vec<Piece> = Vec::new();
        let ghost before = more@;
        std::mem::swap(&mut r, &mut more[i]);
        let ghost rv = row_view(r@);
        let mut shifted: Vec<Piece> = Vec::new();
        push_piece(&mut shifted, rep_exec(' ', indent), Look { fg: Tone::Reset, bg: Tone::Reset, bold: false, blink: false, italic: false });
        let ghost sv = row_view(shifted@);
        assert(sv =~= seq![(rep(' ', indent as nat), plain())]);
        assert(rv == all[i as int]);
        let mut k: usize = 0;
        let rl = r.len();
        while k < rl
            invariant
                rl == r@.len(),
                k <= rl,
                row_view(r@) == rv,
                row_view(shifted@) == sv + rv.take(k as int),
            decreases rl - k,
        {
            let piece = Piece { text: copy(&r[k].text), look: r[k].look };
            assert(rv[k as int] == (r@[k as int].text@, r@[k as int].look));
            push_piece(&mut shifted, piece.text, piece.look);
            assert(sv + rv.take(k + 1) =~= (sv + rv.take(k as int)).push(rv[k as int]));
            k += 1;
        }
        assert(rv.take(rl as int) =~= rv);
        push_row(rows, shifted);
        assert(all.take(i + 1).drop_last() =~= all.take(i as int));
        assert(start + indented_rows(all.take(i + 1), indent as nat) =~= (start + indented_rows(all.take(i as int), indent as nat)).push(
            indented(all[i as int], indent as nat),
        ));
        assert forall|j: int| i + 1 <= j < n implies row_view((#[trigger] more@[j])@) == all[j] by {
            assert(more@[j] == before[j]);
        }
    }
    assert(all.take(n as int) =~= all);
}


// ───────────────────────── MAIN's box ─────────────────────────

/// A framed row: the content, padded to the frame when it is shorter.
pub open spec fn framed(bs: Look, content: Seq<(Seq<char>, Look)>, used: nat, inner: nat) -> Seq<(Seq<char>, Look)> {
    seq![("│"@, bs)] + content + (if used < inner {
        seq![(rep(' ', (inner - used) as nat), plain())]
    } else {
        seq![]
    }) + seq![("│"@, bs)]
}

/// MAIN's box with `inner` columns inside its frame: its status dot, name and uptime;
/// persona, memory and pending count; its task; a bold cyan frame when selected.
pub open spec fn main_box(name: Seq<char>, status: Seq<char>, persona: Seq<char>, mem: Seq<char>, up: Seq<char>, task: Seq<char>, pending: Seq<char>, selected: bool, inner: nat) -> Seq<Seq<(Seq<char>, Look)>> {
    let bs = Look { fg: if selected { Tone::Cyan } else { Tone::DarkGray }, bg: Tone::Reset, bold: selected, blink: false, italic: false };
    let lhs = ((inner - 6) / 2) as nat;
    let rhs = (inner - 6 - lhs) as nat;
    let up_s = crate::cluster_layout::fmt_duration_spec(up);
    let persona_s = " persona="@ + persona;
    let mem_s = "  mem="@ + mem;
    let pending_s = "  pending="@ + pending;
    let task_s = " task: "@ + take_chars(task, inner - 8);
    seq![
        seq![("┌"@, bs), (rep('─', lhs), bs), (" MAIN "@, bold(Tone::Cyan)), (rep('─', rhs), bs), ("┐"@, bs)],
        framed(bs, seq![
            (" "@ + status_dot_spec(status_kind_spec(status)) + " "@, fg(crate::cluster_view::status_tone(status))),
            (crate::text::pad_to_spec(name, 18), bold(Tone::White)),
            (" up="@, fg(Tone::DarkGray)),
            (up_s, fg(crate::chat_view::grey(180))),
        ], 25 + up_s.len(), inner),
        framed(bs, seq![
            (persona_s, fg(Tone::Rgb(180, 130, 255))),
            (mem_s, fg(Tone::Rgb(100, 180, 255))),
            (pending_s, fg(Tone::Rgb(255, 200, 100))),
        ], persona_s.len() + mem_s.len() + pending_s.len(), inner),
        framed(bs, seq![(task_s, fg(Tone::White))], task_s.len(), inner),
        seq![("└"@, bs), (rep('─', inner), bs), ("┘"@, bs)],
    ]
}

fn framed_exec(bs: Look, content: Vec<Piece>, used: u128, inner: usize) -> (r: Vec<Piece>)
    ensures
        row_view(r@) == framed(bs, row_view(content@), used as nat, inner as nat),
{
    let ghost cv = row_view(content@);
    let mut r: Vec<Piece> = Vec::new();
    push_piece(&mut r, str_chars("│"), bs);
    let mut content = content;
    let n = content.len();
    let ghost start = row_view(r@);
    for k in 0..n
        invariant
            n == content@.len(),
            row_view(content@) == cv,
            row_view(r@) == start + cv.take(k as int),
    {
        assert(cv[k as int] == (content@[k as int].text@, content@[k as int].look));
        push_piece(&mut r, copy(&content[k].text), content[k].look);
        assert(start + cv.take(k + 1) =~= (start + cv.take(k as int)).push(cv[k as int]));
    }
    assert(cv.take(n as int) =~= cv);
    if used < inner as u128 {
        push_piece(&mut r, rep_exec(' ', (inner as u128 - used) as usize), Look { fg: Tone::Reset, bg: Tone::Reset, bold: false, blink: false, italic: false });
    }
    push_piece(&mut r, str_chars("│"), bs);
    assert(row_view(r@) =~= framed(bs, cv, used as nat, inner as nat));
    r
}

fn chars_len(v: &[char]) -> (n: u128)
    ensures
        n == v@.len(),
        n <= usize::MAX,
{
    v.len() as u128
}

/// MAIN's box.
pub fn main_box_rows(
    name: &str,
    status: &str,
    persona: &str,
    mem: &str,
    up: &str,
    task: &str,
    pending: &str,
    selected: bool,
    inner: usize,
) -> (r: Vec<Vec<Piece>>)
    requires
        inner >= 8,
    ensures
        rows_view(r@) == main_box(name@, status@, persona@, mem@, up@, task@, pending@, selected, inner as nat),
{
    let bs = Look { fg: if selected { Tone::Cyan } else { Tone::DarkGray }, bg: Tone::Reset, bold: selected, blink: false, italic: false };
    let lhs = (inner - 6) / 2;
    let rhs = inner - 6 - lhs;
    let mut rows: Vec<Vec<Piece>> = Vec::new();
    let mut top: Vec<Piece> = Vec::new();
    push_piece(&mut top, str_chars("┌"), bs);
    push_piece(&mut top, rep_exec('─', lhs), bs);
    push_piece(&mut top, str_chars(" MAIN "), bold_look(Tone::Cyan));
    push_piece(&mut top, rep_exec('─', rhs), bs);
    push_piece(&mut top, str_chars("┐"), bs);
    assert(row_view(top@) =~= seq![("┌"@, bs), (rep('─', lhs as nat), bs), (" MAIN "@, bold(Tone::Cyan)), (rep('─', rhs as nat), bs), ("┐"@, bs)]);
    push_row(&mut rows, top);
    let up_s = str_chars(crate::cluster_layout::fmt_duration(up).as_str());
    let mut c1: Vec<Piece> = Vec::new();
    push_piece(&mut c1, cat(&cat(&str_chars(" "), &str_chars(status_dot(status))), &str_chars(" ")), fg_look(crate::cluster_view::status_tone_exec(status)));
    push_piece(&mut c1, crate::text::pad_to(&str_chars(name), 18), bold_look(Tone::White));
    push_piece(&mut c1, str_chars(" up="), fg_look(Tone::DarkGray));
    let used1 = 25 + chars_len(&up_s);
    let ghost upv = up_s@;
    push_piece(&mut c1, up_s, fg_look(Tone::Rgb(180, 180, 180)));
    assert(row_view(c1@) =~= seq![
        (" "@ + status_dot_spec(status_kind_spec(status@)) + " "@, fg(crate::cluster_view::status_tone(status@))),
        (crate::text::pad_to_spec(name@, 18), bold(Tone::White)),
        (" up="@, fg(Tone::DarkGray)),
        (upv, fg(crate::chat_view::grey(180))),
    ]);
    push_row(&mut rows, framed_exec(bs, c1, used1, inner));
    let persona_s = cat(&str_chars(" persona="), &str_chars(persona));
    let mem_s = cat(&str_chars("  mem="), &str_chars(mem));
    let pending_s = cat(&str_chars("  pending="), &str_chars(pending));
    let used2 = chars_len(&persona_s) + chars_len(&mem_s) + chars_len(&pending_s);
    let ghost (pv, mv, qv) = (persona_s@, mem_s@, pending_s@);
    let mut c2: Vec<Piece> = Vec::new();
    push_piece(&mut c2, persona_s, fg_look(Tone::Rgb(180, 130, 255)));
    push_piece(&mut c2, mem_s, fg_look(Tone::Rgb(100, 180, 255)));
    push_piece(&mut c2, pending_s, fg_look(Tone::Rgb(255, 200, 100)));
    assert(row_view(c2@) =~= seq![
        (pv, fg(Tone::Rgb(180, 130, 255))),
        (mv, fg(Tone::Rgb(100, 180, 255))),
        (qv, fg(Tone::Rgb(255, 200, 100))),
    ]);
    push_row(&mut rows, framed_exec(bs, c2, used2, inner));
    let task_s = cat(&str_chars(" task: "), &first_chars(&str_chars(task), inner - 8));
    let used3 = chars_len(&task_s);
    push_row(&mut rows, framed_exec(bs, row1(task_s, fg_look(Tone::White)), used3, inner));
    let mut bottom: Vec<Piece> = Vec::new();
    push_piece(&mut bottom, str_chars("└"), bs);
    push_piece(&mut bottom, rep_exec('─', inner), bs);
    push_piece(&mut bottom, str_chars("┘"), bs);
    assert(row_view(bottom@) =~= seq![("└"@, bs), (rep('─', inner as nat), bs), ("┘"@, bs)]);
    push_row(&mut rows, bottom);
    assert(rows_view(rows@) =~= main_box(name@, status@, persona@, mem@, up@, task@, pending@, selected, inner as nat));
    rows
}


// ───────────────────────── the single-column layout ─────────────────────────

/// The names of the peers, as strings.
pub(crate) fn peer_name_strings(peers: &[PeerInstance]) -> (r: Vec<String>)
    ensures
        str_views(r@) == peer_names(peers@),
{
    let mut r: Vec<String> = Vec::new();
    for i in 0..peers.len()
        invariant
            str_views(r@) == peer_names(peers@).take(i as int),
    {
        let s = peers[i].name.clone();
        proof {
            crate::text::lemma_str_views_push(r@, s);
        }
        r.push(s);
        assert(peer_names(peers@).take(i + 1) =~= peer_names(peers@).take(i as int).push(peers@[i as int].name@));
    }
    assert(peer_names(peers@).take(peers@.len() as int) =~= peer_names(peers@));
    r
}

/// The peers' indices in layout order (pairs adjacent).
pub(crate) fn layout_order(names: &Vec<String>) -> (r: Vec<usize>)
    ensures
        r@ == flat(groups_spec(str_views(names@))),
        forall|k: int| 0 <= k < r@.len() ==> #[trigger] r@[k] < names@.len(),
{
    let groups = group_peers_by_pair(names);
    let ghost gs = idx_views(groups@);
    let ghost nv = str_views(names@);
    let nl = names.len();
    proof {
        assert(nv.len() == nl);
        lemma_groups_partition(nv);
        lemma_flat_bounds(nv, gs);
    }
    let mut out: Vec<usize> = Vec::new();
    for g in 0..groups.len()
        invariant
            gs == idx_views(groups@),
            out@ == flat(gs.take(g as int)),
    {
        assert(gs[g as int] == groups@[g as int]@);
        assert(gs.take(g + 1).drop_last() =~= gs.take(g as int));
        let ghost before = out@;
        let grp = &groups[g];
        let gl = grp.len();
        for m in 0..gl
            invariant
                gl == grp@.len(),
                out@ == before + grp@.take(m as int),
        {
            out.push(grp[m]);
            assert(before + grp@.take(m + 1) =~= (before + grp@.take(m as int)).push(grp@[m as int]));
        }
        assert(grp@.take(gl as int) =~= grp@);
    }
    assert(gs.take(groups@.len() as int) =~= gs);
    out
}

/// The first row of the single-column layout: MAIN's dot and name.
pub open spec fn tiny_main_row(main_name: Seq<char>, main_active: bool, selection: nat) -> Seq<(Seq<char>, Look)> {
    seq![
        (if selection == 0 { "▶ "@ } else { "  "@ }, plain()),
        ("●"@, fg(if main_active { Tone::Green } else { Tone::DarkGray })),
        (" "@, plain()),
        (take_chars(main_name, 14), bold(Tone::White)),
    ]
}

/// A peer's row in the single-column layout: the tree branch, its dot, the selection
/// marker, its name and its pair partner.
pub open spec fn tiny_peer_row(p: PeerInstance, a: PeerActivity, names: Seq<Seq<char>>, idx: nat, last: bool, selection: nat) -> Seq<(Seq<char>, Look)> {
    let (dot, tone) = activity_mark(a);
    seq![
        (if last { "  └─"@ } else { "  ├─"@ }, fg(Tone::Rgb(90, 90, 110))),
        (" "@, plain()),
        (seq![dot], fg(tone)),
        (" "@, plain()),
        (if selection == idx + 1 { "▶"@ } else { " "@ }, bold(Tone::Cyan)),
        (" "@, plain()),
        (take_chars(p.name@, 14), fg(Tone::White)),
        (
            match partner_spec(p.name@, names) {
                Some(pr) => " ↔ "@ + take_chars(pr, 12),
                None => seq![],
            },
            fg(Tone::DarkGray),
        ),
    ]
}

/// The peer rows of the single-column layout for the first `k` peers in layout order.
pub open spec fn tiny_rows(peers: Seq<PeerInstance>, acts: Seq<PeerActivity>, order: Seq<usize>, k: int, selection: nat) -> Seq<Seq<(Seq<char>, Look)>>
    decreases k,
{
    if k <= 0 {
        seq![]
    } else {
        let i = order[k - 1] as int;
        tiny_rows(peers, acts, order, k - 1, selection).push(
            tiny_peer_row(peers[i], acts[i], peer_names(peers), i as nat, k - 1 == order.len() - 1, selection),
        )
    }
}

/// The single-column layout: MAIN, then each peer in layout order on a branch of a tree.
pub open spec fn tiny_layout(main_name: Seq<char>, main_active: bool, peers: Seq<PeerInstance>, acts: Seq<PeerActivity>, selection: nat) -> Seq<Seq<(Seq<char>, Look)>> {
    let order = flat(groups_spec(peer_names(peers)));
    seq![tiny_main_row(main_name, main_active, selection)] + tiny_rows(peers, acts, order, order.len() as int, selection)
}

/// The single-column layout.
pub fn tiny_layout_rows(main_name: &str, main_active: bool, peers: &[PeerInstance], acts: &[PeerActivity], selection: usize) -> (r: Vec<Vec<Piece>>)
    requires
        acts@.len() == peers@.len(),
    ensures
        rows_view(r@) == tiny_layout(main_name@, main_active, peers@, acts@, selection as nat),
{
    let plain_look = Look { fg: Tone::Reset, bg: Tone::Reset, bold: false, blink: false, italic: false };
    let mut rows: Vec<Vec<Piece>> = Vec::new();
    let mut m: Vec<Piece> = Vec::new();
    push_piece(&mut m, if selection == 0 { str_chars("▶ ") } else { str_chars("  ") }, plain_look);
    push_piece(&mut m, str_chars("●"), fg_look(if main_active { Tone::Green } else { Tone::DarkGray }));
    push_piece(&mut m, str_chars(" "), plain_look);
    push_piece(&mut m, first_chars(&str_chars(main_name), 14), bold_look(Tone::White));
    assert(row_view(m@) =~= tiny_main_row(main_name@, main_active, selection as nat));
    push_row(&mut rows, m);
    let names = peer_name_strings(peers);
    let order = layout_order(&names);
    let ghost start = rows_view(rows@);
    let n = order.len();
    for k in 0..n
        invariant
            n == order@.len(),
            plain_look == plain(),
            str_views(names@) == peer_names(peers@),
            acts@.len() == peers@.len(),
            forall|j: int| 0 <= j < order@.len() ==> #[trigger] order@[j] < peers@.len(),
            order@ == flat(groups_spec(peer_names(peers@))),
            rows_view(rows@) == start + tiny_rows(peers@, acts@, order@, k as int, selection as nat),
    {
        let i = order[k];
        let p = &peers[i];
        let (dot, tone) = activity_dot(acts[i]);
        let pair = match detect_pair_partner(p.name.as_str(), &names) {
            Some(pr) => cat(&str_chars(" ↔ "), &first_chars(&str_chars(pr.as_str()), 12)),
            None => Vec::new(),
        };
        let dv = vec![dot];
        assert(dv@ =~= seq![dot]);
        let mut r: Vec<Piece> = Vec::new();
        push_piece(&mut r, if k == n - 1 { str_chars("  └─") } else { str_chars("  ├─") }, fg_look(Tone::Rgb(90, 90, 110)));
        push_piece(&mut r, str_chars(" "), plain_look);
        push_piece(&mut r, dv, fg_look(tone));
        push_piece(&mut r, str_chars(" "), plain_look);
        push_piece(&mut r, if selection == i + 1 { str_chars("▶") } else { str_chars(" ") }, bold_look(Tone::Cyan));
        push_piece(&mut r, str_chars(" "), plain_look);
        push_piece(&mut r, first_chars(&str_chars(p.name.as_str()), 14), fg_look(Tone::White));
        let ghost pv = pair@;
        assert(pv == match partner_spec(p.name@, peer_names(peers@)) {
            Some(pr) => " ↔ "@ + take_chars(pr, 12),
            None => seq![],
        });
        assert(activity_mark(acts@[i as int]) == (dot, tone));
        push_piece(&mut r, pair, fg_look(Tone::DarkGray));
        assert(row_view(r@) =~= tiny_peer_row(peers@[i as int], acts@[i as int], peer_names(peers@), i as nat, k == n - 1, selection as nat));
        push_row(&mut rows, r);
    }
    rows
}

} // verus!
