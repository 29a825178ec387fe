//! Snapshot of Neil's state as the console shows it: heartbeats, the memory palace,
//! intentions, failures and system status.
use vstd::prelude::*;
use crate::text::{contains, contains_seq, has_suffix, ends_with, str_chars};

verus! {

/// One heartbeat from the heartbeat log.
#[derive(Clone, Debug, Default)]
pub struct HeartbeatEntry {
    pub timestamp: String,
    pub prompt: String,
    pub status: String,
    pub summary: String,
    pub action: String,
    pub question: String,
    pub improvement: String,
    pub contribution: String,
}

/// The heartbeat log with its summary figures.
#[derive(Clone, Debug, Default)]
pub struct HeartbeatState {
    pub entries: Vec<HeartbeatEntry>,
    pub beats_today: usize,
    pub last_beat: String,
}

/// The memory palace in numbers.
#[derive(Clone, Debug, Default)]
pub struct PalaceState {
    pub total_notes: usize,
    pub classified: usize,
    pub unclassified: usize,
    pub wings: Vec<WingInfo>,
}

/// A wing of the palace with its rooms and note counts.
#[derive(Clone, Debug, Default)]
pub struct WingInfo {
    pub name: String,
    pub count: usize,
    pub rooms: Vec<(String, usize)>,
}

/// An intention from the intentions log.
#[derive(Clone, Debug, Default)]
pub struct Intention {
    pub created: String,
    pub priority: String,
    pub due: String,
    pub tag: String,
    pub description: String,
    pub status: String,
}

/// A recorded failure.
#[derive(Clone, Debug, Default)]
pub struct Failure {
    pub timestamp: String,
    pub source: String,
    pub error: String,
    pub severity: String,
    pub resolution: String,
}

/// System status.
#[derive(Clone, Debug, Default)]
pub struct SystemState {
    pub uptime: String,
    pub disk_usage: String,
    pub ram_usage: String,
    pub load: String,
    pub autoprompt_active: bool,
    pub queue_count: usize,
}

// ───────────────────────── heartbeats ─────────────────────────

/// Number of entries whose timestamp mentions `today`.
pub open spec fn beats_on(es: Seq<HeartbeatEntry>, today: Seq<char>) -> nat
    decreases es.len(),
{
    if es.len() == 0 {
        0
    } else {
        beats_on(es.drop_last(), today) + if contains_seq(es.last().timestamp@, today) {
            1nat
        } else {
            0nat
        }
    }
}

/// The heartbeat state of a log: the entries as read, today's count (entries whose
/// timestamp contains `today`) and the newest timestamp (empty for an empty log).
pub fn summarize_heartbeats(entries: Vec<HeartbeatEntry>, today: &str) -> (r: HeartbeatState)
    ensures
        r.entries@ == entries@,
        r.beats_today == beats_on(entries@, today@),
        r.last_beat@ == if entries@.len() == 0 {
            seq![]
        } else {
            entries@.last().timestamp@
        },
{
    let t = str_chars(today);
    let mut n: usize = 0;
    for i in 0..entries.len()
        invariant
            n == beats_on(entries@.take(i as int), today@),
            n <= i,
            t@ == today@,
    {
        assert(entries@.take(i + 1).drop_last() == entries@.take(i as int));
        if contains(&str_chars(entries[i].timestamp.as_str()), &t) {
            n += 1;
        }
    }
    assert(entries@.take(entries@.len() as int) == entries@);
    let last = if entries.len() > 0 {
        entries[entries.len() - 1].timestamp.clone()
    } else {
        String::new()
    };
    HeartbeatState { entries, beats_today: n, last_beat: last }
}

// ───────────────────────── pending work ─────────────────────────

/// Number of intentions whose status is `pending`.
pub open spec fn pending_intentions(v: Seq<Intention>) -> nat
    decreases v.len(),
{
    if v.len() == 0 {
        0
    } else {
        pending_intentions(v.drop_last()) + if v.last().status@ == "pending"@ {
            1nat
        } else {
            0nat
        }
    }
}

/// Number of failures whose resolution is `pending`.
pub open spec fn unresolved_failures(v: Seq<Failure>) -> nat
    decreases v.len(),
{
    if v.len() == 0 {
        0
    } else {
        unresolved_failures(v.drop_last()) + if v.last().resolution@ == "pending"@ {
            1nat
        } else {
            0nat
        }
    }
}

/// How many intentions are pending.
pub fn count_pending_intentions(v: &[Intention]) -> (n: usize)
    ensures
        n == pending_intentions(v@),
{
    let mut n: usize = 0;
    for i in 0..v.len()
        invariant
            n == pending_intentions(v@.take(i as int)),
            n <= i,
    {
        assert(v@.take(i + 1).drop_last() == v@.take(i as int));
        if crate::cluster_layout::str_is(v[i].status.as_str(), "pending") {
            n += 1;
        }
    }
    assert(v@.take(v@.len() as int) == v@);
    n
}

/// How many failures are unresolved.
pub fn count_unresolved_failures(v: &[Failure]) -> (n: usize)
    ensures
        n == unresolved_failures(v@),
{
    let mut n: usize = 0;
    for i in 0..v.len()
        invariant
            n == unresolved_failures(v@.take(i as int)),
            n <= i,
    {
        assert(v@.take(i + 1).drop_last() == v@.take(i as int));
        if crate::cluster_layout::str_is(v[i].resolution.as_str(), "pending") {
            n += 1;
        }
    }
    assert(v@.take(v@.len() as int) == v@);
    n
}

/// A file in a directory listing that counts for `ext` (its name ends with `.ext`).
pub open spec fn has_extension_spec(name: Seq<char>, ext: Seq<char>) -> bool {
    ends_with(name, seq!['.'] + ext)
}

/// Whether a file name ends with `.` followed by `ext`.
pub fn has_extension(name: &str, ext: &str) -> (r: bool)
    ensures
        r == has_extension_spec(name@, ext@),
{
    let mut suffix: Vec<char> = vec!['.'];
    crate::text::push_all(&mut suffix, &str_chars(ext));
    assert(suffix@ == seq!['.'] + ext@);
    has_suffix(&str_chars(name), &suffix)
}

} // verus!
