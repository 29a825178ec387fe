//! Keeping the conversation stream tidy: placeholder notices, duplicate results, the
//! length cap, heartbeat summaries for the activity list, and the live stream file.
use vstd::prelude::*;
use crate::text::{
    chars_string, contains, contains_seq, find_char, first_chars, has_prefix, is_system_prompt,
    is_system_prompt_spec, lemma_find, lemma_rfind_from, lemma_str_views_push, lines, rfind,
    slice_chars, spec_find, spec_rfind, split, split_at_str, split_char, split_lines, split_str,
    starts_with, str_chars, str_views, take_chars, trim_end_in, trim_end_set, views,
};
use crate::text::has_suffix;
use crate::stream::{block_views, BlockModel, EntryKind, RichBlock, StreamEntry, text_len_sum};

verus! {

// ───────────────────────── placeholder notices ─────────────────────────

/// A system entry whose first block is text saying the prompt is being sent, thought
/// about or queued.
pub open spec fn is_pending_notice_spec(kind: EntryKind, blocks: Seq<BlockModel>) -> bool {
    &&& kind == EntryKind::System
    &&& blocks.len() > 0
    &&& match blocks[0] {
        BlockModel::Text(t) => contains_seq(t, "sending to neil"@) || contains_seq(t, "thinking"@)
            || contains_seq(t, "queued"@),
        _ => false,
    }
}

/// Whether an entry is a temporary "waiting for Neil" notice.
pub fn is_pending_notice(e: &StreamEntry) -> (r: bool)
    ensures
        r == is_pending_notice_spec(e.kind, block_views(e.blocks@)),
{
    if e.kind != EntryKind::System || e.blocks.len() == 0 {
        return false;
    }
    assert(block_views(e.blocks@)[0] == e.blocks@[0]@);
    match &e.blocks[0] {
        RichBlock::Text(t) => {
            let c = str_chars(t.as_str());
            contains(&c, &str_chars("sending to neil")) || contains(&c, &str_chars("thinking"))
                || contains(&c, &str_chars("queued"))
        },
        _ => false,
    }
}

/// Removes a trailing "waiting for Neil" notice before the answer is shown.
pub fn drop_pending_notice(stream: &mut Vec<StreamEntry>)
    ensures
        old(stream)@.len() > 0 && is_pending_notice_spec(
            old(stream)@.last().kind,
            block_views(old(stream)@.last().blocks@),
        ) ==> final(stream)@ == old(stream)@.drop_last(),
        !(old(stream)@.len() > 0 && is_pending_notice_spec(
            old(stream)@.last().kind,
            block_views(old(stream)@.last().blocks@),
        )) ==> final(stream)@ == old(stream)@,
{
    let n = stream.len();
    if n > 0 && is_pending_notice(&stream[n - 1]) {
        stream.pop();
    }
}

// ───────────────────────── duplicates and length ─────────────────────────

/// The content size of an entry as `total_text_len` reports it.
pub open spec fn entry_len(e: StreamEntry) -> nat {
    let s = text_len_sum(block_views(e.blocks@));
    if s > usize::MAX {
        usize::MAX as nat
    } else {
        s
    }
}

/// The newest entry repeats a recent answer: it has content, and one of the (up to) five
/// entries before it is from Neil with the same content size.
pub open spec fn is_duplicate_spec(s: Seq<StreamEntry>) -> bool {
    &&& s.len() > 0
    &&& entry_len(s.last()) > 0
    &&& exists|k: int|
        #![trigger s[k]]
        s.len() - 6 <= k < s.len() - 1 && 0 <= k && s[k].kind == EntryKind::Neil && entry_len(s[k])
            == entry_len(s.last())
}

/// Whether the newest entry duplicates one of the recent answers from Neil.
pub fn is_duplicate_result(stream: &[StreamEntry]) -> (r: bool)
    ensures
        r == is_duplicate_spec(stream@),
{
    let n = stream.len();
    if n == 0 {
        return false;
    }
    let hint = stream[n - 1].total_text_len();
    if hint == 0 {
        return false;
    }
    let lo: usize = if n >= 6 {
        n - 6
    } else {
        0
    };
    let mut k: usize = n - 1;
    while k > lo
        invariant
            n == stream@.len(),
            n > 0,
            lo <= k <= n - 1,
            lo == (if n >= 6 {
                n - 6
            } else {
                0
            }),
            hint == entry_len(stream@[n - 1]),
            hint > 0,
            forall|j: int|
                k <= j < n - 1 ==> !(stream@[j].kind == EntryKind::Neil && entry_len(stream@[j])
                    == hint),
        decreases k,
    {
        let e = &stream[k - 1];
        if e.kind == EntryKind::Neil && e.total_text_len() == hint {
            assert(stream@[k - 1] == *e);
            return true;
        }
        k -= 1;
    }
    false
}

/// Keeps the stream bounded: past 100 entries, only the newest 80 stay.
pub fn cap_stream(stream: &mut Vec<StreamEntry>) -> (trimmed: bool)
    ensures
        trimmed == (old(stream)@.len() > 100),
        trimmed ==> final(stream)@ == old(stream)@.skip(old(stream)@.len() - 80),
        !trimmed ==> final(stream)@ == old(stream)@,
{
    let n = stream.len();
    if n <= 100 {
        return false;
    }
    let drop = n - 80;
    let mut kept: Vec<StreamEntry> = Vec::new();
    let ghost orig = stream@;
    let mut i: usize = n;
    // move the newest 80 out, newest last
    let mut tail: Vec<StreamEntry> = Vec::new();
    while i > drop
        invariant
            drop <= i <= n,
            n == orig.len(),
            drop == n - 80,
            stream@ == orig.take(i as int),
            tail@.len() == n - i,
            forall|j: int| 0 <= j < n - i ==> #[trigger] tail@[j] == orig[n - 1 - j],
        decreases i,
    {
        let e = stream.pop().unwrap();
        assert(e == orig[i - 1]);
        assert(orig.take(i as int).drop_last() == orig.take(i - 1));
        tail.push(e);
        i -= 1;
    }
    while tail.len() > 0
        invariant
            tail@.len() + kept@.len() == 80,
            n == orig.len(),
            drop == n - 80,
            forall|j: int| 0 <= j < tail@.len() ==> #[trigger] tail@[j] == orig[n - 1 - j],
            forall|j: int| 0 <= j < kept@.len() ==> #[trigger] kept@[j] == orig[drop + j],
        decreases tail@.len(),
    {
        let e = tail.pop().unwrap();
        kept.push(e);
    }
    assert(kept@ =~= orig.skip(drop as int));
    *stream = kept;
    true
}

// ───────────────────────── activity ─────────────────────────

/// The summary of a `HEARTBEAT:` line: what follows `summary="` up to the next such
/// marker, without trailing quotes, cut to 60 characters.
pub open spec fn beat_summary(l: Seq<char>) -> Option<Seq<char>> {
    let parts = split_str(l, "summary=\""@);
    if parts.len() >= 2 {
        Some(take_chars(trim_end_in(parts[1], seq!['"']), 60))
    } else {
        None
    }
}

/// Summaries of the `HEARTBEAT:` lines of `ls`, in order.
pub open spec fn beat_summaries(ls: Seq<Seq<char>>) -> Seq<Seq<char>>
    decreases ls.len(),
{
    if ls.len() == 0 {
        seq![]
    } else {
        let r = beat_summaries(ls.drop_last());
        let l = ls.last();
        if starts_with(l, "HEARTBEAT:"@) && beat_summary(l) is Some {
            r.push(beat_summary(l)->0)
        } else {
            r
        }
    }
}

/// The heartbeat summaries reported in a prompt's output, for the activity list.
pub fn heartbeat_summaries(output: &str) -> (r: Vec<String>)
    ensures
        str_views(r@) == beat_summaries(lines(output@)),
{
    let c = str_chars(output);
    let ls = split_lines(&c);
    let ghost lv = views(ls@);
    let marker = str_chars("summary=\"");
    let prefix = str_chars("HEARTBEAT:");
    let quote = vec!['"'];
    assert(quote@ == seq!['"']);
    proof {
        reveal_strlit("summary=\"");
    }
    let mut out: Vec<String> = Vec::new();
    for i in 0..ls.len()
        invariant
            lv == views(ls@),
            lv == lines(output@),
            marker@ == "summary=\""@,
            marker@.len() > 0,
            prefix@ == "HEARTBEAT:"@,
            quote@ == seq!['"'],
            str_views(out@) == beat_summaries(lv.take(i as int)),
    {
        assert(lv.take(i + 1).drop_last() == lv.take(i as int));
        assert(lv.take(i + 1).last() == ls@[i as int]@);
        let l = &ls[i];
        if has_prefix(l, &prefix) {
            let parts = split_at_str(l, &marker);
            if parts.len() >= 2 {
                assert(views(parts@)[1] == parts@[1]@);
                let s = first_chars(&trim_end_set(&parts[1], &quote), 60);
                let st = chars_string(&s);
                proof {
                    lemma_str_views_push(out@, st);
                }
                out.push(st);
            }
        }
    }
    assert(lv.take(ls@.len() as int) == lv);
    out
}

/// Adds a summary to the activity list; past 20 entries, the oldest 10 go.
pub fn push_activity(activity: &mut Vec<String>, summary: String)
    ensures
        old(activity)@.len() + 1 > 20 ==> final(activity)@ == old(activity)@.push(summary).skip(
            10,
        ),
        old(activity)@.len() + 1 <= 20 ==> final(activity)@ == old(activity)@.push(summary),
{
    activity.push(summary);
    if activity.len() > 20 {
        let ghost all = activity@;
        let mut kept: Vec<String> = Vec::new();
        let mut i: usize = 10;
        while i < activity.len()
            invariant
                activity@ == all,
                10 <= i <= all.len(),
                kept@ == all.subrange(10, i as int),
            decreases all.len() - i,
        {
            kept.push(activity[i].clone());
            assert(all.subrange(10, i + 1) == all.subrange(10, i as int).push(all[i as int]));
            i += 1;
        }
        assert(all.subrange(10, all.len() as int) == all.skip(10));
        *activity = kept;
    }
}

// ───────────────────────── the user's last message ─────────────────────────

/// The newest message from the user, first 80 characters of its first block when that
/// is text; empty when there is none.
pub open spec fn last_user_message_spec(s: Seq<StreamEntry>) -> Seq<char>
    decreases s.len(),
{
    if s.len() == 0 {
        seq![]
    } else if s.last().kind == EntryKind::Human {
        let bs = block_views(s.last().blocks@);
        if bs.len() > 0 {
            match bs[0] {
                BlockModel::Text(t) => take_chars(t, 80),
                _ => seq![],
            }
        } else {
            seq![]
        }
    } else {
        last_user_message_spec(s.drop_last())
    }
}

/// The start of the user's newest message.
pub fn last_user_message(stream: &[StreamEntry]) -> (r: String)
    ensures
        r@ == last_user_message_spec(stream@),
{
    let mut k: usize = stream.len();
    assert(stream@.take(k as int) == stream@);
    while k > 0
        invariant
            0 <= k <= stream@.len(),
            last_user_message_spec(stream@) == last_user_message_spec(stream@.take(k as int)),
        decreases k,
    {
        assert(stream@.take(k as int).drop_last() == stream@.take(k - 1));
        let e = &stream[k - 1];
        if e.kind == EntryKind::Human {
            if e.blocks.len() > 0 {
                assert(block_views(e.blocks@)[0] == e.blocks@[0]@);
                match &e.blocks[0] {
                    RichBlock::Text(t) => {
                        return chars_string(&first_chars(&str_chars(t.as_str()), 80));
                    },
                    _ => {
                        return String::new();
                    },
                }
            }
            return String::new();
        }
        k -= 1;
    }
    String::new()
}

// ───────────────────────── the live stream file ─────────────────────────

/// What the live stream file says: its header line reports a running prompt, the body
/// carries the done marker, the text to show (the body up to its last done marker), and
/// the prompt's name.
pub struct StreamSnapshot {
    pub is_running: bool,
    pub is_done: bool,
    pub display_body: String,
    pub prompt_name: String,
}

/// The prompt name in the header: after the first `"prompt":"`, up to the next quote.
pub open spec fn prompt_name_spec(header: Seq<char>) -> Seq<char> {
    let parts = split_str(header, "\"prompt\":\""@);
    if parts.len() >= 2 {
        split(parts[1], '"')[0]
    } else {
        seq![]
    }
}

/// The text shown from the body: up to the last `\n{"status":"done"`, or all of it.
pub open spec fn display_body_spec(body: Seq<char>) -> Seq<char> {
    match spec_rfind(body, "\n{\"status\":\"done\""@) {
        Some(p) => body.take(p),
        None => body,
    }
}

/// The stream file's snapshot; none while it has no complete header line.
pub open spec fn stream_snapshot_ok(content: Seq<char>, r: Option<StreamSnapshot>) -> bool {
    match spec_find(content, seq!['\n']) {
        None => r is None,
        Some(nl) => {
            let header = content.take(nl);
            let body = content.skip(nl + 1);
            match r {
                None => false,
                Some(s) => {
                    &&& s.is_running == contains_seq(header, "\"running\""@)
                    &&& s.is_done == contains_seq(body, "{\"status\":\"done\""@)
                    &&& s.display_body@ == display_body_spec(body)
                    &&& s.prompt_name@ == prompt_name_spec(header)
                }
            }
        },
    }
}

/// Reads the live stream file's header and body.
pub fn parse_stream_file(content: &str) -> (r: Option<StreamSnapshot>)
    ensures
        stream_snapshot_ok(content@, r),
{
    let c = str_chars(content);
    let nl = match find_char(&c, '\n') {
        Some(nl) => nl,
        None => return None,
    };
    proof {
        lemma_find(c@, seq!['\n']);
    }
    let header = slice_chars(&c, 0, nl);
    let cl = c.len();
    assert(nl + 1 <= cl);
    let body = slice_chars(&c, nl + 1, cl);
    let is_running = contains(&header, &str_chars("\"running\""));
    let is_done = contains(&body, &str_chars("{\"status\":\"done\""));
    let display = match rfind(&body, &str_chars("\n{\"status\":\"done\"")) {
        Some(p) => {
            proof {
                lemma_rfind_from(
                    body@,
                    "\n{\"status\":\"done\""@,
                    body@.len() - "\n{\"status\":\"done\""@.len(),
                );
            }
            slice_chars(&body, 0, p)
        },
        None => slice_chars(&body, 0, body.len()),
    };
    assert(body@.subrange(0, body@.len() as int) == body@);
    let marker = str_chars("\"prompt\":\"");
    proof {
        reveal_strlit("\"prompt\":\"");
    }
    let parts = split_at_str(&header, &marker);
    let name = if parts.len() >= 2 {
        assert(views(parts@)[1] == parts@[1]@);
        let pieces = split_char(&parts[1], '"');
        proof {
            assert(split(parts@[1]@, '"').len() >= 1);
        }
        assert(views(pieces@)[0] == pieces@[0]@);
        chars_string(&pieces[0])
    } else {
        String::new()
    };
    Some(
        StreamSnapshot {
            is_running,
            is_done,
            display_body: chars_string(&display),
            prompt_name: name,
        },
    )
}

/// Whether a stream snapshot belongs to a background prompt.
pub fn is_system_stream(s: &StreamSnapshot) -> (r: bool)
    ensures
        r == is_system_prompt_spec(s.prompt_name@),
{
    is_system_prompt(s.prompt_name.as_str())
}


// ───────────────────────── following the live stream ─────────────────────────

/// Where following the live stream stands.
#[derive(Debug)]
pub struct StreamTail {
    /// A reply is streaming in.
    pub active: bool,
    /// The stream entry the reply is shown in.
    pub live_entry: Option<usize>,
    /// Bytes of the reply shown so far.
    pub last_len: u128,
    /// The next finished result was already shown from the stream.
    pub skip_next_result: bool,
}

impl StreamTail {
    /// Nothing followed yet.
    pub fn new() -> (t: StreamTail)
        ensures
            !t.active,
            t.live_entry is None,
            t.last_len == 0,
            !t.skip_next_result,
    {
        StreamTail { active: false, live_entry: None, last_len: 0, skip_next_result: false }
    }
}

/// `e` is an entry of `kind` parsed from `content` (stamped with the clock time).
pub open spec fn is_entry(e: StreamEntry, kind: EntryKind, content: Seq<char>) -> bool {
    &&& e.kind == kind
    &&& block_views(e.blocks@) == crate::blocks::parse_blocks_spec(content)
}

/// Entry `idx` now shows Neil's reply `body`; the others are as they were.
pub open spec fn replaced(old: Seq<StreamEntry>, new: Seq<StreamEntry>, idx: int, body: Seq<char>) -> bool {
    &&& new.len() == old.len()
    &&& 0 <= idx < old.len()
    &&& forall|i: int| 0 <= i < old.len() && i != idx ==> new[i] == old[i]
    &&& is_entry(new[idx], EntryKind::Neil, body)
}

/// A trailing "waiting" notice gave way to a new entry showing Neil's reply `body`.
pub open spec fn appended(old: Seq<StreamEntry>, new: Seq<StreamEntry>, body: Seq<char>) -> bool {
    let base = if old.len() > 0 && is_pending_notice_spec(old.last().kind, block_views(old.last().blocks@)) {
        old.drop_last()
    } else {
        old
    };
    &&& new.len() == base.len() + 1
    &&& new.take(base.len() as int) == base
    &&& is_entry(new.last(), EntryKind::Neil, body)
}

/// The stream file shows a prompt running that was not followed yet.
pub open spec fn starts_reply(t: StreamTail, s: StreamSnapshot) -> bool {
    s.is_running && !t.active && !s.is_done
}

/// The shown length before new text is taken: a fresh, still empty reply starts from zero.
pub open spec fn base_len(t: StreamTail, s: StreamSnapshot) -> u128 {
    if starts_reply(t, s) && s.display_body@.len() == 0 {
        0
    } else {
        t.last_len
    }
}

/// The reply of a user prompt has grown beyond what is shown.
pub open spec fn grows(t: StreamTail, s: StreamSnapshot) -> bool {
    s.is_running && !is_system_prompt_spec(s.prompt_name@) && crate::text::utf8_len(s.display_body@) > base_len(t, s)
}

/// Following the stream after a snapshot, as far as the tail itself goes.
pub open spec fn tail_after(t: StreamTail, s: StreamSnapshot, stream_len: nat, new_len: nat) -> StreamTail {
    let active1 = t.active || starts_reply(t, s);
    let g = grows(t, s);
    let pushed = g && t.live_entry is None && (!s.is_done || !active1);
    let active2 = active1 || g;
    let finished = s.is_done && active2;
    StreamTail {
        active: if finished { false } else { active2 },
        live_entry: if finished {
            None
        } else if pushed {
            Some((new_len - 1) as usize)
        } else {
            t.live_entry
        },
        last_len: if g { crate::text::utf8_len(s.display_body@) as u128 } else { base_len(t, s) },
        skip_next_result: if finished { true } else { t.skip_next_result },
    }
}

/// Takes in a snapshot of the live stream file. A prompt that starts running is followed
/// (no longer pending); while the reply of a user prompt grows, it is shown in its entry
/// (a new one, replacing a trailing "waiting" notice, when there is none yet) and the
/// chat follows it when it scrolls automatically; when the reply is done, its entry is
/// refreshed with the final text, following stops, and the finished result will not be
/// shown again. Returns whether anything changed on screen.
pub fn follow_stream(
    tail: &mut StreamTail,
    stream: &mut Vec<StreamEntry>,
    console: &mut crate::console::Console,
    snap: &StreamSnapshot,
) -> (redraw: bool)
    ensures
        ({
            let t = *old(tail);
            let s = *snap;
            let active1 = t.active || starts_reply(t, s);
            let os = old(stream)@;
            let ns = final(stream)@;
            let body = s.display_body@;
            &&& *final(tail) == tail_after(t, s, os.len(), ns.len())
            &&& if grows(t, s) {
                match t.live_entry {
                    Some(idx) => if idx < os.len() {
                        replaced(os, ns, idx as int, body)
                    } else {
                        ns == os
                    },
                    None => if !s.is_done || !active1 {
                        appended(os, ns, body)
                    } else {
                        ns == os
                    },
                }
            } else if s.is_done && active1 && !is_system_prompt_spec(s.prompt_name@) && body.len() > 0
                && t.live_entry is Some && t.live_entry->0 < os.len() {
                replaced(os, ns, t.live_entry->0 as int, body)
            } else {
                ns == os
            }
        }),
        final(console).prompt_pending == if starts_reply(*old(tail), *snap) {
            false
        } else {
            old(console).prompt_pending
        },
        final(console).scroll_offset == if grows(*old(tail), *snap) && old(console).auto_scroll {
            0
        } else {
            old(console).scroll_offset
        },
        final(console).input == old(console).input,
        final(console).cursor == old(console).cursor,
        final(console).view == old(console).view,
        final(console).auto_scroll == old(console).auto_scroll,
        final(console).history == old(console).history,
        final(console).history_idx == old(console).history_idx,
        redraw == (starts_reply(*old(tail), *snap) || grows(*old(tail), *snap) || (snap.is_done && old(tail).active
            && !is_system_prompt_spec(snap.prompt_name@) && snap.display_body@.len() > 0 && old(tail).live_entry is Some
            && old(tail).live_entry->0 < old(stream)@.len())),
{
    let ghost t = *tail;
    let ghost os = stream@;
    let body_chars = str_chars(snap.display_body.as_str());
    let blen = crate::text::byte_len(&body_chars);
    let system = is_system_stream(snap);
    let mut redraw = false;
    let starts = snap.is_running && !tail.active && !snap.is_done;
    if starts && body_chars.len() == 0 {
        tail.last_len = 0;
    }
    if starts {
        tail.active = true;
        console.prompt_pending = false;
        redraw = true;
    }
    let ghost active1 = tail.active;
    let grow = snap.is_running && !system && blen > tail.last_len;
    if grow {
        match tail.live_entry {
            Some(idx) => {
                if idx < stream.len() {
                    let e = StreamEntry::new(EntryKind::Neil, snap.display_body.clone());
                    stream.set(idx, e);
                }
            },
            None => {
                if !snap.is_done || !tail.active {
                    drop_pending_notice(stream);
                    let e = StreamEntry::new(EntryKind::Neil, snap.display_body.clone());
                    stream.push(e);
                    let n = stream.len();
                    tail.live_entry = Some(n - 1);
                }
            },
        }
        tail.last_len = blen;
        tail.active = true;
        if console.auto_scroll {
            console.scroll_offset = 0;
        }
        redraw = true;
    }
    let ghost mid = stream@;
    if snap.is_done && tail.active {
        if !system && body_chars.len() > 0 {
            match tail.live_entry {
                Some(idx) => {
                    if idx < stream.len() {
                        let e = StreamEntry::new(EntryKind::Neil, snap.display_body.clone());
                        stream.set(idx, e);
                        redraw = true;
                    }
                },
                None => {},
            }
        }
        tail.active = false;
        tail.live_entry = None;
        tail.skip_next_result = true;
    }
    proof {
        let ns = stream@;
        if grow {
            match t.live_entry {
                Some(idx) => {
                    if idx < os.len() {
                        assert forall|i: int| 0 <= i < os.len() && i != idx implies ns[i] == os[i] by {
                            assert(mid[i] == os[i]);
                        }
                    }
                },
                None => {
                    if !snap.is_done || !active1 {
                        let base = if os.len() > 0 && is_pending_notice_spec(os.last().kind, block_views(os.last().blocks@)) {
                            os.drop_last()
                        } else {
                            os
                        };
                        assert(mid.take(base.len() as int) =~= base);
                        assert(ns.take(base.len() as int) =~= mid.take(base.len() as int));
                    }
                },
            }
        }
    }
    redraw
}


// ───────────────────────── finished results ─────────────────────────

/// The prompt recorded in a result file.
pub open spec fn result_prompt(c: Seq<char>) -> Option<Seq<char>> {
    crate::text::extract_between_spec(c, "## Prompt\n```\n"@, "\n```"@)
}

/// The output recorded in a result file.
pub open spec fn result_output(c: Seq<char>) -> Option<Seq<char>> {
    crate::text::extract_between_spec(c, "## Output\n```\n"@, "\n```"@)
}

/// The prompt of a result file.
fn result_prompt_exec(c: &str) -> (r: Option<String>)
    ensures
        match r {
            Some(p) => result_prompt(c@) == Some(p@),
            None => result_prompt(c@) is None,
        },
{
    crate::text::extract_between(c, "## Prompt\n```\n", "\n```")
}

/// The output of a result file.
fn result_output_exec(c: &str) -> (r: Option<String>)
    ensures
        match r {
            Some(o) => result_output(c@) == Some(o@),
            None => result_output(c@) is None,
        },
{
    crate::text::extract_between(c, "## Output\n```\n", "\n```")
}

/// Appends the summaries to the activity list as they are.
fn append_all(activity: &mut Vec<String>, sums: Vec<String>)
    ensures
        final(activity)@ == old(activity)@ + sums@,
{
    let ghost start = activity@;
    for i in 0..sums.len()
        invariant
            activity@ == start + sums@.take(i as int),
    {
        activity.push(sums[i].clone());
        assert(start + sums@.take(i + 1) =~= (start + sums@.take(i as int)).push(sums@[i as int]));
    }
    assert(sums@.take(sums@.len() as int) =~= sums@);
}

/// Takes up a result file at start-up: a background prompt's heartbeat summaries go to
/// the activity list; a user prompt and its non-empty output go to the stream.
pub fn take_result(
    fname: &str,
    content: &str,
    stream: &mut Vec<StreamEntry>,
    activity: &mut Vec<String>,
)
    ensures
        is_system_prompt_spec(fname@) ==> {
            &&& final(stream)@ == old(stream)@
            &&& match result_output(content@) {
                Some(o) => str_views(final(activity)@) == str_views(old(activity)@) + beat_summaries(lines(o)),
                None => final(activity)@ == old(activity)@,
            }
        },
        !is_system_prompt_spec(fname@) ==> {
            let p = result_prompt(content@);
            let o = result_output(content@);
            let np: nat = if p is Some { 1 } else { 0 };
            let no: nat = if o is Some && o->0.len() > 0 { 1 } else { 0 };
            &&& final(activity)@ == old(activity)@
            &&& final(stream)@.len() == old(stream)@.len() + np + no
            &&& final(stream)@.take(old(stream)@.len() as int) == old(stream)@
            &&& (p is Some ==> is_entry(final(stream)@[old(stream)@.len() as int], EntryKind::Human, p->0))
            &&& (no == 1 ==> is_entry(final(stream)@.last(), EntryKind::Neil, o->0))
        },
{
    let p = result_prompt_exec(content);
    let o = result_output_exec(content);
    if is_system_prompt(fname) {
        match o {
            Some(out) => {
                let sums = heartbeat_summaries(out.as_str());
                let ghost before = activity@;
                append_all(activity, sums);
                assert(str_views(activity@) =~= str_views(before) + str_views(sums@));
            },
            None => {},
        }
    } else {
        let ghost start = stream@;
        match p {
            Some(pr) => {
                stream.push(StreamEntry::new(EntryKind::Human, pr));
            },
            None => {},
        }
        let ghost mid = stream@;
        match o {
            Some(out) => {
                if out.as_str().is_empty() == false {
                    stream.push(StreamEntry::new(EntryKind::Neil, out));
                }
            },
            None => {},
        }
        assert(stream@.take(start.len() as int) =~= start);
        assert(mid.take(start.len() as int) =~= start);
    }
}

/// The activity list after one more summary: past 20 entries, the oldest 10 go.
pub open spec fn capped_push(a: Seq<Seq<char>>, x: Seq<char>) -> Seq<Seq<char>> {
    if a.len() + 1 > 20 {
        a.push(x).skip(10)
    } else {
        a.push(x)
    }
}

/// The activity list after the summaries, one at a time.
pub open spec fn capped_push_all(a: Seq<Seq<char>>, xs: Seq<Seq<char>>) -> Seq<Seq<char>>
    decreases xs.len(),
{
    if xs.len() == 0 {
        a
    } else {
        capped_push(capped_push_all(a, xs.drop_last()), xs.last())
    }
}

/// Takes up the newest result once it is finished: a background prompt's heartbeat
/// summaries go to the activity list (kept short); a user prompt's non-empty output
/// replaces a trailing "waiting" notice in the stream. Returns whether the chat should
/// follow it again.
pub fn take_new_result(
    fname: &str,
    content: &str,
    stream: &mut Vec<StreamEntry>,
    activity: &mut Vec<String>,
) -> (follow: bool)
    ensures
        ({
            let o = result_output(content@);
            let shown = o is Some && o->0.len() > 0;
            &&& follow == (shown && !is_system_prompt_spec(fname@))
            &&& (follow ==> appended(old(stream)@, final(stream)@, o->0) && final(activity)@ == old(activity)@)
            &&& (!follow ==> final(stream)@ == old(stream)@)
            &&& (!shown ==> final(activity)@ == old(activity)@)
            &&& (shown && is_system_prompt_spec(fname@) ==> str_views(final(activity)@) == capped_push_all(
                str_views(old(activity)@),
                beat_summaries(lines(o->0)),
            ))
        }),
{
    match result_output_exec(content) {
        Some(out) => {
            if out.as_str().is_empty() {
                return false;
            }
            if is_system_prompt(fname) {
                let sums = heartbeat_summaries(out.as_str());
                let ghost start = str_views(activity@);
                let ghost sv = str_views(sums@);
                for i in 0..sums.len()
                    invariant
                        sv == str_views(sums@),
                        str_views(activity@) == capped_push_all(start, sv.take(i as int)),
                {
                    assert(sv.take(i + 1).drop_last() =~= sv.take(i as int));
                    assert(sv.take(i + 1).last() == sums@[i as int]@);
                    let ghost a0 = activity@;
                    let item = sums[i].clone();
                    push_activity(activity, item);
                    proof {
                        assert(str_views(a0.push(item)) =~= str_views(a0).push(item@));
                        if a0.len() + 1 > 20 {
                            assert(str_views(a0.push(item).skip(10)) =~= str_views(a0.push(item)).skip(10));
                        }
                    }
                }
                assert(sv.take(sums@.len() as int) =~= sv);
                false
            } else {
                let ghost os = stream@;
                drop_pending_notice(stream);
                let ghost mid = stream@;
                stream.push(StreamEntry::new(EntryKind::Neil, out));
                assert(stream@.take(mid.len() as int) =~= mid);
                true
            }
        },
        None => false,
    }
}

/// The prompt a result file adds to the recall history: its trimmed prompt, unless empty,
/// a heartbeat, a wake-up or an event.
pub open spec fn recalled_prompt(c: Seq<char>) -> Option<Seq<char>> {
    match result_prompt(c) {
        Some(p) => {
            let t = crate::text::trim(p);
            if t.len() == 0 || starts_with(t, "# Heartbeat"@) || starts_with(t, "# Wake Up"@)
                || starts_with(t, "[EVENT]"@) {
                None
            } else {
                Some(t)
            }
        },
        None => None,
    }
}

/// The recalled prompts of the files, in order.
pub open spec fn recalled_prompts(cs: Seq<Seq<char>>) -> Seq<Seq<char>>
    decreases cs.len(),
{
    if cs.len() == 0 {
        seq![]
    } else {
        let r = recalled_prompts(cs.drop_last());
        match recalled_prompt(cs.last()) {
            Some(p) => r.push(p),
            None => r,
        }
    }
}

/// A prompt that may be recalled: not empty, not a heartbeat, a wake-up or an event.
pub open spec fn recallable(t: Seq<char>) -> bool {
    &&& t.len() > 0
    &&& !starts_with(t, "# Heartbeat"@)
    &&& !starts_with(t, "# Wake Up"@)
    &&& !starts_with(t, "[EVENT]"@)
}

/// The files whose prompts are recalled, in order.
pub open spec fn recall_indices(cs: Seq<Seq<char>>) -> Seq<int>
    decreases cs.len(),
{
    if cs.len() == 0 {
        seq![]
    } else {
        let r = recall_indices(cs.drop_last());
        match recalled_prompt(cs.last()) {
            Some(_) => r.push(cs.len() - 1),
            None => r,
        }
    }
}

proof fn lemma_recall_indices(cs: Seq<Seq<char>>)
    ensures
        ({
            let r = recalled_prompts(cs);
            let idx = recall_indices(cs);
            &&& idx.len() == r.len()
            &&& forall|a: int, b: int| 0 <= a < b < idx.len() ==> idx[a] < idx[b]
            &&& forall|k: int|
                0 <= k < idx.len() ==> 0 <= #[trigger] idx[k] < cs.len() && (result_prompt(cs[idx[k]]) matches Some(p)
                    && r[k] == crate::text::trim(p)) && recallable(r[k])
            &&& forall|i: int|
                #![trigger cs[i]]
                0 <= i < cs.len() && (result_prompt(cs[i]) matches Some(p) && recallable(crate::text::trim(p))) ==> exists|k: int|
                    0 <= k < idx.len() && #[trigger] idx[k] == i
        }),
    decreases cs.len(),
{
    if cs.len() > 0 {
        let pre = cs.drop_last();
        lemma_recall_indices(pre);
        let r0 = recalled_prompts(pre);
        let idx0 = recall_indices(pre);
        let r = recalled_prompts(cs);
        let idx = recall_indices(cs);
        let n = cs.len() - 1;
        assert(cs.last() == cs[n]);
        assert forall|i: int| 0 <= i < pre.len() implies pre[i] == cs[i] by {}
        match recalled_prompt(cs.last()) {
            Some(t) => {
                assert(idx == idx0.push(n));
                assert(r == r0.push(t));
                assert forall|k: int|
                    0 <= k < idx.len() implies 0 <= #[trigger] idx[k] < cs.len() && (result_prompt(cs[idx[k]]) matches Some(p)
                        && r[k] == crate::text::trim(p)) && recallable(r[k]) by {
                    if k < idx0.len() {
                        assert(idx[k] == idx0[k] && r[k] == r0[k]);
                        assert(pre[idx0[k]] == cs[idx0[k]]);
                    }
                }
                assert forall|i: int|
                    #![trigger cs[i]]
                    0 <= i < cs.len() && (result_prompt(cs[i]) matches Some(p) && recallable(crate::text::trim(p))) implies exists|k: int|
                        0 <= k < idx.len() && #[trigger] idx[k] == i by {
                    if i < n {
                        assert(pre[i] == cs[i]);
                        let k = choose|k: int| 0 <= k < idx0.len() && #[trigger] idx0[k] == i;
                        assert(idx[k] == i);
                    } else {
                        assert(idx[idx0.len() as int] == i);
                    }
                }
            },
            None => {
                assert(idx == idx0);
                assert(r == r0);
                assert forall|k: int|
                    0 <= k < idx.len() implies 0 <= #[trigger] idx[k] < cs.len() && (result_prompt(cs[idx[k]]) matches Some(p)
                        && r[k] == crate::text::trim(p)) && recallable(r[k]) by {
                    assert(pre[idx0[k]] == cs[idx0[k]]);
                }
                assert forall|i: int|
                    #![trigger cs[i]]
                    0 <= i < cs.len() && (result_prompt(cs[i]) matches Some(p) && recallable(crate::text::trim(p))) implies exists|k: int|
                        0 <= k < idx.len() && #[trigger] idx[k] == i by {
                    if i < n {
                        assert(pre[i] == cs[i]);
                    }
                }
            },
        }
    }
}

/// The recalled prompts are the trimmed prompts of the files that may be recalled,
/// oldest first, and only those: none is empty, a heartbeat, a wake-up or an event;
/// each is the prompt of a file, the files in order; and every file's prompt that may
/// be recalled is.
pub proof fn lemma_recalled_prompts(cs: Seq<Seq<char>>)
    ensures
        forall|k: int| 0 <= k < recalled_prompts(cs).len() ==> recallable(#[trigger] recalled_prompts(cs)[k]),
        exists|idx: Seq<int>|
            #![trigger idx.len()]
            idx.len() == recalled_prompts(cs).len() && (forall|a: int, b: int| 0 <= a < b < idx.len() ==> idx[a] < idx[b])
                && (forall|k: int|
                0 <= k < idx.len() ==> 0 <= #[trigger] idx[k] < cs.len() && (result_prompt(cs[idx[k]]) matches Some(p)
                    && recalled_prompts(cs)[k] == crate::text::trim(p))) && (forall|i: int|
                #![trigger cs[i]]
                0 <= i < cs.len() && (result_prompt(cs[i]) matches Some(p) && recallable(crate::text::trim(p))) ==> exists|k: int|
                    0 <= k < idx.len() && #[trigger] idx[k] == i),
{
    lemma_recall_indices(cs);
    let idx = recall_indices(cs);
    assert(idx.len() == recalled_prompts(cs).len());
    assert forall|k: int| 0 <= k < recalled_prompts(cs).len() implies recallable(
        #[trigger] recalled_prompts(cs)[k],
    ) by {
        assert(0 <= idx[k] < cs.len());
    }
}

/// The prompt history at start-up from the result files in name order: the recalled
/// prompts of the newest fifty, oldest first.
pub fn prompt_history(contents: &[String]) -> (r: Vec<Vec<char>>)
    ensures
        views(r@) == recalled_prompts(str_views(contents@).skip(
            if contents@.len() > 50 { contents@.len() - 50 } else { 0 },
        )),
{
    let n = contents.len();
    let start: usize = if n > 50 { n - 50 } else { 0 };
    let ghost all = str_views(contents@).skip(start as int);
    let mut out: Vec<Vec<char>> = Vec::new();
    let heartbeat = str_chars("# Heartbeat");
    let wake = str_chars("# Wake Up");
    let event = str_chars("[EVENT]");
    let mut i: usize = start;
    while i < n
        invariant
            n == contents@.len(),
            start <= i <= n,
            all == str_views(contents@).skip(start as int),
            heartbeat@ == "# Heartbeat"@,
            wake@ == "# Wake Up"@,
            event@ == "[EVENT]"@,
            views(out@) == recalled_prompts(all.take(i - start)),
        decreases n - i,
    {
        assert(all.take(i + 1 - start).drop_last() =~= all.take(i - start));
        assert(all.take(i + 1 - start).last() == contents@[i as int]@);
        match result_prompt_exec(contents[i].as_str()) {
            Some(p) => {
                let t = crate::text::trim_ws(&str_chars(p.as_str()));
                if !(t.len() == 0 || has_prefix(&t, &heartbeat) || has_prefix(&t, &wake) || has_prefix(&t, &event)) {
                    proof {
                        crate::text::lemma_views_push(out@, t);
                    }
                    out.push(t);
                }
            },
            None => {},
        }
        i += 1;
    }
    assert(all.take(n - start) =~= all);
    out
}


// ───────────────────────── result files ─────────────────────────

/// Every name sorts no later than the names after it.
pub open spec fn sorted_names(s: Seq<Seq<char>>) -> bool {
    forall|i: int, j: int| 0 <= i < j < s.len() ==> !crate::cluster_layout::lex_lt(#[trigger] s[j], #[trigger] s[i])
}

/// Puts names in order (a name before the names it sorts before).
pub fn sort_names(v: Vec<Vec<char>>) -> (r: Vec<Vec<char>>)
    ensures
        views(r@).to_multiset() == views(v@).to_multiset(),
        sorted_names(views(r@)),
{
    broadcast use vstd::seq_lib::group_to_multiset_ensures, vstd::multiset::group_multiset_axioms;
    let ghost orig = views(v@).to_multiset();
    let mut rest = v;
    let mut out: Vec<Vec<char>> = Vec::new();
    assert(views(out@) =~= Seq::<Seq<char>>::empty());
    assert(views(out@).to_multiset() =~= vstd::multiset::Multiset::<Seq<char>>::empty());
    while rest.len() > 0
        invariant
            views(out@).to_multiset().add(views(rest@).to_multiset()) == orig,
            sorted_names(views(out@)),
        decreases rest@.len(),
    {
        let ghost before = rest@;
        let x = rest.pop().unwrap();
        assert(views(before) =~= views(rest@).push(x@));
        let ghost cur = views(out@);
        let mut p: usize = 0;
        while p < out.len() && !crate::cluster_layout::chars_lt(&x, &out[p])
            invariant
                p <= out@.len(),
                cur == views(out@),
                forall|k: int| 0 <= k < p ==> !crate::cluster_layout::lex_lt(x@, #[trigger] cur[k]),
            decreases out@.len() - p,
        {
            assert(cur[p as int] == out@[p as int]@);
            p += 1;
        }
        proof {
            if p < out@.len() {
                assert(cur[p as int] == out@[p as int]@);
            }
        }
        out.insert(p, x);
        proof {
            let nv = views(out@);
            assert(nv =~= cur.insert(p as int, x@));
            assert forall|i: int, j: int| 0 <= i < j < nv.len() implies !crate::cluster_layout::lex_lt(#[trigger] nv[j], #[trigger] nv[i]) by {
                if j < p {
                    assert(nv[i] == cur[i] && nv[j] == cur[j]);
                } else if j == p {
                    assert(nv[i] == cur[i]);
                } else if i < p {
                    assert(nv[i] == cur[i] && nv[j] == cur[j - 1]);
                    if crate::cluster_layout::lex_lt(nv[j], nv[i]) {
                        // nv[i] <= x < cur[p] <= nv[j] would be out of order
                        assert(crate::cluster_layout::lex_lt(x@, cur[p as int]));
                        if j - 1 > p {
                            assert(!crate::cluster_layout::lex_lt(cur[j - 1], cur[p as int]));
                        }
                        crate::palace::lemma_lex_total_or_equal(nv[i], x@);
                        if crate::cluster_layout::lex_lt(nv[i], x@) {
                            crate::palace::lemma_lex_transitive(nv[i], x@, cur[p as int]);
                            crate::palace::lemma_lex_total_or_equal(cur[p as int], cur[j - 1]);
                            if j - 1 == p {
                            } else if crate::cluster_layout::lex_lt(cur[p as int], cur[j - 1]) {
                                crate::palace::lemma_lex_transitive(nv[i], cur[p as int], cur[j - 1]);
                                crate::palace::lemma_lex_asymmetric(nv[i], cur[j - 1]);
                            }
                        } else {
                            crate::palace::lemma_lex_total_or_equal(cur[p as int], cur[j - 1]);
                            if j - 1 == p {
                                crate::palace::lemma_lex_asymmetric(cur[p as int], x@);
                            } else if crate::cluster_layout::lex_lt(cur[p as int], cur[j - 1]) {
                                crate::palace::lemma_lex_transitive(x@, cur[p as int], cur[j - 1]);
                                crate::palace::lemma_lex_asymmetric(x@, cur[j - 1]);
                            } else {
                                crate::palace::lemma_lex_asymmetric(x@, cur[j - 1]);
                            }
                        }
                    }
                } else if i == p {
                    assert(nv[j] == cur[j - 1]);
                    assert(crate::cluster_layout::lex_lt(x@, cur[p as int]));
                    if crate::cluster_layout::lex_lt(nv[j], x@) {
                        if j - 1 == p {
                            crate::palace::lemma_lex_asymmetric(x@, cur[p as int]);
                        } else {
                            assert(!crate::cluster_layout::lex_lt(cur[j - 1], cur[p as int]));
                            crate::palace::lemma_lex_transitive(cur[j - 1], x@, cur[p as int]);
                        }
                    }
                } else {
                    assert(nv[i] == cur[i - 1] && nv[j] == cur[j - 1]);
                }
            }
            vstd::seq_lib::to_multiset_insert(cur, p as int, x@);
            vstd::seq_lib::to_multiset_build(views(rest@), x@);
            assert(views(out@).to_multiset().add(views(rest@).to_multiset()) =~= cur.to_multiset().add(
                views(before).to_multiset(),
            ));
        }
    }
    out
}

/// The names of finished results.
pub open spec fn result_files(ns: Seq<Seq<char>>) -> Seq<Seq<char>>
    decreases ns.len(),
{
    if ns.len() == 0 {
        seq![]
    } else {
        let r = result_files(ns.drop_last());
        if crate::text::ends_with(ns.last(), ".result.md"@) {
            r.push(ns.last())
        } else {
            r
        }
    }
}

/// The result files among the names of the history directory, in name order.
pub fn sorted_result_files(names: &[String]) -> (r: Vec<Vec<char>>)
    ensures
        views(r@).to_multiset() == result_files(str_views(names@)).to_multiset(),
        sorted_names(views(r@)),
{
    let suffix = str_chars(".result.md");
    let mut picked: Vec<Vec<char>> = Vec::new();
    for i in 0..names.len()
        invariant
            suffix@ == ".result.md"@,
            views(picked@) == result_files(str_views(names@).take(i as int)),
    {
        assert(str_views(names@).take(i + 1).drop_last() =~= str_views(names@).take(i as int));
        assert(str_views(names@).take(i + 1).last() == names@[i as int]@);
        let c = str_chars(names[i].as_str());
        if has_suffix(&c, &suffix) {
            proof {
                crate::text::lemma_views_push(picked@, c);
            }
            picked.push(c);
        }
    }
    assert(str_views(names@).take(names@.len() as int) =~= str_views(names@));
    sort_names(picked)
}

} // verus!
