//! The console's replies to slash commands, and the size limit on outgoing messages.
use vstd::prelude::*;
use crate::styled::cat;
use crate::text::{
    byte_len, chars_string, decimal, first_chars, push_all, str_chars, take_chars, truncate_bytes,
    truncate_chars, u128_decimal, usize_decimal, utf8_len, views,
};

verus! {

/// The reply to `/status`: notes, today's beats (against the cap when there is one),
/// queued prompts, unresolved failures and pending intentions.
pub open spec fn status_report(notes: usize, beats: usize, cap: Option<usize>, queue: usize, failures: usize, intents: usize) -> Seq<char> {
    let b = match cap {
        Some(c) => decimal(beats as nat) + "/"@ + decimal(c as nat),
        None => decimal(beats as nat),
    };
    "Notes: "@ + decimal(notes as nat) + " | Beats: "@ + b + " | Queue: "@ + decimal(queue as nat) + " | Failures: "@
        + decimal(failures as nat) + " | Intents: "@ + decimal(intents as nat)
}

/// The reply to `/status`.
pub fn status_report_exec(notes: usize, beats: usize, cap: Option<usize>, queue: usize, failures: usize, intents: usize) -> (r: String)
    ensures
        r@ == status_report(notes, beats, cap, queue, failures, intents),
{
    let mut s = str_chars("Notes: ");
    push_all(&mut s, &usize_decimal(notes));
    push_all(&mut s, &str_chars(" | Beats: "));
    push_all(&mut s, &usize_decimal(beats));
    match cap {
        Some(c) => {
            push_all(&mut s, &str_chars("/"));
            push_all(&mut s, &usize_decimal(c));
        },
        None => {},
    }
    push_all(&mut s, &str_chars(" | Queue: "));
    push_all(&mut s, &usize_decimal(queue));
    push_all(&mut s, &str_chars(" | Failures: "));
    push_all(&mut s, &usize_decimal(failures));
    push_all(&mut s, &str_chars(" | Intents: "));
    push_all(&mut s, &usize_decimal(intents));
    chars_string(&s)
}

/// The reply to `/help`.
pub open spec fn help_text() -> Seq<char> {
    "/clear - Clear chat\n/status - System status\n/help - This help\n/panels - Open panel selector\n/heartbeat - Trigger a heartbeat\n/history - Show prompt history\nUp/Down - Browse previous prompts\nTab - Open panels\nCtrl+S - Toggle sidebar\nCtrl+M - Toggle scroll/select (select = highlight to copy)"@
}

/// The reply to `/help`.
pub fn help_text_exec() -> (r: String)
    ensures
        r@ == help_text(),
{
    String::from_str(
        "/clear - Clear chat\n/status - System status\n/help - This help\n/panels - Open panel selector\n/heartbeat - Trigger a heartbeat\n/history - Show prompt history\nUp/Down - Browse previous prompts\nTab - Open panels\nCtrl+S - Toggle sidebar\nCtrl+M - Toggle scroll/select (select = highlight to copy)",
    )
}

/// A numbered line of the `/history` reply: the first 60 characters of a prompt.
pub open spec fn history_line(i: nat, p: Seq<char>) -> Seq<char> {
    "  "@ + decimal(i) + ": "@ + take_chars(p, 60)
}

/// The lines for the first `k` of the newest ten prompts, newest first.
pub open spec fn history_lines(h: Seq<Seq<char>>, k: nat) -> Seq<Seq<char>>
    decreases k,
{
    if k == 0 {
        seq![]
    } else {
        history_lines(h, (k - 1) as nat).push(history_line(k, h[h.len() - k]))
    }
}

/// The lines joined by newlines.
pub open spec fn joined(ls: Seq<Seq<char>>) -> Seq<char>
    decreases ls.len(),
{
    if ls.len() == 0 {
        seq![]
    } else if ls.len() == 1 {
        ls[0]
    } else {
        joined(ls.drop_last()) + seq!['\n'] + ls.last()
    }
}

/// The reply to `/history`: the ten newest prompts, newest first and numbered, or a note
/// when there are none.
pub open spec fn history_report(h: Seq<Seq<char>>) -> Seq<char> {
    let k: nat = if h.len() > 10 { 10 } else { h.len() };
    if k == 0 {
        "(no history)"@
    } else {
        joined(history_lines(h, k))
    }
}

/// The reply to `/history`.
pub fn history_report_exec(h: &Vec<Vec<char>>) -> (r: String)
    ensures
        r@ == history_report(views(h@)),
{
    let ghost hv = views(h@);
    let n = h.len();
    let k: usize = if n > 10 { 10 } else { n };
    if k == 0 {
        return String::from_str("(no history)");
    }
    let mut out: Vec<char> = Vec::new();
    let mut ls: Vec<Vec<char>> = Vec::new();
    for i in 1..k + 1
        invariant
            hv == views(h@),
            n == h@.len(),
            k <= n,
            k <= 10,
            1 <= i <= k + 1,
            views(ls@) == history_lines(hv, (i - 1) as nat),
            out@ == joined(history_lines(hv, (i - 1) as nat)),
    {
        assert(hv[n - i] == h@[n - i]@);
        let line = cat(&cat(&cat(&str_chars("  "), &usize_decimal(i)), &str_chars(": ")), &first_chars(&h[n - i], 60));
        let ghost lv = line@;
        assert(lv == history_line(i as nat, hv[hv.len() - i]));
        if i > 1 {
            out.push('\n');
        }
        push_all(&mut out, &line);
        proof {
            crate::text::lemma_views_push(ls@, line);
        }
        ls.push(line);
        assert(history_lines(hv, i as nat) == history_lines(hv, (i - 1) as nat).push(lv));
        assert(history_lines(hv, i as nat).drop_last() =~= history_lines(hv, (i - 1) as nat));
        if i == 1 {
            assert(history_lines(hv, 0) =~= Seq::<Seq<char>>::empty());
            assert(out@ =~= joined(history_lines(hv, i as nat)));
        } else {
            assert(out@ =~= joined(history_lines(hv, i as nat)));
        }
    }
    chars_string(&out)
}

/// The reply to a command the console does not know.
pub open spec fn unknown_command_text(word: Seq<char>) -> Seq<char> {
    "Unknown command: "@ + word + ". Type /help for commands."@
}

/// The reply to a command the console does not know.
pub fn unknown_command_text_exec(word: &[char]) -> (r: String)
    ensures
        r@ == unknown_command_text(word@),
{
    chars_string(&cat(&cat(&str_chars("Unknown command: "), word), &str_chars(". Type /help for commands.")))
}

/// The most bytes a message sent to Neil may take.
pub const MESSAGE_LIMIT: usize = 50_000;

/// Some prefix of `s` takes exactly `b` bytes.
pub open spec fn boundary_at(s: Seq<char>, b: nat) -> bool {
    exists|k: int| 0 <= k <= s.len() && #[trigger] utf8_len(s.take(k)) == b
}

/// What is queued for a message: the message, cut to the limit when it is longer, with
/// a notice of its size then.
pub open spec fn queued(msg: Seq<char>) -> (Option<Seq<char>>, Seq<char>) {
    if utf8_len(msg) > MESSAGE_LIMIT {
        (
            Some("Message too large ("@ + decimal(utf8_len(msg)) + " chars, max 50000). Truncated."@),
            truncate_bytes(msg, MESSAGE_LIMIT as nat),
        )
    } else {
        (None, msg)
    }
}

/// What is queued for a message (a longer one is cut where a character ends exactly at
/// the limit).
pub fn queued_message(msg: &str) -> (r: (Option<String>, String))
    requires
        utf8_len(msg@) > MESSAGE_LIMIT ==> boundary_at(msg@, MESSAGE_LIMIT as nat),
    ensures
        r.1@ == queued(msg@).1,
        match r.0 {
            Some(n) => queued(msg@).0 == Some(n@),
            None => queued(msg@).0 is None,
        },
{
    let c = str_chars(msg);
    let n = byte_len(&c);
    if n > MESSAGE_LIMIT as u128 {
        let note = chars_string(&cat(&cat(&str_chars("Message too large ("), &u128_decimal(n)), &str_chars(" chars, max 50000). Truncated.")));
        (Some(note), chars_string(&truncate_chars(&c, MESSAGE_LIMIT)))
    } else {
        (None, String::from_str(msg))
    }
}

} // verus!
