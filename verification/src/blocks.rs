//! Splitting a message into rich blocks: tool-call lines, `SHOW:` directives and fenced
//! code, which becomes a command, a file edit or plain code.
use vstd::prelude::*;
use crate::text::{
    ascii_lower, chars_eq, chars_string, contains, contains_seq, ends_with, find, find_char,
    has_prefix, has_suffix, join_lines, join_with_newlines, lemma_find, lines, push_all, replace_all,
    replace_spec, rfind, slice_chars, spec_find, spec_rfind, split, split_at_str, split_char,
    split_lines, split_str, split_words, starts_with, str_chars, str_views, to_ascii_lower,
    to_strings, trim, trim_end, trim_end_in, trim_end_set, trim_end_ws, trim_start, trim_start_in,
    trim_start_set, trim_start_ws, trim_ws, utf8_len, byte_len, views, words, lemma_str_views_push,
};
use crate::stream::{
    block_views, diff_views, lemma_block_views_push, row_views, BlockModel, DiffLine, DiffModel,
    RichBlock,
};

verus! {

// ───────────────────────── tool-call lines ─────────────────────────

/// A line that reports an action (`MEMORY:`, `CALL:`, `NOTIFY:`, `INTEND:`, `DONE:`,
/// `FAIL:`, `HEARTBEAT:`, `PROMPT:`), leading whitespace ignored.
pub open spec fn is_action_line_spec(l: Seq<char>) -> bool {
    let t = trim_start(l);
    ||| starts_with(t, "MEMORY:"@)
    ||| starts_with(t, "CALL:"@)
    ||| starts_with(t, "NOTIFY:"@)
    ||| starts_with(t, "INTEND:"@)
    ||| starts_with(t, "DONE:"@)
    ||| starts_with(t, "FAIL:"@)
    ||| starts_with(t, "HEARTBEAT:"@)
    ||| starts_with(t, "PROMPT:"@)
}

/// Whether a line reports an action.
pub fn is_action_line(l: &[char]) -> (r: bool)
    ensures
        r == is_action_line_spec(l@),
{
    let t = trim_start_ws(l);
    has_prefix(&t, &str_chars("MEMORY:")) || has_prefix(&t, &str_chars("CALL:")) || has_prefix(
        &t,
        &str_chars("NOTIFY:"),
    ) || has_prefix(&t, &str_chars("INTEND:")) || has_prefix(&t, &str_chars("DONE:"))
        || has_prefix(&t, &str_chars("FAIL:")) || has_prefix(&t, &str_chars("HEARTBEAT:"))
        || has_prefix(&t, &str_chars("PROMPT:"))
}

/// An action line split at its first colon into the action and the trimmed detail.
pub open spec fn split_action_spec(l: Seq<char>) -> (Seq<char>, Seq<char>) {
    let t = trim_start(l);
    match spec_find(t, seq![':']) {
        Some(c) => (t.take(c), trim(t.skip(c + 1))),
        None => (t, seq![]),
    }
}

/// Splits an action line into its action name and detail.
pub fn split_action(l: &[char]) -> (r: (Vec<char>, Vec<char>))
    ensures
        (r.0@, r.1@) == split_action_spec(l@),
{
    let t = trim_start_ws(l);
    match find_char(&t, ':') {
        Some(c) => {
            proof {
                lemma_find(t@, seq![':']);
            }
            let a = slice_chars(&t, 0, c);
            let tl = t.len();
            assert(c + 1 <= tl);
            let d = slice_chars(&t, c + 1, tl);
            (a, trim_ws(&d))
        },
        None => {
            let e: Vec<char> = Vec::new();
            (t, e)
        },
    }
}

// ───────────────────────── file hints ─────────────────────────

/// File extensions that mark a word as a path.
pub open spec fn known_ext(e: Seq<char>) -> bool {
    ||| e == "rs"@
    ||| e == "py"@
    ||| e == "sh"@
    ||| e == "js"@
    ||| e == "ts"@
    ||| e == "c"@
    ||| e == "h"@
    ||| e == "md"@
    ||| e == "toml"@
    ||| e == "yaml"@
    ||| e == "yml"@
    ||| e == "json"@
    ||| e == "txt"@
    ||| e == "cfg"@
    ||| e == "conf"@
    ||| e == "html"@
    ||| e == "css"@
    ||| e == "go"@
    ||| e == "rb"@
    ||| e == "java"@
    ||| e == "idx"@
    ||| e == "key"@
    ||| e == "lock"@
}

/// The text after the last `.` (all of `s` when there is none).
pub open spec fn ext_of(s: Seq<char>) -> Seq<char> {
    match spec_rfind(s, seq!['.']) {
        Some(i) => s.skip(i + 1),
        None => s,
    }
}

/// A word looks like a file path: at least three bytes, and a path separator or a known
/// extension.
pub open spec fn looks_like_path_spec(s: Seq<char>) -> bool {
    &&& utf8_len(s) >= 3
    &&& {
        ||| contains_seq(s, seq!['/'])
        ||| contains_seq(s, seq!['\\'])
        ||| (contains_seq(s, seq!['.']) && known_ext(ext_of(s)))
    }
}

fn is_known_ext(e: &[char]) -> (r: bool)
    ensures
        r == known_ext(e@),
{
    chars_eq(e, &str_chars("rs")) || chars_eq(e, &str_chars("py")) || chars_eq(
        e,
        &str_chars("sh"),
    ) || chars_eq(e, &str_chars("js")) || chars_eq(e, &str_chars("ts")) || chars_eq(
        e,
        &str_chars("c"),
    ) || chars_eq(e, &str_chars("h")) || chars_eq(e, &str_chars("md")) || chars_eq(
        e,
        &str_chars("toml"),
    ) || chars_eq(e, &str_chars("yaml")) || chars_eq(e, &str_chars("yml")) || chars_eq(
        e,
        &str_chars("json"),
    ) || chars_eq(e, &str_chars("txt")) || chars_eq(e, &str_chars("cfg")) || chars_eq(
        e,
        &str_chars("conf"),
    ) || chars_eq(e, &str_chars("html")) || chars_eq(e, &str_chars("css")) || chars_eq(
        e,
        &str_chars("go"),
    ) || chars_eq(e, &str_chars("rb")) || chars_eq(e, &str_chars("java")) || chars_eq(
        e,
        &str_chars("idx"),
    ) || chars_eq(e, &str_chars("key")) || chars_eq(e, &str_chars("lock"))
}

/// Whether a word looks like a file path.
pub fn looks_like_path(s: &[char]) -> (r: bool)
    ensures
        r == looks_like_path_spec(s@),
{
    if byte_len(s) < 3 {
        return false;
    }
    let slash = vec!['/'];
    let back = vec!['\\'];
    let dot = vec!['.'];
    assert(slash@ == seq!['/'] && back@ == seq!['\\'] && dot@ == seq!['.']);
    if contains(s, &slash) || contains(s, &back) {
        return true;
    }
    if !contains(s, &dot) {
        return false;
    }
    let ext = match rfind(s, &dot) {
        Some(i) => {
            proof {
                crate::text::lemma_rfind_from(s@, seq!['.'], s@.len() - 1);
            }
            let sl = s.len();
            assert(i + 1 <= sl);
            slice_chars(s, i + 1, sl)
        },
        None => slice_chars(s, 0, s.len()),
    };
    proof {
        assert(s@.subrange(0, s@.len() as int) == s@);
    }
    is_known_ext(&ext)
}

/// Characters stripped from both ends of a word before it is tested as a path.
pub open spec fn junk_chars() -> Seq<char> {
    seq!['`', '*', '"', '\'', ':', ',']
}

/// A word without surrounding quotes, emphasis and punctuation.
pub open spec fn clean_word(w: Seq<char>) -> Seq<char> {
    trim_end_in(trim_start_in(w, junk_chars()), junk_chars())
}

/// The first cleaned word that looks like a path.
pub open spec fn path_word(ws: Seq<Seq<char>>) -> Option<Seq<char>>
    decreases ws.len(),
{
    if ws.len() == 0 {
        None
    } else if looks_like_path_spec(clean_word(ws[0])) {
        Some(clean_word(ws[0]))
    } else {
        path_word(ws.drop_first())
    }
}

/// The text between the first `mark` and the next `mark` after it.
pub open spec fn delimited(l: Seq<char>, mark: Seq<char>) -> Option<Seq<char>> {
    match spec_find(l, mark) {
        None => None,
        Some(st) => {
            let rest = l.skip(st + mark.len());
            match spec_find(rest, mark) {
                None => None,
                Some(e) => Some(rest.take(e)),
            }
        },
    }
}

/// The lower-cased line mentions editing, writing, updating, modifying, changing,
/// creating or adding, or reads "in `", "file:" or ends with a colon.
pub open spec fn has_file_context(lower: Seq<char>) -> bool {
    ||| contains_seq(lower, "edit"@)
    ||| contains_seq(lower, "writ"@)
    ||| contains_seq(lower, "updat"@)
    ||| contains_seq(lower, "modif"@)
    ||| contains_seq(lower, "chang"@)
    ||| contains_seq(lower, "creat"@)
    ||| contains_seq(lower, "add"@)
    ||| contains_seq(lower, "in `"@)
    ||| contains_seq(lower, "file:"@)
    ||| ends_with(lower, seq![':'])
}

/// The file a code fence refers to, read from the last line of the text before it: a
/// path in backticks, else in `**`, else the first path-like word; only when that line
/// speaks of a file. (The line is lower-cased ASCII-only for the keyword test: no other
/// lower-case mapping can produce or break these ASCII keywords.)
pub open spec fn file_hint_spec(buf: Seq<char>) -> Option<Seq<char>> {
    let ls = lines(trim_end(buf));
    if ls.len() == 0 {
        None
    } else {
        let last = ls.last();
        if !has_file_context(ascii_lower(last)) {
            None
        } else {
            let d1 = delimited(last, seq!['`']);
            let d2 = delimited(last, "**"@);
            if d1 is Some && looks_like_path_spec(d1->0) {
                d1
            } else if d2 is Some && looks_like_path_spec(d2->0) {
                d2
            } else {
                path_word(words(last))
            }
        }
    }
}

fn delimited_exec(l: &[char], mark: &[char]) -> (r: Option<Vec<char>>)
    ensures
        match r {
            Some(v) => delimited(l@, mark@) == Some(v@),
            None => delimited(l@, mark@) is None,
        },
{
    let st = match find(l, mark) {
        Some(st) => st,
        None => return None,
    };
    proof {
        lemma_find(l@, mark@);
    }
    let ml = mark.len();
    let ll = l.len();
    assert(st + ml <= ll);
    let rest = slice_chars(l, st + ml, ll);
    match find(&rest, mark) {
        Some(e) => {
            proof {
                lemma_find(rest@, mark@);
            }
            Some(slice_chars(&rest, 0, e))
        },
        None => None,
    }
}

fn has_file_context_exec(lower: &[char]) -> (r: bool)
    ensures
        r == has_file_context(lower@),
{
    let colon = vec![':'];
    assert(colon@ == seq![':']);
    contains(lower, &str_chars("edit")) || contains(lower, &str_chars("writ")) || contains(
        lower,
        &str_chars("updat"),
    ) || contains(lower, &str_chars("modif")) || contains(lower, &str_chars("chang")) || contains(
        lower,
        &str_chars("creat"),
    ) || contains(lower, &str_chars("add")) || contains(lower, &str_chars("in `")) || contains(
        lower,
        &str_chars("file:"),
    ) || has_suffix(lower, &colon)
}

fn junk_vec() -> (r: Vec<char>)
    ensures
        r@ == junk_chars(),
{
    let r = vec!['`', '*', '"', '\'', ':', ','];
    assert(r@ == junk_chars());
    r
}

/// The file a code fence refers to, from the text before the fence.
pub fn extract_file_hint(buf: &[char]) -> (r: Option<Vec<char>>)
    ensures
        match r {
            Some(v) => file_hint_spec(buf@) == Some(v@),
            None => file_hint_spec(buf@) is None,
        },
{
    let ls = split_lines(&trim_end_ws(buf));
    if ls.len() == 0 {
        return None;
    }
    let last = &ls[ls.len() - 1];
    assert(views(ls@).last() == last@);
    if !has_file_context_exec(&to_ascii_lower(last)) {
        return None;
    }
    let tick = vec!['`'];
    assert(tick@ == seq!['`']);
    match delimited_exec(last, &tick) {
        Some(p) => {
            if looks_like_path(&p) {
                return Some(p);
            }
        },
        None => {},
    }
    match delimited_exec(last, &str_chars("**")) {
        Some(p) => {
            if looks_like_path(&p) {
                return Some(p);
            }
        },
        None => {},
    }
    let ws = split_words(last);
    let junk = junk_vec();
    let mut i: usize = 0;
    assert(views(ws@).skip(0) == views(ws@));
    assert(file_hint_spec(buf@) == path_word(words(last@)));
    while i < ws.len()
        invariant
            0 <= i <= ws@.len(),
            file_hint_spec(buf@) == path_word(words(last@)),
            junk@ == junk_chars(),
            path_word(words(last@)) == path_word(views(ws@).skip(i as int)),
            views(ws@) == words(last@),
        decreases ws.len() - i,
    {
        assert(views(ws@).skip(i as int)[0] == ws@[i as int]@);
        assert(views(ws@).skip(i as int).drop_first() == views(ws@).skip(i + 1));
        let c = trim_end_set(&trim_start_set(&ws[i], &junk), &junk);
        if looks_like_path(&c) {
            return Some(c);
        }
        i += 1;
    }
    None
}


// ───────────────────────── code blocks ─────────────────────────

/// The fence language, `text` when none is given.
pub open spec fn effective_lang(lang: Seq<char>) -> Seq<char> {
    if lang.len() == 0 {
        "text"@
    } else {
        lang
    }
}

/// Languages whose fences hold shell commands.
pub open spec fn is_command_lang(e: Seq<char>) -> bool {
    ||| e == "bash"@
    ||| e == "sh"@
    ||| e == "shell"@
    ||| e == "zsh"@
    ||| e == "console"@
    ||| e == "terminal"@
}

/// A line that starts with a shell prompt (`$ `, `# ` or `% `).
pub open spec fn cmd_prefixed(l: Seq<char>) -> bool {
    starts_with(l, "$ "@) || starts_with(l, "# "@) || starts_with(l, "% "@)
}

pub open spec fn prompt_chars() -> Seq<char> {
    seq!['$', '#', '%']
}

/// `s` followed by `\n` unless it is empty.
pub open spec fn sep_nl(s: Seq<char>) -> Seq<char> {
    if s.len() > 0 {
        s.push('\n')
    } else {
        s
    }
}

/// Reading a command fence line by line: command text, output text, and whether the
/// output has begun. Prompted lines before the output are commands; in a shell fence an
/// unprompted first line is the command; everything else is output.
pub open spec fn cmd_state(ls: Seq<Seq<char>>, cmd_lang: bool) -> (Seq<char>, Seq<char>, bool)
    decreases ls.len(),
{
    if ls.len() == 0 {
        (seq![], seq![], false)
    } else {
        let (cmd, out, past) = cmd_state(ls.drop_last(), cmd_lang);
        let l = ls.last();
        if !past && cmd_prefixed(l) {
            (sep_nl(cmd) + trim(trim_start_in(l, prompt_chars())), out, past)
        } else if !past && cmd.len() == 0 && cmd_lang {
            (cmd + l, out, past)
        } else {
            (cmd, sep_nl(out) + l, true)
        }
    }
}

/// A prompted line's command: the prompt characters stripped from its start, then
/// trimmed.
pub open spec fn prompted_command(l: Seq<char>) -> Seq<char> {
    trim(trim_start_in(l, prompt_chars()))
}

/// The fence opens with `k` prompted lines, each naming a command, and the line after
/// them (if any) is not prompted.
pub open spec fn prompted_lead(ls: Seq<Seq<char>>, k: int) -> bool {
    &&& 1 <= k <= ls.len()
    &&& forall|i: int| 0 <= i < k ==> cmd_prefixed(#[trigger] ls[i]) && prompted_command(ls[i]).len() > 0
    &&& k < ls.len() ==> !cmd_prefixed(ls[k])
}

proof fn lemma_cmd_state_lead(ls: Seq<Seq<char>>, cmd_lang: bool, k: int, j: int)
    requires
        prompted_lead(ls, k),
        0 <= j <= ls.len(),
    ensures
        j <= k ==> cmd_state(ls.take(j), cmd_lang).0 == join_lines(Seq::new(j as nat, |i: int| prompted_command(ls[i])))
            && !cmd_state(ls.take(j), cmd_lang).2,
        j > k ==> cmd_state(ls.take(j), cmd_lang).0 == join_lines(Seq::new(k as nat, |i: int| prompted_command(ls[i])))
            && cmd_state(ls.take(j), cmd_lang).2,
    decreases j,
{
    if j > 0 {
        lemma_cmd_state_lead(ls, cmd_lang, k, j - 1);
        let t = ls.take(j);
        assert(t.drop_last() =~= ls.take(j - 1));
        assert(t.last() == ls[j - 1]);
        let (cmd, out, past) = cmd_state(ls.take(j - 1), cmd_lang);
        if j <= k {
            let cs = Seq::new(j as nat, |i: int| prompted_command(ls[i]));
            let cs0 = Seq::new((j - 1) as nat, |i: int| prompted_command(ls[i]));
            assert(cs.drop_last() =~= cs0);
            assert(cmd_prefixed(ls[j - 1]) && prompted_command(ls[j - 1]).len() > 0);
            if j == 1 {
                assert(cmd == join_lines(cs0));
                assert(cs0.len() == 0);
                assert(sep_nl(cmd) =~= Seq::<char>::empty());
                assert(sep_nl(cmd) + prompted_command(ls[0]) =~= prompted_command(ls[0]));
                assert(join_lines(cs) == cs[0]);
            } else {
                lemma_join_lines_nonempty(cs0);
                assert(sep_nl(cmd) =~= cmd.push('\n'));
                assert(join_lines(cs) == join_lines(cs0) + seq!['\n'] + cs.last());
                assert(cmd.push('\n') + prompted_command(ls[j - 1]) =~= join_lines(cs0) + seq!['\n'] + cs.last());
            }
        } else {
            let cs = Seq::new(k as nat, |i: int| prompted_command(ls[i]));
            lemma_join_lines_nonempty(cs);
            if j == k + 1 {
                assert(!cmd_prefixed(ls[k]));
            }
        }
    } else {
        assert(ls.take(0) =~= Seq::<Seq<char>>::empty());
        assert(Seq::new(0, |i: int| prompted_command(ls[i])) =~= Seq::<Seq<char>>::empty());
    }
}

proof fn lemma_join_lines_nonempty(cs: Seq<Seq<char>>)
    requires
        cs.len() > 0,
        forall|i: int| 0 <= i < cs.len() ==> (#[trigger] cs[i]).len() > 0,
    ensures
        join_lines(cs).len() > 0,
    decreases cs.len(),
{
    if cs.len() > 1 {
        lemma_join_lines_nonempty(cs.drop_last());
    }
}

/// A fence that opens with prompted lines is a command whose lines are exactly those
/// lines' commands, in order (prompt stripped, trimmed); what follows is output.
pub proof fn lemma_prompted_commands(lang: Seq<char>, ls: Seq<Seq<char>>, hint: Option<Seq<char>>, k: int)
    requires
        prompted_lead(ls, k),
    ensures
        classify_spec(lang, ls, hint) matches BlockModel::Command { cmd, .. } && cmd == join_lines(
            Seq::new(k as nat, |i: int| prompted_command(ls[i])),
        ),
{
    let cmd_lang = is_command_lang(effective_lang(lang));
    lemma_cmd_state_lead(ls, cmd_lang, k, ls.len() as int);
    assert(ls.take(ls.len() as int) =~= ls);
    let cs = Seq::new(k as nat, |i: int| prompted_command(ls[i]));
    assert(forall|i: int| 0 <= i < cs.len() ==> (#[trigger] cs[i]).len() > 0);
    lemma_join_lines_nonempty(cs);
    assert(cmd_prefixed(ls[0]));
}

/// A line that reads like part of a diff.
pub open spec fn diffish(l: Seq<char>) -> bool {
    starts_with(l, seq!['+']) || starts_with(l, seq!['-']) || starts_with(l, seq![' '])
        || starts_with(l, "@@"@)
}

/// Number of diff-like lines.
pub open spec fn count_diffish(ls: Seq<Seq<char>>) -> nat
    decreases ls.len(),
{
    if ls.len() == 0 {
        0
    } else {
        count_diffish(ls.drop_last()) + if diffish(ls.last()) {
            1nat
        } else {
            0nat
        }
    }
}

/// Some line starts with `+` or `-`.
pub open spec fn any_diff_marker(ls: Seq<Seq<char>>) -> bool
    decreases ls.len(),
{
    if ls.len() == 0 {
        false
    } else {
        any_diff_marker(ls.drop_last()) || starts_with(ls.last(), seq!['+']) || starts_with(
            ls.last(),
            seq!['-'],
        )
    }
}

/// Diff-like lines make up more than 30% of the fence.
pub open spec fn mostly_diff(ls: Seq<Seq<char>>) -> bool {
    ls.len() > 0 && 10 * count_diffish(ls) > 3 * ls.len()
}

/// One fence line as a diff line.
pub open spec fn diff_of(l: Seq<char>) -> DiffModel {
    if starts_with(l, seq!['+']) {
        DiffModel::Added(l.drop_first())
    } else if starts_with(l, seq!['-']) {
        DiffModel::Removed(l.drop_first())
    } else if starts_with(l, "@@"@) {
        DiffModel::Context(l)
    } else {
        DiffModel::Context(trim_start_in(l, seq![' ']))
    }
}

/// Every fence line as a diff line.
pub open spec fn diff_all(ls: Seq<Seq<char>>) -> Seq<DiffModel> {
    ls.map_values(|l: Seq<char>| diff_of(l))
}

/// Every fence line as an unchanged line.
pub open spec fn context_all(ls: Seq<Seq<char>>) -> Seq<DiffModel> {
    ls.map_values(|l: Seq<char>| DiffModel::Context(l))
}

/// What a fenced block shows: a command (shell language or prompted first line, with a
/// non-empty command), a file edit (diff markers with a file hint or mostly diff lines),
/// the hinted file's content, or plain code.
pub open spec fn classify_spec(lang: Seq<char>, ls: Seq<Seq<char>>, hint: Option<Seq<char>>) -> BlockModel {
    let eff = effective_lang(lang);
    let cmd_lang = is_command_lang(eff);
    let starts_cmd = ls.len() > 0 && cmd_prefixed(ls[0]);
    let (cmd, out, _past) = cmd_state(ls, cmd_lang);
    if (cmd_lang || starts_cmd) && cmd.len() > 0 {
        BlockModel::Command { cmd: cmd, output: out }
    } else if any_diff_marker(ls) && (hint is Some || mostly_diff(ls)) {
        BlockModel::FileEdit {
            path: match hint {
                Some(p) => p,
                None => seq![],
            },
            lang: eff,
            lines: diff_all(ls),
        }
    } else if hint is Some {
        BlockModel::FileEdit {
            path: hint->0,
            lang: eff,
            lines: context_all(ls),
        }
    } else {
        BlockModel::Code { lang: eff, content: join_lines(ls) }
    }
}

fn is_command_lang_exec(e: &[char]) -> (r: bool)
    ensures
        r == is_command_lang(e@),
{
    chars_eq(e, &str_chars("bash")) || chars_eq(e, &str_chars("sh")) || chars_eq(
        e,
        &str_chars("shell"),
    ) || chars_eq(e, &str_chars("zsh")) || chars_eq(e, &str_chars("console")) || chars_eq(
        e,
        &str_chars("terminal"),
    )
}

fn cmd_prefixed_exec(l: &[char]) -> (r: bool)
    ensures
        r == cmd_prefixed(l@),
{
    has_prefix(l, &str_chars("$ ")) || has_prefix(l, &str_chars("# ")) || has_prefix(
        l,
        &str_chars("% "),
    )
}

fn diffish_exec(l: &[char]) -> (r: bool)
    ensures
        r == diffish(l@),
{
    let plus = vec!['+'];
    let minus = vec!['-'];
    let space = vec![' '];
    assert(plus@ == seq!['+'] && minus@ == seq!['-'] && space@ == seq![' ']);
    has_prefix(l, &plus) || has_prefix(l, &minus) || has_prefix(l, &space) || has_prefix(
        l,
        &str_chars("@@"),
    )
}

fn diff_of_exec(l: &[char]) -> (r: DiffLine)
    ensures
        r@ == diff_of(l@),
{
    let plus = vec!['+'];
    let minus = vec!['-'];
    let space = vec![' '];
    assert(plus@ == seq!['+'] && minus@ == seq!['-'] && space@ == seq![' ']);
    if has_prefix(l, &plus) {
        DiffLine::Added(chars_string(&slice_chars(l, 1, l.len())))
    } else if has_prefix(l, &minus) {
        DiffLine::Removed(chars_string(&slice_chars(l, 1, l.len())))
    } else if has_prefix(l, &str_chars("@@")) {
        DiffLine::Context(chars_string(l))
    } else {
        DiffLine::Context(chars_string(&trim_start_set(l, &space)))
    }
}

/// Classifies a fenced block as a command, a file edit, or plain code.
pub fn classify_code_block(lang: &[char], code_lines: &[Vec<char>], file_hint: Option<Vec<char>>) -> (r:
    RichBlock)
    ensures
        r@ == classify_spec(
            lang@,
            views(code_lines@),
            match file_hint {
                Some(h) => Some(h@),
                None => None,
            },
        ),
{
    let ghost ls = views(code_lines@);
    let eff: Vec<char> = if lang.len() == 0 {
        str_chars("text")
    } else {
        slice_chars(lang, 0, lang.len())
    };
    assert(lang@.subrange(0, lang@.len() as int) == lang@);
    let cmd_lang = is_command_lang_exec(&eff);
    let starts_cmd = code_lines.len() > 0 && cmd_prefixed_exec(&code_lines[0]);
    assert(code_lines@.len() > 0 ==> ls[0] == code_lines@[0]@);
    // command reading
    let prompts = vec!['$', '#', '%'];
    assert(prompts@ == prompt_chars());
    let mut cmd: Vec<char> = Vec::new();
    let mut output: Vec<char> = Vec::new();
    let mut past = false;
    for i in 0..code_lines.len()
        invariant
            ls == views(code_lines@),
            prompts@ == prompt_chars(),
            (cmd@, output@, past) == cmd_state(ls.take(i as int), cmd_lang),
    {
        assert(ls.take(i + 1).drop_last() == ls.take(i as int));
        assert(ls.take(i + 1).last() == code_lines@[i as int]@);
        let line = &code_lines[i];
        if !past && cmd_prefixed_exec(line) {
            if cmd.len() > 0 {
                cmd.push('\n');
            }
            let t = trim_ws(&trim_start_set(line, &prompts));
            push_all(&mut cmd, &t);
        } else if !past && cmd.len() == 0 && cmd_lang {
            push_all(&mut cmd, line);
        } else {
            past = true;
            if output.len() > 0 {
                output.push('\n');
            }
            push_all(&mut output, line);
        }
    }
    assert(ls.take(code_lines@.len() as int) == ls);
    if (cmd_lang || starts_cmd) && cmd.len() > 0 {
        return RichBlock::Command { cmd: chars_string(&cmd), output: chars_string(&output) };
    }
    // diff detection

    let mut count: usize = 0;
    let mut marker = false;
    for i in 0..code_lines.len()
        invariant
            ls == views(code_lines@),
            count == count_diffish(ls.take(i as int)),
            count <= i,
            marker == any_diff_marker(ls.take(i as int)),
    {
        assert(ls.take(i + 1).drop_last() == ls.take(i as int));
        assert(ls.take(i + 1).last() == code_lines@[i as int]@);
        let line = &code_lines[i];
        if diffish_exec(line) {
            count += 1;
        }
        let plus = vec!['+'];
        let minus = vec!['-'];
        assert(plus@ == seq!['+'] && minus@ == seq!['-']);
        marker = marker || has_prefix(line, &plus) || has_prefix(line, &minus);
    }
    let n = code_lines.len();
    let mostly = n > 0 && (count as u128) * 10 > (n as u128) * 3;
    let eff_s = chars_string(&eff);
    if marker && (file_hint.is_some() || mostly) {
        let mut dl: Vec<DiffLine> = Vec::new();
        for i in 0..code_lines.len()
            invariant
                ls == views(code_lines@),
                diff_views(dl@) == diff_all(ls.take(i as int)),
                dl@.len() == i,
        {
            let d = diff_of_exec(&code_lines[i]);
            assert(ls.take(i + 1)[i as int] == code_lines@[i as int]@);
            assert(forall|k: int| 0 <= k < i ==> ls.take(i + 1)[k] == ls.take(i as int)[k]);
            assert forall|k: int| 0 <= k < i + 1 implies #[trigger] diff_views(dl@.push(d))[k]
                == diff_all(ls.take(i + 1))[k] by {
                if k < i {
                    assert(dl@.push(d)[k] == dl@[k]);
                    assert(diff_views(dl@)[k] == diff_all(ls.take(i as int))[k]);
                } else {
                    assert(dl@.push(d)[k] == d);
                }
            }
            assert(diff_views(dl@.push(d)) =~= diff_all(ls.take(i + 1)));
            dl.push(d);
        }
        assert(ls.take(code_lines@.len() as int) == ls);
        let path = match file_hint {
            Some(h) => chars_string(&h),
            None => String::new(),
        };
        return RichBlock::FileEdit { path: path, lang: eff_s, lines: dl };
    }
    match file_hint {
        Some(h) => {
            let mut dl: Vec<DiffLine> = Vec::new();
            for i in 0..code_lines.len()
                invariant
                    ls == views(code_lines@),
                    diff_views(dl@) == context_all(ls.take(i as int)),
                    dl@.len() == i,
            {
                let d = DiffLine::Context(chars_string(&code_lines[i]));
                assert(ls.take(i + 1)[i as int] == code_lines@[i as int]@);
                assert(forall|k: int| 0 <= k < i ==> ls.take(i + 1)[k] == ls.take(i as int)[k]);
                assert forall|k: int| 0 <= k < i + 1 implies #[trigger] diff_views(
                    dl@.push(d),
                )[k] == context_all(ls.take(i + 1))[k] by {
                    if k < i {
                        assert(dl@.push(d)[k] == dl@[k]);
                        assert(diff_views(dl@)[k] == context_all(ls.take(i as int))[k]);
                    } else {
                        assert(dl@.push(d)[k] == d);
                    }
                }
                assert(diff_views(dl@.push(d)) =~= context_all(ls.take(i + 1)));
                dl.push(d);
            }
            assert(ls.take(code_lines@.len() as int) == ls);
            RichBlock::FileEdit { path: chars_string(&h), lang: eff_s, lines: dl }
        },
        None => {
            let content = join_with_newlines(code_lines);
            RichBlock::Code { lang: eff_s, content: chars_string(&content) }
        },
    }
}


// ───────────────────────── SHOW: directives ─────────────────────────

/// Options of a `SHOW:` line: type, language, chart labels, chart data.
pub open spec fn show_opts(ts: Seq<Seq<char>>) -> (Seq<char>, Seq<char>, Seq<char>, Seq<char>)
    decreases ts.len(),
{
    if ts.len() == 0 {
        (seq![], "text"@, seq![], seq![])
    } else {
        let (ty, lang, labels, data) = show_opts(ts.drop_last());
        let t = ts.last();
        if starts_with(t, "type="@) {
            (t.skip(5), lang, labels, data)
        } else if starts_with(t, "lang="@) {
            (ty, t.skip(5), labels, data)
        } else if starts_with(t, "labels="@) {
            (ty, lang, t.skip(7), data)
        } else if starts_with(t, "data="@) {
            (ty, lang, labels, t.skip(5))
        } else {
            (ty, lang, labels, data)
        }
    }
}

/// The comma-separated items of `s`, each trimmed.
pub open spec fn trimmed_items(s: Seq<char>) -> Seq<Seq<char>> {
    split(s, ',').map_values(|x: Seq<char>| trim(x))
}

/// The table rows of a `SHOW: type=table` body (rows separated by a literal `\n`).
pub open spec fn table_rows(rs: Seq<Seq<char>>) -> Seq<Seq<Seq<char>>> {
    rs.map_values(|r: Seq<char>| trimmed_items(r))
}

/// The parameters and body of a `SHOW:` line: split at the first `|`, both trimmed.
pub open spec fn show_parts(after: Seq<char>) -> (Seq<char>, Seq<char>) {
    match spec_find(after, seq!['|']) {
        Some(i) => (trim(after.take(i)), trim(after.skip(i + 1))),
        None => (trim(after), seq![]),
    }
}

/// The block a `SHOW:` line asks for: code, a diagram, a table, a chart, or, for any
/// other type, a text line naming it.
pub open spec fn show_spec(l: Seq<char>) -> Option<BlockModel> {
    if !starts_with(l, "SHOW:"@) {
        None
    } else {
        let (params, content) = show_parts(trim_start(l.skip(5)));
        let (ty, lang, labels, data) = show_opts(words(params));
        if ty == "code"@ {
            Some(BlockModel::Code { lang: lang, content: replace_spec(content, "\\n"@, "\n"@) })
        } else if ty == "diagram"@ {
            Some(BlockModel::Diagram(replace_spec(content, "\\n"@, "\n"@)))
        } else if ty == "table"@ {
            let rs = split_str(content, "\\n"@);
            Some(
                BlockModel::Table {
                    headers: trimmed_items(rs[0]),
                    rows: table_rows(rs.drop_first()),
                },
            )
        } else if ty == "chart"@ {
            Some(
                BlockModel::Chart {
                    title: content,
                    labels: trimmed_items(labels),
                    data: trimmed_items(data),
                },
            )
        } else {
            Some(BlockModel::Text("[SHOW:"@ + ty + "] "@ + content))
        }
    }
}

fn trimmed_items_exec(s: &[char]) -> (r: Vec<String>)
    ensures
        str_views(r@) == trimmed_items(s@),
{
    let parts = split_char(s, ',');
    let ghost ps = views(parts@);
    let mut out: Vec<String> = Vec::new();
    for i in 0..parts.len()
        invariant
            ps == views(parts@),
            ps == split(s@, ','),
            out@.len() == i,
            str_views(out@) == ps.take(i as int).map_values(|x: Seq<char>| trim(x)),
    {
        let t = chars_string(&trim_ws(&parts[i]));
        proof {
            lemma_str_views_push(out@, t);
            assert(ps[i as int] == parts@[i as int]@);
            assert(ps.take(i + 1).map_values(|x: Seq<char>| trim(x)) =~= ps.take(
                i as int,
            ).map_values(|x: Seq<char>| trim(x)).push(trim(ps[i as int])));
        }
        out.push(t);
    }
    assert(ps.take(parts@.len() as int) == ps);
    out
}

/// Copies `t[5..]` style suffixes.
fn suffix_from(t: &[char], k: usize) -> (r: Vec<char>)
    requires
        k <= t@.len(),
    ensures
        r@ == t@.skip(k as int),
{
    slice_chars(t, k, t.len())
}

/// Parses a `SHOW:` directive line.
pub fn parse_show_line(l: &[char]) -> (r: Option<RichBlock>)
    ensures
        match r {
            Some(b) => show_spec(l@) == Some(b@),
            None => show_spec(l@) is None,
        },
{
    proof {
        reveal_strlit("SHOW:");
        reveal_strlit("type=");
        reveal_strlit("lang=");
        reveal_strlit("labels=");
        reveal_strlit("data=");
    }
    if !has_prefix(l, &str_chars("SHOW:")) {
        return None;
    }
    let after = trim_start_ws(&slice_chars(l, 5, l.len()));
    let (params, content) = match find_char(&after, '|') {
        Some(i) => {
            proof {
                lemma_find(after@, seq!['|']);
            }
            let al = after.len();
            assert(i + 1 <= al);
            (trim_ws(&slice_chars(&after, 0, i)), trim_ws(&slice_chars(&after, i + 1, al)))
        },
        None => {
            let e: Vec<char> = Vec::new();
            (trim_ws(&after), e)
        },
    };
    assert((params@, content@) == show_parts(trim_start(l@.skip(5))));
    let toks = split_words(&params);
    let ghost ts = views(toks@);
    let mut ty: Vec<char> = Vec::new();
    let mut lang: Vec<char> = str_chars("text");
    let mut labels: Vec<char> = Vec::new();
    let mut data: Vec<char> = Vec::new();
    for i in 0..toks.len()
        invariant
            ts == views(toks@),
            ts == words(params@),
            (ty@, lang@, labels@, data@) == show_opts(ts.take(i as int)),
            "type="@.len() == 5,
            "lang="@.len() == 5,
            "labels="@.len() == 7,
            "data="@.len() == 5,
    {
        assert(ts.take(i + 1).drop_last() == ts.take(i as int));
        assert(ts.take(i + 1).last() == toks@[i as int]@);
        let t = &toks[i];
        if has_prefix(t, &str_chars("type=")) {
            ty = suffix_from(t, 5);
        } else if has_prefix(t, &str_chars("lang=")) {
            lang = suffix_from(t, 5);
        } else if has_prefix(t, &str_chars("labels=")) {
            labels = suffix_from(t, 7);
        } else if has_prefix(t, &str_chars("data=")) {
            data = suffix_from(t, 5);
        }
    }
    assert(ts.take(toks@.len() as int) == ts);
    let esc = str_chars("\\n");
    let nl = str_chars("\n");
    proof {
        reveal_strlit("\\n");
    }
    if chars_eq(&ty, &str_chars("code")) {
        let c = replace_all(&content, &esc, &nl);
        Some(RichBlock::Code { lang: chars_string(&lang), content: chars_string(&c) })
    } else if chars_eq(&ty, &str_chars("diagram")) {
        let c = replace_all(&content, &esc, &nl);
        Some(RichBlock::Diagram(chars_string(&c)))
    } else if chars_eq(&ty, &str_chars("table")) {
        let rs = split_at_str(&content, &esc);
        let ghost rv = views(rs@);
        proof {
            lemma_split_str_nonempty(content@, esc@);
        }
        assert(rv[0] == rs@[0]@);
        let headers = trimmed_items_exec(&rs[0]);
        let mut rows: Vec<Vec<String>> = Vec::new();
        let mut k: usize = 1;
        while k < rs.len()
            invariant
                rv == views(rs@),
                1 <= k <= rs@.len(),
                rows@.len() == k - 1,
                crate::stream::row_views(rows@) == table_rows(rv.drop_first().take(k - 1)),
            decreases rs.len() - k,
        {
            let row = trimmed_items_exec(&rs[k]);
            proof {
                assert(rv[k as int] == rs@[k as int]@);
                assert forall|m: int| 0 <= m < k implies #[trigger] crate::stream::row_views(
                    rows@.push(row),
                )[m] == table_rows(rv.drop_first().take(k as int))[m] by {
                    if m < k - 1 {
                        assert(rows@.push(row)[m] == rows@[m]);
                        assert(crate::stream::row_views(rows@)[m] == table_rows(
                            rv.drop_first().take(k - 1),
                        )[m]);
                    } else {
                        assert(rows@.push(row)[m] == row);
                    }
                }
                assert(crate::stream::row_views(rows@.push(row)) =~= table_rows(
                    rv.drop_first().take(k as int),
                ));
            }
            rows.push(row);
            k += 1;
        }
        assert(rv.drop_first().take(rs@.len() - 1) == rv.drop_first());
        Some(RichBlock::Table { headers: headers, rows: rows })
    } else if chars_eq(&ty, &str_chars("chart")) {
        Some(
            RichBlock::Chart {
                title: chars_string(&content),
                labels: trimmed_items_exec(&labels),
                data: trimmed_items_exec(&data),
            },
        )
    } else {
        let mut t = str_chars("[SHOW:");
        push_all(&mut t, &ty);
        push_all(&mut t, &str_chars("] "));
        push_all(&mut t, &content);
        Some(RichBlock::Text(chars_string(&t)))
    }
}

/// Splitting always yields at least one piece.
pub proof fn lemma_split_str_nonempty(s: Seq<char>, sep: Seq<char>)
    ensures
        split_str(s, sep).len() >= 1,
    decreases s.len(),
{
    if sep.len() > 0 {
        match spec_find(s, sep) {
            Some(i) => {
                lemma_find(s, sep);
                lemma_split_str_nonempty(s.skip(i + sep.len()), sep);
            },
            None => {},
        }
    }
}


// ───────────────────────── whole messages ─────────────────────────

/// An open code fence: language, file hint, lines read so far.
pub type FenceModel = (Seq<char>, Option<Seq<char>>, Seq<Seq<char>>);

/// Blocks so far, pending text, and the open fence if any.
pub type ParseModel = (Seq<BlockModel>, Seq<char>, Option<FenceModel>);

/// Pending text, if any, becomes a text block (trailing whitespace removed).
pub open spec fn flush_text(b: Seq<BlockModel>, t: Seq<char>) -> Seq<BlockModel> {
    if t.len() > 0 {
        b.push(BlockModel::Text(trim_end(t)))
    } else {
        b
    }
}

/// Pending text before a fence: when a file hint was found, its last line (the hint) is
/// dropped and the rest kept unless blank; otherwise it all becomes a text block.
pub open spec fn fence_flush(b: Seq<BlockModel>, t: Seq<char>, hint: Option<Seq<char>>) -> Seq<
    BlockModel,
> {
    if t.len() == 0 {
        b
    } else if hint is Some {
        let tr = trim_end(t);
        match spec_rfind(tr, seq!['\n']) {
            Some(nl) => if trim(tr.take(nl)).len() > 0 {
                b.push(BlockModel::Text(tr.take(nl)))
            } else {
                b
            },
            None => b,
        }
    } else {
        b.push(BlockModel::Text(trim_end(t)))
    }
}

/// Reading one line of a message.
pub open spec fn parse_step(st: ParseModel, l: Seq<char>) -> ParseModel {
    let (b, t, code) = st;
    match code {
        Some(f) => if starts_with(l, "```"@) {
            (b.push(classify_spec(f.0, f.2, f.1)), t, None)
        } else {
            (b, t, Some((f.0, f.1, f.2.push(l))))
        },
        None => if is_action_line_spec(l) {
            let (a, d) = split_action_spec(l);
            (flush_text(b, t).push(BlockModel::ToolCall { action: a, detail: d }), seq![], None)
        } else if starts_with(l, "SHOW:"@) {
            let b2 = flush_text(b, t);
            (
                match show_spec(l) {
                    Some(x) => b2.push(x),
                    None => b2,
                },
                seq![],
                None,
            )
        } else if starts_with(l, "```"@) {
            let hint = file_hint_spec(t);
            (fence_flush(b, t, hint), seq![], Some((trim(trim_start_in(l, seq!['`'])), hint, seq![])))
        } else {
            (b, t + l + seq!['\n'], None)
        },
    }
}

/// Reading the lines `ls` in order.
pub open spec fn parse_fold(ls: Seq<Seq<char>>) -> ParseModel
    decreases ls.len(),
{
    if ls.len() == 0 {
        (seq![], seq![], None)
    } else {
        parse_step(parse_fold(ls.drop_last()), ls.last())
    }
}

/// The blocks of a message: its lines read in order, an unclosed fence closed at the
/// end, pending text flushed; a message that yields nothing is one text block.
pub open spec fn parse_blocks_spec(content: Seq<char>) -> Seq<BlockModel> {
    let (b, t, code) = parse_fold(lines(content));
    let b1 = match code {
        Some(f) => b.push(classify_spec(f.0, f.2, f.1)),
        None => b,
    };
    let b2 = flush_text(b1, t);
    if b2.len() == 0 {
        seq![BlockModel::Text(content)]
    } else {
        b2
    }
}

pub open spec fn opt_view(o: Option<Vec<char>>) -> Option<Seq<char>> {
    match o {
        Some(v) => Some(v@),
        None => None,
    }
}

fn flush_text_exec(blocks: &mut Vec<RichBlock>, text: &[char])
    ensures
        block_views(final(blocks)@) == flush_text(block_views(old(blocks)@), text@),
{
    if text.len() > 0 {
        let b = RichBlock::Text(chars_string(&trim_end_ws(text)));
        proof {
            lemma_block_views_push(blocks@, b);
        }
        blocks.push(b);
    }
}

fn fence_flush_exec(blocks: &mut Vec<RichBlock>, text: &[char], has_hint: bool)
    ensures
        block_views(final(blocks)@) == fence_flush(
            block_views(old(blocks)@),
            text@,
            if has_hint {
                Some(seq![])
            } else {
                None
            },
        ),
{
    if text.len() == 0 {
        return;
    }
    if has_hint {
        let tr = trim_end_ws(text);
        let nl = vec!['\n'];
        assert(nl@ == seq!['\n']);
        match rfind(&tr, &nl) {
            Some(i) => {
                proof {
                    crate::text::lemma_rfind_from(tr@, seq!['\n'], tr@.len() - 1);
                }
                let rem = slice_chars(&tr, 0, i);
                if trim_ws(&rem).len() > 0 {
                    let b = RichBlock::Text(chars_string(&rem));
                    proof {
                        lemma_block_views_push(blocks@, b);
                    }
                    blocks.push(b);
                }
            },
            None => {},
        }
    } else {
        let b = RichBlock::Text(chars_string(&trim_end_ws(text)));
        proof {
            lemma_block_views_push(blocks@, b);
        }
        blocks.push(b);
    }
}

/// Splits a message into rich blocks.
pub fn parse_blocks(content: &str) -> (r: Vec<RichBlock>)
    ensures
        block_views(r@) == parse_blocks_spec(content@),
{
    let c = str_chars(content);
    let ls = split_lines(&c);
    let ghost lv = views(ls@);
    let mut blocks: Vec<RichBlock> = Vec::new();
    let mut text: Vec<char> = Vec::new();
    let mut in_code = false;
    let mut lang: Vec<char> = Vec::new();
    let mut hint: Option<Vec<char>> = None;
    let mut code_lines: Vec<Vec<char>> = Vec::new();
    let fence = str_chars("```");
    let show = str_chars("SHOW:");
    let tick = vec!['`'];
    assert(tick@ == seq!['`']);
    assert(block_views(blocks@) =~= seq![]);
    assert(views(code_lines@) =~= seq![]);
    for i in 0..ls.len()
        invariant
            lv == views(ls@),
            lv == lines(content@),
            fence@ == "```"@,
            show@ == "SHOW:"@,
            tick@ == seq!['`'],
            parse_fold(lv.take(i as int)) == (
                block_views(blocks@),
                text@,
                if in_code {
                    Some((lang@, opt_view(hint), views(code_lines@)))
                } else {
                    None
                },
            ),
    {
        assert(lv.take(i + 1).drop_last() == lv.take(i as int));
        assert(lv.take(i + 1).last() == ls@[i as int]@);
        let l = &ls[i];
        if in_code {
            if has_prefix(l, &fence) {
                let h = hint;
                hint = None;
                let cl = code_lines;
                code_lines = Vec::new();
                assert(views(code_lines@) =~= seq![]);
                let b = classify_code_block(&lang, &cl, h);
                proof {
                    lemma_block_views_push(blocks@, b);
                }
                blocks.push(b);
                in_code = false;
            } else {
                let copy = slice_chars(l, 0, l.len());
                assert(l@.subrange(0, l@.len() as int) == l@);
                proof {
                    crate::text::lemma_views_push(code_lines@, copy);
                }
                code_lines.push(copy);
            }
        } else if is_action_line(l) {
            flush_text_exec(&mut blocks, &text);
            text = Vec::new();
            let (a, d) = split_action(l);
            let b = RichBlock::ToolCall { action: chars_string(&a), detail: chars_string(&d) };
            proof {
                lemma_block_views_push(blocks@, b);
            }
            blocks.push(b);
        } else if has_prefix(l, &show) {
            flush_text_exec(&mut blocks, &text);
            text = Vec::new();
            match parse_show_line(l) {
                Some(b) => {
                    proof {
                        lemma_block_views_push(blocks@, b);
                    }
                    blocks.push(b);
                },
                None => {},
            }
        } else if has_prefix(l, &fence) {
            let h = extract_file_hint(&text);
            fence_flush_exec(&mut blocks, &text, h.is_some());
            text = Vec::new();
            lang = trim_ws(&trim_start_set(l, &tick));
            hint = h;
            code_lines = Vec::new();
            assert(views(code_lines@) =~= seq![]);
            in_code = true;
        } else {
            push_all(&mut text, l);
            text.push('\n');
        }
    }
    assert(lv.take(ls@.len() as int) == lv);
    if in_code {
        let b = classify_code_block(&lang, &code_lines, hint);
        proof {
            lemma_block_views_push(blocks@, b);
        }
        blocks.push(b);
    }
    flush_text_exec(&mut blocks, &text);
    if blocks.len() == 0 {
        let b = RichBlock::Text(content.to_owned());
        proof {
            lemma_block_views_push(blocks@, b);
        }
        blocks.push(b);
    }
    blocks
}

} // verus!
