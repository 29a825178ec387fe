//! Character-level text primitives. Text is modelled as its sequence of
//! Unicode scalar values (`Seq<char>`, the view of `str` and `String`).
use vstd::prelude::*;

verus! {

// ───────────────────────── conversions ─────────────────────────

/// The characters of `s`, in order.
pub fn str_chars(s: &str) -> (v: Vec<char>)
    ensures
        v@ == s@,
{
    let mut v: Vec<char> = Vec::new();
    for c in it: s.chars()
        invariant
            v@ == it.seq().take(it.index() as int),
    {
        v.push(c);
    }
    v
}

/// Appends one character to a `String` (std's `String::push`).
#[verifier::external_body]
fn string_push(s: &mut String, c: char)
    ensures
        final(s)@ == old(s)@.push(c),
{
    s.push(c);
}

/// The string made of the characters of `v`.
pub fn chars_string(v: &[char]) -> (s: String)
    ensures
        s@ == v@,
{
    let mut s = String::new();
    for i in 0..v.len()
        invariant
            s@ == v@.take(i as int),
    {
        string_push(&mut s, v[i]);
        assert(v@.take(i + 1) == v@.take(i as int).push(v@[i as int]));
    }
    assert(v@.take(v@.len() as int) == v@);
    s
}

/// Appends all characters of `src` to `dst`.
pub fn push_all(dst: &mut Vec<char>, src: &[char])
    ensures
        final(dst)@ == old(dst)@ + src@,
{
    let ghost d0 = dst@;
    for i in 0..src.len()
        invariant
            dst@ == d0 + src@.take(i as int),
    {
        dst.push(src[i]);
        assert(src@.take(i + 1) == src@.take(i as int).push(src@[i as int]));
    }
    assert(src@.take(src@.len() as int) == src@);
}

/// Copy of the characters `v[from..to]`.
pub fn slice_chars(v: &[char], from: usize, to: usize) -> (r: Vec<char>)
    requires
        from <= to <= v@.len(),
    ensures
        r@ == v@.subrange(from as int, to as int),
{
    let mut r: Vec<char> = Vec::new();
    let mut i: usize = from;
    while i < to
        invariant
            from <= i <= to <= v@.len(),
            r@ == v@.subrange(from as int, i as int),
        decreases to - i,
    {
        r.push(v[i]);
        assert(v@.subrange(from as int, i + 1) == v@.subrange(from as int, i as int).push(
            v@[i as int],
        ));
        i += 1;
    }
    r
}

/// Whether two character sequences are equal.
pub fn chars_eq(a: &[char], b: &[char]) -> (r: bool)
    ensures
        r == (a@ == b@),
{
    if a.len() != b.len() {
        return false;
    }
    let mut i: usize = 0;
    while i < a.len()
        invariant
            a@.len() == b@.len(),
            0 <= i <= a@.len(),
            forall|k: int| 0 <= k < i ==> a@[k] == b@[k],
        decreases a.len() - i,
    {
        if a[i] != b[i] {
            return false;
        }
        i += 1;
    }
    assert(a@ =~= b@);
    true
}

// ───────────────────────── whitespace ─────────────────────────

/// Unicode `White_Space`, the property that std's `char::is_whitespace` tests.
pub open spec fn is_ws(c: char) -> bool {
    ||| ('\t' <= c && c <= '\r')
    ||| c == ' '
    ||| c == '\u{85}'
    ||| c == '\u{a0}'
    ||| c == '\u{1680}'
    ||| ('\u{2000}' <= c && c <= '\u{200a}')
    ||| c == '\u{2028}'
    ||| c == '\u{2029}'
    ||| c == '\u{202f}'
    ||| c == '\u{205f}'
    ||| c == '\u{3000}'
}

/// Whether `c` is a whitespace character.
pub fn is_whitespace(c: char) -> (b: bool)
    ensures
        b == is_ws(c),
{
    ('\t' <= c && c <= '\r') || c == ' ' || c == '\u{85}' || c == '\u{a0}' || c == '\u{1680}'
        || ('\u{2000}' <= c && c <= '\u{200a}') || c == '\u{2028}' || c == '\u{2029}' || c
        == '\u{202f}' || c == '\u{205f}' || c == '\u{3000}'
}


// ───────────────────────── searching ─────────────────────────

/// `n` occurs in `h` starting at position `i`.
pub open spec fn occurs_at(h: Seq<char>, n: Seq<char>, i: int) -> bool {
    0 <= i && i + n.len() <= h.len() && h.subrange(i, i + n.len()) == n
}

/// First occurrence of `n` in `h` at a position `>= i`.
pub open spec fn find_from(h: Seq<char>, n: Seq<char>, i: int) -> Option<int>
    decreases h.len() + 1 - i,
{
    if i < 0 || i + n.len() > h.len() {
        None
    } else if occurs_at(h, n, i) {
        Some(i)
    } else {
        find_from(h, n, i + 1)
    }
}

/// Position of the first occurrence of `n` in `h` (std's `str::find`, counted in characters).
pub open spec fn spec_find(h: Seq<char>, n: Seq<char>) -> Option<int> {
    find_from(h, n, 0)
}

/// Last occurrence of `n` in `h` at a position `<= i`.
pub open spec fn rfind_from(h: Seq<char>, n: Seq<char>, i: int) -> Option<int>
    decreases i + 1,
{
    if i < 0 {
        None
    } else if occurs_at(h, n, i) {
        Some(i)
    } else {
        rfind_from(h, n, i - 1)
    }
}

/// Position of the last occurrence of `n` in `h` (std's `str::rfind`).
pub open spec fn spec_rfind(h: Seq<char>, n: Seq<char>) -> Option<int> {
    rfind_from(h, n, h.len() - n.len())
}

pub open spec fn contains_seq(h: Seq<char>, n: Seq<char>) -> bool {
    spec_find(h, n) is Some
}

pub open spec fn starts_with(h: Seq<char>, p: Seq<char>) -> bool {
    p.len() <= h.len() && h.take(p.len() as int) == p
}

pub open spec fn ends_with(h: Seq<char>, p: Seq<char>) -> bool {
    p.len() <= h.len() && h.skip(h.len() - p.len()) == p
}

/// `find_from` yields the least matching position at or after `i`.
pub proof fn lemma_find_from(h: Seq<char>, n: Seq<char>, i: int)
    requires
        0 <= i,
    ensures
        match find_from(h, n, i) {
            Some(k) => i <= k && occurs_at(h, n, k) && forall|j: int|
                i <= j < k ==> !occurs_at(h, n, j),
            None => forall|j: int| i <= j ==> !occurs_at(h, n, j),
        },
    decreases h.len() + 1 - i,
{
    if i + n.len() > h.len() {
    } else if occurs_at(h, n, i) {
    } else {
        lemma_find_from(h, n, i + 1);
    }
}

/// `spec_find` is the least position where `n` occurs, or `None` when it occurs nowhere.
pub proof fn lemma_find(h: Seq<char>, n: Seq<char>)
    ensures
        match spec_find(h, n) {
            Some(k) => occurs_at(h, n, k) && forall|j: int| 0 <= j < k ==> !occurs_at(h, n, j),
            None => forall|j: int| !occurs_at(h, n, j),
        },
{
    lemma_find_from(h, n, 0);
}

/// `rfind_from` yields the greatest matching position at or before `i`.
pub proof fn lemma_rfind_from(h: Seq<char>, n: Seq<char>, i: int)
    ensures
        match rfind_from(h, n, i) {
            Some(k) => 0 <= k <= i && occurs_at(h, n, k) && forall|j: int|
                k < j <= i ==> !occurs_at(h, n, j),
            None => forall|j: int| j <= i ==> !occurs_at(h, n, j),
        },
    decreases i + 1,
{
    if i >= 0 && !occurs_at(h, n, i) {
        lemma_rfind_from(h, n, i - 1);
    }
}

/// Whether `n` occurs in `h` at position `i`.
pub fn matches_at(h: &[char], n: &[char], i: usize) -> (r: bool)
    ensures
        r == occurs_at(h@, n@, i as int),
{
    if i > h.len() || n.len() > h.len() - i {
        return false;
    }
    let mut k: usize = 0;
    while k < n.len()
        invariant
            i + n.len() <= h.len(),
            0 <= k <= n@.len(),
            forall|j: int| 0 <= j < k ==> h@[i + j] == n@[j],
        decreases n.len() - k,
    {
        if h[i + k] != n[k] {
            assert(h@.subrange(i as int, i + n@.len())[k as int] != n@[k as int]);
            return false;
        }
        k += 1;
    }
    assert(h@.subrange(i as int, i + n@.len()) =~= n@);
    true
}

/// Position of the first occurrence of `n` in `h`.
pub fn find(h: &[char], n: &[char]) -> (r: Option<usize>)
    ensures
        match r {
            Some(k) => spec_find(h@, n@) == Some(k as int),
            None => spec_find(h@, n@) is None,
        },
{
    find_from_exec(h, n, 0)
}

/// Position of the first occurrence of `n` in `h` at or after `start`.
pub fn find_from_exec(h: &[char], n: &[char], start: usize) -> (r: Option<usize>)
    ensures
        match r {
            Some(k) => find_from(h@, n@, start as int) == Some(k as int),
            None => find_from(h@, n@, start as int) is None,
        },
{
    if n.len() > h.len() || start > h.len() - n.len() {
        return None;
    }
    let last = h.len() - n.len();
    let mut i: usize = start;
    loop
        invariant
            n@.len() <= h@.len(),
            last == h@.len() - n@.len(),
            start <= i <= last,
            find_from(h@, n@, start as int) == find_from(h@, n@, i as int),
        decreases last - i,
    {
        if matches_at(h, n, i) {
            return Some(i);
        }
        if i == last {
            assert(find_from(h@, n@, i + 1) is None);
            return None;
        }
        i += 1;
    }
}

/// Position of the first occurrence of the character `c` in `h`.
pub fn find_char(h: &[char], c: char) -> (r: Option<usize>)
    ensures
        match r {
            Some(k) => spec_find(h@, seq![c]) == Some(k as int),
            None => spec_find(h@, seq![c]) is None,
        },
{
    let n = vec![c];
    assert(n@ == seq![c]);
    find(h, &n)
}

/// Position of the last occurrence of `n` in `h`.
pub fn rfind(h: &[char], n: &[char]) -> (r: Option<usize>)
    ensures
        match r {
            Some(k) => spec_rfind(h@, n@) == Some(k as int),
            None => spec_rfind(h@, n@) is None,
        },
{
    if n.len() > h.len() {
        assert(rfind_from(h@, n@, h@.len() - n@.len()) is None);
        return None;
    }
    let mut i: usize = h.len() - n.len();
    loop
        invariant
            n@.len() <= h@.len(),
            0 <= i <= h@.len() - n@.len(),
            spec_rfind(h@, n@) == rfind_from(h@, n@, i as int),
        decreases i,
    {
        if matches_at(h, n, i) {
            return Some(i);
        }
        if i == 0 {
            assert(rfind_from(h@, n@, -1) is None);
            return None;
        }
        i -= 1;
    }
}

/// Whether `n` occurs anywhere in `h`.
pub fn contains(h: &[char], n: &[char]) -> (r: bool)
    ensures
        r == contains_seq(h@, n@),
{
    find(h, n).is_some()
}

/// Whether `h` begins with `p`.
pub fn has_prefix(h: &[char], p: &[char]) -> (r: bool)
    ensures
        r == starts_with(h@, p@),
{
    let r = matches_at(h, p, 0);
    proof {
        if p@.len() <= h@.len() {
            assert(h@.subrange(0, p@.len() as int) == h@.take(p@.len() as int));
        }
    }
    r
}

/// Whether `h` ends with `p`.
pub fn has_suffix(h: &[char], p: &[char]) -> (r: bool)
    ensures
        r == ends_with(h@, p@),
{
    if p.len() > h.len() {
        return false;
    }
    let r = matches_at(h, p, h.len() - p.len());
    assert(h@.subrange(h@.len() - p@.len(), h@.len() as int) == h@.skip(h@.len() - p@.len()));
    r
}


// ───────────────────────── trimming ─────────────────────────

/// `s` without its leading whitespace.
pub open spec fn trim_start(s: Seq<char>) -> Seq<char>
    decreases s.len(),
{
    if s.len() > 0 && is_ws(s[0]) {
        trim_start(s.drop_first())
    } else {
        s
    }
}

/// `s` without its trailing whitespace.
pub open spec fn trim_end(s: Seq<char>) -> Seq<char>
    decreases s.len(),
{
    if s.len() > 0 && is_ws(s.last()) {
        trim_end(s.drop_last())
    } else {
        s
    }
}

/// `s` without leading and trailing whitespace (std's `str::trim`).
pub open spec fn trim(s: Seq<char>) -> Seq<char> {
    trim_end(trim_start(s))
}

/// `s` without its leading characters that belong to `set`.
pub open spec fn trim_start_in(s: Seq<char>, set: Seq<char>) -> Seq<char>
    decreases s.len(),
{
    if s.len() > 0 && set.contains(s[0]) {
        trim_start_in(s.drop_first(), set)
    } else {
        s
    }
}

/// `s` without its trailing characters that belong to `set`.
pub open spec fn trim_end_in(s: Seq<char>, set: Seq<char>) -> Seq<char>
    decreases s.len(),
{
    if s.len() > 0 && set.contains(s.last()) {
        trim_end_in(s.drop_last(), set)
    } else {
        s
    }
}

/// Whether `c` is one of the characters of `set`.
pub fn in_set(c: char, set: &[char]) -> (r: bool)
    ensures
        r == set@.contains(c),
{
    let mut i: usize = 0;
    while i < set.len()
        invariant
            0 <= i <= set@.len(),
            forall|k: int| 0 <= k < i ==> set@[k] != c,
        decreases set.len() - i,
    {
        if set[i] == c {
            assert(set@[i as int] == c);
            return true;
        }
        i += 1;
    }
    false
}

/// Number of leading characters removed by `trim_start` (whitespace, or members of `set`).
fn trim_start_len(s: &[char], ws: bool, set: &[char]) -> (k: usize)
    ensures
        k <= s@.len(),
        ws ==> s@.skip(k as int) == trim_start(s@),
        !ws ==> s@.skip(k as int) == trim_start_in(s@, set@),
{
    let mut k: usize = 0;
    assert(s@.skip(0) == s@);
    loop
        invariant
            0 <= k <= s@.len(),
            ws ==> trim_start(s@.skip(k as int)) == trim_start(s@),
            !ws ==> trim_start_in(s@.skip(k as int), set@) == trim_start_in(s@, set@),
        decreases s.len() - k,
    {
        if k == s.len() {
            return k;
        }
        let strip = if ws {
            is_whitespace(s[k])
        } else {
            in_set(s[k], set)
        };
        if !strip {
            return k;
        }
        assert(s@.skip(k as int).drop_first() == s@.skip(k + 1));
        k += 1;
    }
}

/// Length of `s` once trailing whitespace (or members of `set`) is removed.
fn trim_end_len(s: &[char], ws: bool, set: &[char]) -> (k: usize)
    ensures
        k <= s@.len(),
        ws ==> s@.take(k as int) == trim_end(s@),
        !ws ==> s@.take(k as int) == trim_end_in(s@, set@),
{
    let mut k: usize = s.len();
    assert(s@.take(s@.len() as int) == s@);
    loop
        invariant
            0 <= k <= s@.len(),
            ws ==> trim_end(s@.take(k as int)) == trim_end(s@),
            !ws ==> trim_end_in(s@.take(k as int), set@) == trim_end_in(s@, set@),
        decreases k,
    {
        if k == 0 {
            return k;
        }
        let strip = if ws {
            is_whitespace(s[k - 1])
        } else {
            in_set(s[k - 1], set)
        };
        if !strip {
            return k;
        }
        assert(s@.take(k as int).drop_last() == s@.take(k - 1));
        k -= 1;
    }
}

/// `s` without leading whitespace.
pub fn trim_start_ws(s: &[char]) -> (r: Vec<char>)
    ensures
        r@ == trim_start(s@),
{
    let k = trim_start_len(s, true, &[]);
    slice_chars(s, k, s.len())
}

/// `s` without trailing whitespace.
pub fn trim_end_ws(s: &[char]) -> (r: Vec<char>)
    ensures
        r@ == trim_end(s@),
{
    let k = trim_end_len(s, true, &[]);
    slice_chars(s, 0, k)
}

/// `s` without leading and trailing whitespace.
pub fn trim_ws(s: &[char]) -> (r: Vec<char>)
    ensures
        r@ == trim(s@),
{
    let a = trim_start_ws(s);
    trim_end_ws(&a)
}

/// `s` without its leading members of `set`.
pub fn trim_start_set(s: &[char], set: &[char]) -> (r: Vec<char>)
    ensures
        r@ == trim_start_in(s@, set@),
{
    let k = trim_start_len(s, false, set);
    slice_chars(s, k, s.len())
}

/// `s` without its trailing members of `set`.
pub fn trim_end_set(s: &[char], set: &[char]) -> (r: Vec<char>)
    ensures
        r@ == trim_end_in(s@, set@),
{
    let k = trim_end_len(s, false, set);
    slice_chars(s, 0, k)
}

// ───────────────────────── splitting ─────────────────────────

/// The views of a sequence of character vectors.
pub open spec fn views(v: Seq<Vec<char>>) -> Seq<Seq<char>> {
    v.map_values(|x: Vec<char>| x@)
}

/// The views of a sequence of strings.
pub open spec fn str_views(v: Seq<String>) -> Seq<Seq<char>> {
    v.map_values(|x: String| x@)
}

pub proof fn lemma_views_push(v: Seq<Vec<char>>, x: Vec<char>)
    ensures
        views(v.push(x)) == views(v).push(x@),
{
    assert(views(v.push(x)) =~= views(v).push(x@));
}

pub proof fn lemma_str_views_push(v: Seq<String>, x: String)
    ensures
        str_views(v.push(x)) == str_views(v).push(x@),
{
    assert(str_views(v.push(x)) =~= str_views(v).push(x@));
}

/// `cur` without one trailing carriage return.
pub open spec fn strip_cr(cur: Seq<char>) -> Seq<char> {
    if cur.len() > 0 && cur.last() == '\r' {
        cur.drop_last()
    } else {
        cur
    }
}

/// Finished lines and the line in progress after reading `s`.
pub open spec fn lines_acc(s: Seq<char>) -> (Seq<Seq<char>>, Seq<char>)
    decreases s.len(),
{
    if s.len() == 0 {
        (seq![], seq![])
    } else {
        let (done, cur) = lines_acc(s.drop_last());
        if s.last() == '\n' {
            (done.push(strip_cr(cur)), seq![])
        } else {
            (done, cur.push(s.last()))
        }
    }
}

/// The lines of `s` (std's `str::lines`): split at `\n`, a `\r` just before each `\n`
/// dropped, and no empty last line after a final `\n`.
pub open spec fn lines(s: Seq<char>) -> Seq<Seq<char>> {
    let (done, cur) = lines_acc(s);
    if cur.len() > 0 {
        done.push(cur)
    } else {
        done
    }
}

/// Finished words and the word in progress after reading `s`.
pub open spec fn words_acc(s: Seq<char>) -> (Seq<Seq<char>>, Seq<char>)
    decreases s.len(),
{
    if s.len() == 0 {
        (seq![], seq![])
    } else {
        let (done, cur) = words_acc(s.drop_last());
        if is_ws(s.last()) {
            if cur.len() > 0 {
                (done.push(cur), seq![])
            } else {
                (done, seq![])
            }
        } else {
            (done, cur.push(s.last()))
        }
    }
}

/// The maximal runs of non-whitespace characters of `s` (std's `str::split_whitespace`).
pub open spec fn words(s: Seq<char>) -> Seq<Seq<char>> {
    let (done, cur) = words_acc(s);
    if cur.len() > 0 {
        done.push(cur)
    } else {
        done
    }
}

/// Finished pieces and the piece in progress after reading `s`, splitting at `sep`.
pub open spec fn split_acc(s: Seq<char>, sep: char) -> (Seq<Seq<char>>, Seq<char>)
    decreases s.len(),
{
    if s.len() == 0 {
        (seq![], seq![])
    } else {
        let (done, cur) = split_acc(s.drop_last(), sep);
        if s.last() == sep {
            (done.push(cur), seq![])
        } else {
            (done, cur.push(s.last()))
        }
    }
}

/// The pieces of `s` between occurrences of `sep` (std's `str::split` with a `char`).
pub open spec fn split(s: Seq<char>, sep: char) -> Seq<Seq<char>> {
    let (done, cur) = split_acc(s, sep);
    done.push(cur)
}

/// The lines of `s`.
pub fn split_lines(s: &[char]) -> (r: Vec<Vec<char>>)
    ensures
        views(r@) == lines(s@),
{
    let mut done: Vec<Vec<char>> = Vec::new();
    let mut cur: Vec<char> = Vec::new();
    for i in 0..s.len()
        invariant
            (views(done@), cur@) == lines_acc(s@.take(i as int)),
    {
        assert(s@.take(i + 1).drop_last() == s@.take(i as int));
        let c = s[i];
        if c == '\n' {
            let mut line = cur;
            if line.len() > 0 && line[line.len() - 1] == '\r' {
                line.pop();
            }
            proof {
                lemma_views_push(done@, line);
            }
            done.push(line);
            cur = Vec::new();
        } else {
            cur.push(c);
        }
    }
    assert(s@.take(s@.len() as int) == s@);
    if cur.len() > 0 {
        proof {
            lemma_views_push(done@, cur);
        }
        done.push(cur);
    }
    done
}

/// The whitespace-separated words of `s`.
pub fn split_words(s: &[char]) -> (r: Vec<Vec<char>>)
    ensures
        views(r@) == words(s@),
{
    let mut done: Vec<Vec<char>> = Vec::new();
    let mut cur: Vec<char> = Vec::new();
    for i in 0..s.len()
        invariant
            (views(done@), cur@) == words_acc(s@.take(i as int)),
    {
        assert(s@.take(i + 1).drop_last() == s@.take(i as int));
        let c = s[i];
        if is_whitespace(c) {
            if cur.len() > 0 {
                proof {
                    lemma_views_push(done@, cur);
                }
                done.push(cur);
            }
            cur = Vec::new();
        } else {
            cur.push(c);
        }
    }
    assert(s@.take(s@.len() as int) == s@);
    if cur.len() > 0 {
        proof {
            lemma_views_push(done@, cur);
        }
        done.push(cur);
    }
    done
}

/// The pieces of `s` separated by `sep`.
pub fn split_char(s: &[char], sep: char) -> (r: Vec<Vec<char>>)
    ensures
        views(r@) == split(s@, sep),
{
    let mut done: Vec<Vec<char>> = Vec::new();
    let mut cur: Vec<char> = Vec::new();
    for i in 0..s.len()
        invariant
            (views(done@), cur@) == split_acc(s@.take(i as int), sep),
    {
        assert(s@.take(i + 1).drop_last() == s@.take(i as int));
        let c = s[i];
        if c == sep {
            proof {
                lemma_views_push(done@, cur);
            }
            done.push(cur);
            cur = Vec::new();
        } else {
            cur.push(c);
        }
    }
    assert(s@.take(s@.len() as int) == s@);
    proof {
        lemma_views_push(done@, cur);
    }
    done.push(cur);
    done
}


// ───────────────────────── lengths and prefixes ─────────────────────────

/// Number of bytes in the UTF-8 encoding of `c`.
pub open spec fn utf8_width(c: char) -> nat {
    if (c as u32) < 0x80 {
        1
    } else if (c as u32) < 0x800 {
        2
    } else if (c as u32) < 0x10000 {
        3
    } else {
        4
    }
}

/// Number of bytes in the UTF-8 encoding of `s` (what std's `str::len` returns).
pub open spec fn utf8_len(s: Seq<char>) -> nat
    decreases s.len(),
{
    if s.len() == 0 {
        0
    } else {
        utf8_len(s.drop_last()) + utf8_width(s.last())
    }
}

pub proof fn lemma_utf8_len_bound(s: Seq<char>)
    ensures
        s.len() <= utf8_len(s) <= 4 * s.len(),
    decreases s.len(),
{
    if s.len() > 0 {
        lemma_utf8_len_bound(s.drop_last());
    }
}

pub proof fn lemma_utf8_len_concat(a: Seq<char>, b: Seq<char>)
    ensures
        utf8_len(a + b) == utf8_len(a) + utf8_len(b),
    decreases b.len(),
{
    if b.len() == 0 {
        assert(a + b == a);
    } else {
        assert((a + b).drop_last() == a + b.drop_last());
        lemma_utf8_len_concat(a, b.drop_last());
    }
}

/// Number of bytes in the UTF-8 encoding of `c`.
pub fn char_width(c: char) -> (w: u128)
    ensures
        w == utf8_width(c),
{
    let u = c as u32;
    if u < 0x80 {
        1
    } else if u < 0x800 {
        2
    } else if u < 0x10000 {
        3
    } else {
        4
    }
}

/// Number of bytes in the UTF-8 encoding of `s`.
pub fn byte_len(s: &[char]) -> (n: u128)
    ensures
        n == utf8_len(s@),
        n <= 4 * s@.len(),
{
    let mut n: u128 = 0;
    for i in 0..s.len()
        invariant
            n == utf8_len(s@.take(i as int)),
            n <= 4 * i,
    {
        assert(s@.take(i + 1).drop_last() == s@.take(i as int));
        n = n + char_width(s[i]);
    }
    assert(s@.take(s@.len() as int) == s@);
    n
}

/// Total number of UTF-8 bytes of `a` and `b`.
pub fn sum_len(a: &[char], b: &[char]) -> (n: u128)
    ensures
        n == utf8_len(a@) + utf8_len(b@),
        n < u128::MAX,
{
    let la = a.len();
    let lb = b.len();
    let x = byte_len(a);
    let y = byte_len(b);
    assert(x <= 4 * la && y <= 4 * lb);
    x + y
}

/// The first `n` characters of `s` (all of `s` when it is shorter).
pub open spec fn take_chars(s: Seq<char>, n: int) -> Seq<char> {
    if n < s.len() {
        s.take(n)
    } else {
        s
    }
}

/// The first `n` characters of `s` (`s.chars().take(n)`).
pub fn first_chars(s: &[char], n: usize) -> (r: Vec<char>)
    ensures
        r@ == take_chars(s@, n as int),
{
    let k = if n < s.len() {
        n
    } else {
        s.len()
    };
    let r = slice_chars(s, 0, k);
    assert(s@.subrange(0, k as int) == take_chars(s@, n as int));
    r
}

/// Number of characters in the longest prefix of `s` whose UTF-8 encoding has at most
/// `max` bytes.
pub open spec fn fit_prefix_len(s: Seq<char>, max: nat) -> nat
    decreases s.len(),
{
    if utf8_len(s) <= max || s.len() == 0 {
        s.len()
    } else {
        fit_prefix_len(s.drop_last(), max)
    }
}

/// `s` cut at the last character boundary that keeps it within `max` bytes.
pub open spec fn truncate_bytes(s: Seq<char>, max: nat) -> Seq<char> {
    s.take(fit_prefix_len(s, max) as int)
}

pub proof fn lemma_fit_prefix(s: Seq<char>, max: nat)
    ensures
        fit_prefix_len(s, max) <= s.len(),
        utf8_len(s.take(fit_prefix_len(s, max) as int)) <= max,
        fit_prefix_len(s, max) < s.len() ==> utf8_len(
            s.take(fit_prefix_len(s, max) + 1int),
        ) > max,
    decreases s.len(),
{
    if utf8_len(s) <= max || s.len() == 0 {
        assert(s.take(s.len() as int) == s);
    } else {
        lemma_fit_prefix(s.drop_last(), max);
        let k = fit_prefix_len(s.drop_last(), max) as int;
        assert(s.drop_last().take(k) == s.take(k));
        if k < s.len() - 1 {
            assert(s.drop_last().take(k + 1) == s.take(k + 1));
        } else {
            assert(s.take(k + 1) == s);
        }
    }
}

/// `s` cut so that its UTF-8 encoding fits in `max` bytes, at a character boundary.
pub fn truncate_chars(s: &[char], max: usize) -> (r: Vec<char>)
    ensures
        r@ == truncate_bytes(s@, max as nat),
{
    let mut k: usize = s.len();
    let mut total: u128 = byte_len(s);
    assert(s@.take(s@.len() as int) == s@);
    while total > max as u128 && k > 0
        invariant
            0 <= k <= s@.len(),
            total == utf8_len(s@.take(k as int)),
            fit_prefix_len(s@, max as nat) == fit_prefix_len(s@.take(k as int), max as nat),
        decreases k,
    {
        assert(s@.take(k as int).drop_last() == s@.take(k - 1));
        total = total - char_width(s[k - 1]);
        k -= 1;
    }
    slice_chars(s, 0, k)
}

/// The longest prefix of `s` with at most `max_width` characters (`s` itself when it
/// fits).
pub open spec fn truncate_width(s: Seq<char>, max_width: nat) -> Seq<char> {
    take_chars(s, max_width as int)
}

/// `s` truncated to fit within `max_width` characters.
pub fn truncate_str(s: &str, max_width: usize) -> (r: String)
    ensures
        r@ == truncate_width(s@, max_width as nat),
{
    chars_string(&first_chars(&str_chars(s), max_width))
}

/// `s` truncated or right-padded with spaces to exactly `width` characters.
pub open spec fn pad_to_spec(s: Seq<char>, width: nat) -> Seq<char> {
    if s.len() >= width {
        s.take(width as int)
    } else {
        s + Seq::new((width - s.len()) as nat, |_i: int| ' ')
    }
}

/// `n` copies of `c`.
pub fn repeat_char(c: char, n: usize) -> (r: Vec<char>)
    ensures
        r@ == Seq::new(n as nat, |_i: int| c),
{
    let mut r: Vec<char> = Vec::new();
    for i in 0..n
        invariant
            r@ == Seq::new(i as nat, |_i: int| c),
    {
        r.push(c);
        assert(r@ =~= Seq::new((i + 1) as nat, |_i: int| c));
    }
    r
}

/// `s` truncated or padded with spaces to `width` characters.
pub fn pad_to(s: &[char], width: usize) -> (r: Vec<char>)
    ensures
        r@ == pad_to_spec(s@, width as nat),
{
    if s.len() >= width {
        slice_chars(s, 0, width)
    } else {
        let mut r = slice_chars(s, 0, s.len());
        assert(s@.subrange(0, s@.len() as int) == s@);
        let pad = repeat_char(' ', width - s.len());
        push_all(&mut r, &pad);
        r
    }
}

// ───────────────────────── numbers ─────────────────────────

/// The ASCII digit for `d < 10`.
pub open spec fn digit_char(d: nat) -> char {
    (('0' as u32) + d) as char
}

/// The decimal representation of `n`, without leading zeros.
pub open spec fn decimal(n: nat) -> Seq<char>
    decreases n,
{
    if n < 10 {
        seq![digit_char(n)]
    } else {
        decimal(n / 10).push(digit_char(n % 10))
    }
}

/// The decimal digits of `n`.
pub fn u64_decimal(n: u64) -> (r: Vec<char>)
    ensures
        r@ == decimal(n as nat),
    decreases n,
{
    let d = (n % 10) as u32;
    let c = char_from_digit(d);
    if n < 10 {
        let r = vec![c];
        assert(r@ == seq![c]);
        r
    } else {
        let mut r = u64_decimal(n / 10);
        r.push(c);
        r
    }
}

/// The decimal digits of `n`.
pub fn u128_decimal(n: u128) -> (r: Vec<char>)
    ensures
        r@ == decimal(n as nat),
    decreases n,
{
    let d = (n % 10) as u32;
    let c = char_from_digit(d);
    if n < 10 {
        let r = vec![c];
        assert(r@ == seq![c]);
        r
    } else {
        let mut r = u128_decimal(n / 10);
        r.push(c);
        r
    }
}

/// The decimal digits of `n`.
pub fn usize_decimal(n: usize) -> (r: Vec<char>)
    ensures
        r@ == decimal(n as nat),
{
    u64_decimal(n as u64)
}

/// The character of the decimal digit `d`.
fn char_from_digit(d: u32) -> (c: char)
    requires
        d < 10,
    ensures
        c == digit_char(d as nat),
{
    if d == 0 {
        '0'
    } else if d == 1 {
        '1'
    } else if d == 2 {
        '2'
    } else if d == 3 {
        '3'
    } else if d == 4 {
        '4'
    } else if d == 5 {
        '5'
    } else if d == 6 {
        '6'
    } else if d == 7 {
        '7'
    } else if d == 8 {
        '8'
    } else {
        '9'
    }
}

pub open spec fn is_digit(c: char) -> bool {
    '0' <= c && c <= '9'
}

pub open spec fn digit_value(c: char) -> nat {
    ((c as u32) - ('0' as u32)) as nat
}

/// The number written by the decimal digits `s`.
pub open spec fn digits_value(s: Seq<char>) -> nat
    decreases s.len(),
{
    if s.len() == 0 {
        0
    } else {
        digits_value(s.drop_last()) * 10 + digit_value(s.last())
    }
}

pub open spec fn all_digits(s: Seq<char>) -> bool {
    forall|i: int| 0 <= i < s.len() ==> is_digit(#[trigger] s[i])
}

/// What std's `str::parse` gives for an unsigned integer type whose largest value is
/// `max`: an optional `+`, then at least one decimal digit and nothing else, with a value
/// of at most `max`.
pub open spec fn parse_uint_spec(s: Seq<char>, max: nat) -> Option<nat> {
    let d = if s.len() > 0 && s[0] == '+' {
        s.drop_first()
    } else {
        s
    };
    if d.len() == 0 || !all_digits(d) || digits_value(d) > max {
        None
    } else {
        Some(digits_value(d))
    }
}

/// Parses an unsigned decimal number of at most `max`, as std's `str::parse` does.
pub fn parse_uint(s: &[char], max: u64) -> (r: Option<u64>)
    ensures
        match r {
            Some(v) => parse_uint_spec(s@, max as nat) == Some(v as nat),
            None => parse_uint_spec(s@, max as nat) is None,
        },
{
    let start: usize = if s.len() > 0 && s[0] == '+' {
        1
    } else {
        0
    };
    let ghost d = if s@.len() > 0 && s@[0] == '+' {
        s@.drop_first()
    } else {
        s@
    };
    assert(d == s@.skip(start as int));
    if start == s.len() {
        return None;
    }
    let mut v: u64 = 0;
    let mut i: usize = start;
    while i < s.len()
        invariant
            start <= i <= s@.len(),
            d == s@.skip(start as int),
            d == (if s@.len() > 0 && s@[0] == '+' {
                s@.drop_first()
            } else {
                s@
            }),
            d.len() > 0,
            all_digits(s@.subrange(start as int, i as int)),
            v == digits_value(s@.subrange(start as int, i as int)),
            v <= max,
        decreases s.len() - i,
    {
        let c = s[i];
        assert(s@.subrange(start as int, i + 1).drop_last() == s@.subrange(
            start as int,
            i as int,
        ));
        if !('0' <= c && c <= '9') {
            assert(d[i - start] == c);
            return None;
        }
        let dv = (c as u32 - '0' as u32) as u64;
        if dv > max || v > (max - dv) / 10 {
            proof {
                lemma_digits_value_mono(d, (i - start + 1) as int);
                assert(d.take((i - start + 1) as int) == s@.subrange(start as int, i + 1));
                if dv <= max {
                    assert(v * 10 + dv > max) by (nonlinear_arith)
                        requires
                            v > (max - dv) / 10,
                            dv <= 9,
                            dv <= max,
                    ;
                }
            }
            return None;
        }
        assert(v * 10 + dv <= max) by (nonlinear_arith)
            requires
                v <= (max - dv) / 10,
                dv <= max,
        ;
        v = v * 10 + dv;
        i += 1;
    }
    assert(s@.subrange(start as int, s@.len() as int) == d);
    Some(v)
}

/// Parses a `u64` as std's `str::parse::<u64>` does.
pub fn parse_u64(s: &[char]) -> (r: Option<u64>)
    ensures
        match r {
            Some(v) => parse_uint_spec(s@, u64::MAX as nat) == Some(v as nat),
            None => parse_uint_spec(s@, u64::MAX as nat) is None,
        },
{
    parse_uint(s, u64::MAX)
}

/// Parses a `usize` as std's `str::parse::<usize>` does.
pub fn parse_usize(s: &[char]) -> (r: Option<usize>)
    ensures
        match r {
            Some(v) => parse_uint_spec(s@, usize::MAX as nat) == Some(v as nat),
            None => parse_uint_spec(s@, usize::MAX as nat) is None,
        },
{
    match parse_uint(s, usize::MAX as u64) {
        Some(v) => Some(v as usize),
        None => None,
    }
}

/// The value of a digit prefix never exceeds the value of the whole digit string.
pub proof fn lemma_digits_value_mono(d: Seq<char>, k: int)
    requires
        0 <= k <= d.len(),
    ensures
        digits_value(d.take(k)) <= digits_value(d),
    decreases d.len() - k,
{
    if k < d.len() {
        lemma_digits_value_mono(d, k + 1);
        assert(d.take(k + 1).drop_last() == d.take(k));
    } else {
        assert(d.take(k) == d);
    }
}


// ───────────────────────── collections of lines ─────────────────────────

/// Appends the lines of `src` to `dst`.
pub fn append_lines(dst: &mut Vec<Vec<char>>, src: Vec<Vec<char>>)
    ensures
        views(final(dst)@) == views(old(dst)@) + views(src@),
{
    let mut src = src;
    let ghost a = dst@;
    let ghost b = src@;
    dst.append(&mut src);
    assert(views(a + b) =~= views(a) + views(b));
}

/// The lines as strings.
pub fn to_strings(v: &Vec<Vec<char>>) -> (r: Vec<String>)
    ensures
        str_views(r@) == views(v@),
{
    let mut r: Vec<String> = Vec::new();
    for i in 0..v.len()
        invariant
            str_views(r@) == views(v@).take(i as int),
    {
        let s = chars_string(&v[i]);
        proof {
            lemma_str_views_push(r@, s);
            assert(views(v@).take(i + 1) == views(v@).take(i as int).push(v@[i as int]@));
        }
        r.push(s);
    }
    assert(views(v@).take(v@.len() as int) == views(v@));
    r
}

/// `a`, a space, then `b`.
pub open spec fn join_space(a: Seq<char>, b: Seq<char>) -> Seq<char> {
    a + seq![' '] + b
}

// ───────────────────────── word wrapping ─────────────────────────

/// Greedy filling of the words `ws` into lines of at most `width` bytes: finished
/// lines and the line in progress.
pub open spec fn wrap_words_acc(ws: Seq<Seq<char>>, width: nat) -> (Seq<Seq<char>>, Seq<char>)
    decreases ws.len(),
{
    if ws.len() == 0 {
        (seq![], seq![])
    } else {
        let (done, cur) = wrap_words_acc(ws.drop_last(), width);
        let w = ws.last();
        if cur.len() == 0 {
            (done, w)
        } else if utf8_len(cur) + 1 + utf8_len(w) <= width {
            (done, join_space(cur, w))
        } else {
            (done.push(cur), w)
        }
    }
}

/// One input line wrapped: kept whole when it fits in `width` bytes, otherwise its
/// words refilled greedily.
pub open spec fn wrap_line(raw: Seq<char>, width: nat) -> Seq<Seq<char>> {
    if utf8_len(raw) <= width {
        seq![raw]
    } else {
        let (done, cur) = wrap_words_acc(words(raw), width);
        if cur.len() > 0 {
            done.push(cur)
        } else {
            done
        }
    }
}

/// Every line of `ls` wrapped, in order.
pub open spec fn wrap_all(ls: Seq<Seq<char>>, width: nat) -> Seq<Seq<char>>
    decreases ls.len(),
{
    if ls.len() == 0 {
        seq![]
    } else {
        wrap_all(ls.drop_last(), width) + wrap_line(ls.last(), width)
    }
}

/// The chat view's word wrap: each line of `text` wrapped to `width` bytes; a width of
/// zero leaves the text whole; an empty result becomes one empty line.
pub open spec fn wrap_text_spec(text: Seq<char>, width: nat) -> Seq<Seq<char>> {
    if width == 0 {
        seq![text]
    } else {
        let r = wrap_all(lines(text), width);
        if r.len() == 0 {
            seq![seq![]]
        } else {
            r
        }
    }
}

/// The line holds no whitespace.
pub open spec fn no_ws(l: Seq<char>) -> bool {
    forall|i: int| 0 <= i < l.len() ==> !is_ws(#[trigger] l[i])
}

/// A line fits in `width` bytes, or is a single word (it holds no whitespace).
pub open spec fn fits_or_word(l: Seq<char>, width: nat) -> bool {
    utf8_len(l) <= width || no_ws(l)
}

proof fn lemma_words_acc_no_ws(s: Seq<char>)
    ensures
        forall|k: int| 0 <= k < words_acc(s).0.len() ==> no_ws(#[trigger] words_acc(s).0[k]),
        no_ws(words_acc(s).1),
    decreases s.len(),
{
    if s.len() > 0 {
        lemma_words_acc_no_ws(s.drop_last());
        let (done, cur) = words_acc(s.drop_last());
        if !is_ws(s.last()) {
            assert forall|i: int| 0 <= i < cur.push(s.last()).len() implies !is_ws(#[trigger] cur.push(s.last())[i]) by {
                if i < cur.len() {
                    assert(cur.push(s.last())[i] == cur[i]);
                }
            }
        }
    }
}

proof fn lemma_wrap_words_fit(ws: Seq<Seq<char>>, width: nat)
    requires
        forall|k: int| 0 <= k < ws.len() ==> no_ws(#[trigger] ws[k]),
    ensures
        forall|k: int| 0 <= k < wrap_words_acc(ws, width).0.len() ==> fits_or_word(#[trigger] wrap_words_acc(ws, width).0[k], width),
        fits_or_word(wrap_words_acc(ws, width).1, width),
    decreases ws.len(),
{
    if ws.len() > 0 {
        let front = ws.drop_last();
        assert forall|k: int| 0 <= k < front.len() implies no_ws(#[trigger] front[k]) by {
            assert(front[k] == ws[k]);
        }
        lemma_wrap_words_fit(front, width);
        let (done, cur) = wrap_words_acc(front, width);
        let w = ws.last();
        assert(no_ws(ws[ws.len() - 1]));
        if cur.len() != 0 && utf8_len(cur) + 1 + utf8_len(w) <= width {
            lemma_utf8_len_concat(cur + seq![' '], w);
            lemma_utf8_len_concat(cur, seq![' ']);
            assert(seq![' '].drop_last() =~= Seq::<char>::empty());
            assert(utf8_len(Seq::<char>::empty()) == 0);
            assert(utf8_len(seq![' '].drop_last()) == 0);
            assert(seq![' '].last() == ' ');
            assert((' ' as u32) < 0x80);
            assert(utf8_width(' ') == 1);
            assert(utf8_len(seq![' ']) == 1);
        }
    }
}

proof fn lemma_wrap_all_fit(ls: Seq<Seq<char>>, width: nat)
    ensures
        forall|k: int| 0 <= k < wrap_all(ls, width).len() ==> fits_or_word(#[trigger] wrap_all(ls, width)[k], width),
    decreases ls.len(),
{
    if ls.len() > 0 {
        lemma_wrap_all_fit(ls.drop_last(), width);
        let raw = ls.last();
        let a = wrap_all(ls.drop_last(), width);
        let b = wrap_line(raw, width);
        if utf8_len(raw) > width {
            lemma_words_acc_no_ws(raw);
            let ws = words(raw);
            assert forall|k: int| 0 <= k < ws.len() implies no_ws(#[trigger] ws[k]) by {
                let (done, cur) = words_acc(raw);
                if cur.len() > 0 && k == done.len() {
                    assert(ws[k] == cur);
                } else {
                    assert(ws[k] == done[k]);
                }
            }
            lemma_wrap_words_fit(ws, width);
        }
        assert forall|k: int| 0 <= k < b.len() implies fits_or_word(#[trigger] b[k], width) by {
            if utf8_len(raw) > width {
                let (done, cur) = wrap_words_acc(words(raw), width);
                if cur.len() > 0 && k == done.len() {
                    assert(b[k] == cur);
                } else {
                    assert(b[k] == done[k]);
                }
            }
        }
        assert forall|k: int| 0 <= k < (a + b).len() implies fits_or_word(#[trigger] (a + b)[k], width) by {
            if k < a.len() {
                assert((a + b)[k] == a[k]);
            } else {
                assert((a + b)[k] == b[k - a.len()]);
            }
        }
    }
}

/// Wrapping keeps to the width: every line of the wrapped text fits in `width` bytes,
/// unless it is a single word (no whitespace) too long to fit.
pub proof fn lemma_wrap_fits(text: Seq<char>, width: nat)
    requires
        width > 0,
    ensures
        forall|k: int| 0 <= k < wrap_text_spec(text, width).len() ==> fits_or_word(#[trigger] wrap_text_spec(text, width)[k], width),
{
    lemma_wrap_all_fit(lines(text), width);
    if wrap_all(lines(text), width).len() == 0 {
        assert(utf8_len(seq![]) == 0);
    }
}

fn wrap_line_exec(raw: &[char], width: usize) -> (r: Vec<Vec<char>>)
    ensures
        views(r@) == wrap_line(raw@, width as nat),
{
    if byte_len(raw) <= width as u128 {
        let v = slice_chars(raw, 0, raw.len());
        assert(raw@.subrange(0, raw@.len() as int) == raw@);
        let r = vec![v];
        assert(views(r@) =~= seq![raw@]);
        return r;
    }
    let ws = split_words(raw);
    let mut done: Vec<Vec<char>> = Vec::new();
    let mut cur: Vec<char> = Vec::new();
    for i in 0..ws.len()
        invariant
            views(ws@) == words(raw@),
            (views(done@), cur@) == wrap_words_acc(views(ws@).take(i as int), width as nat),
    {
        proof {
            assert(views(ws@).take(i + 1).drop_last() == views(ws@).take(i as int));
            assert(views(ws@).take(i + 1).last() == ws@[i as int]@);
        }
        let w = &ws[i];
        if cur.len() == 0 {
            cur = slice_chars(w, 0, w.len());
            assert(w@.subrange(0, w@.len() as int) == w@);
        } else if sum_len(&cur, w) + 1 <= width as u128 {
            cur.push(' ');
            push_all(&mut cur, w);
        } else {
            proof {
                lemma_views_push(done@, cur);
            }
            done.push(cur);
            cur = slice_chars(w, 0, w.len());
            assert(w@.subrange(0, w@.len() as int) == w@);
        }
    }
    assert(views(ws@).take(ws@.len() as int) == views(ws@));
    if cur.len() > 0 {
        proof {
            lemma_views_push(done@, cur);
        }
        done.push(cur);
    }
    done
}

/// Word-wraps `text` to lines of at most `width` bytes (the chat view's wrapping).
pub fn wrap_text(text: &str, width: usize) -> (r: Vec<String>)
    ensures
        str_views(r@) == wrap_text_spec(text@, width as nat),
{
    let t = str_chars(text);
    let out = wrap_text_chars(&t, width);
    to_strings(&out)
}

/// Word-wraps `text` to lines of at most `width` bytes.
pub fn wrap_text_chars(text: &[char], width: usize) -> (r: Vec<Vec<char>>)
    ensures
        views(r@) == wrap_text_spec(text@, width as nat),
{
    if width == 0 {
        let v = slice_chars(text, 0, text.len());
        assert(text@.subrange(0, text@.len() as int) == text@);
        let r = vec![v];
        assert(views(r@) =~= seq![text@]);
        return r;
    }
    let ls = split_lines(text);
    let mut out: Vec<Vec<char>> = Vec::new();
    for i in 0..ls.len()
        invariant
            views(ls@) == lines(text@),
            width > 0,
            views(out@) == wrap_all(views(ls@).take(i as int), width as nat),
    {
        proof {
            assert(views(ls@).take(i + 1).drop_last() == views(ls@).take(i as int));
            assert(views(ls@).take(i + 1).last() == ls@[i as int]@);
        }
        let part = wrap_line_exec(&ls[i], width);
        append_lines(&mut out, part);
    }
    assert(views(ls@).take(ls@.len() as int) == views(ls@));
    if out.len() == 0 {
        let e: Vec<char> = Vec::new();
        out.push(e);
        assert(views(out@) =~= seq![seq![]]);
    }
    out
}

/// Word filling used by the panel views: finished lines and the line in progress.
pub open spec fn fill_words_acc(ws: Seq<Seq<char>>, width: nat) -> (Seq<Seq<char>>, Seq<char>)
    decreases ws.len(),
{
    if ws.len() == 0 {
        (seq![], seq![])
    } else {
        let (done, line) = fill_words_acc(ws.drop_last(), width);
        let w = ws.last();
        let (done2, line2) = if utf8_len(line) + utf8_len(w) + 1 > width && line.len() > 0 {
            (done.push(line), seq![])
        } else {
            (done, line)
        };
        if line2.len() > 0 {
            (done2, join_space(line2, w))
        } else {
            (done2, w)
        }
    }
}

/// One paragraph filled.
pub open spec fn fill_paragraph(p: Seq<char>, width: nat) -> Seq<Seq<char>> {
    let (done, line) = fill_words_acc(words(p), width);
    if line.len() > 0 {
        done.push(line)
    } else {
        done
    }
}

/// Every paragraph filled, in order.
pub open spec fn fill_all(ps: Seq<Seq<char>>, width: nat) -> Seq<Seq<char>>
    decreases ps.len(),
{
    if ps.len() == 0 {
        seq![]
    } else {
        fill_all(ps.drop_last(), width) + fill_paragraph(ps.last(), width)
    }
}

/// The panel views' word wrap: each `\n`-separated paragraph filled to `width` bytes;
/// when nothing results, the text itself is the only line.
pub open spec fn textwrap_simple_spec(text: Seq<char>, width: nat) -> Seq<Seq<char>> {
    let r = fill_all(split(text, '\n'), width);
    if r.len() == 0 {
        seq![text]
    } else {
        r
    }
}

/// The words of the lines, in order.
pub open spec fn all_words(ls: Seq<Seq<char>>) -> Seq<Seq<char>>
    decreases ls.len(),
{
    if ls.len() == 0 {
        seq![]
    } else {
        all_words(ls.drop_last()) + words(ls.last())
    }
}

proof fn lemma_all_words_concat(a: Seq<Seq<char>>, b: Seq<Seq<char>>)
    ensures
        all_words(a + b) == all_words(a) + all_words(b),
    decreases b.len(),
{
    if b.len() == 0 {
        assert(a + b =~= a);
        assert(all_words(a) + all_words(b) =~= all_words(a));
    } else {
        lemma_all_words_concat(a, b.drop_last());
        assert((a + b).drop_last() =~= a + b.drop_last());
        assert((a + b).last() == b.last());
        assert(all_words(a + b) =~= all_words(a) + all_words(b));
    }
}

/// Every word is non-empty and holds no whitespace.
pub open spec fn proper_words(ws: Seq<Seq<char>>) -> bool {
    forall|k: int| 0 <= k < ws.len() ==> (#[trigger] ws[k]).len() > 0 && no_ws(ws[k])
}

proof fn lemma_words_acc_proper(s: Seq<char>)
    ensures
        proper_words(words_acc(s).0),
        no_ws(words_acc(s).1),
        proper_words(words(s)),
    decreases s.len(),
{
    lemma_words_acc_no_ws(s);
    if s.len() > 0 {
        lemma_words_acc_proper(s.drop_last());
    }
    let (done, cur) = words_acc(s);
    if cur.len() > 0 {
        assert forall|k: int| 0 <= k < done.push(cur).len() implies (#[trigger] done.push(cur)[k]).len() > 0 && no_ws(done.push(cur)[k]) by {
            if k < done.len() {
                assert(done.push(cur)[k] == done[k]);
            }
        }
    }
}

/// Reading characters without whitespace only extends the word in progress.
proof fn lemma_words_acc_extend(s: Seq<char>, t: Seq<char>)
    requires
        no_ws(t),
    ensures
        words_acc(s + t) == (words_acc(s).0, words_acc(s).1 + t),
    decreases t.len(),
{
    if t.len() == 0 {
        assert(s + t =~= s);
        assert(words_acc(s).1 + t =~= words_acc(s).1);
    } else {
        let t0 = t.drop_last();
        assert forall|i: int| 0 <= i < t0.len() implies !is_ws(#[trigger] t0[i]) by {
            assert(t0[i] == t[i]);
        }
        lemma_words_acc_extend(s, t0);
        assert((s + t).drop_last() =~= s + t0);
        assert((s + t).last() == t[t.len() - 1]);
        assert(!is_ws(t[t.len() - 1]));
        assert(words_acc(s).1 + t0 + seq![t.last()] =~= words_acc(s).1 + t);
    }
}

proof fn lemma_words_single(w: Seq<char>)
    requires
        w.len() > 0,
        no_ws(w),
    ensures
        words(w) == seq![w],
{
    lemma_words_acc_extend(seq![], w);
    assert(Seq::<char>::empty() + w =~= w);
    assert(Seq::<char>::empty() + w =~= w);
}

proof fn lemma_words_join(a: Seq<char>, w: Seq<char>)
    requires
        w.len() > 0,
        no_ws(w),
    ensures
        words(join_space(a, w)) == words(a).push(w),
{
    let s = a + seq![' '];
    assert(s.drop_last() =~= a);
    assert(is_ws(' '));
    assert(words_acc(s) == (words(a), Seq::<char>::empty()));
    lemma_words_acc_extend(s, w);
    assert(join_space(a, w) =~= s + w);
    assert(Seq::<char>::empty() + w =~= w);
}

proof fn lemma_fill_words_keeps(ws: Seq<Seq<char>>, width: nat)
    requires
        proper_words(ws),
    ensures
        all_words(fill_words_acc(ws, width).0) + words(fill_words_acc(ws, width).1) == ws,
        fill_words_acc(ws, width).1.len() == 0 ==> ws.len() == 0,
    decreases ws.len(),
{
    if ws.len() == 0 {
        assert(words(Seq::<char>::empty()) =~= Seq::<Seq<char>>::empty());
        assert(all_words(Seq::<Seq<char>>::empty()) + Seq::<Seq<char>>::empty() =~= ws);
    } else {
        let front = ws.drop_last();
        assert forall|k: int| 0 <= k < front.len() implies (#[trigger] front[k]).len() > 0 && no_ws(front[k]) by {
            assert(front[k] == ws[k]);
        }
        lemma_fill_words_keeps(front, width);
        let (done, line) = fill_words_acc(front, width);
        let w = ws.last();
        assert(w == ws[ws.len() - 1]);
        lemma_words_single(w);
        let (done2, line2) = if utf8_len(line) + utf8_len(w) + 1 > width && line.len() > 0 {
            (done.push(line), seq![])
        } else {
            (done, line)
        };
        if utf8_len(line) + utf8_len(w) + 1 > width && line.len() > 0 {
            assert(done.push(line).drop_last() =~= done);
            assert(all_words(done2) == all_words(done) + words(line));
            assert(words(Seq::<char>::empty()) =~= Seq::<Seq<char>>::empty());
        }
        assert(all_words(done2) + words(line2) == front);
        if line2.len() > 0 {
            lemma_words_join(line2, w);
            assert(all_words(done2) + words(line2).push(w) =~= (all_words(done2) + words(line2)).push(w));
        } else {
            assert(words(Seq::<char>::empty()) =~= Seq::<Seq<char>>::empty());
            assert(all_words(done2) =~= all_words(done2) + words(line2));
        }
        assert(front.push(w) =~= ws);
    }
}

proof fn lemma_fill_paragraph_keeps(p: Seq<char>, width: nat)
    ensures
        all_words(fill_paragraph(p, width)) == words(p),
{
    lemma_words_acc_proper(p);
    lemma_fill_words_keeps(words(p), width);
    let (done, line) = fill_words_acc(words(p), width);
    if line.len() > 0 {
        assert(done.push(line).drop_last() =~= done);
    } else {
        assert(words(Seq::<char>::empty()) =~= Seq::<Seq<char>>::empty());
        assert(all_words(done) + words(line) =~= all_words(done));
    }
}

/// The words of the paragraphs, in order.
pub open spec fn para_words(ps: Seq<Seq<char>>) -> Seq<Seq<char>>
    decreases ps.len(),
{
    if ps.len() == 0 {
        seq![]
    } else {
        para_words(ps.drop_last()) + words(ps.last())
    }
}

proof fn lemma_fill_all_keeps(ps: Seq<Seq<char>>, width: nat)
    ensures
        all_words(fill_all(ps, width)) == para_words(ps),
    decreases ps.len(),
{
    if ps.len() > 0 {
        lemma_fill_all_keeps(ps.drop_last(), width);
        lemma_fill_paragraph_keeps(ps.last(), width);
        lemma_all_words_concat(fill_all(ps.drop_last(), width), fill_paragraph(ps.last(), width));
    }
}

/// The panel word wrap loses no text and adds none: the words of the wrapped lines, in
/// order, are the words of the text's `\n`-separated paragraphs, in order (a word longer
/// than the width keeps a line of its own); a text without any word comes back as its
/// one line.
pub proof fn lemma_textwrap_keeps_words(text: Seq<char>, width: nat)
    ensures
        textwrap_simple_spec(text, width).len() >= 1,
        para_words(split(text, '\n')).len() > 0 ==> all_words(textwrap_simple_spec(text, width)) == para_words(
            split(text, '\n'),
        ),
        para_words(split(text, '\n')).len() == 0 ==> textwrap_simple_spec(text, width) == seq![text],
{
    lemma_fill_all_keeps(split(text, '\n'), width);
    if fill_all(split(text, '\n'), width).len() == 0 {
        assert(all_words(fill_all(split(text, '\n'), width)) == Seq::<Seq<char>>::empty());
    } else if para_words(split(text, '\n')).len() == 0 {
        lemma_fill_all_nonempty_has_words(split(text, '\n'), width);
    }
}

proof fn lemma_fill_all_nonempty_has_words(ps: Seq<Seq<char>>, width: nat)
    ensures
        fill_all(ps, width).len() > 0 ==> para_words(ps).len() > 0,
    decreases ps.len(),
{
    if ps.len() > 0 {
        lemma_fill_all_nonempty_has_words(ps.drop_last(), width);
        let p = ps.last();
        lemma_words_acc_proper(p);
        lemma_fill_words_keeps(words(p), width);
        if fill_paragraph(p, width).len() > 0 {
            let (done, line) = fill_words_acc(words(p), width);
            if line.len() == 0 {
                assert(words(p).len() == 0);
                assert(done.len() > 0);
                assert(fill_words_acc(words(p), width) == (Seq::<Seq<char>>::empty(), Seq::<char>::empty()));
            }
        }
    }
}

fn fill_paragraph_exec(p: &[char], width: usize) -> (r: Vec<Vec<char>>)
    ensures
        views(r@) == fill_paragraph(p@, width as nat),
{
    let ws = split_words(p);
    let mut done: Vec<Vec<char>> = Vec::new();
    let mut line: Vec<char> = Vec::new();
    for i in 0..ws.len()
        invariant
            views(ws@) == words(p@),
            (views(done@), line@) == fill_words_acc(views(ws@).take(i as int), width as nat),
    {
        proof {
            assert(views(ws@).take(i + 1).drop_last() == views(ws@).take(i as int));
            assert(views(ws@).take(i + 1).last() == ws@[i as int]@);
        }
        let w = &ws[i];
        if sum_len(&line, w) + 1 > width as u128 && line.len() > 0 {
            proof {
                lemma_views_push(done@, line);
            }
            done.push(line);
            line = Vec::new();
        }
        if line.len() > 0 {
            line.push(' ');
        }
        push_all(&mut line, w);
    }
    assert(views(ws@).take(ws@.len() as int) == views(ws@));
    if line.len() > 0 {
        proof {
            lemma_views_push(done@, line);
        }
        done.push(line);
    }
    done
}

/// Word-wraps `text` for the panel views.
pub fn textwrap_simple(text: &str, width: usize) -> (r: Vec<String>)
    ensures
        str_views(r@) == textwrap_simple_spec(text@, width as nat),
{
    let t = str_chars(text);
    let out = textwrap_simple_chars(&t, width);
    to_strings(&out)
}

/// Word-wraps `text` for the panel views.
pub fn textwrap_simple_chars(text: &[char], width: usize) -> (r: Vec<Vec<char>>)
    ensures
        views(r@) == textwrap_simple_spec(text@, width as nat),
{
    let ps = split_char(text, '\n');
    let mut out: Vec<Vec<char>> = Vec::new();
    for i in 0..ps.len()
        invariant
            views(ps@) == split(text@, '\n'),
            views(out@) == fill_all(views(ps@).take(i as int), width as nat),
    {
        proof {
            assert(views(ps@).take(i + 1).drop_last() == views(ps@).take(i as int));
            assert(views(ps@).take(i + 1).last() == ps@[i as int]@);
        }
        let part = fill_paragraph_exec(&ps[i], width);
        append_lines(&mut out, part);
    }
    assert(views(ps@).take(ps@.len() as int) == views(ps@));
    if out.len() == 0 {
        let v = slice_chars(text, 0, text.len());
        assert(text@.subrange(0, text@.len() as int) == text@);
        out.push(v);
        assert(views(out@) =~= seq![text@]);
    }
    out
}

// ───────────────────────── small extractors ─────────────────────────

/// The trimmed text between the first `start` marker and the next `end` marker after it.
pub open spec fn extract_between_spec(c: Seq<char>, start: Seq<char>, end: Seq<char>) -> Option<
    Seq<char>,
> {
    match spec_find(c, start) {
        None => None,
        Some(i) => {
            let s = i + start.len();
            match spec_find(c.skip(s), end) {
                None => None,
                Some(j) => Some(trim(c.subrange(s, s + j))),
            }
        },
    }
}

/// The trimmed text between `start` and the following `end` in `c`.
pub fn extract_between_chars(c: &[char], start: &[char], end: &[char]) -> (r: Option<Vec<char>>)
    ensures
        match r {
            Some(v) => extract_between_spec(c@, start@, end@) == Some(v@),
            None => extract_between_spec(c@, start@, end@) is None,
        },
{
    let i = match find(c, start) {
        Some(i) => i,
        None => return None,
    };
    proof {
        lemma_find(c@, start@);
    }
    let sl = start.len();
    let cl = c.len();
    assert(i + sl <= cl);
    let s = i + sl;
    let rest = slice_chars(c, s, c.len());
    assert(rest@ == c@.skip(s as int));
    let j = match find(&rest, end) {
        Some(j) => j,
        None => return None,
    };
    proof {
        lemma_find(rest@, end@);
    }
    let mid = slice_chars(&rest, 0, j);
    assert(mid@ == c@.subrange(s as int, s + j));
    Some(trim_ws(&mid))
}

/// The trimmed text between `start` and the following `end` in `c`.
pub fn extract_between(c: &str, start: &str, end: &str) -> (r: Option<String>)
    ensures
        match r {
            Some(v) => extract_between_spec(c@, start@, end@) == Some(v@),
            None => extract_between_spec(c@, start@, end@) is None,
        },
{
    let cv = str_chars(c);
    let sv = str_chars(start);
    let ev = str_chars(end);
    match extract_between_chars(&cv, &sv, &ev) {
        Some(v) => Some(chars_string(&v)),
        None => None,
    }
}

/// A history file name that belongs to a background prompt (heartbeat, wake-up,
/// scheduled, file-system, webhook, mirror or vision trigger) rather than the user.
pub open spec fn is_system_prompt_spec(f: Seq<char>) -> bool {
    ||| contains_seq(f, "heartbeat"@)
    ||| contains_seq(f, "wakeup"@)
    ||| contains_seq(f, "_sched_"@)
    ||| contains_seq(f, "_fs_"@)
    ||| contains_seq(f, "_webhook"@)
    ||| contains_seq(f, "_mirror_"@)
    ||| contains_seq(f, "_vision"@)
}

/// Whether `filename` names a background (non-user) prompt.
pub fn is_system_prompt(filename: &str) -> (r: bool)
    ensures
        r == is_system_prompt_spec(filename@),
{
    let f = str_chars(filename);
    contains(&f, &str_chars("heartbeat")) || contains(&f, &str_chars("wakeup")) || contains(
        &f,
        &str_chars("_sched_"),
    ) || contains(&f, &str_chars("_fs_")) || contains(&f, &str_chars("_webhook")) || contains(
        &f,
        &str_chars("_mirror_"),
    ) || contains(&f, &str_chars("_vision"))
}


// ───────────────────────── splitting at and replacing substrings ─────────────────────────

/// The pieces of `s` between the non-overlapping occurrences of `sep`, found left to
/// right (std's `str::split` with a non-empty `&str` pattern).
pub open spec fn split_str(s: Seq<char>, sep: Seq<char>) -> Seq<Seq<char>>
    decreases s.len(),
{
    if sep.len() == 0 {
        seq![s]
    } else {
        match spec_find(s, sep) {
            Some(i) => {
                proof {
                    lemma_find(s, sep);
                }
                seq![s.take(i)] + split_str(s.skip(i + sep.len()), sep)
            },
            None => seq![s],
        }
    }
}

/// `s` with every occurrence of `from`, found left to right, replaced by `to`
/// (std's `str::replace` with a non-empty pattern).
pub open spec fn replace_spec(s: Seq<char>, from: Seq<char>, to: Seq<char>) -> Seq<char>
    decreases s.len(),
{
    if from.len() == 0 {
        s
    } else {
        match spec_find(s, from) {
            Some(i) => {
                proof {
                    lemma_find(s, from);
                }
                s.take(i) + to + replace_spec(s.skip(i + from.len()), from, to)
            },
            None => s,
        }
    }
}

/// The pieces of `s` separated by the non-empty `sep`.
pub fn split_at_str(s: &[char], sep: &[char]) -> (r: Vec<Vec<char>>)
    requires
        sep@.len() > 0,
    ensures
        views(r@) == split_str(s@, sep@),
{
    let mut done: Vec<Vec<char>> = Vec::new();
    let mut rest: Vec<char> = slice_chars(s, 0, s.len());
    assert(s@.subrange(0, s@.len() as int) == s@);
    loop
        invariant
            sep@.len() > 0,
            split_str(s@, sep@) == views(done@) + split_str(rest@, sep@),
        decreases rest@.len(),
    {
        match find(&rest, sep) {
            Some(i) => {
                proof {
                    lemma_find(rest@, sep@);
                }
                let piece = slice_chars(&rest, 0, i);
                let sl = sep.len();
                let rl = rest.len();
                assert(i + sl <= rl);
                let next = slice_chars(&rest, i + sl, rl);
                proof {
                    lemma_views_push(done@, piece);
                    assert(split_str(rest@, sep@) == seq![piece@] + split_str(next@, sep@));
                    assert(views(done@) + (seq![piece@] + split_str(next@, sep@)) == views(
                        done@,
                    ).push(piece@) + split_str(next@, sep@));
                }
                done.push(piece);
                rest = next;
            },
            None => {
                proof {
                    lemma_views_push(done@, rest);
                }
                done.push(rest);
                return done;
            },
        }
    }
}

/// `s` with each occurrence of the non-empty `from` replaced by `to`.
pub fn replace_all(s: &[char], from: &[char], to: &[char]) -> (r: Vec<char>)
    requires
        from@.len() > 0,
    ensures
        r@ == replace_spec(s@, from@, to@),
{
    let mut out: Vec<char> = Vec::new();
    let mut rest: Vec<char> = slice_chars(s, 0, s.len());
    assert(s@.subrange(0, s@.len() as int) == s@);
    loop
        invariant
            from@.len() > 0,
            replace_spec(s@, from@, to@) == out@ + replace_spec(rest@, from@, to@),
        decreases rest@.len(),
    {
        match find(&rest, from) {
            Some(i) => {
                proof {
                    lemma_find(rest@, from@);
                }
                let piece = slice_chars(&rest, 0, i);
                let fl = from.len();
                let rl = rest.len();
                assert(i + fl <= rl);
                let next = slice_chars(&rest, i + fl, rl);
                let ghost o = out@;
                push_all(&mut out, &piece);
                push_all(&mut out, to);
                assert(o + (piece@ + to@ + replace_spec(next@, from@, to@)) == out@ + replace_spec(
                    next@,
                    from@,
                    to@,
                ));
                rest = next;
            },
            None => {
                push_all(&mut out, &rest);
                return out;
            },
        }
    }
}

/// `c` lower-cased when it is an ASCII capital letter.
pub open spec fn ascii_lower_char(c: char) -> char {
    if 'A' <= c && c <= 'Z' {
        ((c as u32) + 32) as char
    } else {
        c
    }
}

/// `s` with its ASCII capitals lower-cased.
pub open spec fn ascii_lower(s: Seq<char>) -> Seq<char> {
    s.map_values(|c: char| ascii_lower_char(c))
}

/// `s` with its ASCII capitals lower-cased.
pub fn to_ascii_lower(s: &[char]) -> (r: Vec<char>)
    ensures
        r@ == ascii_lower(s@),
{
    let mut r: Vec<char> = Vec::new();
    for i in 0..s.len()
        invariant
            r@ == ascii_lower(s@.take(i as int)),
    {
        let c = s[i];
        let l = if 'A' <= c && c <= 'Z' {
            ((c as u32) + 32) as u8 as char
        } else {
            c
        };
        assert(ascii_lower(s@.take(i + 1)) =~= ascii_lower(s@.take(i as int)).push(
            ascii_lower_char(c),
        ));
        r.push(l);
    }
    assert(s@.take(s@.len() as int) == s@);
    r
}

/// The lines `ls` joined with `\n` between them.
pub open spec fn join_lines(ls: Seq<Seq<char>>) -> Seq<char>
    decreases ls.len(),
{
    if ls.len() == 0 {
        seq![]
    } else if ls.len() == 1 {
        ls[0]
    } else {
        join_lines(ls.drop_last()) + seq!['\n'] + ls.last()
    }
}

/// The lines joined with `\n`.
pub fn join_with_newlines(ls: &[Vec<char>]) -> (r: Vec<char>)
    ensures
        r@ == join_lines(views(ls@)),
{
    let ghost vs = views(ls@);
    let mut r: Vec<char> = Vec::new();
    for i in 0..ls.len()
        invariant
            vs == views(ls@),
            r@ == join_lines(vs.take(i as int)),
    {
        assert(vs.take(i + 1).drop_last() == vs.take(i as int));
        assert(vs[i as int] == ls@[i as int]@);
        if i > 0 {
            r.push('\n');
        } else {
            assert(vs.take(1) == seq![vs[0]]);
        }
        push_all(&mut r, &ls[i]);
    }
    assert(vs.take(ls@.len() as int) == vs);
    r
}

} // verus!
