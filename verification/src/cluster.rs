//! Reading the `neil-cluster status --json` snapshot: a small hand-written scanner for
//! the fields the cluster panel shows, and the layout decisions made from them.
use vstd::prelude::*;
use crate::text::{
    chars_string, find, lemma_views_push, views, find_char, has_prefix, is_digit, is_whitespace, is_ws, lemma_find,
    occurs_at, parse_uint_spec, parse_usize, push_all, slice_chars, spec_find, starts_with, str_chars,
    trim_start, trim_start_ws,
};

verus! {

// ───────────────────────── character classes ─────────────────────────

/// std's `char::is_alphanumeric`: the Unicode `Alphabetic` or `Numeric` property.
pub uninterp spec fn unicode_alphanumeric(c: char) -> bool;

/// An ASCII letter or digit.
pub open spec fn ascii_alphanumeric(c: char) -> bool {
    ('a' <= c && c <= 'z') || ('A' <= c && c <= 'Z') || ('0' <= c && c <= '9')
}

/// Whether `c` is alphanumeric (std's `char::is_alphanumeric`). Claimed: the result is
/// `unicode_alphanumeric(c)`, and on ASCII it holds exactly for the letters and digits
/// (the ASCII letters are Alphabetic, the ASCII digits Numeric, and no other ASCII
/// character is either).
#[verifier::external_body]
fn char_is_alphanumeric(c: char) -> (r: bool)
    ensures
        r == unicode_alphanumeric(c),
        (c as u32) < 128 ==> (r <==> ascii_alphanumeric(c)),
{
    c.is_alphanumeric()
}

/// A character that may appear in an unquoted JSON value (number, boolean).
pub open spec fn token_char(c: char) -> bool {
    (if (c as u32) < 128 {
        ascii_alphanumeric(c)
    } else {
        unicode_alphanumeric(c)
    }) || c == '.' || c == '-'
}

/// The leading run of token characters of `s`.
pub open spec fn token_prefix(s: Seq<char>) -> Seq<char>
    decreases s.len(),
{
    if s.len() > 0 && token_char(s[0]) {
        seq![s[0]] + token_prefix(s.drop_first())
    } else {
        seq![]
    }
}

// ───────────────────────── field lookup ─────────────────────────

/// `field` wrapped in double quotes, as it appears as a JSON key.
pub open spec fn quoted(field: Seq<char>) -> Seq<char> {
    seq!['"'] + field + seq!['"']
}

/// The text after the first `key` and the `:` that follows it, leading whitespace removed.
pub open spec fn after_key(obj: Seq<char>, key: Seq<char>) -> Option<Seq<char>> {
    match spec_find(obj, key) {
        None => None,
        Some(i) => {
            let rest = obj.skip(i + key.len());
            match spec_find(rest, seq![':']) {
                None => None,
                Some(c) => Some(trim_start(rest.skip(c + 1))),
            }
        },
    }
}

/// The value at the start of `after`: the text of a quoted string up to the next quote,
/// nothing for `null`, otherwise the leading run of token characters (nothing if empty).
pub open spec fn field_value(after: Seq<char>) -> Option<Seq<char>> {
    if starts_with(after, seq!['"']) {
        let inner = after.drop_first();
        match spec_find(inner, seq!['"']) {
            None => None,
            Some(e) => Some(inner.take(e)),
        }
    } else if starts_with(after, "null"@) {
        None
    } else {
        let t = token_prefix(after);
        if t.len() == 0 {
            None
        } else {
            Some(t)
        }
    }
}

/// The value of the first `"field":` in `obj`.
pub open spec fn obj_field_spec(obj: Seq<char>, field: Seq<char>) -> Option<Seq<char>> {
    match after_key(obj, quoted(field)) {
        None => None,
        Some(a) => field_value(a),
    }
}

/// `o`'s value, or `d` when there is none.
pub open spec fn or_default(o: Option<Seq<char>>, d: Seq<char>) -> Seq<char> {
    match o {
        Some(v) => v,
        None => d,
    }
}

fn quote_field(field: &[char]) -> (r: Vec<char>)
    ensures
        r@ == quoted(field@),
{
    let mut r: Vec<char> = Vec::new();
    r.push('"');
    push_all(&mut r, field);
    r.push('"');
    assert(r@ =~= quoted(field@));
    r
}

fn after_key_exec(obj: &[char], key: &[char]) -> (r: Option<Vec<char>>)
    ensures
        match r {
            Some(v) => after_key(obj@, key@) == Some(v@),
            None => after_key(obj@, key@) is None,
        },
{
    let i = match find(obj, key) {
        Some(i) => i,
        None => return None,
    };
    proof {
        lemma_find(obj@, key@);
    }
    let kl = key.len();
    let ol = obj.len();
    assert(i + kl <= ol);
    let rest = slice_chars(obj, i + kl, ol);
    assert(rest@ == obj@.skip(i + key@.len()));
    let c = match find_char(&rest, ':') {
        Some(c) => c,
        None => return None,
    };
    proof {
        lemma_find(rest@, seq![':']);
    }
    let tail = slice_chars(&rest, c + 1, rest.len());
    assert(tail@ == rest@.skip(c + 1));
    Some(trim_start_ws(&tail))
}

fn token_prefix_exec(s: &[char]) -> (r: Vec<char>)
    ensures
        r@ == token_prefix(s@),
{
    let mut r: Vec<char> = Vec::new();
    let mut i: usize = 0;
    assert(s@.skip(0) == s@);
    loop
        invariant
            0 <= i <= s@.len(),
            token_prefix(s@) == r@ + token_prefix(s@.skip(i as int)),
        decreases s.len() - i,
    {
        if i == s.len() {
            assert(r@ + token_prefix(s@.skip(i as int)) == r@);
            return r;
        }
        let c = s[i];
        if !(char_is_alphanumeric(c) || c == '.' || c == '-') {
            assert(token_prefix(s@.skip(i as int)) == Seq::<char>::empty());
            assert(r@ + Seq::<char>::empty() == r@);
            return r;
        }
        proof {
            assert(s@.skip(i as int).drop_first() == s@.skip(i + 1));
            assert(r@ + (seq![c] + token_prefix(s@.skip(i + 1))) == r@.push(c) + token_prefix(
                s@.skip(i + 1),
            ));
        }
        r.push(c);
        i += 1;
    }
}

fn field_value_exec(after: &[char]) -> (r: Option<Vec<char>>)
    ensures
        match r {
            Some(v) => field_value(after@) == Some(v@),
            None => field_value(after@) is None,
        },
{
    let q = vec!['"'];
    assert(q@ == seq!['"']);
    if has_prefix(after, &q) {
        let inner = slice_chars(after, 1, after.len());
        assert(inner@ == after@.drop_first());
        match find_char(&inner, '"') {
            Some(e) => {
                proof {
                    lemma_find(inner@, seq!['"']);
                }
                Some(slice_chars(&inner, 0, e))
            },
            None => None,
        }
    } else if has_prefix(after, &str_chars("null")) {
        None
    } else {
        let t = token_prefix_exec(after);
        if t.len() == 0 {
            None
        } else {
            Some(t)
        }
    }
}

/// The value of the first `"field":` in `obj` (string contents, or an unquoted token).
pub fn extract_obj_field_chars(obj: &[char], field: &[char]) -> (r: Option<Vec<char>>)
    ensures
        match r {
            Some(v) => obj_field_spec(obj@, field@) == Some(v@),
            None => obj_field_spec(obj@, field@) is None,
        },
{
    let key = quote_field(field);
    match after_key_exec(obj, &key) {
        Some(a) => field_value_exec(&a),
        None => None,
    }
}

/// The value of the first `"field":` in `obj`.
pub fn extract_obj_field(obj: &str, field: &str) -> (r: Option<String>)
    ensures
        match r {
            Some(v) => obj_field_spec(obj@, field@) == Some(v@),
            None => obj_field_spec(obj@, field@) is None,
        },
{
    let o = str_chars(obj);
    let f = str_chars(field);
    match extract_obj_field_chars(&o, &f) {
        Some(v) => Some(chars_string(&v)),
        None => None,
    }
}

/// The field `field` of `obj`, or `default` when absent.
fn field_or(obj: &[char], field: &str, default: &str) -> (r: String)
    ensures
        r@ == or_default(obj_field_spec(obj@, field@), default@),
{
    let f = str_chars(field);
    match extract_obj_field_chars(obj, &f) {
        Some(v) => chars_string(&v),
        None => default.to_owned(),
    }
}

/// The string value of the first `key` (given with its quotes): after the key, its
/// colon and any whitespace, a quoted text; `None` when the value there is not a string.
pub open spec fn string_after_spec(json: Seq<char>, key: Seq<char>) -> Option<Seq<char>> {
    match after_key(json, key) {
        None => None,
        Some(a) => if a.len() > 0 && a[0] == '"' {
            let rest = a.skip(1);
            match spec_find(rest, seq!['"']) {
                None => None,
                Some(e) => Some(rest.take(e)),
            }
        } else {
            None
        },
    }
}

/// The string value of `key` (a key given with its quotes) in a `"key":"value"` pair.
pub fn extract_string(json: &str, key: &str) -> (r: Option<String>)
    ensures
        match r {
            Some(v) => string_after_spec(json@, key@) == Some(v@),
            None => string_after_spec(json@, key@) is None,
        },
{
    let j = str_chars(json);
    let k = str_chars(key);
    let a = match after_key_exec(&j, &k) {
        Some(a) => a,
        None => return None,
    };
    let al = a.len();
    if al == 0 || a[0] != '"' {
        return None;
    }
    let rest = slice_chars(&a, 1, al);
    let e = match find_char(&rest, '"') {
        Some(e) => e,
        None => return None,
    };
    proof {
        lemma_find(rest@, seq!['"']);
    }
    Some(chars_string(&slice_chars(&rest, 0, e)))
}

/// The digits of a number at the start of `s` (sign and whitespace before them skipped),
/// appended to `acc`.
pub open spec fn number_scan(s: Seq<char>, acc: Seq<char>) -> Seq<char>
    decreases s.len(),
{
    if s.len() == 0 {
        acc
    } else if is_digit(s[0]) {
        number_scan(s.drop_first(), acc.push(s[0]))
    } else if acc.len() > 0 {
        acc
    } else if s[0] == '-' || is_ws(s[0]) {
        number_scan(s.drop_first(), acc)
    } else {
        acc
    }
}

/// The unsigned number that follows `key` (given with its quotes) and its colon.
pub open spec fn number_after_spec(json: Seq<char>, key: Seq<char>) -> Option<nat> {
    match after_key(json, key) {
        None => None,
        Some(a) => parse_uint_spec(number_scan(a, seq![]), usize::MAX as nat),
    }
}

/// The digits that `number_scan` collects from `a`.
fn number_digits(a: &[char]) -> (n: Vec<char>)
    ensures
        n@ == number_scan(a@, seq![]),
{
    let mut n: Vec<char> = Vec::new();
    let mut i: usize = 0;
    assert(a@.skip(0) == a@);
    loop
        invariant
            0 <= i <= a@.len(),
            number_scan(a@, seq![]) == number_scan(a@.skip(i as int), n@),
        decreases a.len() - i,
    {
        if i == a.len() {
            return n;
        }
        let c = a[i];
        assert(a@.skip(i as int).drop_first() == a@.skip(i + 1));
        if '0' <= c && c <= '9' {
            n.push(c);
        } else if n.len() > 0 {
            return n;
        } else if c == '-' || is_whitespace(c) {
        } else {
            return n;
        }
        i += 1;
    }
}

/// The unsigned number that follows `key` and its colon.
pub fn extract_number(json: &str, key: &str) -> (r: Option<usize>)
    ensures
        match r {
            Some(v) => number_after_spec(json@, key@) == Some(v as nat),
            None => number_after_spec(json@, key@) is None,
        },
{
    let j = str_chars(json);
    let k = str_chars(key);
    let a = match after_key_exec(&j, &k) {
        Some(a) => a,
        None => return None,
    };
    let n = number_digits(&a);
    parse_usize(&n)
}

// ───────────────────────── nesting ─────────────────────────

/// Nesting change of one character: braces, and with `both` also square brackets.
pub open spec fn delta(c: char, both: bool) -> int {
    if c == '{' || (both && c == '[') {
        1
    } else if c == '}' || (both && c == ']') {
        -1
    } else {
        0
    }
}

/// Nesting depth after reading `s`.
pub open spec fn nest(s: Seq<char>, both: bool) -> int
    decreases s.len(),
{
    if s.len() == 0 {
        0
    } else {
        nest(s.drop_last(), both) + delta(s.last(), both)
    }
}

/// First position at or after `i` where the depth is back to zero.
pub open spec fn close_from(s: Seq<char>, both: bool, i: int) -> Option<int>
    decreases s.len() - i,
{
    if i < 0 || i >= s.len() {
        None
    } else if nest(s.take(i + 1), both) == 0 {
        Some(i)
    } else {
        close_from(s, both, i + 1)
    }
}

/// Position of the character that closes the group opened at the start of `s`.
pub open spec fn close_index(s: Seq<char>, both: bool) -> Option<int> {
    close_from(s, both, 0)
}

fn close_index_exec(body: &[char], both: bool) -> (r: Option<usize>)
    requires
        body@.len() > 0,
        delta(body@[0], both) == 1,
    ensures
        match r {
            Some(e) => close_index(body@, both) == Some(e as int) && e < body@.len(),
            None => close_index(body@, both) is None,
        },
{
    let mut depth: usize = 0;
    let mut i: usize = 0;
    assert(body@.take(0) =~= Seq::<char>::empty());
    while i < body.len()
        invariant
            0 <= i <= body@.len(),
            depth == nest(body@.take(i as int), both),
            depth <= i,
            i > 0 ==> depth >= 1,
            i == 0 ==> delta(body@[0], both) == 1,
            close_index(body@, both) == close_from(body@, both, i as int),
        decreases body.len() - i,
    {
        let c = body[i];
        assert(body@.take(i + 1).drop_last() == body@.take(i as int));
        if c == '{' || (both && c == '[') {
            depth += 1;
        } else if c == '}' || (both && c == ']') {
            depth -= 1;
            if depth == 0 {
                return Some(i);
            }
        }
        i += 1;
    }
    None
}

/// The matching close brace of the `main` object, counted from its opening brace.
pub open spec fn main_body_spec(json: Seq<char>) -> Option<Seq<char>> {
    match spec_find(json, "\"main\""@) {
        None => None,
        Some(m) => {
            let am = json.skip(m);
            match spec_find(am, seq!['{']) {
                None => None,
                Some(b) => {
                    let body = am.skip(b);
                    match close_index(body, false) {
                        None => None,
                        Some(e) => if e == 0 {
                            None
                        } else {
                            Some(body.take(e + 1))
                        },
                    }
                },
            }
        },
    }
}

proof fn lemma_nest_step(s: Seq<char>, both: bool, k: int)
    requires
        0 <= k < s.len(),
    ensures
        nest(s.take(k + 1), both) == nest(s.take(k), both) + delta(s[k], both),
{
    assert(s.take(k + 1).drop_last() =~= s.take(k));
    assert(s.take(k + 1).last() == s[k]);
}

proof fn lemma_close_from(s: Seq<char>, both: bool, i: int)
    requires
        0 <= i,
    ensures
        close_from(s, both, i) matches Some(e) ==> i <= e < s.len() && nest(s.take(e + 1), both) == 0 && forall|j: int|
            i <= j < e ==> #[trigger] nest(s.take(j + 1), both) != 0,
    decreases s.len() - i,
{
    if i < s.len() && nest(s.take(i + 1), both) != 0 {
        lemma_close_from(s, both, i + 1);
    }
}

/// While the group opened by the first character is open, the depth stays positive.
proof fn lemma_open_until_close(s: Seq<char>, e: int, k: int)
    requires
        s.len() > 0,
        s[0] == '{',
        0 <= e < s.len(),
        forall|j: int| 0 <= j < e ==> #[trigger] nest(s.take(j + 1), false) != 0,
        1 <= k <= e,
    ensures
        nest(s.take(k), false) > 0,
    decreases k,
{
    lemma_nest_step(s, false, k - 1);
    if k == 1 {
        assert(s.take(0) =~= Seq::<char>::empty());
    } else {
        lemma_open_until_close(s, e, k - 1);
        assert(nest(s.take(k), false) != 0);
    }
}

/// MAIN's object is read exactly: it is the text from the first `{` after the first
/// `"main"` up to the `}` that closes it (the depth of braces stays above zero inside
/// and is back to zero at its end), so a field of MAIN is one found in that text, and a
/// field absent from that text is not found.
pub proof fn lemma_main_body(json: Seq<char>, field: Seq<char>)
    ensures
        main_body_spec(json) matches Some(b) ==> {
            &&& b.len() >= 2
            &&& b[0] == '{'
            &&& b[b.len() - 1] == '}'
            &&& nest(b, false) == 0
            &&& forall|k: int| 1 <= k < b.len() ==> #[trigger] nest(b.take(k), false) > 0
            &&& spec_find(json, "\"main\""@) matches Some(m) && exists|p: int|
                #![trigger json.subrange(p, p + b.len())]
                m <= p && p + b.len() <= json.len() && json.subrange(p, p + b.len()) == b && forall|q: int|
                    m <= q < p ==> #[trigger] json[q] != '{'
        },
        main_field_spec(json, field) matches Some(v) ==> main_body_spec(json) matches Some(b) && obj_field_spec(b, field)
            == Some(v),
        main_body_spec(json) matches Some(b) ==> main_field_spec(json, field) == obj_field_spec(b, field),
        main_body_spec(json) is None ==> main_field_spec(json, field) is None,
{
    if let Some(b) = main_body_spec(json) {
        let m = spec_find(json, "\"main\""@)->0;
        lemma_find(json, "\"main\""@);
        let am = json.skip(m);
        let o = spec_find(am, seq!['{'])->0;
        lemma_find(am, seq!['{']);
        let body = am.skip(o);
        let e = close_index(body, false)->0;
        lemma_close_from(body, false, 0);
        assert(am.subrange(o, o + 1) == seq!['{']);
        assert(body[0] == am[o]);
        assert(am[o] == '{');
        assert(b =~= body.take(e + 1));
        assert(e > 0);
        lemma_nest_step(body, false, e);
        lemma_open_until_close(body, e, e);
        assert(nest(body.take(e), false) > 0);
        assert(delta(body[e], false) == -1);
        assert(body[e] == '}');
        assert(b[b.len() - 1] == body[e]);
        assert(b.take(b.len() as int) =~= b);
        assert forall|k: int| 1 <= k < b.len() implies #[trigger] nest(b.take(k), false) > 0 by {
            lemma_open_until_close(body, e, k);
            assert(b.take(k) =~= body.take(k));
        }
        let p = m + o;
        assert(json.subrange(p, p + b.len()) =~= b);
        assert forall|q: int| m <= q < p implies #[trigger] json[q] != '{' by {
            if json[q] == '{' {
                assert(am[q - m] == json[q]);
                assert(am.subrange(q - m, q - m + 1) =~= seq!['{']);
                assert(occurs_at(am, seq!['{'], q - m));
                assert(0 <= q - m < o);
            }
        }
        assert(m <= p && p + b.len() <= json.len() && json.subrange(p, p + b.len()) == b && forall|q: int|
            m <= q < p ==> #[trigger] json[q] != '{');
    }
}

/// The field `field` of the `"main"` object.
pub open spec fn main_field_spec(json: Seq<char>, field: Seq<char>) -> Option<Seq<char>> {
    match main_body_spec(json) {
        None => None,
        Some(b) => obj_field_spec(b, field),
    }
}

fn main_body_exec(json: &[char]) -> (r: Option<Vec<char>>)
    ensures
        match r {
            Some(v) => main_body_spec(json@) == Some(v@),
            None => main_body_spec(json@) is None,
        },
{
    let m = match find(json, &str_chars("\"main\"")) {
        Some(m) => m,
        None => return None,
    };
    proof {
        lemma_find(json@, "\"main\""@);
    }
    let am = slice_chars(json, m, json.len());
    let b = match find_char(&am, '{') {
        Some(b) => b,
        None => return None,
    };
    proof {
        lemma_find(am@, seq!['{']);
    }
    let body = slice_chars(&am, b, am.len());
    assert(body@ == am@.skip(b as int));
    let e = match close_index_exec(&body, false) {
        Some(e) => e,
        None => return None,
    };
    if e == 0 {
        return None;
    }
    Some(slice_chars(&body, 0, e + 1))
}

/// The field `field` of the `"main"` object of the snapshot.
pub fn extract_main_field_chars(json: &[char], field: &[char]) -> (r: Option<Vec<char>>)
    ensures
        match r {
            Some(v) => main_field_spec(json@, field@) == Some(v@),
            None => main_field_spec(json@, field@) is None,
        },
{
    match main_body_exec(json) {
        Some(b) => extract_obj_field_chars(&b, field),
        None => None,
    }
}

/// The field `field` of the `"main"` object of the snapshot.
pub fn extract_main_field(json: &str, field: &str) -> (r: Option<String>)
    ensures
        match r {
            Some(v) => main_field_spec(json@, field@) == Some(v@),
            None => main_field_spec(json@, field@) is None,
        },
{
    let j = str_chars(json);
    let f = str_chars(field);
    match extract_main_field_chars(&j, &f) {
        Some(v) => Some(chars_string(&v)),
        None => None,
    }
}


// ───────────────────────── arrays of objects ─────────────────────────

/// The inside of the array that follows the first `key`: from the first `[` after the key
/// to its matching close, brackets and braces both counted.
pub open spec fn array_body_spec(json: Seq<char>, key: Seq<char>) -> Option<Seq<char>> {
    match spec_find(json, key) {
        None => None,
        Some(i) => {
            let after = json.skip(i);
            match spec_find(after, seq!['[']) {
                None => None,
                Some(b) => {
                    let body = after.skip(b);
                    match close_index(body, true) {
                        None => None,
                        Some(e) => if e == 0 {
                            None
                        } else {
                            Some(body.subrange(1, e))
                        },
                    }
                },
            }
        },
    }
}

/// Scanning state after the first `k` characters of `arr`: brace depth, start of the
/// object being read, objects completed so far.
pub open spec fn objects_state(arr: Seq<char>, k: int) -> (int, int, Seq<Seq<char>>)
    decreases k,
{
    if k <= 0 {
        (0, 0, seq![])
    } else {
        let (d, st, objs) = objects_state(arr, k - 1);
        let c = arr[k - 1];
        if c == '{' {
            (d + 1, if d == 0 {
                k - 1
            } else {
                st
            }, objs)
        } else if c == '}' {
            if d - 1 == 0 {
                (d - 1, st, objs.push(arr.subrange(st, k)))
            } else {
                (d - 1, st, objs)
            }
        } else {
            (d, st, objs)
        }
    }
}

/// The top-level `{...}` objects of `arr`, in order.
pub open spec fn top_objects(arr: Seq<char>) -> Seq<Seq<char>> {
    objects_state(arr, arr.len() as int).2
}

/// The objects of the array that follows `key` (none when there is no such array).
pub open spec fn array_objects_spec(json: Seq<char>, key: Seq<char>) -> Seq<Seq<char>> {
    match array_body_spec(json, key) {
        None => seq![],
        Some(arr) => top_objects(arr),
    }
}

fn array_body_exec(json: &[char], key: &[char]) -> (r: Option<Vec<char>>)
    ensures
        match r {
            Some(v) => array_body_spec(json@, key@) == Some(v@),
            None => array_body_spec(json@, key@) is None,
        },
{
    let i = match find(json, key) {
        Some(i) => i,
        None => return None,
    };
    proof {
        lemma_find(json@, key@);
    }
    let after = slice_chars(json, i, json.len());
    let b = match find_char(&after, '[') {
        Some(b) => b,
        None => return None,
    };
    proof {
        lemma_find(after@, seq!['[']);
    }
    let body = slice_chars(&after, b, after.len());
    assert(body@ == after@.skip(b as int));
    let e = match close_index_exec(&body, true) {
        Some(e) => e,
        None => return None,
    };
    if e == 0 {
        return None;
    }
    Some(slice_chars(&body, 1, e))
}

/// The top-level objects of `arr`.
pub fn top_objects_exec(arr: &[char]) -> (r: Vec<Vec<char>>)
    ensures
        views(r@) == top_objects(arr@),
{
    let mut depth: i128 = 0;
    let mut start: usize = 0;
    let mut objs: Vec<Vec<char>> = Vec::new();
    let mut i: usize = 0;
    while i < arr.len()
        invariant
            0 <= i <= arr@.len(),
            (depth as int, start as int, views(objs@)) == objects_state(arr@, i as int),
            -(i as int) <= depth <= i,
            depth >= 1 ==> start < i,
        decreases arr.len() - i,
    {
        let c = arr[i];
        if c == '{' {
            if depth == 0 {
                start = i;
            }
            depth = depth + 1;
        } else if c == '}' {
            depth = depth - 1;
            if depth == 0 {
                let o = slice_chars(arr, start, i + 1);
                proof {
                    lemma_views_push(objs@, o);
                }
                objs.push(o);
            }
        }
        i += 1;
    }
    objs
}

/// The objects of the array that follows `key` in `json`.
pub fn array_objects(json: &[char], key: &[char]) -> (r: Vec<Vec<char>>)
    ensures
        views(r@) == array_objects_spec(json@, key@),
{
    match array_body_exec(json, key) {
        Some(arr) => top_objects_exec(&arr),
        None => {
            let r: Vec<Vec<char>> = Vec::new();
            assert(views(r@) =~= seq![]);
            r
        },
    }
}

// ───────────────────────── records ─────────────────────────

/// A peer machine of the cluster.
#[derive(Clone, Debug)]
pub struct PeerInstance {
    pub name: String,
    pub ip: String,
    pub image: String,
    pub status: String,
}

/// A temporary Neil instance.
#[derive(Debug)]
pub struct TempInstance {
    pub name: String,
    pub persona: String,
    pub memory_type: String,
    pub status: String,
    pub uptime_sec: String,
    pub current_task: String,
    pub proposed_memories: Option<usize>,
}

/// An entry of the cluster's recent-events log.
#[derive(Debug)]
pub struct RecentEvent {
    pub ts: String,
    pub event: String,
    pub id: String,
    pub detail: String,
}

/// The peer described by the object `obj`; missing fields read as `""` for the name and
/// `"?"` otherwise.
pub open spec fn peer_matches(p: PeerInstance, obj: Seq<char>) -> bool {
    &&& p.name@ == or_default(obj_field_spec(obj, "name"@), ""@)
    &&& p.ip@ == or_default(obj_field_spec(obj, "ip"@), "?"@)
    &&& p.image@ == or_default(obj_field_spec(obj, "image"@), "?"@)
    &&& p.status@ == or_default(obj_field_spec(obj, "status"@), "?"@)
}

/// The temp instance described by `obj`, with the defaults the panel shows.
pub open spec fn temp_matches(t: TempInstance, obj: Seq<char>) -> bool {
    &&& t.name@ == or_default(obj_field_spec(obj, "name"@), ""@)
    &&& t.persona@ == or_default(obj_field_spec(obj, "persona"@), "minimal"@)
    &&& t.memory_type@ == or_default(obj_field_spec(obj, "memory_type"@), "ephemeral"@)
    &&& t.status@ == or_default(obj_field_spec(obj, "status"@), "active"@)
    &&& t.uptime_sec@ == or_default(obj_field_spec(obj, "uptime_sec"@), "0"@)
    &&& t.current_task@ == or_default(obj_field_spec(obj, "current_task"@), ""@)
    &&& t.proposed_memories == match obj_field_spec(obj, "proposed_memories"@) {
        None => None,
        Some(v) => match parse_uint_spec(v, usize::MAX as nat) {
            Some(n) => Some(n as usize),
            None => None,
        },
    }
}

/// The event described by `obj`; missing fields read as `""`.
pub open spec fn event_matches(e: RecentEvent, obj: Seq<char>) -> bool {
    &&& e.ts@ == or_default(obj_field_spec(obj, "ts"@), ""@)
    &&& e.event@ == or_default(obj_field_spec(obj, "event"@), ""@)
    &&& e.id@ == or_default(obj_field_spec(obj, "id"@), ""@)
    &&& e.detail@ == or_default(obj_field_spec(obj, "detail"@), ""@)
}

/// The peers listed under `"peers"` in the snapshot.
pub fn parse_peers(json: &str) -> (r: Vec<PeerInstance>)
    ensures
        r@.len() == array_objects_spec(json@, "\"peers\""@).len(),
        forall|i: int|
            0 <= i < r@.len() ==> peer_matches(
                #[trigger] r@[i],
                array_objects_spec(json@, "\"peers\""@)[i],
            ),
{
    let j = str_chars(json);
    let objs = array_objects(&j, &str_chars("\"peers\""));
    let mut out: Vec<PeerInstance> = Vec::new();
    for i in 0..objs.len()
        invariant
            views(objs@) == array_objects_spec(json@, "\"peers\""@),
            out@.len() == i,
            forall|k: int| 0 <= k < i ==> peer_matches(#[trigger] out@[k], objs@[k]@),
    {
        let o = &objs[i];
        let p = PeerInstance {
            name: field_or(o, "name", ""),
            ip: field_or(o, "ip", "?"),
            image: field_or(o, "image", "?"),
            status: field_or(o, "status", "?"),
        };
        out.push(p);
    }
    proof {
        assert forall|i: int| 0 <= i < out@.len() implies peer_matches(
            #[trigger] out@[i],
            array_objects_spec(json@, "\"peers\""@)[i],
        ) by {
            assert(views(objs@)[i] == objs@[i]@);
        }
    }
    out
}

/// The temporary instances listed under `"temps"` in the snapshot.
pub fn parse_temps(json: &str) -> (r: Vec<TempInstance>)
    ensures
        r@.len() == array_objects_spec(json@, "\"temps\""@).len(),
        forall|i: int|
            0 <= i < r@.len() ==> temp_matches(
                #[trigger] r@[i],
                array_objects_spec(json@, "\"temps\""@)[i],
            ),
{
    let j = str_chars(json);
    let objs = array_objects(&j, &str_chars("\"temps\""));
    let mut out: Vec<TempInstance> = Vec::new();
    for i in 0..objs.len()
        invariant
            views(objs@) == array_objects_spec(json@, "\"temps\""@),
            out@.len() == i,
            forall|k: int| 0 <= k < i ==> temp_matches(#[trigger] out@[k], objs@[k]@),
    {
        let o = &objs[i];
        let pm = match extract_obj_field_chars(o, &str_chars("proposed_memories")) {
            Some(v) => parse_usize(&v),
            None => None,
        };
        let t = TempInstance {
            name: field_or(o, "name", ""),
            persona: field_or(o, "persona", "minimal"),
            memory_type: field_or(o, "memory_type", "ephemeral"),
            status: field_or(o, "status", "active"),
            uptime_sec: field_or(o, "uptime_sec", "0"),
            current_task: field_or(o, "current_task", ""),
            proposed_memories: pm,
        };
        out.push(t);
    }
    proof {
        assert forall|i: int| 0 <= i < out@.len() implies temp_matches(
            #[trigger] out@[i],
            array_objects_spec(json@, "\"temps\""@)[i],
        ) by {
            assert(views(objs@)[i] == objs@[i]@);
        }
    }
    out
}

/// The events listed under `"recent"` in the snapshot.
pub fn parse_recent(json: &str) -> (r: Vec<RecentEvent>)
    ensures
        r@.len() == array_objects_spec(json@, "\"recent\""@).len(),
        forall|i: int|
            0 <= i < r@.len() ==> event_matches(
                #[trigger] r@[i],
                array_objects_spec(json@, "\"recent\""@)[i],
            ),
{
    let j = str_chars(json);
    let objs = array_objects(&j, &str_chars("\"recent\""));
    let mut out: Vec<RecentEvent> = Vec::new();
    for i in 0..objs.len()
        invariant
            views(objs@) == array_objects_spec(json@, "\"recent\""@),
            out@.len() == i,
            forall|k: int| 0 <= k < i ==> event_matches(#[trigger] out@[k], objs@[k]@),
    {
        let o = &objs[i];
        let e = RecentEvent {
            ts: field_or(o, "ts", ""),
            event: field_or(o, "event", ""),
            id: field_or(o, "id", ""),
            detail: field_or(o, "detail", ""),
        };
        out.push(e);
    }
    proof {
        assert forall|i: int| 0 <= i < out@.len() implies event_matches(
            #[trigger] out@[i],
            array_objects_spec(json@, "\"recent\""@)[i],
        ) by {
            assert(views(objs@)[i] == objs@[i]@);
        }
    }
    out
}

} // verus!
