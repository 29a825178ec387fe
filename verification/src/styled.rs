//! Styled text as the console draws it: rows of pieces, each piece a text with a
//! foreground, a background and a weight. The terminal layer turns rows into its own
//! line type.
use vstd::prelude::*;
use crate::text::{push_all, slice_chars, views};

verus! {

/// A colour of the terminal palette; `Reset` leaves the terminal's own colour.
#[derive(Clone, Copy, Debug, PartialEq, Eq, Structural)]
pub enum Tone {
    Reset,
    Black,
    Red,
    Green,
    Yellow,
    Blue,
    Magenta,
    Cyan,
    White,
    DarkGray,
    LightCyan,
    LightYellow,
    LightGreen,
    Rgb(u8, u8, u8),
}

/// How a piece of text looks.
#[derive(Clone, Copy, Debug, PartialEq, Eq, Structural)]
pub struct Look {
    pub fg: Tone,
    pub bg: Tone,
    pub bold: bool,
    /// Blinks slowly (the input cursor).
    pub blink: bool,
    pub italic: bool,
}

/// A piece of text with its look.
#[derive(Clone, Debug)]
pub struct Piece {
    pub text: Vec<char>,
    pub look: Look,
}

/// A piece as text and look.
pub open spec fn piece_view(p: Piece) -> (Seq<char>, Look) {
    (p.text@, p.look)
}

/// A row as texts and looks.
pub open spec fn row_view(r: Seq<Piece>) -> Seq<(Seq<char>, Look)> {
    r.map_values(|p: Piece| piece_view(p))
}

/// Rows as texts and looks.
pub open spec fn rows_view(rs: Seq<Vec<Piece>>) -> Seq<Seq<(Seq<char>, Look)>> {
    rs.map_values(|r: Vec<Piece>| row_view(r@))
}

/// Text in colour `fg`.
pub open spec fn fg(t: Tone) -> Look {
    Look { fg: t, bg: Tone::Reset, bold: false, blink: false, italic: false }
}

/// Bold text in colour `fg`.
pub open spec fn bold(t: Tone) -> Look {
    Look { fg: t, bg: Tone::Reset, bold: true, blink: false, italic: false }
}

/// `n` copies of `c`.
pub open spec fn rep(c: char, n: nat) -> Seq<char> {
    Seq::new(n, |_i: int| c)
}

/// A row of one piece.
pub open spec fn line1(t: Seq<char>, l: Look) -> Seq<(Seq<char>, Look)> {
    seq![(t, l)]
}

/// The look of text in colour `t`.
pub fn fg_look(t: Tone) -> (l: Look)
    ensures
        l == fg(t),
{
    Look { fg: t, bg: Tone::Reset, bold: false, blink: false, italic: false }
}

/// The look of bold text in colour `t`.
pub fn bold_look(t: Tone) -> (l: Look)
    ensures
        l == bold(t),
{
    Look { fg: t, bg: Tone::Reset, bold: true, blink: false, italic: false }
}

/// `a` followed by `b`.
pub fn cat(a: &[char], b: &[char]) -> (r: Vec<char>)
    ensures
        r@ == a@ + b@,
{
    let mut r = slice_chars(a, 0, a.len());
    assert(a@.subrange(0, a@.len() as int) == a@);
    push_all(&mut r, b);
    r
}

/// A copy of `a`.
pub fn copy(a: &[char]) -> (r: Vec<char>)
    ensures
        r@ == a@,
{
    let r = slice_chars(a, 0, a.len());
    assert(a@.subrange(0, a@.len() as int) == a@);
    r
}

/// `n` copies of `c`.
pub fn rep_exec(c: char, n: usize) -> (r: Vec<char>)
    ensures
        r@ == rep(c, n as nat),
{
    crate::text::repeat_char(c, n)
}

/// A row of one piece.
pub fn row1(text: Vec<char>, look: Look) -> (r: Vec<Piece>)
    ensures
        row_view(r@) == line1(text@, look),
{
    let r = vec![Piece { text, look }];
    assert(row_view(r@) =~= line1(r@[0].text@, look));
    r
}

/// Appends a piece to a row.
pub fn push_piece(row: &mut Vec<Piece>, text: Vec<char>, look: Look)
    ensures
        row_view(final(row)@) == row_view(old(row)@).push((text@, look)),
{
    let ghost t = text@;
    row.push(Piece { text, look });
    assert(row_view(row@) =~= row_view(old(row)@).push((t, look)));
}

/// Appends a row.
pub fn push_row(rows: &mut Vec<Vec<Piece>>, r: Vec<Piece>)
    ensures
        rows_view(final(rows)@) == rows_view(old(rows)@).push(row_view(r@)),
{
    let ghost v = row_view(r@);
    rows.push(r);
    assert(rows_view(rows@) =~= rows_view(old(rows)@).push(v));
}

/// Appends all rows of `more`.
pub fn append_rows(rows: &mut Vec<Vec<Piece>>, more: Vec<Vec<Piece>>)
    ensures
        rows_view(final(rows)@) == rows_view(old(rows)@) + rows_view(more@),
{
    let ghost start = rows_view(rows@);
    let ghost all = rows_view(more@);
    let mut more = more;
    let n = more.len();
    for i in 0..n
        invariant
            n == more@.len(),
            all.len() == n,
            forall|j: int| i <= j < n ==> row_view((#[trigger] more@[j])@) == all[j],
            rows_view(rows@) == start + all.take(i as int),
    {
        let mut r: Vec<Piece> = Vec::new();
        let ghost before = more@;
        std::mem::swap(&mut r, &mut more[i]);
        assert(row_view(r@) == all[i as int]);
        push_row(rows, r);
        assert(start + all.take(i + 1) =~= (start + all.take(i as int)).push(all[i as int]));
        assert forall|j: int| i + 1 <= j < n implies row_view((#[trigger] more@[j])@) == all[j] by {
            assert(more@[j] == before[j]);
        }
    }
    assert(all.take(n as int) =~= all);
}

/// One row per line: the prefix, then the line, in one look.
pub open spec fn prefixed_rows(ls: Seq<Seq<char>>, prefix: Seq<char>, l: Look) -> Seq<Seq<(Seq<char>, Look)>>
    decreases ls.len(),
{
    if ls.len() == 0 {
        seq![]
    } else {
        prefixed_rows(ls.drop_last(), prefix, l).push(line1(prefix + ls.last(), l))
    }
}

/// Appends one row per line: the prefix, then the line.
pub fn push_prefixed_rows(rows: &mut Vec<Vec<Piece>>, ls: &Vec<Vec<char>>, prefix: &[char], look: Look)
    ensures
        rows_view(final(rows)@) == rows_view(old(rows)@) + prefixed_rows(views(ls@), prefix@, look),
{
    let ghost start = rows_view(rows@);
    let ghost lv = views(ls@);
    assert(start + prefixed_rows(lv.take(0), prefix@, look) =~= start);
    for i in 0..ls.len()
        invariant
            lv == views(ls@),
            rows_view(rows@) == start + prefixed_rows(lv.take(i as int), prefix@, look),
    {
        assert(lv.take(i + 1).drop_last() =~= lv.take(i as int));
        assert(lv.take(i + 1).last() == ls@[i as int]@);
        let t = cat(prefix, &ls[i]);
        let r = row1(t, look);
        push_row(rows, r);
        assert(start + prefixed_rows(lv.take(i + 1), prefix@, look) =~= (start + prefixed_rows(lv.take(i as int), prefix@, look)).push(
            line1(prefix@ + ls@[i as int]@, look),
        ));
    }
    assert(lv.take(ls@.len() as int) =~= lv);
}

/// Appends copies of the pieces of `more` to a row.
pub fn push_pieces(row: &mut Vec<Piece>, more: &[Piece])
    ensures
        row_view(final(row)@) == row_view(old(row)@) + row_view(more@),
{
    let ghost start = row_view(row@);
    let n = more.len();
    for k in 0..n
        invariant
            n == more@.len(),
            row_view(row@) == start + row_view(more@).take(k as int),
    {
        assert(row_view(more@)[k as int] == (more@[k as int].text@, more@[k as int].look));
        push_piece(row, copy(&more[k].text), more[k].look);
        assert(start + row_view(more@).take(k + 1) =~= (start + row_view(more@).take(k as int)).push(row_view(more@)[k as int]));
    }
    assert(row_view(more@).take(n as int) =~= row_view(more@));
}

} // verus!
