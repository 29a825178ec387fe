//! The conversation stream: entries made of rich blocks (text, code, file edits,
//! commands, tool calls, diagrams, tables, charts).
use vstd::prelude::*;
use crate::text::{
    byte_len, chars_string, contains, contains_seq, first_chars, has_prefix, lines, push_all,
    rfind, slice_chars, spec_rfind, split_at_str, split_lines, split_str, starts_with, str_chars,
    str_views, take_chars, trim_end_in, trim_end_set, utf8_len, views, lemma_str_views_push,
};
use crate::blocks::{parse_blocks, parse_blocks_spec};

verus! {

/// Who wrote a stream entry.
#[derive(Clone, Copy, PartialEq, Eq, Structural, Debug)]
pub enum EntryKind {
    Neil,
    Human,
    System,
}

/// One line of a file edit.
#[derive(Clone, Debug)]
pub enum DiffLine {
    Added(String),
    Removed(String),
    Context(String),
}

/// A line of a file edit, as text.
pub enum DiffModel {
    Added(Seq<char>),
    Removed(Seq<char>),
    Context(Seq<char>),
}

impl View for DiffLine {
    type V = DiffModel;

    open spec fn view(&self) -> DiffModel {
        match self {
            DiffLine::Added(s) => DiffModel::Added(s@),
            DiffLine::Removed(s) => DiffModel::Removed(s@),
            DiffLine::Context(s) => DiffModel::Context(s@),
        }
    }
}

/// A rendered piece of an entry. A chart keeps its data points as the trimmed text of
/// each comma-separated value; turning them into numbers is left to the renderer.
#[derive(Clone, Debug)]
pub enum RichBlock {
    Text(String),
    Code { lang: String, content: String },
    FileEdit { path: String, lang: String, lines: Vec<DiffLine> },
    Command { cmd: String, output: String },
    ToolCall { action: String, detail: String },
    Diagram(String),
    Table { headers: Vec<String>, rows: Vec<Vec<String>> },
    Chart { title: String, labels: Vec<String>, data: Vec<String> },
}

/// A block, as text.
pub enum BlockModel {
    Text(Seq<char>),
    Code { lang: Seq<char>, content: Seq<char> },
    FileEdit { path: Seq<char>, lang: Seq<char>, lines: Seq<DiffModel> },
    Command { cmd: Seq<char>, output: Seq<char> },
    ToolCall { action: Seq<char>, detail: Seq<char> },
    Diagram(Seq<char>),
    Table { headers: Seq<Seq<char>>, rows: Seq<Seq<Seq<char>>> },
    Chart { title: Seq<char>, labels: Seq<Seq<char>>, data: Seq<Seq<char>> },
}

/// The views of diff lines.
pub open spec fn diff_views(v: Seq<DiffLine>) -> Seq<DiffModel> {
    v.map_values(|d: DiffLine| d@)
}

/// The views of table rows.
pub open spec fn row_views(v: Seq<Vec<String>>) -> Seq<Seq<Seq<char>>> {
    v.map_values(|r: Vec<String>| str_views(r@))
}

impl View for RichBlock {
    type V = BlockModel;

    open spec fn view(&self) -> BlockModel {
        match self {
            RichBlock::Text(t) => BlockModel::Text(t@),
            RichBlock::Code { lang, content } => BlockModel::Code { lang: lang@, content: content@ },
            RichBlock::FileEdit { path, lang, lines } => BlockModel::FileEdit {
                path: path@,
                lang: lang@,
                lines: diff_views(lines@),
            },
            RichBlock::Command { cmd, output } => BlockModel::Command { cmd: cmd@, output: output@ },
            RichBlock::ToolCall { action, detail } => BlockModel::ToolCall {
                action: action@,
                detail: detail@,
            },
            RichBlock::Diagram(d) => BlockModel::Diagram(d@),
            RichBlock::Table { headers, rows } => BlockModel::Table {
                headers: str_views(headers@),
                rows: row_views(rows@),
            },
            RichBlock::Chart { title, labels, data } => BlockModel::Chart {
                title: title@,
                labels: str_views(labels@),
                data: str_views(data@),
            },
        }
    }
}

/// The views of blocks.
pub open spec fn block_views(v: Seq<RichBlock>) -> Seq<BlockModel> {
    v.map_values(|b: RichBlock| b@)
}

pub proof fn lemma_block_views_push(v: Seq<RichBlock>, b: RichBlock)
    ensures
        block_views(v.push(b)) == block_views(v).push(b@),
{
    assert(block_views(v.push(b)) =~= block_views(v).push(b@));
}


// ───────────────────────── entries ─────────────────────────

/// One entry of the conversation: who wrote it, its blocks, and the clock time
/// (`HH:MM`) it arrived.
#[derive(Clone, Debug)]
pub struct StreamEntry {
    pub kind: EntryKind,
    pub blocks: Vec<RichBlock>,
    pub time: String,
}

/// Characters counted for a block when checking whether an entry changed: text bytes,
/// lines of a file edit, rows of a table, data points of a chart.
pub open spec fn block_len(b: BlockModel) -> nat {
    match b {
        BlockModel::Text(t) => utf8_len(t),
        BlockModel::Code { content, .. } => utf8_len(content),
        BlockModel::FileEdit { lines, .. } => lines.len(),
        BlockModel::Command { cmd, output } => utf8_len(cmd) + utf8_len(output),
        BlockModel::ToolCall { detail, .. } => utf8_len(detail),
        BlockModel::Diagram(d) => utf8_len(d),
        BlockModel::Table { rows, .. } => rows.len(),
        BlockModel::Chart { data, .. } => data.len(),
    }
}

/// Sum of `block_len` over the blocks.
pub open spec fn text_len_sum(bs: Seq<BlockModel>) -> nat
    decreases bs.len(),
{
    if bs.len() == 0 {
        0
    } else {
        text_len_sum(bs.drop_last()) + block_len(bs.last())
    }
}

/// Lines a block takes on screen (each line count as the 16-bit value it is cast to).
pub open spec fn block_lines(b: BlockModel) -> nat {
    match b {
        BlockModel::Text(t) => lines(t).len() % 65536,
        BlockModel::Code { content, .. } => lines(content).len() % 65536 + 2,
        BlockModel::FileEdit { lines, .. } => lines.len() % 65536 + 2,
        BlockModel::Command { cmd, output } => 1 + lines(cmd).len() % 65536 + if output.len()
            == 0 {
            0
        } else {
            lines(output).len() % 65536 + 1
        },
        BlockModel::ToolCall { .. } => 1,
        BlockModel::Diagram(d) => lines(d).len() % 65536 + 2,
        BlockModel::Table { rows, .. } => rows.len() % 65536 + 3,
        BlockModel::Chart { .. } => 3,
    }
}

/// Sum of `block_lines` over the blocks.
pub open spec fn lines_sum(bs: Seq<BlockModel>) -> nat
    decreases bs.len(),
{
    if bs.len() == 0 {
        0
    } else {
        lines_sum(bs.drop_last()) + block_lines(bs.last())
    }
}

fn block_len_exec(b: &RichBlock) -> (n: u128)
    ensures
        n == block_len(b@),
        n <= 8 * (usize::MAX as nat),
{
    match b {
        RichBlock::Text(t) => {
            let c = str_chars(t.as_str());
            let l = c.len();
            let n = byte_len(&c);
            n
        },
        RichBlock::Code { content, .. } => {
            let c = str_chars(content.as_str());
            let l = c.len();
            byte_len(&c)
        },
        RichBlock::FileEdit { lines, .. } => lines.len() as u128,
        RichBlock::Command { cmd, output } => {
            let a = str_chars(cmd.as_str());
            let o = str_chars(output.as_str());
            let la = a.len();
            let lo = o.len();
            byte_len(&a) + byte_len(&o)
        },
        RichBlock::ToolCall { detail, .. } => {
            let c = str_chars(detail.as_str());
            let l = c.len();
            byte_len(&c)
        },
        RichBlock::Diagram(d) => {
            let c = str_chars(d.as_str());
            let l = c.len();
            byte_len(&c)
        },
        RichBlock::Table { rows, .. } => rows.len() as u128,
        RichBlock::Chart { data, .. } => data.len() as u128,
    }
}

fn line_total(s: &String) -> (n: u128)
    ensures
        n == lines(s@).len() % 65536,
{
    let c = str_chars(s.as_str());
    (split_lines(&c).len() % 65536) as u128
}

fn block_lines_exec(b: &RichBlock) -> (n: u128)
    ensures
        n == block_lines(b@),
{
    match b {
        RichBlock::Text(t) => line_total(t),
        RichBlock::Code { content, .. } => line_total(content) + 2,
        RichBlock::FileEdit { lines, .. } => (lines.len() % 65536) as u128 + 2,
        RichBlock::Command { cmd, output } => {
            let extra: u128 = if output.as_str().is_empty() {
                0
            } else {
                line_total(output) + 1
            };
            1 + line_total(cmd) + extra
        },
        RichBlock::ToolCall { .. } => 1,
        RichBlock::Diagram(d) => line_total(d) + 2,
        RichBlock::Table { rows, .. } => (rows.len() % 65536) as u128 + 3,
        RichBlock::Chart { .. } => 3,
    }
}

impl StreamEntry {
    /// An entry whose blocks are parsed from `content`, stamped with the local clock
    /// time (`HH:MM`; empty when the clock cannot be read).
    pub fn new(kind: EntryKind, content: String) -> (r: StreamEntry)
        ensures
            r.kind == kind,
            block_views(r.blocks@) == parse_blocks_spec(content@),
    {
        let blocks = parse_blocks(content.as_str());
        let time = crate::clock::clock_text("%H:%M");
        StreamEntry { kind, blocks, time }
    }

    /// Size of the entry's content, used to notice when it changes: the block sizes of
    /// `block_len` summed, saturating at `usize::MAX`.
    pub fn total_text_len(&self) -> (n: usize)
        ensures
            n == if text_len_sum(block_views(self.blocks@)) > usize::MAX {
                usize::MAX as nat
            } else {
                text_len_sum(block_views(self.blocks@))
            },
    {
        let ghost bv = block_views(self.blocks@);
        let mut total: u128 = 0;
        let mut saturated = false;
        for i in 0..self.blocks.len()
            invariant
                bv == block_views(self.blocks@),
                saturated ==> text_len_sum(bv.take(i as int)) > usize::MAX,
                !saturated ==> total == text_len_sum(bv.take(i as int)) && total <= usize::MAX,
        {
            assert(bv.take(i + 1).drop_last() == bv.take(i as int));
            assert(bv.take(i + 1).last() == self.blocks@[i as int]@);
            let n = block_len_exec(&self.blocks[i]);
            if !saturated {
                total = total + n;
                if total > usize::MAX as u128 {
                    saturated = true;
                }
            }
        }
        assert(bv.take(self.blocks@.len() as int) == bv);
        if saturated {
            usize::MAX
        } else {
            total as usize
        }
    }

    /// Estimated screen lines of the entry: a header line, the lines of each block, and a
    /// closing line.
    pub fn line_count(&self, _width: u16) -> (n: u16)
        requires
            lines_sum(block_views(self.blocks@)) + 2 <= u16::MAX,
        ensures
            n == lines_sum(block_views(self.blocks@)) + 2,
    {
        let ghost bv = block_views(self.blocks@);
        let mut total: u128 = 0;
        for i in 0..self.blocks.len()
            invariant
                bv == block_views(self.blocks@),
                lines_sum(bv) + 2 <= u16::MAX,
                total == lines_sum(bv.take(i as int)),
                lines_sum(bv.take(i as int)) <= lines_sum(bv),
        {
            assert(bv.take(i + 1).drop_last() == bv.take(i as int));
            assert(bv.take(i + 1).last() == self.blocks@[i as int]@);
            proof {
                lemma_lines_sum_mono(bv, i + 1);
            }
            total = total + block_lines_exec(&self.blocks[i]);
        }
        assert(bv.take(self.blocks@.len() as int) == bv);
        (total + 2) as u16
    }
}

pub proof fn lemma_lines_sum_mono(bs: Seq<BlockModel>, k: int)
    requires
        0 <= k <= bs.len(),
    ensures
        lines_sum(bs.take(k)) <= lines_sum(bs),
    decreases bs.len() - k,
{
    if k < bs.len() {
        lemma_lines_sum_mono(bs, k + 1);
        assert(bs.take(k + 1).drop_last() == bs.take(k));
    } else {
        assert(bs.take(k) == bs);
    }
}

} // verus!
