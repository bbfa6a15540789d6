//! Lines of a text, and what kind of line each is.
use vstd::prelude::*;

verus! {

/// What a line is, as the writer's notation has it.
#[derive(Clone, Copy, PartialEq, Eq, Structural, Debug)]
pub enum LineKind {
    Prose,
    List,
    Code,
    Comment,
    TableRow,
    TableRule,
    FrontMatter,
}

impl LineKind {
    pub open spec fn code(self) -> bool {
        self == LineKind::Code
    }

    pub open spec fn table(self) -> bool {
        self == LineKind::TableRow || self == LineKind::TableRule
    }

    pub open spec fn list(self) -> bool {
        self == LineKind::List
    }

    pub fn is_code(self) -> (out: bool)
        ensures
            out == self.code(),
    {
        self == LineKind::Code
    }

    pub fn is_table(self) -> (out: bool)
        ensures
            out == self.table(),
    {
        self == LineKind::TableRow || self == LineKind::TableRule
    }

    pub fn is_list(self) -> (out: bool)
        ensures
            out == self.list(),
    {
        self == LineKind::List
    }
}

/// How a line is read.
#[derive(Clone, Copy, PartialEq, Eq, Structural, Debug)]
pub struct LineStyle {
    pub kind: LineKind,
    pub quote_depth: usize,
    pub list_indent: usize,
}

/// A line of which nothing is known: prose.
pub open spec fn plain_style() -> LineStyle {
    LineStyle { kind: LineKind::Prose, quote_depth: 0, list_indent: 0 }
}

impl Default for LineStyle {
    fn default() -> (out: Self)
        ensures
            out == plain_style(),
    {
        LineStyle { kind: LineKind::Prose, quote_depth: 0, list_indent: 0 }
    }
}

impl LineStyle {
    /// The line is shown as it is written: code, or part of a comment.
    pub open spec fn literal(self) -> bool {
        self.kind == LineKind::Code || self.kind == LineKind::Comment
    }

    pub fn is_literal(self) -> (out: bool)
        ensures
            out == self.literal(),
    {
        self.kind == LineKind::Code || self.kind == LineKind::Comment
    }
}

/// Where the lines of the first `count` characters begin.
pub open spec fn line_starts(text: Seq<char>, count: int) -> Seq<int>
    decreases count,
{
    if count <= 0 {
        seq![0]
    } else if text[count - 1] == '\n' {
        line_starts(text, count - 1).push(count)
    } else {
        line_starts(text, count - 1)
    }
}

/// The number of the line that a character is in.
pub open spec fn line_of(text: Seq<char>, at: int) -> int {
    line_starts(text, at).len() - 1
}

/// Where every line begins and ends, the line break left out.
pub open spec fn lines(text: Seq<char>) -> Seq<(int, int)> {
    let starts = line_starts(text, text.len() as int);
    Seq::new(
        starts.len(),
        |line: int|
            (
                starts[line],
                if line + 1 < starts.len() {
                    starts[line + 1] - 1
                } else {
                    text.len() as int
                },
            ),
    )
}

/// What holds of the beginnings of lines.
pub proof fn line_starts_rise(text: Seq<char>, count: int)
    requires
        0 <= count <= text.len(),
    ensures
        line_starts(text, count).len() >= 1,
        line_starts(text, count)[0] == 0,
        forall|i: int|
            0 <= i < line_starts(text, count).len() ==> 0 <= #[trigger] line_starts(text, count)[i]
                <= count,
        forall|i: int, j: int|
            0 <= i < j < line_starts(text, count).len() ==> #[trigger] line_starts(text, count)[i]
                < #[trigger] line_starts(text, count)[j],
    decreases count,
{
    if count > 0 {
        line_starts_rise(text, count - 1);
    }
}

/// The beginnings of lines before a place are the first of all of them.
pub proof fn line_starts_extend(text: Seq<char>, count: int, more: int)
    requires
        0 <= count <= more <= text.len(),
    ensures
        line_starts(text, count).is_prefix_of(line_starts(text, more)),
        line_starts(text, count).len() < line_starts(text, more).len() ==> line_starts(
            text,
            more,
        )[line_starts(text, count).len() as int] > count,
    decreases more - count,
{
    if count < more {
        line_starts_extend(text, count, more - 1);
        line_starts_rise(text, count);
    } else {
        assert(line_starts(text, count) =~= line_starts(text, more));
    }
}

/// What holds of all lines: they follow one another, with a line break between.
pub proof fn lines_follow(text: Seq<char>)
    ensures
        lines(text).len() >= 1,
        lines(text)[0].0 == 0,
        lines(text)[lines(text).len() - 1].1 == text.len(),
        forall|line: int|
            0 <= line < lines(text).len() ==> 0 <= (#[trigger] lines(text)[line]).0 <= lines(
                text,
            )[line].1 <= text.len(),
        forall|line: int|
            0 <= line < lines(text).len() - 1 ==> lines(text)[line + 1].0 == (
            #[trigger] lines(text)[line]).1 + 1,
{
    line_starts_rise(text, text.len() as int);
    let starts = line_starts(text, text.len() as int);
    assert forall|line: int| 0 <= line < lines(text).len() implies 0 <= (
    #[trigger] lines(text)[line]).0 <= lines(text)[line].1 <= text.len() by {
        if line + 1 < starts.len() {
            assert(starts[line] < starts[line + 1]);
        }
    }
}

/// A character is within the line that it is in.
pub proof fn line_of_holds(text: Seq<char>, at: int)
    requires
        0 <= at <= text.len(),
    ensures
        0 <= line_of(text, at) < lines(text).len(),
        lines(text)[line_of(text, at)].0 <= at <= lines(text)[line_of(text, at)].1,
{
    line_starts_rise(text, at);
    line_starts_extend(text, at, text.len() as int);
    let before = line_starts(text, at);
    let all = line_starts(text, text.len() as int);
    assert(before[before.len() - 1] == all[before.len() - 1]);
}

/// Where every line begins and ends.
pub fn line_bounds(text: &Vec<char>) -> (out: Vec<(usize, usize)>)
    ensures
        out@.len() == lines(text@).len(),
        forall|line: int|
            0 <= line < out@.len() ==> lines(text@)[line] == (
                (#[trigger] out@[line]).0 as int,
                out@[line].1 as int,
            ),
{
    let mut starts: Vec<usize> = Vec::new();
    starts.push(0);
    let mut at: usize = 0;
    while at < text.len()
        invariant
            at <= text@.len(),
            starts@.len() == line_starts(text@, at as int).len(),
            forall|line: int|
                0 <= line < starts@.len() ==> #[trigger] starts@[line] as int == line_starts(
                    text@,
                    at as int,
                )[line],
        decreases text@.len() - at,
    {
        if text[at] == '\n' {
            starts.push(at + 1);
        }
        at += 1;
    }
    proof {
        line_starts_rise(text@, text@.len() as int);
        lines_follow(text@);
    }
    let mut out: Vec<(usize, usize)> = Vec::new();
    let mut line: usize = 0;
    let ghost all = line_starts(text@, text@.len() as int);
    while line < starts.len()
        invariant
            line <= starts@.len() == all.len(),
            all == line_starts(text@, text@.len() as int),
            forall|k: int| 0 <= k < starts@.len() ==> #[trigger] starts@[k] as int == all[k],
            forall|i: int, j: int| 0 <= i < j < all.len() ==> #[trigger] all[i] < #[trigger] all[j],
            all[0] == 0,
            out@.len() == line,
            forall|k: int|
                0 <= k < line ==> lines(text@)[k] == (
                    (#[trigger] out@[k]).0 as int,
                    out@[k].1 as int,
                ),
        decreases starts@.len() - line,
    {
        let end: usize = if starts.len() - line > 1 {
            assert(all[0] <= all[line as int] < all[line + 1]);
            starts[line + 1] - 1
        } else {
            text.len()
        };
        out.push((starts[line], end));
        line += 1;
    }
    out
}

/// The number of the line that a character is in.
pub fn line_number(text: &Vec<char>, at: usize) -> (out: usize)
    requires
        at <= text@.len(),
    ensures
        out == line_of(text@, at as int),
{
    let mut out: usize = 0;
    let mut here: usize = 0;
    while here < at
        invariant
            here <= at <= text@.len(),
            out <= here,
            out == line_of(text@, here as int),
        decreases at - here,
    {
        if text[here] == '\n' {
            out += 1;
        }
        here += 1;
    }
    out
}

} // verus!
