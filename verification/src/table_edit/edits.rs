//! The edits of a table.
use crate::table_edit::cells::RuleCell;
use crate::table_edit::model::{self, EditModel, TableEdit};
use crate::table_edit::widths::MIN_WIDTH;
use crate::text::{self, char_index, chars_of, is_white, size_of, string_of};
use crate::text_blocks::{self, line_bounds, line_number, LineKind, LineStyle};
use std::ops::Range;
use vstd::prelude::*;

verus! {

/// A rewriting: the range to replace, the text to put there, and the range that
/// is selected afterwards. All places are in bytes.
pub type Edit = (Range<usize>, String, (usize, usize));

/// What an [`Edit`] says; after each edit here nothing is selected.
pub open spec fn edit_of(edit: Edit) -> EditModel {
    EditModel {
        from: edit.0.start as int,
        to: edit.0.end as int,
        text: edit.1@,
        caret: edit.2.0 as int,
    }
}

/// An edit is the one that is meant, and leaves a caret.
pub open spec fn is_edit(out: Option<Edit>, meant: Option<EditModel>) -> bool {
    match out {
        Some(edit) => meant == Some(edit_of(edit)) && edit.2.1 == edit.2.0,
        None => meant is None,
    }
}

impl TableEdit {
    /// The place of an entry in the menu.
    pub open spec fn place(self) -> int {
        match self {
            TableEdit::RowBefore => 0,
            TableEdit::RowAfter => 1,
            TableEdit::ColumnBefore => 2,
            TableEdit::ColumnAfter => 3,
            TableEdit::DeleteRow => 4,
            TableEdit::DeleteColumn => 5,
            TableEdit::ResetWidths => 6,
        }
    }

    pub fn number(self) -> (out: i32)
        ensures
            out == self.place(),
    {
        match self {
            TableEdit::RowBefore => 0,
            TableEdit::RowAfter => 1,
            TableEdit::ColumnBefore => 2,
            TableEdit::ColumnAfter => 3,
            TableEdit::DeleteRow => 4,
            TableEdit::DeleteColumn => 5,
            TableEdit::ResetWidths => 6,
        }
    }

    pub fn from_number(number: i32) -> (out: Option<Self>)
        ensures
            match out {
                Some(what) => what.place() == number,
                None => number < 0 || number > 6,
            },
    {
        if number == 0 {
            Some(TableEdit::RowBefore)
        } else if number == 1 {
            Some(TableEdit::RowAfter)
        } else if number == 2 {
            Some(TableEdit::ColumnBefore)
        } else if number == 3 {
            Some(TableEdit::ColumnAfter)
        } else if number == 4 {
            Some(TableEdit::DeleteRow)
        } else if number == 5 {
            Some(TableEdit::DeleteColumn)
        } else if number == 6 {
            Some(TableEdit::ResetWidths)
        } else {
            None
        }
    }

    /// The words of the menu, in Japanese and English. They speak of the sides
    /// of the screen: in vertical text the row before is to the right, and the
    /// column before is above.
    pub open spec fn titles(self, vertical: bool) -> (Seq<char>, Seq<char>) {
        match self {
            TableEdit::RowBefore => if vertical {
                ("右に行を追加"@, "Insert Row Right"@)
            } else {
                ("上に行を追加"@, "Insert Row Above"@)
            },
            TableEdit::RowAfter => if vertical {
                ("左に行を追加"@, "Insert Row Left"@)
            } else {
                ("下に行を追加"@, "Insert Row Below"@)
            },
            TableEdit::ColumnBefore => if vertical {
                ("上に列を追加"@, "Insert Column Above"@)
            } else {
                ("左に列を追加"@, "Insert Column Left"@)
            },
            TableEdit::ColumnAfter => if vertical {
                ("下に列を追加"@, "Insert Column Below"@)
            } else {
                ("右に列を追加"@, "Insert Column Right"@)
            },
            TableEdit::DeleteRow => ("行を削除"@, "Delete Row"@),
            TableEdit::DeleteColumn => ("列を削除"@, "Delete Column"@),
            TableEdit::ResetWidths => ("列幅を戻す"@, "Reset Column Widths"@),
        }
    }

    pub fn title(self, vertical: bool) -> (out: (&'static str, &'static str))
        ensures
            (out.0@, out.1@) == self.titles(vertical),
    {
        match self {
            TableEdit::RowBefore => if vertical {
                ("右に行を追加", "Insert Row Right")
            } else {
                ("上に行を追加", "Insert Row Above")
            },
            TableEdit::RowAfter => if vertical {
                ("左に行を追加", "Insert Row Left")
            } else {
                ("下に行を追加", "Insert Row Below")
            },
            TableEdit::ColumnBefore => if vertical {
                ("上に列を追加", "Insert Column Above")
            } else {
                ("左に列を追加", "Insert Column Left")
            },
            TableEdit::ColumnAfter => if vertical {
                ("下に列を追加", "Insert Column Below")
            } else {
                ("右に列を追加", "Insert Column Right")
            },
            TableEdit::DeleteRow => ("行を削除", "Delete Row"),
            TableEdit::DeleteColumn => ("列を削除", "Delete Column"),
            TableEdit::ResetWidths => ("列幅を戻す", "Reset Column Widths"),
        }
    }
}

// --- pieces of text -------------------------------------------------------------

/// Appends characters.
pub(crate) fn push_all(out: &mut Vec<char>, more: &Vec<char>)
    ensures
        final(out)@ == old(out)@ + more@,
{
    let mut at: usize = 0;
    while at < more.len()
        invariant
            at <= more@.len(),
            out@ == old(out)@ + more@.take(at as int),
        decreases more@.len() - at,
    {
        out.push(more[at]);
        at += 1;
        assert(out@ =~= old(out)@ + more@.take(at as int));
    }
    assert(more@.take(at as int) =~= more@);
}

/// The characters `from..to`.
pub(crate) fn part(chars: &Vec<char>, from: usize, to: usize) -> (out: Vec<char>)
    requires
        from <= to <= chars@.len(),
    ensures
        out@ == chars@.subrange(from as int, to as int),
{
    let mut out: Vec<char> = Vec::new();
    let mut at: usize = from;
    while at < to
        invariant
            from <= at <= to <= chars@.len(),
            out@ == chars@.subrange(from as int, at as int),
        decreases to - at,
    {
        out.push(chars[at]);
        at += 1;
        assert(out@ =~= chars@.subrange(from as int, at as int));
    }
    out
}

/// The byte offset of a character.
pub(crate) fn offset(chars: &Vec<char>, at: usize) -> (out: usize)
    requires
        at <= chars@.len(),
        text::size(chars@) <= usize::MAX,
    ensures
        out == model::offset(chars@, at as int),
        out <= text::size(chars@),
{
    proof {
        text::size_of_part(chars@, 0, at as int);
        assert(chars@.subrange(0, at as int) =~= chars@.take(at as int));
        text::size_of_part(chars@, at as int, at as int);
    }
    size_of(chars, 0, at)
}

/// One column of a rule line.
fn rule_piece(one: RuleCell) -> (out: Vec<char>)
    ensures
        out@ == model::rule_piece(one),
{
    let mut out: Vec<char> = vec![' '];
    if one.left {
        out.push(':');
    }
    let ghost head = seq![' '] + model::colon_if(one.left);
    assert(out@ =~= head);
    let count: u32 = if one.dashes < 1 {
        1
    } else {
        one.dashes
    };
    let mut dash: u32 = 0;
    assert(out@ =~= head + model::repeated(seq!['-'], 0));
    while dash < count
        invariant
            dash <= count,
            out@ == head + model::repeated(seq!['-'], dash as int),
        decreases count - dash,
    {
        out.push('-');
        dash += 1;
        assert(out@ =~= head + model::repeated(seq!['-'], dash as int));
    }
    let ghost body = out@;
    if one.right {
        out.push(':');
    }
    assert(out@ =~= body + model::colon_if(one.right));
    let ghost long = out@;
    out.push(' ');
    out.push('|');
    assert(out@ =~= long + seq![' ', '|']);
    out
}

/// A rule line.
pub(crate) fn rule_text(rule: &Vec<RuleCell>) -> (out: Vec<char>)
    ensures
        out@ == model::rule_text(rule@),
{
    let mut out: Vec<char> = vec!['|'];
    let mut at: usize = 0;
    assert(rule@.take(0) =~= Seq::empty());
    assert(out@ =~= model::rule_text(rule@.take(0)));
    while at < rule.len()
        invariant
            at <= rule@.len(),
            out@ == model::rule_text(rule@.take(at as int)),
        decreases rule@.len() - at,
    {
        proof {
            assert(rule@.take(at + 1).drop_last() =~= rule@.take(at as int));
            assert(rule@.take(at + 1).last() == rule@[at as int]);
        }
        push_all(&mut out, &rule_piece(rule[at]));
        at += 1;
    }
    assert(rule@.take(at as int) =~= rule@);
    out
}

/// A row of empty cells.
pub(crate) fn empty_row(columns: usize) -> (out: Vec<char>)
    ensures
        out@ == model::empty_row(columns as int),
{
    let mut out: Vec<char> = vec!['|'];
    let mut at: usize = 0;
    assert(out@ =~= model::empty_row(0));
    while at < columns
        invariant
            at <= columns,
            out@ == model::empty_row(at as int),
        decreases columns - at,
    {
        out.push(' ');
        out.push(' ');
        out.push('|');
        at += 1;
        assert(out@ =~= model::empty_row(at as int));
    }
    out
}

/// A table of `rows` rows, the header with them, and a rule below the header.
fn new_table(rows: usize, columns: usize) -> (out: Vec<char>)
    requires
        rows >= 1,
    ensures
        out@ == model::new_table(rows as int, columns as int),
{
    let row = empty_row(columns);
    let mut rule: Vec<RuleCell> = Vec::new();
    let mut at: usize = 0;
    while at < columns
        invariant
            at <= columns,
            rule@ == Seq::new(at as nat, |k: int| model::new_column()),
        decreases columns - at,
    {
        rule.push(RuleCell { left: false, right: false, dashes: MIN_WIDTH });
        at += 1;
        assert(rule@ =~= Seq::new(at as nat, |k: int| model::new_column()));
    }
    let mut out: Vec<char> = Vec::new();
    push_all(&mut out, &row);
    out.push('\n');
    push_all(&mut out, &rule_text(&rule));
    let ghost head = out@;
    assert(head =~= model::empty_row(columns as int) + seq!['\n'] + model::rule_text(rule@));
    let mut more: usize = 1;
    assert(out@ =~= head + model::repeated(seq!['\n'] + row@, 0));
    while more < rows
        invariant
            1 <= more <= rows,
            out@ == head + model::repeated(seq!['\n'] + row@, more - 1),
        decreases rows - more,
    {
        out.push('\n');
        push_all(&mut out, &row);
        more += 1;
        assert(out@ =~= head + model::repeated(seq!['\n'] + row@, more - 1));
    }
    out
}

/// A new table with line breaks before it and, where asked for, one behind it.
fn table_block(lead: usize, rows: usize, columns: usize, tail: bool) -> (out: String)
    requires
        rows >= 1,
        lead <= 2,
    ensures
        out@ == model::breaks(lead as int) + model::new_table(rows as int, columns as int)
            + model::break_if(tail),
{
    let mut text: Vec<char> = Vec::new();
    if lead >= 1 {
        text.push('\n');
    }
    if lead >= 2 {
        text.push('\n');
    }
    assert(text@ =~= model::breaks(lead as int));
    push_all(&mut text, &new_table(rows, columns));
    let ghost long = text@;
    if tail {
        text.push('\n');
    }
    assert(text@ =~= long + model::break_if(tail));
    string_of(&text)
}

/// Whether a range holds anything but white space.
fn has_text(chars: &Vec<char>, from: usize, to: usize) -> (out: bool)
    requires
        from <= to <= chars@.len(),
    ensures
        out == model::has_text(chars@, from as int, to as int),
{
    let mut at: usize = from;
    while at < to
        invariant
            from <= at <= to <= chars@.len(),
            forall|k: int| from <= k < at ==> text::is_space(#[trigger] chars@[k]),
        decreases to - at,
    {
        if !is_white(chars[at]) {
            return true;
        }
        at += 1;
    }
    false
}

// --- placing a table --------------------------------------------------------------

/// Whether a table can be placed: nothing is selected, and the caret's line is
/// no quote, list, code, table or front matter.
pub fn can_place_table(source: &str, styles: &[LineStyle], from: usize, to: usize) -> (out: bool)
    ensures
        out == model::can_place(source@, styles@, from as int, to as int),
{
    let chars = chars_of(source);
    match char_index(&chars, from) {
        Some(at) => {
            if from != to {
                return false;
            }
            let line: usize = line_number(&chars, at);
            if line >= styles.len() {
                return true;
            }
            let style = styles[line];
            style.quote_depth == 0 && style.list_indent == 0 && !style.kind.is_code()
                && !style.kind.is_table() && !style.kind.is_list() && style.kind
                != LineKind::FrontMatter
        },
        None => false,
    }
}

/// Places a table of `rows` rows (the header with them) and `columns` columns.
///
/// It goes on the caret's line where that is empty, and else below it. Blank
/// lines keep it apart from the paragraphs around it, and the caret stands in
/// the first cell of the header.
pub fn insert_table(
    source: &str,
    styles: &[LineStyle],
    from: usize,
    to: usize,
    rows: usize,
    columns: usize,
) -> (out: Option<Edit>)
    requires
        text::size(source@) <= usize::MAX,
        model::fits(
            model::insert_model(
                source@,
                styles@,
                from as int,
                to as int,
                rows as int,
                columns as int,
            ),
        ),
    ensures
        is_edit(
            out,
            model::insert_model(
                source@,
                styles@,
                from as int,
                to as int,
                rows as int,
                columns as int,
            ),
        ),
{
    if rows == 0 || columns == 0 || !can_place_table(source, styles, from, to) {
        return None;
    }
    let chars = chars_of(source);
    let bounds = line_bounds(&chars);
    match char_index(&chars, from) {
        Some(at) => {
            let line: usize = line_number(&chars, at);
            proof {
                text_blocks::line_of_holds(chars@, at as int);
                text_blocks::lines_follow(chars@);
            }
            let (start, end) = bounds[line];
            let next_has_text = bounds.len() - line > 1 && has_text(
                &chars,
                bounds[line + 1].0,
                bounds[line + 1].1,
            );
            if has_text(&chars, start, end) {
                let point: usize = offset(&chars, end);
                let written = table_block(2, rows, columns, next_has_text);
                let caret: usize = point + 4;
                Some((Range { start: point, end: point }, written, (caret, caret)))
            } else {
                let previous_has_text = line > 0 && has_text(
                    &chars,
                    bounds[line - 1].0,
                    bounds[line - 1].1,
                );
                let lead: usize = if previous_has_text {
                    1
                } else {
                    0
                };
                let first: usize = offset(&chars, start);
                let last: usize = offset(&chars, end);
                let written = table_block(lead, rows, columns, next_has_text);
                let caret: usize = first + (lead + 2);
                Some((Range { start: first, end: last }, written, (caret, caret)))
            }
        },
        None => None,
    }
}

} // verus!
