//! The tags that are listed before a text, and what of a text is passed over.
use crate::letters;
use crate::tags::finding::{self, TagModel};
use crate::tags::name;
use crate::text;
use crate::text_blocks::{self, LineStyle};
use vstd::prelude::*;

verus! {

// --- what is listed ----------------------------------------------------------------------

proof fn nothing_is_trimmed(text: Seq<char>, from: int, to: int)
    requires
        0 <= from < to <= text.len(),
        !text::is_space(text[from]),
        !text::is_space(text[to - 1]),
    ensures
        text::trimmed(text, from, to) == (from, to),
{
}

/// A plain value stands from `from` to `to`: with no white space, quote or hash at its
/// ends and no stroke at its end, and it is a name.
pub open spec fn is_plain_value(text: Seq<char>, from: int, to: int) -> bool {
    &&& 0 <= from < to <= text.len()
    &&& !text::is_space(text[from]) && !text::is_space(text[to - 1])
    &&& text[from] != '"' && text[from] != '\'' && text[from] != '#'
    &&& text[to - 1] != '/'
    &&& name::is_name(text, from, to)
}

/// A listed value is a tag: as it stands, behind a hash, or between quotes.
pub proof fn a_listed_value_is_a_tag(text: Seq<char>, from: int, to: int)
    requires
        is_plain_value(text, from, to),
    ensures
        finding::item_found(text, from, to) == seq![(from, from, to)],
        from > 0 && text[from - 1] == '#' ==> finding::item_found(text, from - 1, to) == seq![
            (from, from, to),
        ],
        from > 0 && to < text.len() && text[from - 1] == '"' && text[to] == '"'
            ==> finding::item_found(text, from - 1, to + 1) == seq![(from, from, to)],
        from > 0 && to < text.len() && text[from - 1] == '\'' && text[to] == '\''
            ==> finding::item_found(text, from - 1, to + 1) == seq![(from, from, to)],
{
    nothing_is_trimmed(text, from, to);
    if from > 0 && text[from - 1] == '#' {
        nothing_is_trimmed(text, from - 1, to);
    }
    if from > 0 && to < text.len() && (text[from - 1] == '"' || text[from - 1] == '\'')
        && text[to] == text[from - 1] {
        nothing_is_trimmed(text, from - 1, to + 1);
    }
}

/// A character parts the values of a row: a comma, a blank or a tab.
pub open spec fn parts_values(c: char) -> bool {
    c == ',' || c == ' ' || c == '\t'
}

proof fn the_next_separator_is_found(text: Seq<char>, from: int, at: int, to: int)
    requires
        0 <= from <= at <= to <= text.len(),
        at < to ==> parts_values(text[at]),
        forall|k: int| from <= k < at ==> !parts_values(#[trigger] text[k]),
    ensures
        finding::next_separator(text, from, to) == at,
    decreases at - from,
{
    if from < at {
        assert(!parts_values(text[from]));
        the_next_separator_is_found(text, from + 1, at, to);
    }
}

/// The values of a row are tags one after the other, parted by commas and blanks.
pub proof fn values_follow_one_another(text: Seq<char>, from: int, at: int, to: int)
    requires
        0 <= from <= at < to <= text.len(),
        parts_values(text[at]),
        forall|k: int| from <= k < at ==> !parts_values(#[trigger] text[k]),
    ensures
        finding::items_found(text, from, to) == finding::item_found(text, from, at)
            + finding::items_found(text, at + 1, to),
{
    the_next_separator_is_found(text, from, at, to);
}

/// The last value of a row goes to its end.
pub proof fn the_last_value_goes_to_the_end(text: Seq<char>, from: int, to: int)
    requires
        0 <= from <= to <= text.len(),
        forall|k: int| from <= k < to ==> !parts_values(#[trigger] text[k]),
    ensures
        finding::items_found(text, from, to) == finding::item_found(text, from, to),
{
    the_next_separator_is_found(text, from, to, to);
}

proof fn the_first_colon_is_found(text: Seq<char>, from: int, colon: int, to: int)
    requires
        0 <= from <= colon < to <= text.len(),
        text[colon] == ':',
        forall|k: int| from <= k < colon ==> #[trigger] text[k] != ':',
    ensures
        finding::colon_at(text, from, to) == Some(colon),
    decreases colon - from,
{
    if from < colon {
        assert(text[from] != ':');
        the_first_colon_is_found(text, from + 1, colon, to);
    }
}

/// A line of the head lists tags where it is called `tags` or `tag`, in any case: those
/// behind its colon, between brackets or without. Where nothing stands there, the lines
/// of a list follow. A line of another name lists none.
pub proof fn a_line_lists_tags_by_its_name(
    text: Seq<char>,
    from: int,
    colon: int,
    start: int,
    end: int,
    to: int,
)
    requires
        0 <= from < colon < to <= text.len(),
        text[colon] == ':',
        forall|k: int| from <= k < colon ==> #[trigger] text[k] != ':',
        !text::is_space(text[from]) && text[from] != '-' && text[from] != ' ' && text[from] != '\t',
        !text::is_space(text[colon - 1]),
        text::trimmed(text, colon + 1, to) == (start, end),
    ensures
        ({
            let word = letters::lowered(text.subrange(from, colon));
            let (found, listing) = finding::front_line(text, from, to, false);
            let named = word == "tags"@ || word == "tag"@;
            &&& !named ==> found.len() == 0 && !listing
            &&& named && start >= end ==> found.len() == 0 && listing
            &&& named && start < end && end - start >= 2 && text[start] == '[' && text[end - 1]
                == ']' ==> found == finding::items_found(text, start + 1, end - 1) && !listing
            &&& named && start < end && text[start] != '[' ==> found == finding::items_found(
                text,
                start,
                end,
            ) && !listing
        }),
{
    the_first_colon_is_found(text, from, colon, to);
    nothing_is_trimmed(text, from, colon);
}

/// A line of a list is one tag behind its dash, and the list goes on.
pub proof fn a_line_of_a_list_is_one_tag(text: Seq<char>, from: int, dash: int, to: int)
    requires
        0 <= from <= dash < to <= text.len(),
        text[dash] == '-',
        forall|k: int| from <= k < dash ==> text::is_space(#[trigger] text[k]),
    ensures
        finding::front_line(text, from, to, true) == (
            finding::item_found(text, dash + 1, to),
            true,
        ),
{
    space_is_skipped(text, from, dash, to);
}

proof fn space_is_skipped(text: Seq<char>, from: int, at: int, to: int)
    requires
        0 <= from <= at < to <= text.len(),
        text[at] == '-',
        forall|k: int| from <= k < at ==> text::is_space(#[trigger] text[k]),
    ensures
        text::skip_space(text, from, to) == at,
    decreases at - from,
{
    if from < at {
        assert(text::is_space(text[from]));
        space_is_skipped(text, from + 1, at, to);
    }
}

// --- what is passed over -----------------------------------------------------------------

/// Code between two backquotes holds no tags: the line is read on behind it.
pub proof fn code_is_passed_over(
    text: Seq<char>,
    at: int,
    closing: int,
    to: int,
    previous: Option<char>,
)
    requires
        0 <= at,
        at + 1 < closing < to <= text.len(),
        text[at] == '`',
        text[closing] == '`',
        closing + 1 < to ==> text[closing + 1] != '`',
        forall|k: int| at < k < closing ==> #[trigger] text[k] != '`',
    ensures
        finding::line_found(text, at, to, previous) == finding::line_found(
            text,
            closing + 1,
            to,
            Some('`'),
        ),
{
    reveal_with_fuel(finding::quotes_end, 3);
    assert(text[at + 1] != '`');
    assert(finding::quotes_end(text, at, to) == at + 1);
    the_closing_quote_is_found(text, at + 1, closing, to);
}

proof fn the_closing_quote_is_found(text: Seq<char>, from: int, closing: int, to: int)
    requires
        0 <= from <= closing < to <= text.len(),
        text[closing] == '`',
        closing + 1 < to ==> text[closing + 1] != '`',
        forall|k: int| from <= k < closing ==> #[trigger] text[k] != '`',
    ensures
        finding::next_quotes(text, from, 1, to) == Some(closing),
    decreases closing - from,
{
    reveal_with_fuel(finding::quotes_end, 3);
    if from < closing {
        assert(text[from] != '`');
        the_closing_quote_is_found(text, from + 1, closing, to);
    }
}

/// A remark between two percent signs and two holds no tags.
pub proof fn a_remark_is_passed_over(
    text: Seq<char>,
    at: int,
    closing: int,
    to: int,
    previous: Option<char>,
)
    requires
        0 <= at,
        at + 2 <= closing,
        closing + 2 <= to <= text.len(),
        text[at] == '%' && text[at + 1] == '%',
        text[closing] == '%' && text[closing + 1] == '%',
        forall|k: int| at + 2 <= k < closing ==> #[trigger] text[k] != '%',
    ensures
        finding::line_found(text, at, to, previous) == finding::line_found(
            text,
            closing + 2,
            to,
            Some('%'),
        ),
{
    the_closing_signs_are_found(text, at + 2, closing, to);
}

proof fn the_closing_signs_are_found(text: Seq<char>, from: int, closing: int, to: int)
    requires
        0 <= from <= closing,
        closing + 2 <= to <= text.len(),
        text[closing] == '%' && text[closing + 1] == '%',
        forall|k: int| from <= k < closing ==> #[trigger] text[k] != '%',
    ensures
        finding::next_signs(text, from, to) == Some(closing),
    decreases closing - from,
{
    if from < closing {
        assert(text[from] != '%');
        the_closing_signs_are_found(text, from + 1, closing, to);
    }
}

/// The tags of a line come in where it is part of the text. A line that is shown as it is
/// written has none, nor one that is set in without being of a list.
pub proof fn only_text_has_tags(
    text: Seq<char>,
    start: int,
    styles: Seq<LineStyle>,
    n: int,
)
    requires
        0 < n <= text_blocks::lines(text).len(),
        n <= styles.len(),
    ensures
        ({
            let (from, to) = text_blocks::lines(text)[n - 1];
            let style = styles[n - 1];
            let indented = from < to && (text[from] == ' ' || text[from] == '\t');
            let before = finding::body_to(text, start, styles, n - 1);
            let after = finding::body_to(text, start, styles, n);
            &&& from < start || style.literal() ==> after == before
            &&& indented && style.list_indent == 0 ==> after == before
            &&& from >= start && !style.literal() && !indented ==> after == before
                + finding::line_found(text, from, to, None)
            &&& from >= start && !style.literal() && style.list_indent != 0 ==> after == before
                + finding::line_found(text, from, to, None)
        }),
{
}

/// The tag at a byte is the first that covers it.
pub proof fn the_tag_at_a_byte_covers_it(tags: Seq<TagModel>, byte: int, at: int, from: int)
    requires
        0 <= from <= at < tags.len(),
        tags[at].at <= byte < tags[at].at + tags[at].len,
        forall|k: int|
            from <= k < at ==> !((#[trigger] tags[k]).at <= byte < tags[k].at + tags[k].len),
    ensures
        finding::tag_over(tags, byte, from) == Some(at),
    decreases at - from,
{
    if from < at {
        assert(!(tags[from].at <= byte < tags[from].at + tags[from].len));
        the_tag_at_a_byte_covers_it(tags, byte, at, from + 1);
    }
}

} // verus!
