//! Finding the tags of a document.
use crate::letters;
use crate::lines;
use crate::tags::name;
use crate::tags::query;
use crate::text;
use crate::text_blocks::{self, LineStyle};
use vstd::prelude::*;

verus! {

/// A tag of a document.
#[derive(Clone, Debug, PartialEq, Eq)]
pub struct TagAt {
    /// Where it stands, in bytes: the hash of a tag in the text, the name of one
    /// that is listed before it.
    pub at: usize,
    /// How many bytes it takes from there.
    pub len: usize,
    /// The name as it is written, without the hash.
    pub name: String,
}

/// Where a tag stands, in characters: its place, and where its name begins and
/// ends.
pub type Place = (int, int, int);

/// A tag as it is reported.
pub ghost struct TagModel {
    pub at: int,
    pub len: int,
    pub name: Seq<char>,
}

/// The tag at a place.
pub open spec fn tag_model(source: Seq<char>, place: Place) -> TagModel {
    TagModel {
        at: text::size(source.take(place.0)),
        len: text::size(source.subrange(place.0, place.2)),
        name: source.subrange(place.1, place.2),
    }
}

pub open spec fn tag_models(source: Seq<char>, found: Seq<Place>) -> Seq<TagModel> {
    Seq::new(found.len(), |i: int| tag_model(source, found[i]))
}

impl View for TagAt {
    type V = TagModel;

    open spec fn view(&self) -> TagModel {
        TagModel { at: self.at as int, len: self.len as int, name: self.name@ }
    }
}

pub open spec fn reported(tags: Seq<TagAt>) -> Seq<TagModel> {
    Seq::new(tags.len(), |i: int| tags[i]@)
}

pub open spec fn places(found: Seq<(usize, usize, usize)>) -> Seq<Place> {
    Seq::new(
        found.len(),
        |i: int| (found[i].0 as int, found[i].1 as int, found[i].2 as int),
    )
}

/// A place within the first `end` characters.
pub open spec fn within(place: Place, end: int) -> bool {
    0 <= place.0 <= place.1 <= place.2 <= end
}

/// Where the backquotes that begin at `at` end.
pub open spec fn quotes_end(text: Seq<char>, at: int, to: int) -> int
    decreases to - at,
{
    if at < to && text[at] == '`' {
        quotes_end(text, at + 1, to)
    } else {
        at
    }
}

/// So many backquotes stand at a place.
pub open spec fn has_quotes(text: Seq<char>, at: int, run: int, to: int) -> bool {
    at + run <= to && forall|i: int| at <= i < at + run ==> #[trigger] text[i] == '`'
}

/// Where so many backquotes stand next.
pub open spec fn next_quotes(text: Seq<char>, at: int, run: int, to: int) -> Option<int>
    decreases to - at,
{
    if at + run > to || at >= to {
        None
    } else if has_quotes(text, at, run, to) {
        Some(at)
    } else {
        next_quotes(text, at + 1, run, to)
    }
}

/// Two percent signs stand at a place.
pub open spec fn has_signs(text: Seq<char>, at: int, to: int) -> bool {
    at + 2 <= to && text[at] == '%' && text[at + 1] == '%'
}

/// Where two percent signs stand next.
pub open spec fn next_signs(text: Seq<char>, at: int, to: int) -> Option<int>
    decreases to - at,
{
    if at + 2 > to {
        None
    } else if has_signs(text, at, to) {
        Some(at)
    } else {
        next_signs(text, at + 1, to)
    }
}

/// One step along a line: the next place, the character before it, and the tag
/// that was found. Code between backquotes and remarks between double percent
/// signs are passed over.
pub open spec fn step(
    text: Seq<char>,
    at: int,
    to: int,
    previous: Option<char>,
) -> (int, Option<char>, Option<Place>) {
    let quoted = quotes_end(text, at, to);
    let run = quoted - at;
    let closed = next_quotes(text, quoted, run, to);
    let remark = next_signs(text, at + 2, to);
    if text[at] == '`' && closed is Some {
        (closed->0 + run, Some('`'), None)
    } else if has_signs(text, at, to) && remark is Some {
        (remark->0 + 2, Some('%'), None)
    } else {
        match name::tag_end(text, at, to, previous) {
            Some(end) => (end, Some(text[end - 1]), Some((at, at + 1, end))),
            None => (at + 1, Some(text[at]), None),
        }
    }
}

proof fn quotes_end_is_behind(text: Seq<char>, at: int, to: int)
    requires
        at <= to,
    ensures
        at <= quotes_end(text, at, to) <= to,
        at < to && text[at] == '`' ==> quotes_end(text, at, to) > at,
    decreases to - at,
{
    if at < to && text[at] == '`' {
        quotes_end_is_behind(text, at + 1, to);
    }
}

proof fn next_quotes_is_there(text: Seq<char>, at: int, run: int, to: int)
    ensures
        match next_quotes(text, at, run, to) {
            Some(found) => at <= found && found + run <= to,
            None => true,
        },
    decreases to - at,
{
    if at + run <= to && at < to && !has_quotes(text, at, run, to) {
        next_quotes_is_there(text, at + 1, run, to);
    }
}

proof fn next_signs_is_there(text: Seq<char>, at: int, to: int)
    ensures
        match next_signs(text, at, to) {
            Some(found) => at <= found && found + 2 <= to,
            None => true,
        },
    decreases to - at,
{
    if at + 2 <= to && !has_signs(text, at, to) {
        next_signs_is_there(text, at + 1, to);
    }
}

/// A step goes on, and not out of the line; a tag that it finds is within it.
pub proof fn a_step_goes_on(text: Seq<char>, at: int, to: int, previous: Option<char>)
    requires
        0 <= at < to <= text.len(),
    ensures
        ({
            let (next, before, found) = step(text, at, to, previous);
            &&& at < next <= to
            &&& found is Some ==> found->0 == (at, at + 1, next) && name::tag_end(
                text,
                at,
                to,
                previous,
            ) == Some(next)
        }),
{
    let quoted = quotes_end(text, at, to);
    quotes_end_is_behind(text, at, to);
    next_quotes_is_there(text, quoted, quoted - at, to);
    next_signs_is_there(text, at + 2, to);
    if let Some(end) = name::tag_end(text, at, to, previous) {
        run_end_is_behind(text, at + 1, to);
        strokes_are_behind(text, at + 1, name::run_end(text, at + 1, to));
    }
}

proof fn run_end_is_behind(text: Seq<char>, from: int, to: int)
    requires
        from <= to,
    ensures
        from <= name::run_end(text, from, to) <= to,
    decreases to - from,
{
    if from < to && name::is_tag(text[from]) {
        run_end_is_behind(text, from + 1, to);
    }
}

pub(crate) proof fn strokes_are_behind(text: Seq<char>, from: int, to: int)
    requires
        from <= to,
    ensures
        from <= name::before_strokes(text, from, to) <= to,
    decreases to - from,
{
    if from < to && text[to - 1] == '/' {
        strokes_are_behind(text, from, to - 1);
    }
}

/// The tags of a line from a place on.
pub open spec fn line_found(
    text: Seq<char>,
    at: int,
    to: int,
    previous: Option<char>,
) -> Seq<Place>
    decreases to - at,
    when 0 <= at <= to <= text.len()
    via line_goes_on
{
    if at >= to {
        Seq::empty()
    } else {
        let (next, before, found) = step(text, at, to, previous);
        let rest = line_found(text, next, to, before);
        match found {
            Some(place) => seq![place] + rest,
            None => rest,
        }
    }
}

#[via_fn]
proof fn line_goes_on(text: Seq<char>, at: int, to: int, previous: Option<char>) {
    if at < to {
        a_step_goes_on(text, at, to, previous);
    }
}

fn find_quotes_end(text: &Vec<char>, at: usize, to: usize) -> (out: usize)
    requires
        at <= to <= text@.len(),
    ensures
        out == quotes_end(text@, at as int, to as int),
        at <= out <= to,
{
    let mut end: usize = at;
    while end < to && text[end] == '`'
        invariant
            at <= end <= to <= text@.len(),
            quotes_end(text@, at as int, to as int) == quotes_end(text@, end as int, to as int),
        decreases to - end,
    {
        end += 1;
    }
    end
}

fn find_quotes(text: &Vec<char>, from: usize, run: usize, to: usize) -> (out: Option<usize>)
    requires
        from <= to <= text@.len(),
        run > 0,
    ensures
        match out {
            Some(found) => next_quotes(text@, from as int, run as int, to as int) == Some(
                found as int,
            ) && found + run <= to,
            None => next_quotes(text@, from as int, run as int, to as int) is None,
        },
{
    let mut at: usize = from;
    while at < to && run <= to - at
        invariant
            from <= at <= to <= text@.len(),
            run > 0,
            next_quotes(text@, from as int, run as int, to as int) == next_quotes(
                text@,
                at as int,
                run as int,
                to as int,
            ),
        decreases to - at,
    {
        let mut each: usize = 0;
        while each < run && text[at + each] == '`'
            invariant
                each <= run,
                at + run <= to <= text@.len(),
                forall|i: int| at <= i < at + each ==> #[trigger] text@[i] == '`',
            decreases run - each,
        {
            each += 1;
        }
        if each == run {
            assert(has_quotes(text@, at as int, run as int, to as int));
            return Some(at);
        }
        assert(text@[at + each] != '`');
        assert(!has_quotes(text@, at as int, run as int, to as int));
        at += 1;
    }
    None
}

fn find_signs(text: &Vec<char>, from: usize, to: usize) -> (out: Option<usize>)
    requires
        to <= text@.len(),
    ensures
        match out {
            Some(found) => next_signs(text@, from as int, to as int) == Some(found as int) && found
                + 2 <= to,
            None => next_signs(text@, from as int, to as int) is None,
        },
{
    let mut at: usize = from;
    while at < to && to - at >= 2
        invariant
            to <= text@.len(),
            next_signs(text@, from as int, to as int) == next_signs(text@, at as int, to as int),
        decreases to - at,
    {
        if text[at] == '%' && text[at + 1] == '%' {
            return Some(at);
        }
        at += 1;
    }
    None
}

fn line_tags(
    text: &Vec<char>,
    start: usize,
    end: usize,
    found: &mut Vec<(usize, usize, usize)>,
)
    requires
        start <= end <= text@.len(),
    ensures
        places(final(found)@) == places(old(found)@) + line_found(
            text@,
            start as int,
            end as int,
            None,
        ),
{
    let ghost goal = places(found@) + line_found(text@, start as int, end as int, None);
    let mut at: usize = start;
    let mut previous: Option<char> = None;
    while at < end
        invariant
            start <= at <= end <= text@.len(),
            places(found@) + line_found(text@, at as int, end as int, previous) == goal,
        decreases end - at,
    {
        let ghost before = places(found@);
        let ghost was = previous;
        let ghost here = at as int;
        proof {
            a_step_goes_on(text@, here, end as int, was);
        }
        let c = text[at];
        let quoted: usize = find_quotes_end(text, at, end);
        let run: usize = quoted - at;
        let closed: Option<usize> = if c == '`' {
            proof {
                quotes_end_is_behind(text@, here, end as int);
            }
            find_quotes(text, quoted, run, end)
        } else {
            None
        };
        let remark: Option<usize> = if c == '%' && end - at >= 2 && text[at + 1] == '%' {
            find_signs(text, at + 2, end)
        } else {
            None
        };
        if let Some(close) = closed {
            at = close + run;
            previous = Some('`');
        } else if let Some(close) = remark {
            at = close + 2;
            previous = Some('%');
        } else if let Some(tag) = name::find_tag(text, at, end, previous) {
            found.push((at, at + 1, tag));
            at = tag;
            previous = Some(text[tag - 1]);
            proof {
                let place = (here, here + 1, tag as int);
                assert(places(found@) =~= before.push(place));
                let rest = line_found(text@, tag as int, end as int, previous);
                assert(places(found@) + rest =~= before + (seq![place] + rest));
            }
        } else {
            at += 1;
            previous = Some(c);
        }
    }
    assert(places(found@) + line_found(text@, at as int, end as int, previous) =~= places(found@));
}

/// A character between the values of a list.
pub open spec fn is_separator(c: char) -> bool {
    c == ',' || c == ' ' || c == '\t'
}

/// A value without the quotes round it.
pub open spec fn unquoted(text: Seq<char>, from: int, to: int) -> (int, int) {
    if to - from >= 2 && ((text[from] == '"' && text[to - 1] == '"') || (text[from] == '\''
        && text[to - 1] == '\'')) {
        (from + 1, to - 1)
    } else {
        (from, to)
    }
}

/// The tag that a listed value is: it may stand in quotes, and have a hash.
pub open spec fn item_place(text: Seq<char>, from: int, to: int) -> Option<Place> {
    let outer = text::trimmed(text, from, to);
    let bare = unquoted(text, outer.0, outer.1);
    let inner = text::trimmed(text, bare.0, bare.1);
    let start = if inner.0 < inner.1 && text[inner.0] == '#' {
        inner.0 + 1
    } else {
        inner.0
    };
    let end = name::before_strokes(text, start, inner.1);
    if name::is_name(text, start, end) {
        Some((start, start, end))
    } else {
        None
    }
}

/// The tag that a listed value is, if it is one.
pub open spec fn item_found(text: Seq<char>, from: int, to: int) -> Seq<Place> {
    match item_place(text, from, to) {
        Some(place) => seq![place],
        None => Seq::empty(),
    }
}

fn frontmatter_item(
    text: &Vec<char>,
    from: usize,
    to: usize,
    found: &mut Vec<(usize, usize, usize)>,
)
    requires
        from <= to <= text@.len(),
    ensures
        places(final(found)@) == places(old(found)@) + item_found(text@, from as int, to as int),
{
    let ghost before = places(found@);
    let (a, b): (usize, usize) = text::trim_range(text, from, to);
    let quoted: bool = b - a >= 2 && ((text[a] == '"' && text[b - 1] == '"') || (text[a] == '\''
        && text[b - 1] == '\''));
    let (c, d): (usize, usize) = if quoted {
        text::trim_range(text, a + 1, b - 1)
    } else {
        text::trim_range(text, a, b)
    };
    let start: usize = if c < d && text[c] == '#' {
        c + 1
    } else {
        c
    };
    let end: usize = name::drop_strokes(text, start, d);
    if name::is_tag_name(text, start, end) {
        found.push((start, start, end));
        assert(places(found@) =~= before + item_found(text@, from as int, to as int));
    } else {
        assert(places(found@) =~= before + item_found(text@, from as int, to as int));
    }
}

/// Where the next character between values stands.
pub open spec fn next_separator(text: Seq<char>, from: int, to: int) -> int
    decreases to - from,
{
    if from < to && !is_separator(text[from]) {
        next_separator(text, from + 1, to)
    } else {
        from
    }
}

pub(crate) proof fn separator_is_behind(text: Seq<char>, from: int, to: int)
    requires
        from <= to,
    ensures
        from <= next_separator(text, from, to) <= to,
    decreases to - from,
{
    if from < to && !is_separator(text[from]) {
        separator_is_behind(text, from + 1, to);
    }
}

/// The tags of a row of values.
pub open spec fn items_found(text: Seq<char>, from: int, to: int) -> Seq<Place>
    decreases to - from,
    when from <= to
    via items_go_on
{
    let end = next_separator(text, from, to);
    if end >= to {
        item_found(text, from, to)
    } else {
        item_found(text, from, end) + items_found(text, end + 1, to)
    }
}

#[via_fn]
proof fn items_go_on(text: Seq<char>, from: int, to: int) {
    separator_is_behind(text, from, to);
}

fn row_items(
    text: &Vec<char>,
    from: usize,
    to: usize,
    found: &mut Vec<(usize, usize, usize)>,
)
    requires
        from <= to <= text@.len(),
    ensures
        places(final(found)@) == places(old(found)@) + items_found(text@, from as int, to as int),
{
    let ghost goal = places(found@) + items_found(text@, from as int, to as int);
    let mut start: usize = from;
    let mut done: bool = false;
    while !done
        invariant
            from <= start <= to <= text@.len(),
            !done ==> places(found@) + items_found(text@, start as int, to as int) == goal,
            done ==> places(found@) == goal,
        decreases (if done { 0int } else { 1int }), to - start,
    {
        let ghost before = places(found@);
        let mut end: usize = start;
        while end < to && text[end] != ',' && text[end] != ' ' && text[end] != '\t'
            invariant
                start <= end <= to <= text@.len(),
                next_separator(text@, start as int, to as int) == next_separator(
                    text@,
                    end as int,
                    to as int,
                ),
            decreases to - end,
        {
            end += 1;
        }
        frontmatter_item(text, start, end, found);
        if end >= to {
            done = true;
        } else {
            proof {
                let rest = items_found(text@, end + 1, to as int);
                let one = item_found(text@, start as int, end as int);
                assert(places(found@) + rest =~= before + (one + rest));
            }
            start = end + 1;
        }
    }
}

/// Where the first colon of a line stands.
pub open spec fn colon_at(text: Seq<char>, from: int, to: int) -> Option<int>
    decreases to - from,
{
    if from >= to {
        None
    } else if text[from] == ':' {
        Some(from)
    } else {
        colon_at(text, from + 1, to)
    }
}

/// The value of a line that lists tags: what stands behind `tags:` or `tag:`,
/// in any case.
pub open spec fn listed_value(text: Seq<char>, from: int, to: int) -> Option<(int, int)> {
    if from < to && (text[from] == ' ' || text[from] == '\t' || text[from] == '-') {
        None
    } else {
        match colon_at(text, from, to) {
            None => None,
            Some(colon) => {
                let (start, end) = text::trimmed(text, from, colon);
                let word = letters::lowered(text.subrange(start, end));
                if word == "tags"@ || word == "tag"@ {
                    Some(text::trimmed(text, colon + 1, to))
                } else {
                    None
                }
            },
        }
    }
}

/// A value without the brackets round it.
pub open spec fn unbracketed(text: Seq<char>, from: int, to: int) -> (int, int) {
    if to - from >= 2 && text[from] == '[' && text[to - 1] == ']' {
        (from + 1, to - 1)
    } else {
        (from, to)
    }
}

/// Where the item of a list begins, behind its dash.
pub open spec fn dash_item(text: Seq<char>, from: int, to: int) -> Option<int> {
    let start = text::skip_space(text, from, to);
    if start < to && text[start] == '-' {
        Some(start + 1)
    } else {
        None
    }
}

/// What one line before the text adds. `listing` says that the lines of a list
/// are going on; the answer says whether they go on behind it.
pub open spec fn front_line(
    text: Seq<char>,
    from: int,
    to: int,
    listing: bool,
) -> (Seq<Place>, bool) {
    let dash = dash_item(text, from, to);
    if listing && dash is Some {
        (item_found(text, dash->0, to), true)
    } else {
        match listed_value(text, from, to) {
            None => (Seq::empty(), false),
            Some(value) => if value.0 >= value.1 {
                (Seq::empty(), true)
            } else {
                let (start, end) = unbracketed(text, value.0, value.1);
                (items_found(text, start, end), false)
            },
        }
    }
}

/// What the lines before the text add, from the second to the `n`th, and
/// whether a list goes on.
pub open spec fn front_to(text: Seq<char>, n: int) -> (Seq<Place>, bool)
    decreases n,
{
    if n <= 1 {
        (Seq::empty(), false)
    } else {
        let before = front_to(text, n - 1);
        let (from, to) = text_blocks::lines(text)[n - 1];
        let (more, listing) = front_line(text, from, to, before.1);
        (before.0 + more, listing)
    }
}

/// The tags that are listed before the text.
pub open spec fn front_found(text: Seq<char>) -> Seq<Place> {
    front_to(text, text_blocks::lines(text).len() as int).0
}

fn find_listed(text: &Vec<char>, from: usize, to: usize) -> (out: Option<(usize, usize)>)
    requires
        from <= to <= text@.len(),
    ensures
        match out {
            Some(value) => listed_value(text@, from as int, to as int) == Some(
                (value.0 as int, value.1 as int),
            ) && value.0 <= value.1 <= to,
            None => listed_value(text@, from as int, to as int) is None,
        },
{
    if from < to && (text[from] == ' ' || text[from] == '\t' || text[from] == '-') {
        return None;
    }
    let mut colon: usize = from;
    while colon < to && text[colon] != ':'
        invariant
            from <= colon <= to <= text@.len(),
            colon_at(text@, from as int, to as int) == colon_at(text@, colon as int, to as int),
        decreases to - colon,
    {
        colon += 1;
    }
    if colon >= to {
        return None;
    }
    let (start, end): (usize, usize) = text::trim_range(text, from, colon);
    let word = text::string_range(text, start, end);
    let low = letters::lower_case(word.as_str());
    if text::same_text(low.as_str(), "tags") || text::same_text(low.as_str(), "tag") {
        Some(text::trim_range(text, colon + 1, to))
    } else {
        None
    }
}

fn take_front_line(
    text: &Vec<char>,
    from: usize,
    to: usize,
    listing: bool,
    found: &mut Vec<(usize, usize, usize)>,
) -> (out: bool)
    requires
        from <= to <= text@.len(),
    ensures
        places(final(found)@) == places(old(found)@) + front_line(
            text@,
            from as int,
            to as int,
            listing,
        ).0,
        out == front_line(text@, from as int, to as int, listing).1,
{
    let ghost before = places(found@);
    if listing {
        let start: usize = text::after_space(text, from, to);
        if start < to && text[start] == '-' {
            frontmatter_item(text, start + 1, to, found);
            return true;
        }
    }
    match find_listed(text, from, to) {
        None => {
            assert(before + Seq::<Place>::empty() =~= before);
            false
        },
        Some((start, end)) => {
            if start >= end {
                assert(before + Seq::<Place>::empty() =~= before);
                return true;
            }
            if end - start >= 2 && text[start] == '[' && text[end - 1] == ']' {
                row_items(text, start + 1, end - 1, found);
            } else {
                row_items(text, start, end, found);
            }
            false
        },
    }
}

fn frontmatter_tags(text: &Vec<char>, found: &mut Vec<(usize, usize, usize)>)
    ensures
        places(final(found)@) == places(old(found)@) + front_found(text@),
{
    let bounds = text_blocks::line_bounds(text);
    let ghost first = places(found@);
    proof {
        text_blocks::lines_follow(text@);
        assert(first + front_to(text@, 1).0 =~= first);
    }
    let mut listing: bool = false;
    let mut at: usize = 1;
    while at < bounds.len()
        invariant
            1 <= at <= bounds@.len() == text_blocks::lines(text@).len(),
            forall|line: int|
                0 <= line < bounds@.len() ==> text_blocks::lines(text@)[line] == (
                    (#[trigger] bounds@[line]).0 as int,
                    bounds@[line].1 as int,
                ),
            forall|line: int|
                0 <= line < bounds@.len() ==> 0 <= (#[trigger] text_blocks::lines(text@)[line]).0
                    <= text_blocks::lines(text@)[line].1 <= text@.len(),
            places(found@) == first + front_to(text@, at as int).0,
            listing == front_to(text@, at as int).1,
        decreases bounds@.len() - at,
    {
        let ghost before = front_to(text@, at as int).0;
        let ghost held = text_blocks::lines(text@)[at as int];
        assert(held.0 <= held.1 <= text@.len());
        let (from, to): (usize, usize) = bounds[at];
        let ghost more = front_line(text@, from as int, to as int, listing).0;
        listing = take_front_line(text, from, to, listing, found);
        assert(places(found@) =~= first + (before + more));
        at += 1;
    }
}

/// A line of the text whose tags are read: not one that is shown as it is
/// written, and not one that is set in without being of a list.
pub open spec fn is_read(text: Seq<char>, from: int, to: int, style: LineStyle) -> bool {
    !style.literal() && !(from < to && (text[from] == ' ' || text[from] == '\t')
        && style.list_indent == 0)
}

/// The style of a line, where it is known.
pub open spec fn style_at(styles: Seq<LineStyle>, line: int) -> LineStyle {
    if 0 <= line < styles.len() {
        styles[line]
    } else {
        text_blocks::plain_style()
    }
}

/// The tags in the first `n` lines of the text, which begins at `start`.
pub open spec fn body_to(text: Seq<char>, start: int, styles: Seq<LineStyle>, n: int) -> Seq<Place>
    decreases n,
{
    if n <= 0 {
        Seq::empty()
    } else {
        let before = body_to(text, start, styles, n - 1);
        let (from, to) = text_blocks::lines(text)[n - 1];
        if from >= start && is_read(text, from, to, style_at(styles, n - 1)) {
            before + line_found(text, from, to, None)
        } else {
            before
        }
    }
}

/// The tags of a document: those listed before the text, in the first `start`
/// characters, and then those of the text.
pub open spec fn found_in(source: Seq<char>, start: int, styles: Seq<LineStyle>) -> Seq<Place> {
    front_found(source.take(start)) + body_to(
        source,
        start,
        styles,
        text_blocks::lines(source).len() as int,
    )
}

proof fn line_places_are_within(text: Seq<char>, at: int, to: int, previous: Option<char>)
    requires
        0 <= at <= to <= text.len(),
    ensures
        forall|i: int|
            0 <= i < line_found(text, at, to, previous).len() ==> within(
                #[trigger] line_found(text, at, to, previous)[i],
                to,
            ),
    decreases to - at,
{
    if at < to {
        a_step_goes_on(text, at, to, previous);
        let (next, before, found) = step(text, at, to, previous);
        line_places_are_within(text, next, to, before);
        let rest = line_found(text, next, to, before);
        let all = line_found(text, at, to, previous);
        assert forall|i: int| 0 <= i < all.len() implies within(#[trigger] all[i], to) by {
            match found {
                Some(place) => {
                    if i > 0 {
                        assert(all[i] == rest[i - 1]);
                    }
                },
                None => {
                    assert(all[i] == rest[i]);
                },
            }
        }
    }
}

pub(crate) proof fn trimmed_is_within(text: Seq<char>, from: int, to: int)
    requires
        from <= to,
    ensures
        from <= text::trimmed(text, from, to).0 <= text::trimmed(text, from, to).1 <= to,
{
    skip_is_within(text, from, to);
    back_is_within(text, text::skip_space(text, from, to), to);
}

pub(crate) proof fn skip_is_within(text: Seq<char>, from: int, to: int)
    requires
        from <= to,
    ensures
        from <= text::skip_space(text, from, to) <= to,
    decreases to - from,
{
    if from < to && text::is_space(text[from]) {
        skip_is_within(text, from + 1, to);
    }
}

proof fn back_is_within(text: Seq<char>, from: int, to: int)
    requires
        from <= to,
    ensures
        from <= text::back_space(text, from, to) <= to,
    decreases to - from,
{
    if from < to && text::is_space(text[to - 1]) {
        back_is_within(text, from, to - 1);
    }
}

proof fn item_is_within(text: Seq<char>, from: int, to: int)
    requires
        0 <= from <= to,
    ensures
        match item_place(text, from, to) {
            Some(place) => within(place, to),
            None => true,
        },
{
    trimmed_is_within(text, from, to);
    let outer = text::trimmed(text, from, to);
    let bare = unquoted(text, outer.0, outer.1);
    trimmed_is_within(text, bare.0, bare.1);
    let inner = text::trimmed(text, bare.0, bare.1);
    let start = if inner.0 < inner.1 && text[inner.0] == '#' {
        inner.0 + 1
    } else {
        inner.0
    };
    strokes_are_behind(text, start, inner.1);
}

proof fn items_are_within(text: Seq<char>, from: int, to: int)
    requires
        0 <= from <= to,
    ensures
        forall|i: int|
            0 <= i < items_found(text, from, to).len() ==> within(
                #[trigger] items_found(text, from, to)[i],
                to,
            ),
    decreases to - from,
{
    separator_is_behind(text, from, to);
    let end = next_separator(text, from, to);
    item_is_within(text, from, to);
    item_is_within(text, from, end);
    if end < to {
        items_are_within(text, end + 1, to);
        let one = item_found(text, from, end);
        let rest = items_found(text, end + 1, to);
        let all = items_found(text, from, to);
        assert forall|i: int| 0 <= i < all.len() implies within(#[trigger] all[i], to) by {
            if i >= one.len() {
                assert(all[i] == rest[i - one.len()]);
            } else {
                assert(all[i] == one[i]);
            }
        }
    }
}

pub(crate) proof fn colon_is_within(text: Seq<char>, from: int, to: int)
    ensures
        match colon_at(text, from, to) {
            Some(at) => from <= at < to,
            None => true,
        },
    decreases to - from,
{
    if from < to && text[from] != ':' {
        colon_is_within(text, from + 1, to);
    }
}

proof fn front_is_within(text: Seq<char>, n: int)
    requires
        n <= text_blocks::lines(text).len(),
    ensures
        forall|i: int|
            0 <= i < front_to(text, n).0.len() ==> within(
                #[trigger] front_to(text, n).0[i],
                text.len() as int,
            ),
    decreases n,
{
    if n > 1 {
        front_is_within(text, n - 1);
        text_blocks::lines_follow(text);
        let (from, to) = text_blocks::lines(text)[n - 1];
        let before = front_to(text, n - 1);
        let more = front_line(text, from, to, before.1).0;
        skip_is_within(text, from, to);
        if let Some(start) = dash_item(text, from, to) {
            item_is_within(text, start, to);
        }
        colon_is_within(text, from, to);
        if let Some(colon) = colon_at(text, from, to) {
            trimmed_is_within(text, colon + 1, to);
        }
        if let Some(value) = listed_value(text, from, to) {
            if value.0 < value.1 {
                let (start, end) = unbracketed(text, value.0, value.1);
                items_are_within(text, start, end);
            }
        }
        let all = front_to(text, n).0;
        assert forall|i: int| 0 <= i < all.len() implies within(
            #[trigger] all[i],
            text.len() as int,
        ) by {
            if i < before.0.len() {
                assert(all[i] == before.0[i]);
            } else {
                assert(all[i] == more[i - before.0.len()]);
            }
        }
    }
}

proof fn body_is_within(text: Seq<char>, start: int, styles: Seq<LineStyle>, n: int)
    requires
        n <= text_blocks::lines(text).len(),
    ensures
        forall|i: int|
            0 <= i < body_to(text, start, styles, n).len() ==> within(
                #[trigger] body_to(text, start, styles, n)[i],
                text.len() as int,
            ),
    decreases n,
{
    if n > 0 {
        body_is_within(text, start, styles, n - 1);
        text_blocks::lines_follow(text);
        let (from, to) = text_blocks::lines(text)[n - 1];
        line_places_are_within(text, from, to, None);
        let before = body_to(text, start, styles, n - 1);
        let more = line_found(text, from, to, None);
        let all = body_to(text, start, styles, n);
        assert forall|i: int| 0 <= i < all.len() implies within(
            #[trigger] all[i],
            text.len() as int,
        ) by {
            if i < before.len() {
                assert(all[i] == before[i]);
            } else {
                assert(all[i] == more[i - before.len()]);
            }
        }
    }
}

/// Every tag that is found stands within the document.
pub proof fn tags_are_within(source: Seq<char>, start: int, styles: Seq<LineStyle>)
    requires
        0 <= start <= source.len(),
    ensures
        forall|i: int|
            0 <= i < found_in(source, start, styles).len() ==> within(
                #[trigger] found_in(source, start, styles)[i],
                source.len() as int,
            ),
{
    let front = front_found(source.take(start));
    let n = text_blocks::lines(source).len() as int;
    front_is_within(source.take(start), text_blocks::lines(source.take(start)).len() as int);
    body_is_within(source, start, styles, n);
    let body = body_to(source, start, styles, n);
    let all = found_in(source, start, styles);
    assert forall|i: int| 0 <= i < all.len() implies within(
        #[trigger] all[i],
        source.len() as int,
    ) by {
        if i < front.len() {
            assert(all[i] == front[i]);
        } else {
            assert(all[i] == body[i - front.len()]);
        }
    }
}

fn find_places(
    chars: &Vec<char>,
    start: usize,
    styles: &Vec<LineStyle>,
) -> (out: Vec<(usize, usize, usize)>)
    requires
        start <= chars@.len(),
    ensures
        places(out@) == found_in(chars@, start as int, styles@),
{
    let mut found: Vec<(usize, usize, usize)> = Vec::new();
    let head = text::string_range(chars, 0, start);
    let block = text::chars_of(head.as_str());
    assert(places(found@) =~= Seq::empty());
    frontmatter_tags(&block, &mut found);
    let ghost front = front_found(chars@.take(start as int));
    proof {
        assert(block@ =~= chars@.take(start as int));
        assert(places(found@) =~= front);
        assert(front + body_to(chars@, start as int, styles@, 0) =~= front);
        text_blocks::lines_follow(chars@);
    }
    let bounds = text_blocks::line_bounds(chars);
    let mut line: usize = 0;
    while line < bounds.len()
        invariant
            line <= bounds@.len() == text_blocks::lines(chars@).len(),
            start <= chars@.len(),
            forall|k: int|
                0 <= k < bounds@.len() ==> text_blocks::lines(chars@)[k] == (
                    (#[trigger] bounds@[k]).0 as int,
                    bounds@[k].1 as int,
                ),
            forall|k: int|
                0 <= k < bounds@.len() ==> 0 <= (#[trigger] text_blocks::lines(chars@)[k]).0
                    <= text_blocks::lines(chars@)[k].1 <= chars@.len(),
            places(found@) == front + body_to(chars@, start as int, styles@, line as int),
        decreases bounds@.len() - line,
    {
        let ghost before = body_to(chars@, start as int, styles@, line as int);
        let ghost held = text_blocks::lines(chars@)[line as int];
        assert(held.0 <= held.1 <= chars@.len());
        let (from, to): (usize, usize) = bounds[line];
        let style: LineStyle = if line < styles.len() {
            styles[line]
        } else {
            LineStyle::default()
        };
        let set_in: bool = from < to && (chars[from] == ' ' || chars[from] == '\t')
            && style.list_indent == 0;
        if from >= start && !style.is_literal() && !set_in {
            line_tags(chars, from, to, &mut found);
            assert(places(found@) =~= front + (before + line_found(
                chars@,
                from as int,
                to as int,
                None,
            )));
        }
        line += 1;
    }
    found
}

/// The tags of a document, in the order in which they stand. `front` is where
/// the lines before the text end, in bytes, and `styles` how its lines are
/// read.
pub fn tags_in(source: &str, front: usize, styles: &Vec<LineStyle>) -> (out: Vec<TagAt>)
    requires
        text::size(source@) <= usize::MAX,
        text::chars_before(source@, front as int) is Some,
    ensures
        reported(out@) == tag_models(
            source@,
            found_in(source@, text::chars_before(source@, front as int)->0, styles@),
        ),
{
    let chars = text::chars_of(source);
    let start: usize = match text::char_index(&chars, front) {
        Some(start) => start,
        None => 0,
    };
    let found = find_places(&chars, start, styles);
    let ghost all = places(found@);
    proof {
        tags_are_within(source@, start as int, styles@);
    }
    let mut out: Vec<TagAt> = Vec::new();
    let mut at: usize = 0;
    assert(reported(out@) =~= tag_models(source@, all.take(0)));
    while at < found.len()
        invariant
            at <= found@.len(),
            chars@ == source@,
            all == places(found@),
            text::size(source@) <= usize::MAX,
            forall|i: int| 0 <= i < all.len() ==> within(#[trigger] all[i], source@.len() as int),
            reported(out@) == tag_models(source@, all.take(at as int)),
        decreases found@.len() - at,
    {
        let (place, from, to): (usize, usize, usize) = found[at];
        let ghost before = reported(out@);
        proof {
            assert(all[at as int] == (place as int, from as int, to as int));
            assert(within(all[at as int], source@.len() as int));
            text::size_of_part(source@, 0, place as int);
            text::size_of_part(source@, place as int, to as int);
            assert(source@.subrange(0, place as int) =~= source@.take(place as int));
        }
        let tag = TagAt {
            at: text::size_of(&chars, 0, place),
            len: text::size_of(&chars, place, to),
            name: text::string_range(&chars, from, to),
        };
        out.push(tag);
        proof {
            assert(reported(out@) =~= before.push(tag@));
            assert(reported(out@) =~= tag_models(source@, all.take(at + 1)));
        }
        at += 1;
    }
    assert(all.take(all.len() as int) =~= all);
    out
}

/// The names among the first `n` tags, each once: small and capital letters are
/// the same, and the first spelling stays.
pub open spec fn names_of(tags: Seq<TagModel>, n: int) -> Seq<Seq<char>>
    decreases n,
{
    if n <= 0 {
        Seq::empty()
    } else {
        let before = names_of(tags, n - 1);
        if is_named(tags, tags[n - 1].name, n - 1) {
            before
        } else {
            before.push(tags[n - 1].name)
        }
    }
}

/// One of the first `n` tags has this name, in some spelling.
pub open spec fn is_named(tags: Seq<TagModel>, name: Seq<char>, n: int) -> bool {
    exists|i: int|
        0 <= i < n && letters::lowered((#[trigger] tags[i]).name) == letters::lowered(name)
}

/// The names of a document's tags, each once.
pub fn names(source: &str, front: usize, styles: &Vec<LineStyle>) -> (out: Vec<String>)
    requires
        text::size(source@) <= usize::MAX,
        text::chars_before(source@, front as int) is Some,
    ensures
        ({
            let tags = tag_models(
                source@,
                found_in(source@, text::chars_before(source@, front as int)->0, styles@),
            );
            lines::texts(out@) == names_of(tags, tags.len() as int)
        }),
{
    let tags = tags_in(source, front, styles);
    let ghost all = reported(tags@);
    let mut seen: Vec<String> = Vec::new();
    let mut out: Vec<String> = Vec::new();
    let mut at: usize = 0;
    assert(lines::texts(out@) =~= Seq::empty());
    while at < tags.len()
        invariant
            at <= tags@.len(),
            all == reported(tags@),
            seen@.len() == at,
            forall|i: int|
                0 <= i < at ==> (#[trigger] seen@[i])@ == letters::lowered(all[i].name),
            lines::texts(out@) == names_of(all, at as int),
        decreases tags@.len() - at,
    {
        let low = query::key(tags[at].name.as_str());
        let ghost name = all[at as int].name;
        let mut known: bool = false;
        let mut each: usize = 0;
        while each < at
            invariant
                each <= at,
                at == seen@.len(),
                at <= all.len(),
                low@ == letters::lowered(name),
                forall|i: int|
                    0 <= i < at ==> (#[trigger] seen@[i])@ == letters::lowered(all[i].name),
                known == is_named(all, name, each as int),
            decreases at - each,
        {
            if text::same_text(seen[each].as_str(), low.as_str()) {
                assert(letters::lowered(all[each as int].name) == letters::lowered(name));
                known = true;
            } else {
                proof {
                    if is_named(all, name, each + 1) && !is_named(all, name, each as int) {
                        let i = choose|i: int|
                            0 <= i < each + 1 && letters::lowered((#[trigger] all[i]).name)
                                == letters::lowered(name);
                        assert(i == each);
                    }
                    if is_named(all, name, each as int) {
                        let i = choose|i: int|
                            0 <= i < each && letters::lowered((#[trigger] all[i]).name)
                                == letters::lowered(name);
                        assert(letters::lowered(all[i].name) == letters::lowered(name));
                    }
                }
            }
            each += 1;
        }
        if !known {
            let ghost before = lines::texts(out@);
            out.push(tags[at].name.clone());
            assert(lines::texts(out@) =~= before.push(name));
        }
        seen.push(low);
        at += 1;
    }
    out
}

/// The place of the first tag over a byte.
pub open spec fn tag_over(tags: Seq<TagModel>, byte: int, from: int) -> Option<int>
    decreases tags.len() - from,
{
    if from < 0 || from >= tags.len() {
        None
    } else if tags[from].at <= byte < tags[from].at + tags[from].len {
        Some(from)
    } else {
        tag_over(tags, byte, from + 1)
    }
}

/// The name of the tag over a byte of a document.
pub fn tag_at(source: &str, front: usize, styles: &Vec<LineStyle>, byte: usize) -> (out: Option<
    String,
>)
    requires
        text::size(source@) <= usize::MAX,
        text::chars_before(source@, front as int) is Some,
    ensures
        ({
            let tags = tag_models(
                source@,
                found_in(source@, text::chars_before(source@, front as int)->0, styles@),
            );
            lines::optional(out) == match tag_over(tags, byte as int, 0) {
                Some(at) => Some(tags[at].name),
                None => None,
            }
        }),
{
    let tags = tags_in(source, front, styles);
    let ghost all = reported(tags@);
    let mut at: usize = 0;
    while at < tags.len()
        invariant
            at <= tags@.len(),
            all == reported(tags@),
            tag_over(all, byte as int, 0) == tag_over(all, byte as int, at as int),
            all == tag_models(
                source@,
                found_in(source@, text::chars_before(source@, front as int)->0, styles@),
            ),
        decreases tags@.len() - at,
    {
        if tags[at].at <= byte && byte - tags[at].at < tags[at].len {
            return Some(tags[at].name.clone());
        }
        at += 1;
    }
    None
}

} // verus!
