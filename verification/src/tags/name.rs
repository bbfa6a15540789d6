//! What a tag's name may be.
use crate::letters;
use crate::text;
use vstd::prelude::*;

verus! {

/// A character of a tag's name.
pub open spec fn is_tag(c: char) -> bool {
    letters::is_letter_or_number(c) || c == '_' || c == '-' || c == '/'
}

/// [`is_tag`]: letters and numbers of any script, and three marks.
pub fn is_tag_char(c: char) -> (out: bool)
    ensures
        out == is_tag(c),
{
    letters::letter_or_number(c) || c == '_' || c == '-' || c == '/'
}

/// A character that makes a name more than a number.
pub open spec fn says_something(c: char) -> bool {
    !letters::is_number(c) && c != '/'
}

/// The characters `from..to` are a name: no number alone, and no level without
/// a name before it.
pub open spec fn is_name(text: Seq<char>, from: int, to: int) -> bool {
    &&& from < to
    &&& text[from] != '/'
    &&& forall|i: int| from <= i < to ==> is_tag(#[trigger] text[i])
    &&& exists|i: int| from <= i < to && says_something(#[trigger] text[i])
}

/// [`is_name`].
pub fn is_tag_name(text: &Vec<char>, from: usize, to: usize) -> (out: bool)
    requires
        from <= to <= text@.len(),
    ensures
        out == is_name(text@, from as int, to as int),
{
    if from >= to || text[from] == '/' {
        return false;
    }
    let mut says: bool = false;
    let mut at: usize = from;
    while at < to
        invariant
            from <= at <= to <= text@.len(),
            forall|i: int| from <= i < at ==> is_tag(#[trigger] text@[i]),
            says == exists|i: int| from <= i < at && says_something(#[trigger] text@[i]),
        decreases to - at,
    {
        let c = text[at];
        if !is_tag_char(c) {
            return false;
        }
        if !letters::number(c) && c != '/' {
            assert(says_something(text@[at as int]));
            says = true;
        }
        at += 1;
    }
    says
}

/// Where a run of a name's characters ends.
pub open spec fn run_end(text: Seq<char>, from: int, to: int) -> int
    decreases to - from,
{
    if from >= to || !is_tag(text[from]) {
        from
    } else {
        run_end(text, from + 1, to)
    }
}

fn find_run_end(text: &Vec<char>, from: usize, to: usize) -> (out: usize)
    requires
        from <= to <= text@.len(),
    ensures
        out == run_end(text@, from as int, to as int),
        from <= out <= to,
{
    let mut at: usize = from;
    while at < to && is_tag_char(text[at])
        invariant
            from <= at <= to <= text@.len(),
            run_end(text@, from as int, to as int) == run_end(text@, at as int, to as int),
        decreases to - at,
    {
        at += 1;
    }
    at
}

/// Where a range ends without the strokes at its end.
pub open spec fn before_strokes(text: Seq<char>, from: int, to: int) -> int
    decreases to - from,
{
    if from >= to || text[to - 1] != '/' {
        to
    } else {
        before_strokes(text, from, to - 1)
    }
}

/// [`before_strokes`].
pub fn drop_strokes(text: &Vec<char>, from: usize, to: usize) -> (out: usize)
    requires
        from <= to <= text@.len(),
    ensures
        out == before_strokes(text@, from as int, to as int),
        from <= out <= to,
{
    let mut end: usize = to;
    while end > from && text[end - 1] == '/'
        invariant
            from <= end <= to <= text@.len(),
            before_strokes(text@, from as int, to as int) == before_strokes(
                text@,
                from as int,
                end as int,
            ),
        decreases end,
    {
        end -= 1;
    }
    end
}

/// Where the name of the tag at `at` ends, in a line that ends at `to`. A tag
/// begins a line or follows white space; `previous` is the character before.
pub open spec fn tag_end(text: Seq<char>, at: int, to: int, previous: Option<char>) -> Option<int> {
    if (previous is Some && !text::is_space(previous->0)) || at >= to || text[at] != '#' {
        None
    } else {
        let end = before_strokes(text, at + 1, run_end(text, at + 1, to));
        if is_name(text, at + 1, end) {
            Some(end)
        } else {
            None
        }
    }
}

/// [`tag_end`].
pub fn find_tag(text: &Vec<char>, at: usize, to: usize, previous: Option<char>) -> (out: Option<
    usize,
>)
    requires
        at <= to <= text@.len(),
    ensures
        match out {
            Some(end) => tag_end(text@, at as int, to as int, previous) == Some(end as int) && at
                + 1 < end <= to,
            None => tag_end(text@, at as int, to as int, previous) is None,
        },
{
    if let Some(c) = previous {
        if !text::is_white(c) {
            return None;
        }
    }
    if at >= to || text[at] != '#' {
        return None;
    }
    let run: usize = find_run_end(text, at + 1, to);
    let end: usize = drop_strokes(text, at + 1, run);
    if is_tag_name(text, at + 1, end) {
        Some(end)
    } else {
        None
    }
}

/// The tag at the head of a text: its name, and what stands behind it.
pub fn tag_here(rest: &str, previous: Option<char>) -> (out: Option<(String, String)>)
    ensures
        match (tag_end(rest@, 0, rest@.len() as int, previous), out) {
            (Some(end), Some(both)) => both.0@ == rest@.subrange(1, end) && both.1@ == rest@.skip(
                end,
            ),
            (None, None) => true,
            _ => false,
        },
{
    let chars = text::chars_of(rest);
    match find_tag(&chars, 0, chars.len(), previous) {
        Some(end) => {
            let name = text::string_range(&chars, 1, end);
            let after = text::string_range(&chars, end, chars.len());
            assert(after@ =~= rest@.skip(end as int));
            Some((name, after))
        },
        None => None,
    }
}

} // verus!
