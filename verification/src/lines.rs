//! Texts of lines, as the files of settings are: taking them apart and putting
//! them together.
use crate::text;
use vstd::prelude::*;

verus! {

/// A text taken apart at a mark, which is left out. A text without the mark is
/// one part.
pub open spec fn split(text: Seq<char>, mark: char) -> Seq<Seq<char>>
    decreases text.len(),
{
    if text.len() == 0 {
        seq![Seq::empty()]
    } else {
        let before = split(text.drop_last(), mark);
        if text.last() == mark {
            before.push(Seq::empty())
        } else {
            before.update(before.len() - 1, before.last().push(text.last()))
        }
    }
}

/// Each line with its line break behind it.
pub open spec fn flat(lines: Seq<Seq<char>>) -> Seq<char>
    decreases lines.len(),
{
    if lines.len() == 0 {
        Seq::empty()
    } else {
        (flat(lines.drop_last()) + lines.last()).push('\n')
    }
}

pub open spec fn texts(strings: Seq<String>) -> Seq<Seq<char>> {
    Seq::new(strings.len(), |i: int| strings[i]@)
}

pub proof fn split_is_some(text: Seq<char>, mark: char)
    ensures
        split(text, mark).len() > 0,
    decreases text.len(),
{
    if text.len() > 0 {
        split_is_some(text.drop_last(), mark);
    }
}

/// What stands behind a text without the mark goes to its last part.
pub proof fn split_grows(text: Seq<char>, more: Seq<char>, mark: char)
    requires
        !more.contains(mark),
    ensures
        split(text + more, mark) == split(text, mark).update(
            split(text, mark).len() - 1,
            split(text, mark).last() + more,
        ),
    decreases more.len(),
{
    let parts = split(text, mark);
    split_is_some(text, mark);
    if more.len() == 0 {
        assert(text + more =~= text);
        assert(parts.last() + more =~= parts.last());
        assert(parts.update(parts.len() - 1, parts.last() + more) =~= parts);
    } else {
        let less = more.drop_last();
        assert(!less.contains(mark)) by {
            if less.contains(mark) {
                let i = choose|i: int| 0 <= i < less.len() && less[i] == mark;
                assert(more[i] == mark);
            }
        }
        split_grows(text, less, mark);
        assert((text + more).drop_last() =~= text + less);
        assert((text + more).last() == more.last());
        assert(more[more.len() - 1] == more.last());
        let before = split(text + less, mark);
        assert(before.last().push(more.last()) =~= parts.last() + more);
        assert(split(text + more, mark) =~= parts.update(parts.len() - 1, parts.last() + more));
    }
}

/// Lines that hold no line break come apart as they were put together, with
/// nothing behind the last.
pub proof fn flat_splits(lines: Seq<Seq<char>>)
    requires
        forall|i: int| 0 <= i < lines.len() ==> !(#[trigger] lines[i]).contains('\n'),
    ensures
        split(flat(lines), '\n') == lines.push(Seq::empty()),
    decreases lines.len(),
{
    if lines.len() == 0 {
        assert(split(flat(lines), '\n') =~= lines.push(Seq::empty()));
    } else {
        let less = lines.drop_last();
        flat_splits(less);
        split_grows(flat(less), lines.last(), '\n');
        let whole = flat(less) + lines.last();
        assert(flat(lines).drop_last() =~= whole);
        assert(Seq::<char>::empty() + lines.last() =~= lines.last());
        assert(split(whole, '\n') =~= lines);
        assert(split(flat(lines), '\n') =~= lines.push(Seq::empty()));
    }
}

/// Lines one behind the other.
pub proof fn flat_adds(one: Seq<Seq<char>>, two: Seq<Seq<char>>)
    ensures
        flat(one + two) == flat(one) + flat(two),
    decreases two.len(),
{
    if two.len() == 0 {
        assert(one + two =~= one);
        assert(flat(one) + flat(two) =~= flat(one));
    } else {
        flat_adds(one, two.drop_last());
        assert((one + two).drop_last() =~= one + two.drop_last());
        assert((one + two).last() == two.last());
        assert(flat(one + two) =~= flat(one) + flat(two));
    }
}

/// One line and its line break.
pub proof fn flat_of_one(line: Seq<char>)
    ensures
        flat(seq![line]) == line.push('\n'),
{
    let one = seq![line];
    assert(one.drop_last() =~= Seq::empty());
    assert(flat(one.drop_last()) =~= Seq::empty());
    assert(flat(one) =~= line.push('\n'));
}

/// Takes a text apart at a mark.
pub fn split_at(source: &str, mark: char) -> (out: Vec<String>)
    ensures
        texts(out@) == split(source@, mark),
        out@.len() > 0,
{
    let chars = text::chars_of(source);
    let mut out: Vec<String> = Vec::new();
    let mut part = String::new();
    let mut at: usize = 0;
    proof {
        assert(chars@.take(0) =~= Seq::empty());
        assert(part@ =~= Seq::empty());
        assert(texts(out@).push(part@) =~= split(chars@.take(0), mark));
    }
    while at < chars.len()
        invariant
            at <= chars@.len(),
            texts(out@).push(part@) == split(chars@.take(at as int), mark),
        decreases chars@.len() - at,
    {
        let one = chars[at];
        let ghost before = texts(out@).push(part@);
        proof {
            assert(chars@.take(at + 1).drop_last() =~= chars@.take(at as int));
            assert(chars@.take(at + 1).last() == one);
        }
        if one == mark {
            let ghost held = part@;
            out.push(part);
            part = String::new();
            proof {
                assert(part@ =~= Seq::empty());
                assert(texts(out@) =~= before);
            }
        } else {
            part.push(one);
            assert(texts(out@).push(part@) =~= before.update(
                before.len() - 1,
                before.last().push(one),
            ));
        }
        at += 1;
    }
    let ghost before = texts(out@).push(part@);
    out.push(part);
    proof {
        assert(texts(out@) =~= before);
        assert(chars@.take(chars@.len() as int) =~= source@);
    }
    out
}

/// A line without the carriage returns at its end.
pub open spec fn without_returns(line: Seq<char>) -> Seq<char>
    decreases line.len(),
{
    if line.len() > 0 && line.last() == '\r' {
        without_returns(line.drop_last())
    } else {
        line
    }
}

/// [`without_returns`], of a string.
pub fn strip_returns(line: &str) -> (out: String)
    ensures
        out@ == without_returns(line@),
{
    let chars = text::chars_of(line);
    let mut end: usize = chars.len();
    assert(chars@.take(end as int) =~= line@);
    while end > 0 && chars[end - 1] == '\r'
        invariant
            end <= chars@.len(),
            without_returns(line@) == without_returns(chars@.take(end as int)),
        decreases end,
    {
        assert(chars@.take(end as int).drop_last() =~= chars@.take(end - 1));
        end -= 1;
    }
    let out = text::string_range(&chars, 0, end);
    assert(out@ =~= chars@.take(end as int));
    out
}

/// What stands behind a beginning, where a line begins so.
pub open spec fn behind(line: Seq<char>, head: Seq<char>) -> Option<Seq<char>> {
    if head.is_prefix_of(line) {
        Some(line.skip(head.len() as int))
    } else {
        None
    }
}

pub open spec fn optional(held: Option<String>) -> Option<Seq<char>> {
    match held {
        Some(text) => Some(text@),
        None => None,
    }
}

/// [`behind`], of strings.
pub fn strip_head(line: &str, head: &str) -> (out: Option<String>)
    ensures
        optional(out) == behind(line@, head@),
{
    let whole = text::chars_of(line);
    let start = text::chars_of(head);
    if text::stands_at(&whole, 0, &start) {
        proof {
            assert(head@.is_prefix_of(line@)) by {
                assert(line@.subrange(0, head@.len() as int) == head@);
            }
        }
        let out = text::string_range(&whole, start.len(), whole.len());
        assert(out@ =~= line@.skip(head@.len() as int));
        Some(out)
    } else {
        proof {
            if head@.is_prefix_of(line@) {
                assert(line@.subrange(0, head@.len() as int) =~= head@);
            }
        }
        None
    }
}

/// Where a part first stands in a line, from a place on.
pub open spec fn first_at(line: Seq<char>, part: Seq<char>, from: int) -> Option<int>
    decreases line.len() - from,
{
    if from < 0 || from + part.len() > line.len() {
        None
    } else if text::has_at(line, from, part) {
        Some(from)
    } else if from >= line.len() {
        None
    } else {
        first_at(line, part, from + 1)
    }
}

/// A line taken apart at the first place where a part stands.
pub open spec fn cut(line: Seq<char>, part: Seq<char>) -> Option<(Seq<char>, Seq<char>)> {
    match first_at(line, part, 0) {
        Some(at) => Some((line.take(at), line.skip(at + part.len()))),
        None => None,
    }
}

/// A place where nothing of the part stands before it is the first.
pub proof fn first_is_first(line: Seq<char>, part: Seq<char>, from: int, at: int)
    requires
        0 <= from <= at,
        part.len() > 0,
        text::has_at(line, at, part),
        forall|i: int| from <= i < at ==> !text::has_at(line, i, part),
    ensures
        first_at(line, part, from) == Some(at),
    decreases at - from,
{
    if from < at {
        first_is_first(line, part, from + 1, at);
    }
}

/// [`cut`], of strings.
pub fn split_once(line: &str, part: &str) -> (out: Option<(String, String)>)
    requires
        part@.len() > 0,
    ensures
        match out {
            Some(both) => cut(line@, part@) == Some((both.0@, both.1@)),
            None => cut(line@, part@) is None,
        },
{
    let whole = text::chars_of(line);
    let wanted = text::chars_of(part);
    let mut at: usize = 0;
    while at < whole.len() && wanted.len() <= whole.len() - at
        invariant
            at <= whole@.len(),
            whole@ == line@,
            wanted@ == part@,
            part@.len() > 0,
            first_at(line@, part@, 0) == first_at(line@, part@, at as int),
        decreases whole@.len() - at,
    {
        if text::stands_at(&whole, at, &wanted) {
            let one = text::string_range(&whole, 0, at);
            let two = text::string_range(&whole, at + wanted.len(), whole.len());
            proof {
                assert(one@ =~= line@.take(at as int));
                assert(two@ =~= line@.skip(at + part@.len()));
            }
            return Some((one, two));
        }
        at += 1;
    }
    None
}

/// A text without the white space at its ends.
pub open spec fn trim(text: Seq<char>) -> Seq<char> {
    let (start, end) = text::trimmed(text, 0, text.len() as int);
    text.subrange(start, end)
}

/// [`trim`], of a string.
pub fn trim_text(source: &str) -> (out: String)
    ensures
        out@ == trim(source@),
{
    let chars = text::chars_of(source);
    let (start, end): (usize, usize) = text::trim_range(&chars, 0, chars.len());
    text::string_range(&chars, start, end)
}

/// A text with neither white space at its ends is its own [`trim`].
pub proof fn trim_of_trimmed(text: Seq<char>)
    requires
        text.len() > 0 ==> !text::is_space(text[0]) && !text::is_space(text.last()),
    ensures
        trim(text) == text,
{
    assert(trim(text) =~= text);
}

/// A line break, a carriage return or a tab.
pub open spec fn is_break(c: char) -> bool {
    c == '\n' || c == '\r' || c == '\t'
}

/// A text with a space for each break and tab.
pub open spec fn spaced(text: Seq<char>) -> Seq<char> {
    Seq::new(
        text.len(),
        |i: int|
            if is_break(text[i]) {
                ' '
            } else {
                text[i]
            },
    )
}

/// [`spaced`], of a string.
pub fn space_breaks(source: &str) -> (out: String)
    ensures
        out@ == spaced(source@),
{
    let chars = text::chars_of(source);
    let mut out = String::new();
    let mut at: usize = 0;
    while at < chars.len()
        invariant
            at <= chars@.len(),
            chars@ == source@,
            out@ == spaced(source@).take(at as int),
        decreases chars@.len() - at,
    {
        let one = chars[at];
        out.push(
            if one == '\n' || one == '\r' || one == '\t' {
                ' '
            } else {
                one
            },
        );
        at += 1;
        assert(out@ =~= spaced(source@).take(at as int));
    }
    assert(spaced(source@).take(chars@.len() as int) =~= spaced(source@));
    out
}

/// A text without line breaks and carriage returns.
pub open spec fn joined(text: Seq<char>) -> Seq<char>
    decreases text.len(),
{
    if text.len() == 0 {
        text
    } else if text.last() == '\n' || text.last() == '\r' {
        joined(text.drop_last())
    } else {
        joined(text.drop_last()).push(text.last())
    }
}

/// [`joined`], of a string.
pub fn drop_breaks(source: &str) -> (out: String)
    ensures
        out@ == joined(source@),
{
    let chars = text::chars_of(source);
    let mut out = String::new();
    let mut at: usize = 0;
    assert(chars@.take(0) =~= Seq::empty());
    assert(out@ =~= Seq::empty());
    while at < chars.len()
        invariant
            at <= chars@.len(),
            chars@ == source@,
            out@ == joined(chars@.take(at as int)),
        decreases chars@.len() - at,
    {
        let one = chars[at];
        proof {
            assert(chars@.take(at + 1).drop_last() =~= chars@.take(at as int));
            assert(chars@.take(at + 1).last() == one);
        }
        if one != '\n' && one != '\r' {
            out.push(one);
        }
        at += 1;
    }
    assert(chars@.take(chars@.len() as int) =~= source@);
    out
}

/// A text without breaks is joined as it is.
pub proof fn joined_keeps(text: Seq<char>)
    requires
        !text.contains('\n'),
        !text.contains('\r'),
    ensures
        joined(text) == text,
    decreases text.len(),
{
    if text.len() > 0 {
        let less = text.drop_last();
        assert(text[text.len() - 1] == text.last());
        assert forall|c: char| less.contains(c) implies text.contains(c) by {
            let i = choose|i: int| 0 <= i < less.len() && less[i] == c;
            assert(text[i] == c);
        }
        joined_keeps(less);
        assert(less.push(text.last()) =~= text);
    }
}

/// Nothing that is joined holds a break.
pub proof fn joined_has_no_breaks(text: Seq<char>)
    ensures
        !joined(text).contains('\n'),
        !joined(text).contains('\r'),
    decreases text.len(),
{
    if text.len() > 0 {
        joined_has_no_breaks(text.drop_last());
        let before = joined(text.drop_last());
        let after = joined(text);
        assert forall|c: char| (c == '\n' || c == '\r') && after.contains(c) implies false by {
            let i = choose|i: int| 0 <= i < after.len() && after[i] == c;
            if i < before.len() {
                assert(before[i] == c);
            }
        }
    }
}

/// A line that does not end in a carriage return stays as it is.
pub proof fn no_returns_to_strip(line: Seq<char>)
    requires
        line.len() > 0 ==> line.last() != '\r',
    ensures
        without_returns(line) == line,
{
}

/// A part stands somewhere in a text.
pub open spec fn holds_part(text: Seq<char>, part: Seq<char>) -> bool {
    exists|i: int| #[trigger] text::has_at(text, i, part)
}

/// [`holds_part`], of strings.
pub fn has_part(source: &str, part: &str) -> (out: bool)
    ensures
        out == holds_part(source@, part@),
{
    let whole = text::chars_of(source);
    let wanted = text::chars_of(part);
    let mut at: usize = 0;
    while at <= whole.len() && wanted.len() <= whole.len() - at
        invariant
            at <= whole@.len() + 1,
            whole@ == source@,
            wanted@ == part@,
            forall|i: int| 0 <= i < at ==> !#[trigger] text::has_at(source@, i, part@),
        decreases whole@.len() + 1 - at,
    {
        if text::stands_at(&whole, at, &wanted) {
            return true;
        }
        if at == whole.len() {
            return false;
        }
        at += 1;
    }
    false
}

/// A text with every part of it that reads so replaced, from the left.
pub open spec fn replaced(text: Seq<char>, part: Seq<char>, by: Seq<char>) -> Seq<char>
    decreases text.len(),
{
    if text.len() == 0 || part.len() == 0 {
        text
    } else if text::has_at(text, 0, part) {
        by + replaced(text.skip(part.len() as int), part, by)
    } else {
        seq![text[0]] + replaced(text.skip(1), part, by)
    }
}

/// [`replaced`], of a string.
pub fn replace_all(source: &str, part: &str, by: &str) -> (out: String)
    requires
        part@.len() > 0,
    ensures
        out@ == replaced(source@, part@, by@),
{
    let chars = text::chars_of(source);
    let wanted = text::chars_of(part);
    let mut out = String::new();
    let mut at: usize = 0;
    proof {
        assert(chars@.skip(0) =~= source@);
        assert(out@ + replaced(chars@.skip(0), part@, by@) =~= replaced(source@, part@, by@));
    }
    while at < chars.len()
        invariant
            at <= chars@.len(),
            chars@ == source@,
            wanted@ == part@,
            part@.len() > 0,
            out@ + replaced(chars@.skip(at as int), part@, by@) == replaced(source@, part@, by@),
        decreases chars@.len() - at,
    {
        let ghost rest = chars@.skip(at as int);
        let ghost before = out@;
        proof {
            if text::has_at(chars@, at as int, part@) {
                assert(rest.subrange(0, part@.len() as int) =~= chars@.subrange(
                    at as int,
                    at + part@.len(),
                ));
            }
            if text::has_at(rest, 0, part@) {
                assert(rest.subrange(0, part@.len() as int) =~= chars@.subrange(
                    at as int,
                    at + part@.len(),
                ));
            }
        }
        if text::stands_at(&chars, at, &wanted) {
            text::push_text(&mut out, by);
            proof {
                assert(rest.skip(part@.len() as int) =~= chars@.skip(at + part@.len()));
                let tail = replaced(rest.skip(part@.len() as int), part@, by@);
                assert(before + (by@ + tail) =~= (before + by@) + tail);
            }
            at += wanted.len();
        } else {
            out.push(chars[at]);
            proof {
                assert(rest.skip(1) =~= chars@.skip(at + 1));
                let tail = replaced(rest.skip(1), part@, by@);
                assert(before + (seq![chars@[at as int]] + tail) =~= before.push(chars@[at as int])
                    + tail);
            }
            at += 1;
        }
    }
    proof {
        assert(chars@.skip(chars@.len() as int) =~= Seq::empty());
        assert(out@ + Seq::<char>::empty() =~= out@);
    }
    out
}

/// Fields one behind the other, with tabs between.
pub open spec fn tabbed(fields: Seq<Seq<char>>) -> Seq<char>
    decreases fields.len(),
{
    if fields.len() == 0 {
        Seq::empty()
    } else if fields.len() == 1 {
        fields[0]
    } else {
        fields[0] + seq!['\t'] + tabbed(fields.skip(1))
    }
}

/// [`tabbed`], of strings.
pub fn join_tabs(fields: &Vec<String>) -> (out: String)
    ensures
        out@ == tabbed(texts(fields@)),
{
    let ghost all = texts(fields@);
    let mut out = String::new();
    let mut at: usize = 0;
    proof {
        assert(all.skip(0) =~= all);
        assert(out@ + tabbed(all.skip(0)) =~= tabbed(all));
    }
    while at < fields.len()
        invariant
            at <= fields@.len(),
            all == texts(fields@),
            out@ + tabbed(all.skip(at as int)) == tabbed(all),
        decreases fields@.len() - at,
    {
        let ghost before = out@;
        let ghost rest = all.skip(at as int);
        assert(rest[0] == fields@[at as int]@);
        assert(rest.skip(1) =~= all.skip(at + 1));
        text::push_text(&mut out, fields[at].as_str());
        if fields.len() - at > 1 {
            out.push('\t');
            assert(before + (rest[0] + seq!['\t'] + tabbed(rest.skip(1))) =~= out@ + tabbed(
                rest.skip(1),
            ));
        } else {
            assert(tabbed(rest.skip(1)) =~= Seq::empty());
            assert(before + rest[0] =~= out@ + tabbed(rest.skip(1)));
        }
        at += 1;
    }
    assert(all.skip(all.len() as int) =~= Seq::empty());
    assert(out@ + Seq::<char>::empty() =~= out@);
    out
}

/// The fields of a text, at most `n` of them: the last is all that is left.
pub open spec fn tab_fields(text: Seq<char>, n: int) -> Seq<Seq<char>>
    decreases n,
{
    if n <= 1 {
        seq![text]
    } else {
        match cut(text, seq!['\t']) {
            Some(both) => seq![both.0] + tab_fields(both.1, n - 1),
            None => seq![text],
        }
    }
}

/// [`tab_fields`], of a string.
pub fn take_fields(source: &str, n: usize) -> (out: Vec<String>)
    ensures
        texts(out@) == tab_fields(source@, n as int),
{
    proof {
        reveal_strlit("\t");
        assert("\t"@ =~= seq!['\t']);
    }
    let mut out: Vec<String> = Vec::new();
    let mut rest = source.to_owned();
    let mut left: usize = n;
    assert(texts(out@) + tab_fields(source@, n as int) =~= tab_fields(source@, n as int));
    while left > 1
        invariant
            "\t"@ == seq!['\t'],
            texts(out@) + tab_fields(rest@, left as int) == tab_fields(source@, n as int),
        decreases left,
    {
        let ghost whole = texts(out@) + tab_fields(rest@, left as int);
        match split_once(rest.as_str(), "\t") {
            Some((one, two)) => {
                let ghost before = texts(out@);
                let ghost field = one@;
                out.push(one);
                assert(texts(out@) =~= before.push(field));
                assert(before + (seq![field] + tab_fields(two@, left - 1)) =~= texts(out@)
                    + tab_fields(two@, left - 1));
                rest = two;
                left -= 1;
            },
            None => {
                let ghost before = texts(out@);
                let ghost field = rest@;
                out.push(rest);
                assert(texts(out@) =~= before + seq![field]);
                return out;
            },
        }
    }
    let ghost before = texts(out@);
    let ghost field = rest@;
    out.push(rest);
    assert(texts(out@) =~= before + seq![field]);
    out
}

/// Fields come apart as they were put together, where none but the last holds a
/// tab.
pub proof fn tabbed_comes_apart(fields: Seq<Seq<char>>)
    requires
        fields.len() > 0,
        forall|i: int| 0 <= i < fields.len() - 1 ==> !(#[trigger] fields[i]).contains('\t'),
    ensures
        tab_fields(tabbed(fields), fields.len() as int) == fields,
    decreases fields.len(),
{
    if fields.len() == 1 {
        assert(seq![fields[0]] =~= fields);
    } else {
        let rest = fields.skip(1);
        assert forall|i: int| 0 <= i < rest.len() - 1 implies !(#[trigger] rest[i]).contains(
            '\t',
        ) by {
            assert(rest[i] == fields[i + 1]);
        }
        tabbed_comes_apart(rest);
        let whole = tabbed(fields);
        let mark = seq!['\t'];
        let at = fields[0].len() as int;
        assert(whole[at] == '\t');
        assert(whole.subrange(at, at + 1) =~= mark);
        assert forall|i: int| 0 <= i < at implies !text::has_at(whole, i, mark) by {
            assert(whole[i] == fields[0][i]);
            if text::has_at(whole, i, mark) {
                assert(whole.subrange(i, i + 1)[0] == '\t');
                assert(fields[0].contains('\t'));
            }
        }
        first_is_first(whole, mark, 0, at);
        assert(whole.take(at) =~= fields[0]);
        assert(whole.skip(at + 1) =~= tabbed(rest));
        assert(seq![fields[0]] + rest =~= fields);
    }
}

} // verus!
