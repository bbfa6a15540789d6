//! Strings as sequences of characters.
//!
//! `String` is used as a container only: the logic of the library reads and
//! builds strings one character at a time, so that every contract can speak of
//! `Seq<char>`.
use vstd::prelude::*;

verus! {

/// `String::push` appends the character to the end of the string.
pub assume_specification[ String::push ](s: &mut String, ch: char)
    ensures
        final(s)@ == old(s)@.push(ch),
;

/// `String::clear` removes every character.
pub assume_specification[ String::clear ](s: &mut String)
    ensures
        final(s)@ == Seq::<char>::empty(),
;

/// The characters of a string, in order.
pub fn chars_of(text: &str) -> (out: Vec<char>)
    ensures
        out@ == text@,
{
    let mut out: Vec<char> = Vec::new();
    for one in rest: text.chars()
        invariant
            rest.seq() == text@,
            out@ == text@.take(rest.index()),
    {
        out.push(one);
        proof {
            assert(text@.take(rest.index() + 1) =~= text@.take(rest.index()).push(one));
        }
    }
    proof {
        assert(text@.take(text@.len() as int) =~= text@);
    }
    out
}

/// Appends the characters `from..to` of `chars`.
pub fn push_range(out: &mut String, chars: &Vec<char>, from: usize, to: usize)
    requires
        from <= to <= chars@.len(),
    ensures
        final(out)@ == old(out)@ + chars@.subrange(from as int, to as int),
{
    let mut at: usize = from;
    while at < to
        invariant
            from <= at <= to <= chars@.len(),
            out@ == old(out)@ + chars@.subrange(from as int, at as int),
        decreases to - at,
    {
        out.push(chars[at]);
        at += 1;
        assert(out@ =~= old(out)@ + chars@.subrange(from as int, at as int));
    }
}

/// The string made of the characters `from..to` of `chars`.
pub fn string_range(chars: &Vec<char>, from: usize, to: usize) -> (out: String)
    requires
        from <= to <= chars@.len(),
    ensures
        out@ == chars@.subrange(from as int, to as int),
{
    let mut out = String::new();
    push_range(&mut out, chars, from, to);
    assert(out@ =~= chars@.subrange(from as int, to as int));
    out
}

/// The string made of these characters.
pub fn string_of(chars: &Vec<char>) -> (out: String)
    ensures
        out@ == chars@,
{
    let out = string_range(chars, 0, chars.len());
    assert(out@ =~= chars@);
    out
}

/// Appends a whole string.
pub fn push_text(out: &mut String, text: &str)
    ensures
        final(out)@ == old(out)@ + text@,
{
    out.append(text);
}

/// A text with another behind it.
pub fn followed(head: &str, tail: &str) -> (out: String)
    ensures
        out@ == head@ + tail@,
{
    let mut out = String::new();
    push_text(&mut out, head);
    push_text(&mut out, tail);
    assert(out@ =~= head@ + tail@);
    out
}

/// A text with another before it and another behind it.
pub fn around(before: &str, middle: &str, after: &str) -> (out: String)
    ensures
        out@ == before@ + middle@ + after@,
{
    let mut out = String::new();
    push_text(&mut out, before);
    push_text(&mut out, middle);
    push_text(&mut out, after);
    assert(out@ =~= before@ + middle@ + after@);
    out
}

/// Whether two character sequences agree from `from` on, for the length of the
/// second.
pub open spec fn has_at(text: Seq<char>, from: int, part: Seq<char>) -> bool {
    0 <= from && from + part.len() <= text.len() && text.subrange(from, from + part.len()) == part
}

/// Whether `part` stands in `text` at `from`.
pub fn stands_at(text: &Vec<char>, from: usize, part: &Vec<char>) -> (found: bool)
    ensures
        found == has_at(text@, from as int, part@),
{
    if from > text.len() || part.len() > text.len() - from {
        return false;
    }
    let mut at: usize = 0;
    while at < part.len()
        invariant
            from + part@.len() <= text.len(),
            at <= part@.len(),
            forall|k: int| 0 <= k < at ==> text@[from + k] == part@[k],
        decreases part@.len() - at,
    {
        if text[from + at] != part[at] {
            assert(text@.subrange(from as int, from + part@.len())[at as int] != part@[at as int]);
            return false;
        }
        at += 1;
    }
    assert(text@.subrange(from as int, from + part@.len()) =~= part@);
    true
}

/// `text` without `prefix`, or the whole of it where it does not begin so.
pub open spec fn without_prefix(text: Seq<char>, prefix: Seq<char>) -> Seq<char> {
    if prefix.is_prefix_of(text) {
        text.skip(prefix.len() as int)
    } else {
        text
    }
}

/// [`without_prefix`], on strings.
pub fn strip_start(text: &str, prefix: &str) -> (out: String)
    ensures
        out@ == without_prefix(text@, prefix@),
{
    let whole = chars_of(text);
    let head = chars_of(prefix);
    if stands_at(&whole, 0, &head) {
        assert(prefix@.is_prefix_of(text@));
        string_range(&whole, head.len(), whole.len())
    } else {
        proof {
            if prefix@.is_prefix_of(text@) {
                assert(text@.subrange(0, prefix@.len() as int) =~= prefix@);
            }
        }
        string_of(&whole)
    }
}

/// Two strings hold the same characters.
pub fn same_text(left: &str, right: &str) -> (same: bool)
    ensures
        same == (left@ == right@),
{
    let one = chars_of(left);
    let other = chars_of(right);
    let same = one.len() == other.len() && stands_at(&one, 0, &other);
    proof {
        if same {
            assert(left@.subrange(0, right@.len() as int) =~= left@);
        }
        if left@ == right@ {
            assert(left@.subrange(0, right@.len() as int) =~= right@);
        }
    }
    same
}

/// The decimal digits of a number, without leading zeros.
pub open spec fn decimal(number: nat) -> Seq<char>
    decreases number,
{
    if number < 10 {
        seq![(48 + number) as char]
    } else {
        decimal(number / 10).push((48 + number % 10) as char)
    }
}

/// Appends a number in decimal.
pub fn push_decimal(out: &mut String, number: u64)
    ensures
        final(out)@ == old(out)@ + decimal(number as nat),
    decreases number,
{
    if number >= 10 {
        push_decimal(out, number / 10);
    }
    let digit: u8 = (number % 10) as u8;
    out.push((48 + digit) as char);
    proof {
        assert(out@ =~= old(out)@ + decimal(number as nat));
    }
}

/// How many bytes a character takes in UTF-8.
pub open spec fn utf8_len(c: char) -> int {
    if c as u32 <= 0x7f {
        1
    } else if c as u32 <= 0x7ff {
        2
    } else if c as u32 <= 0xffff {
        3
    } else {
        4
    }
}

/// How many characters stand before a byte offset; none where the offset is
/// within a character or behind the end.
pub open spec fn chars_before(text: Seq<char>, byte: int) -> Option<int>
    decreases text.len(),
{
    if byte == 0 {
        Some(0)
    } else if text.len() == 0 || byte < utf8_len(text[0]) {
        None
    } else {
        match chars_before(text.skip(1), byte - utf8_len(text[0])) {
            Some(count) => Some(count + 1),
            None => None,
        }
    }
}

pub(crate) fn width_in_utf8(c: char) -> (out: usize)
    ensures
        out == utf8_len(c),
{
    let code: u32 = c as u32;
    if code <= 0x7f {
        1
    } else if code <= 0x7ff {
        2
    } else if code <= 0xffff {
        3
    } else {
        4
    }
}

/// How many characters stand before a byte offset.
pub fn char_index(text: &Vec<char>, byte: usize) -> (out: Option<usize>)
    ensures
        match out {
            Some(count) => chars_before(text@, byte as int) == Some(count as int) && count
                <= text@.len(),
            None => chars_before(text@, byte as int) is None,
        },
{
    let mut left: usize = byte;
    let mut at: usize = 0;
    assert(text@.skip(0) =~= text@);
    while left > 0
        invariant
            at <= text@.len(),
            chars_before(text@, byte as int) == match chars_before(
                text@.skip(at as int),
                left as int,
            ) {
                Some(count) => Some(count + at),
                None => None,
            },
        decreases left,
    {
        if at >= text.len() {
            return None;
        }
        let width: usize = width_in_utf8(text[at]);
        assert(text@.skip(at as int)[0] == text@[at as int]);
        if left < width {
            return None;
        }
        assert(text@.skip(at as int).skip(1) =~= text@.skip(at + 1));
        left -= width;
        at += 1;
    }
    Some(at)
}

/// How many bytes a text takes in UTF-8.
pub open spec fn size(text: Seq<char>) -> int
    decreases text.len(),
{
    if text.len() == 0 {
        0
    } else {
        size(text.drop_last()) + utf8_len(text.last())
    }
}

/// Two texts one behind the other take as much as both.
pub proof fn size_adds(one: Seq<char>, two: Seq<char>)
    ensures
        size(one + two) == size(one) + size(two),
    decreases two.len(),
{
    if two.len() == 0 {
        assert(one + two =~= one);
    } else {
        size_adds(one, two.drop_last());
        assert((one + two).drop_last() =~= one + two.drop_last());
        assert((one + two).last() == two.last());
    }
}

/// A text takes at least a byte for each character.
pub proof fn size_counts(text: Seq<char>)
    ensures
        text.len() <= size(text) <= 4 * text.len(),
    decreases text.len(),
{
    if text.len() > 0 {
        size_counts(text.drop_last());
    }
}

/// A part takes no more than the whole.
pub proof fn size_of_part(text: Seq<char>, from: int, to: int)
    requires
        0 <= from <= to <= text.len(),
    ensures
        0 <= size(text.subrange(from, to)) <= size(text),
        size(text.take(to)) == size(text.take(from)) + size(text.subrange(from, to)),
        size(text) == size(text.take(from)) + size(text.skip(from)),
        size(text.take(from)) <= size(text),
{
    size_adds(text.take(from), text.subrange(from, to));
    assert(text.take(from) + text.subrange(from, to) =~= text.take(to));
    size_adds(text.take(to), text.skip(to));
    assert(text.take(to) + text.skip(to) =~= text);
    size_adds(text.take(from), text.skip(from));
    assert(text.take(from) + text.skip(from) =~= text);
    size_counts(text.take(from));
    size_counts(text.skip(to));
    size_counts(text.subrange(from, to));
    size_counts(text.skip(from));
}

/// The bytes before a character lead to it.
pub proof fn size_leads_back(text: Seq<char>, at: int)
    requires
        0 <= at <= text.len(),
    ensures
        chars_before(text, size(text.take(at))) == Some(at),
        0 <= size(text.take(at)) <= size(text),
    decreases at,
{
    size_of_part(text, at, at);
    size_counts(text.take(at));
    if at > 0 {
        let rest = text.skip(1);
        let first = seq![text[0]];
        size_leads_back(rest, at - 1);
        assert(text.take(at) =~= first + rest.take(at - 1));
        size_adds(first, rest.take(at - 1));
        reveal_with_fuel(size, 2);
        assert(first.drop_last() =~= Seq::empty());
        assert(size(first) == utf8_len(text[0]));
        size_counts(rest.take(at - 1));
    } else {
        assert(text.take(0) =~= Seq::empty());
    }
}

/// How many bytes the characters `from..to` take.
pub fn size_of(chars: &Vec<char>, from: usize, to: usize) -> (out: usize)
    requires
        from <= to <= chars@.len(),
        size(chars@.subrange(from as int, to as int)) <= usize::MAX,
    ensures
        out == size(chars@.subrange(from as int, to as int)),
{
    let ghost part = chars@.subrange(from as int, to as int);
    let mut out: usize = 0;
    let mut at: usize = from;
    assert(part.take(0) =~= Seq::empty());
    while at < to
        invariant
            from <= at <= to <= chars@.len(),
            part == chars@.subrange(from as int, to as int),
            size(part) <= usize::MAX,
            out == size(part.take(at - from)),
        decreases to - at,
    {
        proof {
            assert(part.take(at - from + 1).drop_last() =~= part.take(at - from));
            assert(part.take(at - from + 1).last() == chars@[at as int]);
            size_of_part(part, 0, at - from + 1);
            assert(part.subrange(0, at - from + 1) =~= part.take(at - from + 1));
        }
        out += width_in_utf8(chars[at]);
        at += 1;
    }
    assert(part.take(to - from) =~= part);
    out
}

/// A character that `str::trim` takes away: Unicode white space.
pub open spec fn is_space(c: char) -> bool {
    let code = c as u32;
    ||| 0x09 <= code <= 0x0d
    ||| code == 0x20
    ||| code == 0x85
    ||| code == 0xa0
    ||| code == 0x1680
    ||| 0x2000 <= code <= 0x200a
    ||| code == 0x2028
    ||| code == 0x2029
    ||| code == 0x202f
    ||| code == 0x205f
    ||| code == 0x3000
}

/// Whether a character is white space.
pub fn is_white(c: char) -> (out: bool)
    ensures
        out == is_space(c),
{
    let code: u32 = c as u32;
    (0x09 <= code && code <= 0x0d) || code == 0x20 || code == 0x85 || code == 0xa0 || code == 0x1680
        || (0x2000 <= code && code <= 0x200a) || code == 0x2028 || code == 0x2029 || code == 0x202f
        || code == 0x205f || code == 0x3000
}

/// Where the text of a range begins, behind white space; the end of the range
/// where there is none.
pub open spec fn skip_space(text: Seq<char>, from: int, to: int) -> int
    decreases to - from,
{
    if from >= to || !is_space(text[from]) {
        from
    } else {
        skip_space(text, from + 1, to)
    }
}

/// Where the text of a range ends, before white space.
pub open spec fn back_space(text: Seq<char>, from: int, to: int) -> int
    decreases to - from,
{
    if from >= to || !is_space(text[to - 1]) {
        to
    } else {
        back_space(text, from, to - 1)
    }
}

/// The range without the white space at both of its ends.
pub open spec fn trimmed(text: Seq<char>, from: int, to: int) -> (int, int) {
    let start = skip_space(text, from, to);
    (start, back_space(text, start, to))
}

pub fn after_space(text: &Vec<char>, from: usize, to: usize) -> (out: usize)
    requires
        from <= to <= text@.len(),
    ensures
        out == skip_space(text@, from as int, to as int),
        from <= out <= to,
{
    let mut at: usize = from;
    while at < to && is_white(text[at])
        invariant
            from <= at <= to <= text@.len(),
            skip_space(text@, from as int, to as int) == skip_space(
                text@,
                at as int,
                to as int,
            ),
        decreases to - at,
    {
        at += 1;
    }
    at
}

/// The range without the white space at both of its ends.
pub fn trim_range(text: &Vec<char>, from: usize, to: usize) -> (out: (usize, usize))
    requires
        from <= to <= text@.len(),
    ensures
        (out.0 as int, out.1 as int) == trimmed(text@, from as int, to as int),
        from <= out.0 <= out.1 <= to,
{
    let start: usize = after_space(text, from, to);
    let mut end: usize = to;
    while end > start && is_white(text[end - 1])
        invariant
            start <= end <= to <= text@.len(),
            back_space(text@, start as int, to as int) == back_space(
                text@,
                start as int,
                end as int,
            ),
        decreases end,
    {
        end -= 1;
    }
    (start, end)
}

/// The last place between characters that is not behind a byte offset.
pub open spec fn floor_at(text: Seq<char>, byte: int) -> int
    decreases text.len(),
{
    if text.len() == 0 || byte < utf8_len(text[0]) {
        0
    } else {
        utf8_len(text[0]) + floor_at(text.skip(1), byte - utf8_len(text[0]))
    }
}

/// [`floor_at`], of a string.
pub fn floor_char_boundary(text: &str, byte: usize) -> (out: usize)
    ensures
        out == floor_at(text@, byte as int),
        out <= byte,
{
    let chars = chars_of(text);
    let mut out: usize = 0;
    let mut at: usize = 0;
    assert(chars@.skip(0) =~= chars@);
    while at < chars.len()
        invariant
            at <= chars@.len(),
            out <= byte,
            chars@ == text@,
            floor_at(text@, byte as int) == out + floor_at(chars@.skip(at as int), byte - out),
        decreases chars@.len() - at,
    {
        let width: usize = width_in_utf8(chars[at]);
        proof {
            assert(chars@.skip(at as int)[0] == chars@[at as int]);
            assert(chars@.skip(at as int).skip(1) =~= chars@.skip(at + 1));
        }
        if byte - out < width {
            return out;
        }
        out += width;
        at += 1;
    }
    out
}

/// A letter of the alphabet in lower case; any other character as it is.
pub open spec fn small_letter(c: char) -> char {
    if 'A' <= c <= 'Z' {
        (c as u32 + 32) as char
    } else {
        c
    }
}

/// Two texts agree but for the case of the letters of the alphabet.
pub open spec fn alike(one: Seq<char>, two: Seq<char>) -> bool {
    one.len() == two.len() && forall|i: int|
        0 <= i < one.len() ==> small_letter(#[trigger] one[i]) == small_letter(two[i])
}

pub(crate) fn make_small(c: char) -> (out: char)
    ensures
        out == small_letter(c),
{
    if 'A' <= c && c <= 'Z' {
        (c as u8 + 32) as char
    } else {
        c
    }
}

/// [`alike`], of strings.
pub fn is_alike(left: &str, right: &str) -> (out: bool)
    ensures
        out == alike(left@, right@),
{
    let one = chars_of(left);
    let two = chars_of(right);
    if one.len() != two.len() {
        return false;
    }
    let mut at: usize = 0;
    while at < one.len()
        invariant
            at <= one@.len(),
            one@.len() == two@.len(),
            one@ == left@,
            two@ == right@,
            forall|i: int|
                0 <= i < at ==> small_letter(#[trigger] one@[i]) == small_letter(two@[i]),
        decreases one@.len() - at,
    {
        if make_small(one[at]) != make_small(two[at]) {
            assert(small_letter(one@[at as int]) != small_letter(two@[at as int]));
            return false;
        }
        at += 1;
    }
    true
}

/// Some character of a text is one of these.
pub open spec fn holds_any(text: Seq<char>, marks: Seq<char>) -> bool {
    exists|i: int| 0 <= i < text.len() && marks.contains(#[trigger] text[i])
}

/// [`holds_any`], of strings.
pub fn has_any(source: &str, marks: &str) -> (out: bool)
    ensures
        out == holds_any(source@, marks@),
{
    let chars = chars_of(source);
    let wanted = chars_of(marks);
    let mut at: usize = 0;
    while at < chars.len()
        invariant
            at <= chars@.len(),
            chars@ == source@,
            wanted@ == marks@,
            forall|i: int| 0 <= i < at ==> !marks@.contains(#[trigger] chars@[i]),
        decreases chars@.len() - at,
    {
        let mut k: usize = 0;
        while k < wanted.len()
            invariant
                at < chars@.len(),
                k <= wanted@.len(),
                chars@ == source@,
                wanted@ == marks@,
                forall|j: int| 0 <= j < k ==> #[trigger] marks@[j] != chars@[at as int],
            decreases wanted@.len() - k,
        {
            if wanted[k] == chars[at] {
                assert(marks@[k as int] == source@[at as int]);
                return true;
            }
            k += 1;
        }
        at += 1;
    }
    false
}

} // verus!
