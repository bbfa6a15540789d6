//! Asking for tags.
use crate::letters;
use crate::lines;
use crate::text;
use vstd::prelude::*;

verus! {

/// A name as names are compared: small and capital letters are the same.
pub fn key(name: &str) -> (out: String)
    ensures
        out@ == letters::lowered(name@),
        name@.len() > 0 ==> out@.len() > 0,
{
    letters::lower_case(name)
}

/// Where a text begins behind the hashes at its head.
pub open spec fn behind_hashes(text: Seq<char>, from: int) -> int
    decreases text.len() - from,
{
    if from < text.len() && text[from] == '#' {
        behind_hashes(text, from + 1)
    } else {
        from
    }
}

/// Where a text ends before the strokes at its end.
pub open spec fn before_end(text: Seq<char>, from: int, to: int) -> int
    decreases to - from,
{
    if from < to && text[to - 1] == '/' {
        before_end(text, from, to - 1)
    } else {
        to
    }
}

/// What is asked for, as it is compared: without white space round it, hashes
/// before it and strokes behind it.
pub open spec fn asked(query: Seq<char>) -> Seq<char> {
    let plain = lines::trim(query);
    let start = behind_hashes(plain, 0);
    letters::lowered(plain.subrange(start, before_end(plain, start, plain.len() as int)))
}

/// [`asked`].
pub fn query_key(query: &str) -> (out: String)
    ensures
        out@ == asked(query@),
{
    let plain = lines::trim_text(query);
    let chars = text::chars_of(plain.as_str());
    let mut start: usize = 0;
    while start < chars.len() && chars[start] == '#'
        invariant
            start <= chars@.len(),
            behind_hashes(chars@, 0) == behind_hashes(chars@, start as int),
        decreases chars@.len() - start,
    {
        start += 1;
    }
    let mut end: usize = chars.len();
    while end > start && chars[end - 1] == '/'
        invariant
            start <= end <= chars@.len(),
            before_end(chars@, start as int, chars@.len() as int) == before_end(
                chars@,
                start as int,
                end as int,
            ),
        decreases end,
    {
        end -= 1;
    }
    let part = text::string_range(&chars, start, end);
    key(part.as_str())
}

/// A name that is asked for: the tag itself, or one of its children.
pub open spec fn answers(name: Seq<char>, query: Seq<char>) -> bool {
    let low = letters::lowered(name);
    low == query || (query.is_prefix_of(low) && low.len() > query.len() && low[query.len() as int]
        == '/')
}

/// [`answers`].
pub fn matches(name: &str, query_key: &str) -> (out: bool)
    ensures
        out == answers(name@, query_key@),
{
    let low = key(name);
    if text::same_text(low.as_str(), query_key) {
        return true;
    }
    match lines::strip_head(low.as_str(), query_key) {
        Some(rest) => {
            let chars = text::chars_of(rest.as_str());
            assert(low@.len() > query_key@.len() ==> rest@[0] == low@[query_key@.len() as int]);
            chars.len() > 0 && chars[0] == '/'
        },
        None => false,
    }
}

/// Where a word that begins at `from` ends.
pub open spec fn word_end(text: Seq<char>, from: int) -> int
    decreases text.len() - from,
{
    if from < text.len() && !text::is_space(text[from]) {
        word_end(text, from + 1)
    } else {
        from
    }
}

pub proof fn word_end_is_behind(text: Seq<char>, from: int)
    requires
        0 <= from <= text.len(),
    ensures
        from <= word_end(text, from) <= text.len(),
        from < text.len() && !text::is_space(text[from]) ==> word_end(text, from) > from,
    decreases text.len() - from,
{
    if from < text.len() && !text::is_space(text[from]) {
        word_end_is_behind(text, from + 1);
    }
}

/// The words of a text from a place on: what stands between white space.
pub open spec fn words_from(text: Seq<char>, from: int) -> Seq<Seq<char>>
    decreases text.len() - from,
    when 0 <= from
    via words_go_on
{
    if from >= text.len() {
        Seq::empty()
    } else if text::is_space(text[from]) {
        words_from(text, from + 1)
    } else {
        seq![text.subrange(from, word_end(text, from))] + words_from(text, word_end(text, from))
    }
}

#[via_fn]
proof fn words_go_on(text: Seq<char>, from: int) {
    if from < text.len() {
        word_end_is_behind(text, from);
    }
}

fn find_words(source: &str) -> (out: Vec<String>)
    ensures
        lines::texts(out@) == words_from(source@, 0),
{
    let chars = text::chars_of(source);
    let mut out: Vec<String> = Vec::new();
    let mut at: usize = 0;
    assert(lines::texts(out@) + words_from(source@, 0) =~= words_from(source@, 0));
    while at < chars.len()
        invariant
            at <= chars@.len(),
            chars@ == source@,
            lines::texts(out@) + words_from(source@, at as int) == words_from(source@, 0),
        decreases chars@.len() - at,
    {
        if text::is_white(chars[at]) {
            at += 1;
        } else {
            let mut end: usize = at;
            while end < chars.len() && !text::is_white(chars[end])
                invariant
                    at <= end <= chars@.len(),
                    chars@ == source@,
                    word_end(source@, at as int) == word_end(source@, end as int),
                decreases chars@.len() - end,
            {
                end += 1;
            }
            proof {
                word_end_is_behind(source@, at as int);
            }
            let ghost before = lines::texts(out@);
            let word = text::string_range(&chars, at, end);
            out.push(word);
            proof {
                assert(lines::texts(out@) =~= before.push(word@));
                assert(lines::texts(out@) + words_from(source@, end as int) =~= before + (
                seq![word@] + words_from(source@, end as int)));
            }
            at = end;
        }
    }
    assert(lines::texts(out@) + words_from(source@, at as int) =~= lines::texts(out@));
    out
}

/// A word that asks for a tag: it begins with `tag:`, in any case.
pub open spec fn asks(word: Seq<char>) -> bool {
    &&& word.len() >= 4
    &&& word[0] == 't' || word[0] == 'T'
    &&& word[1] == 'a' || word[1] == 'A'
    &&& word[2] == 'g' || word[2] == 'G'
    &&& word[3] == ':'
}

fn asks_tag(word: &Vec<char>) -> (out: bool)
    ensures
        out == asks(word@),
{
    word.len() >= 4 && (word[0] == 't' || word[0] == 'T') && (word[1] == 'a' || word[1] == 'A') && (
    word[2] == 'g' || word[2] == 'G') && word[3] == ':'
}

/// The tags that the first `n` words ask for.
pub open spec fn asked_tags(words: Seq<Seq<char>>, n: int) -> Seq<Seq<char>>
    decreases n,
{
    if n <= 0 {
        Seq::empty()
    } else {
        let before = asked_tags(words, n - 1);
        let tag = asked(words[n - 1].skip(4));
        if asks(words[n - 1]) && tag.len() > 0 {
            before.push(tag)
        } else {
            before
        }
    }
}

/// The words among the first `n` that ask for none, with a space between them.
pub open spec fn other_words(words: Seq<Seq<char>>, n: int) -> Seq<char>
    decreases n,
{
    if n <= 0 {
        Seq::empty()
    } else {
        let before = other_words(words, n - 1);
        if asks(words[n - 1]) {
            before
        } else if any_other(words, n - 1) {
            before.push(' ') + words[n - 1]
        } else {
            words[n - 1]
        }
    }
}

/// Some of the first `n` words asks for no tag.
pub open spec fn any_other(words: Seq<Seq<char>>, n: int) -> bool {
    exists|i: int| 0 <= i < n && !asks(#[trigger] words[i])
}

/// Some word asks for a tag.
pub open spec fn any_asks(words: Seq<Seq<char>>) -> bool {
    exists|i: int| 0 <= i < words.len() && asks(#[trigger] words[i])
}

/// What is typed to search for, taken apart: the tags that are asked for, and
/// the rest. Where none is asked for, every character stays.
pub fn split_query(needle: &str) -> (out: (Vec<String>, String))
    ensures
        ({
            let words = words_from(needle@, 0);
            let n = words.len() as int;
            &&& lines::texts(out.0@) == if any_asks(words) {
                asked_tags(words, n)
            } else {
                Seq::empty()
            }
            &&& out.1@ == if any_asks(words) {
                other_words(words, n)
            } else {
                needle@
            }
        }),
{
    let found = find_words(needle);
    let ghost words = lines::texts(found@);
    let mut tags: Vec<String> = Vec::new();
    let mut rest = String::new();
    let mut any: bool = false;
    let mut other: bool = false;
    let mut at: usize = 0;
    assert(lines::texts(tags@) =~= Seq::empty());
    assert(rest@ =~= Seq::empty());
    while at < found.len()
        invariant
            at <= found@.len(),
            words == lines::texts(found@),
            any == exists|i: int| 0 <= i < at && asks(#[trigger] words[i]),
            other == any_other(words, at as int),
            lines::texts(tags@) == asked_tags(words, at as int),
            rest@ == other_words(words, at as int),
        decreases found@.len() - at,
    {
        let word = text::chars_of(found[at].as_str());
        assert(words[at as int] == word@);
        if asks_tag(&word) {
            assert(asks(words[at as int]));
            any = true;
            let part = text::string_range(&word, 4, word.len());
            assert(part@ =~= words[at as int].skip(4));
            let tag = query_key(part.as_str());
            let length: usize = text::chars_of(tag.as_str()).len();
            if length > 0 {
                let ghost before = lines::texts(tags@);
                let ghost one = tag@;
                tags.push(tag);
                assert(lines::texts(tags@) =~= before.push(one));
            }
            assert(any_other(words, at + 1) == other);
        } else {
            let ghost before = rest@;
            if other {
                rest.push(' ');
            }
            text::push_text(&mut rest, found[at].as_str());
            proof {
                assert(!asks(words[at as int]));
                if other {
                    assert(rest@ =~= before.push(' ') + words[at as int]);
                } else {
                    assert forall|i: int| 0 <= i < at implies asks(#[trigger] words[i]) by {}
                    nothing_else(words, at as int);
                    assert(rest@ =~= words[at as int]);
                }
            }
            other = true;
        }
        at += 1;
    }
    if !any {
        let none: Vec<String> = Vec::new();
        assert(lines::texts(none@) =~= Seq::empty());
        return (none, text::string_of(&text::chars_of(needle)));
    }
    (tags, rest)
}

proof fn nothing_else(words: Seq<Seq<char>>, n: int)
    requires
        forall|i: int| 0 <= i < n ==> asks(#[trigger] words[i]),
    ensures
        other_words(words, n) == Seq::<char>::empty(),
    decreases n,
{
    if n > 0 {
        nothing_else(words, n - 1);
        assert(asks(words[n - 1]));
    }
}

} // verus!
