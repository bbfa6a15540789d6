//! No tag is missed: what is a tag by its characters is found.
use crate::letters;
use crate::lines;
use crate::tags::finding;
use crate::tags::laws;
use crate::tags::name;
use crate::tags::query;
use crate::tags::tree::{self, TagNode};
use crate::text;
use vstd::prelude::*;

verus! {

/// A name stands from `from` to `end`, in a line that ends at `to`: behind it come at most
/// strokes, and then the end of the line or a character that no name has.
pub open spec fn name_stands(text: Seq<char>, from: int, end: int, to: int) -> bool {
    &&& from < end <= to
    &&& name::is_name(text, from, end)
    &&& text[end - 1] != '/'
    &&& exists|run: int|
        end <= run <= to && (run == to || !name::is_tag(text[run])) && #[trigger] all_strokes(
            text,
            end,
            run,
        )
}

/// Only strokes stand in a range.
pub open spec fn all_strokes(text: Seq<char>, from: int, to: int) -> bool {
    forall|i: int| from <= i < to ==> #[trigger] text[i] == '/'
}

proof fn the_run_ends(text: Seq<char>, from: int, run: int, to: int)
    requires
        0 <= from <= run <= to <= text.len(),
        forall|i: int| from <= i < run ==> name::is_tag(#[trigger] text[i]),
        run == to || !name::is_tag(text[run]),
    ensures
        name::run_end(text, from, to) == run,
    decreases run - from,
{
    if from < run {
        the_run_ends(text, from + 1, run, to);
    }
}

proof fn the_strokes_go(text: Seq<char>, from: int, end: int, run: int)
    requires
        0 <= from < end <= run <= text.len(),
        text[end - 1] != '/',
        all_strokes(text, end, run),
    ensures
        name::before_strokes(text, from, run) == end,
    decreases run - end,
{
    if end < run {
        the_strokes_go(text, from, end, run - 1);
    }
}

proof fn the_name_ends(text: Seq<char>, at: int, end: int, to: int, previous: Option<char>)
    requires
        0 <= at,
        to <= text.len(),
        text[at] == '#',
        previous is None || text::is_space(previous->0),
        name_stands(text, at + 1, end, to),
    ensures
        name::tag_end(text, at, to, previous) == Some(end),
{
    let run = choose|run: int|
        end <= run <= to && (run == to || !name::is_tag(text[run])) && #[trigger] all_strokes(
            text,
            end,
            run,
        );
    assert forall|i: int| at + 1 <= i < run implies name::is_tag(#[trigger] text[i]) by {
        if i >= end {
            assert(text[i] == '/');
        }
    }
    the_run_ends(text, at + 1, run, to);
    the_strokes_go(text, at + 1, end, run);
}

/// Nothing in a range is passed over: no backquote, and no two percent signs.
pub open spec fn is_plain(text: Seq<char>, from: int, to: int) -> bool {
    &&& forall|i: int| from <= i < to ==> #[trigger] text[i] != '`'
    &&& forall|i: int| from <= i < to - 1 ==> !(#[trigger] text[i] == '%' && text[i + 1] == '%')
}

/// Every hash at the beginning of a line or behind white space that has a name behind it
/// is found, with the whole of the name, wherever nothing is passed over.
pub proof fn every_marked_name_is_found(
    text: Seq<char>,
    start: int,
    at: int,
    to: int,
    place: int,
    end: int,
)
    requires
        0 <= start <= at <= place < to <= text.len(),
        is_plain(text, at, to),
        text[place] == '#',
        place == start || text::is_space(text[place - 1]),
        name_stands(text, place + 1, end, to),
    ensures
        !letters::is_letter_or_number('#') ==> finding::line_found(
            text,
            at,
            to,
            laws::character_before(text, start, at),
        ).contains((place, place + 1, end)),
    decreases place - at,
{
    let previous = laws::character_before(text, start, at);
    let found = finding::line_found(text, at, to, previous);
    finding::a_step_goes_on(text, at, to, previous);
    let (next, before, one) = finding::step(text, at, to, previous);
    let rest = finding::line_found(text, next, to, before);
    assert(text[at] != '`');
    assert(!finding::has_signs(text, at, to));
    if at == place {
        the_name_ends(text, at, end, to, previous);
        assert(found[0] == (place, place + 1, end));
    } else if !letters::is_letter_or_number('#') {
        if one is Some {
            if next > place {
                assert(name::is_name(text, at + 1, next));
                assert(name::is_tag(text[place]));
            }
        }
        assert(next <= place);
        assert(before == laws::character_before(text, start, next));
        every_marked_name_is_found(text, start, next, to, place, end);
        let k = choose|k: int| 0 <= k < rest.len() && rest[k] == (place, place + 1, end);
        if one is Some {
            assert(found[k + 1] == (place, place + 1, end));
        } else {
            assert(found[k] == (place, place + 1, end));
        }
    }
}

// --- what is asked for ----------------------------------------------------------------------

proof fn hashes_are_skipped(text: Seq<char>, from: int, to: int)
    requires
        0 <= from <= to <= text.len(),
        forall|i: int| from <= i < to ==> #[trigger] text[i] == '#',
        to == text.len() || text[to] != '#',
    ensures
        query::behind_hashes(text, from) == to,
    decreases to - from,
{
    if from < to {
        hashes_are_skipped(text, from + 1, to);
    }
}

proof fn strokes_are_left_out(text: Seq<char>, from: int, end: int, to: int)
    requires
        0 <= from < end <= to <= text.len(),
        text[end - 1] != '/',
        forall|i: int| end <= i < to ==> #[trigger] text[i] == '/',
    ensures
        query::before_end(text, from, to) == end,
    decreases to - end,
{
    if end < to {
        strokes_are_left_out(text, from, end, to - 1);
    }
}

/// Hashes before what is asked for and strokes behind it make no difference: it is the
/// name between them, in lower case.
pub proof fn what_is_asked_is_the_name(hashes: Seq<char>, name: Seq<char>, strokes: Seq<char>)
    requires
        name.len() > 0,
        name[0] != '#',
        name.last() != '/',
        !text::is_space(name[0]),
        !text::is_space(name.last()),
        forall|i: int| 0 <= i < hashes.len() ==> #[trigger] hashes[i] == '#',
        forall|i: int| 0 <= i < strokes.len() ==> #[trigger] strokes[i] == '/',
    ensures
        query::asked(hashes + name + strokes) == letters::lowered(name),
{
    let whole = hashes + name + strokes;
    let start = hashes.len() as int;
    let end = start + name.len();
    if hashes.len() > 0 {
        assert(whole[0] == hashes[0]);
    } else {
        assert(whole[0] == name[0]);
    }
    if strokes.len() > 0 {
        assert(whole.last() == strokes.last());
    } else {
        assert(whole.last() == name.last());
    }
    lines::trim_of_trimmed(whole);
    assert forall|i: int| 0 <= i < start implies #[trigger] whole[i] == '#' by {
        assert(whole[i] == hashes[i]);
    }
    assert(whole[start] == name[0]);
    hashes_are_skipped(whole, 0, start);
    assert forall|i: int| end <= i < whole.len() implies #[trigger] whole[i] == '/' by {
        assert(whole[i] == strokes[i - end]);
    }
    assert(whole[end - 1] == name.last());
    strokes_are_left_out(whole, start, end, whole.len() as int);
    assert(whole.subrange(start, end) =~= name);
}

/// A tag answers to exactly its own name and the names above it, level by level: what is
/// asked for is the whole name, or all of it up to a stroke.
pub proof fn only_those_above_are_answered(name: Seq<char>, asked: Seq<char>)
    ensures
        query::answers(name, asked) <==> letters::lowered(name) == asked || exists|rest: Seq<char>|
            letters::lowered(name) == #[trigger] (asked.push('/') + rest),
{
    let low = letters::lowered(name);
    if query::answers(name, asked) && low != asked {
        let rest = low.skip(asked.len() as int + 1);
        assert(low =~= asked.push('/') + rest);
    }
    if exists|rest: Seq<char>| low == #[trigger] (asked.push('/') + rest) {
        let rest = choose|rest: Seq<char>| low == #[trigger] (asked.push('/') + rest);
        assert(low.take(asked.len() as int) =~= asked);
        assert(low[asked.len() as int] == '/');
    }
}

/// A word asks for a tag exactly where it begins with `tag:`, in any case.
pub proof fn a_word_that_asks(word: Seq<char>)
    ensures
        query::asks(word) <==> word.len() >= 4 && (word[0] == 't' || word[0] == 'T') && (word[1]
            == 'a' || word[1] == 'A') && (word[2] == 'g' || word[2] == 'G') && word[3] == ':',
{
}

proof fn words_are_whole(text: Seq<char>, from: int)
    requires
        0 <= from <= text.len(),
    ensures
        forall|i: int|
            from <= i < query::word_end(text, from) ==> !text::is_space(#[trigger] text[i]),
        query::word_end(text, from) < text.len() ==> text::is_space(
            text[query::word_end(text, from)],
        ),
        from <= query::word_end(text, from) <= text.len(),
    decreases text.len() - from,
{
    if from < text.len() && !text::is_space(text[from]) {
        words_are_whole(text, from + 1);
    }
}

/// Two words with white space between them, and none around, are the two words.
pub proof fn words_stand_between_space(one: Seq<char>, two: Seq<char>, space: char)
    requires
        one.len() > 0,
        two.len() > 0,
        text::is_space(space),
        forall|i: int| 0 <= i < one.len() ==> !text::is_space(#[trigger] one[i]),
        forall|i: int| 0 <= i < two.len() ==> !text::is_space(#[trigger] two[i]),
    ensures
        query::words_from(one + seq![space] + two, 0) == seq![one, two],
{
    let all = one + seq![space] + two;
    let middle = one.len() as int;
    words_are_whole(all, 0);
    let end = query::word_end(all, 0);
    assert(end == middle) by {
        if end < middle {
            assert(all[end] == one[end]);
        } else if end > middle {
            assert(all[middle] == space);
        }
    }
    words_are_whole(all, middle + 1);
    let last = query::word_end(all, middle + 1);
    assert(last == all.len()) by {
        if last < all.len() {
            assert(all[last] == two[last - middle - 1]);
        }
    }
    assert(all[0] == one[0]);
    assert(all[middle] == space);
    assert(all[middle + 1] == two[0]);
    assert(all.subrange(0, middle) =~= one);
    assert(all.subrange(middle + 1, all.len() as int) =~= two);
    assert(query::words_from(all, all.len() as int) =~= Seq::empty());
    assert(query::words_from(all, middle + 1) =~= seq![two]);
    assert(query::words_from(all, middle) == query::words_from(all, middle + 1));
    assert(query::words_from(all, 0) =~= seq![one, two]);
}

/// The words that ask for a tag are taken out, in order, and the others stay with a
/// space between them: of two words, each by what it is.
pub proof fn a_question_comes_apart(one: Seq<char>, two: Seq<char>)
    ensures
        ({
            let words = seq![one, two];
            let tags = query::asked_tags(words, 2);
            let rest = query::other_words(words, 2);
            &&& !query::asks(one) && !query::asks(two) ==> tags.len() == 0 && rest == one.push(' ')
                + two
            &&& query::asks(one) && !query::asks(two) && query::asked(one.skip(4)).len() > 0
                ==> tags == seq![query::asked(one.skip(4))] && rest == two
            &&& !query::asks(one) && query::asks(two) && query::asked(two.skip(4)).len() > 0
                ==> tags == seq![query::asked(two.skip(4))] && rest == one
            &&& query::asks(one) && query::asks(two) ==> rest.len() == 0
        }),
{
    let words = seq![one, two];
    reveal_with_fuel(query::asked_tags, 3);
    reveal_with_fuel(query::other_words, 3);
    assert(words[0] == one && words[1] == two);
    assert(!query::any_other(words, 0));
    if !query::asks(one) {
        assert(query::any_other(words, 1));
    } else {
        assert(!query::any_other(words, 1));
    }
    assert(query::asked_tags(words, 0) =~= Seq::empty());
    if query::asks(one) && !query::asks(two) && query::asked(one.skip(4)).len() > 0 {
        assert(query::asked_tags(words, 2) =~= seq![query::asked(one.skip(4))]);
    }
    if !query::asks(one) && query::asks(two) && query::asked(two.skip(4)).len() > 0 {
        assert(query::asked_tags(words, 2) =~= seq![query::asked(two.skip(4))]);
    }
}

/// The last level of a name is what stands behind its last stroke.
pub proof fn a_last_level_has_no_stroke(path: Seq<char>)
    ensures
        ({
            let last = tree::last_level(path);
            let front = path.len() - last.len();
            &&& front >= 0
            &&& path == path.take(front) + last
            &&& !last.contains('/')
            &&& front > 0 ==> path[front - 1] == '/'
        }),
    decreases path.len(),
{
    let last = tree::last_level(path);
    if path.len() > 0 && path.last() != '/' {
        let rest = path.drop_last();
        let before = tree::last_level(rest);
        a_last_level_has_no_stroke(rest);
        let front = path.len() - last.len();
        assert(path.take(front) =~= rest.take(front));
        assert(path.take(front) + last =~= path) by {
            assert(rest =~= rest.take(front) + before);
            assert(path =~= rest.push(path.last()));
        }
        if last.contains('/') {
            let k = choose|k: int| 0 <= k < last.len() && last[k] == '/';
            if k < before.len() {
                assert(before[k] == '/');
                assert(before.contains('/'));
            }
        }
    } else {
        assert(path.take(path.len() as int) + last =~= path);
    }
}

/// The level above is what stands before the last stroke, or nothing where there is none.
pub proof fn a_level_above_ends_before_the_stroke(above: Seq<char>, last: Seq<char>)
    requires
        !last.contains('/'),
    ensures
        tree::without_last(above + seq!['/'] + last) == above,
        tree::without_last(last) == Seq::<char>::empty(),
    decreases last.len(),
{
    let whole = above + seq!['/'] + last;
    if last.len() == 0 {
        assert(whole.last() == '/');
        assert(whole.drop_last() =~= above);
        assert(last =~= Seq::empty());
    } else {
        let rest = last.drop_last();
        assert(last[last.len() - 1] != '/');
        if rest.contains('/') {
            let k = choose|k: int| 0 <= k < rest.len() && rest[k] == '/';
            assert(last[k] == '/');
        }
        a_level_above_ends_before_the_stroke(above, rest);
        assert(whole.drop_last() =~= above + seq!['/'] + rest);
        assert(whole.last() == last.last());
    }
}

/// Of two texts the one comes first that has the lesser character where they first
/// differ, or that ends there.
pub proof fn the_first_difference_decides(head: Seq<char>, one: Seq<char>, two: Seq<char>)
    requires
        one.len() == 0 || two.len() == 0 || one[0] != two[0],
    ensures
        tree::comes_before(head + one, head + two) <==> two.len() > 0 && (one.len() == 0 || one[0]
            < two[0]),
    decreases head.len(),
{
    if head.len() > 0 {
        let rest = head.skip(1);
        the_first_difference_decides(rest, one, two);
        assert((head + one).skip(1) =~= rest + one);
        assert((head + two).skip(1) =~= rest + two);
        assert((head + one)[0] == head[0] && (head + two)[0] == head[0]);
    } else {
        assert(head + one =~= one);
        assert(head + two =~= two);
    }
}

/// A tag without others below it is shown where its name holds what is looked for, and
/// one with others also where one of them is shown.
pub proof fn a_filter_asks_for_names(node: TagNode, filter: Seq<char>)
    ensures
        filter.len() == 0 ==> tree::is_wanted(node, filter),
        lines::holds_part(letters::lowered(node.path@), filter) ==> tree::is_wanted(node, filter),
        forall|i: int|
            0 <= i < node.children@.len() && tree::is_wanted(#[trigger] node.children@[i], filter)
                ==> tree::is_wanted(node, filter),
        filter.len() > 0 && !lines::holds_part(letters::lowered(node.path@), filter) && (forall|
            i: int,
        |
            0 <= i < node.children@.len() ==> !tree::is_wanted(#[trigger] node.children@[i], filter))
            ==> !tree::is_wanted(node, filter),
{
}

/// A tag has its row where it is looked for, and none where it is not.
pub proof fn what_is_looked_for_has_its_row(
    nodes: Seq<TagNode>,
    depth: usize,
    open: Seq<Seq<char>>,
    filter: Seq<char>,
    n: nat,
)
    requires
        n <= nodes.len(),
    ensures
        forall|i: int|
            0 <= i < n && tree::is_wanted(#[trigger] nodes[i], filter) ==> tree::rows_to(
                nodes,
                depth,
                open,
                filter,
                n,
            ).contains(tree::row_of(nodes[i], depth, open, filter)),
        (forall|i: int| 0 <= i < n ==> !tree::is_wanted(#[trigger] nodes[i], filter))
            ==> tree::rows_to(nodes, depth, open, filter, n).len() == 0,
    decreases n,
{
    if n > 0 {
        let m = (n - 1) as nat;
        what_is_looked_for_has_its_row(nodes, depth, open, filter, m);
        let before = tree::rows_to(nodes, depth, open, filter, m);
        let after = tree::rows_to(nodes, depth, open, filter, n);
        let node = nodes[n - 1];
        assert forall|i: int|
            0 <= i < n && tree::is_wanted(#[trigger] nodes[i], filter) implies after.contains(
            tree::row_of(nodes[i], depth, open, filter),
        ) by {
            let row = tree::row_of(nodes[i], depth, open, filter);
            if i < n - 1 {
                let k = choose|k: int| 0 <= k < before.len() && before[k] == row;
                assert(after[k] == row);
            } else {
                assert(after[before.len() as int] == row);
            }
        }
    }
}

} // verus!
