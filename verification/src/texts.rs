//! What taking texts apart comes to, by the characters themselves.
use crate::lines;
use crate::paths;
use crate::text;
use vstd::prelude::*;

verus! {

/// Parts one behind the other, with a mark between.
pub open spec fn woven(parts: Seq<Seq<char>>, mark: char) -> Seq<char>
    decreases parts.len(),
{
    if parts.len() == 0 {
        Seq::empty()
    } else if parts.len() == 1 {
        parts[0]
    } else {
        woven(parts.drop_last(), mark) + seq![mark] + parts.last()
    }
}

proof fn the_last_part_grows(parts: Seq<Seq<char>>, mark: char, c: char)
    requires
        parts.len() > 0,
    ensures
        woven(parts.update(parts.len() - 1, parts.last().push(c)), mark) == woven(
            parts,
            mark,
        ).push(c),
{
    let grown = parts.update(parts.len() - 1, parts.last().push(c));
    if parts.len() > 1 {
        assert(grown.drop_last() =~= parts.drop_last());
        assert(woven(grown, mark) =~= woven(parts, mark).push(c));
    }
}

/// The parts of a text hold no mark, and put together again with the mark between them
/// they are the text.
pub proof fn parts_make_the_text(text: Seq<char>, mark: char)
    ensures
        woven(lines::split(text, mark), mark) == text,
        lines::split(text, mark).len() > 0,
        forall|i: int, k: int|
            0 <= i < lines::split(text, mark).len() && 0 <= k < lines::split(text, mark)[i].len()
                ==> #[trigger] lines::split(text, mark)[i][k] != mark,
    decreases text.len(),
{
    if text.len() > 0 {
        let less = text.drop_last();
        parts_make_the_text(less, mark);
        let before = lines::split(less, mark);
        let after = lines::split(text, mark);
        if text.last() == mark {
            assert(after.drop_last() =~= before);
            assert(woven(after, mark) =~= less + seq![mark] + Seq::empty());
            assert(woven(after, mark) =~= text);
        } else {
            the_last_part_grows(before, mark, text.last());
            assert(less.push(text.last()) =~= text);
        }
        assert forall|i: int, k: int|
            0 <= i < after.len() && 0 <= k < after[i].len() implies #[trigger] after[i][k]
            != mark by {
            if i < before.len() && k < before[i].len() {
                assert(after[i][k] == before[i][k]);
            }
        }
    }
}

proof fn spaces_are_skipped(text: Seq<char>, from: int, to: int)
    requires
        0 <= from <= to <= text.len(),
    ensures
        from <= text::skip_space(text, from, to) <= to,
        forall|i: int|
            from <= i < text::skip_space(text, from, to) ==> text::is_space(#[trigger] text[i]),
        text::skip_space(text, from, to) < to ==> !text::is_space(
            text[text::skip_space(text, from, to)],
        ),
        from <= text::back_space(text, from, to) <= to,
        forall|i: int|
            text::back_space(text, from, to) <= i < to ==> text::is_space(#[trigger] text[i]),
        text::back_space(text, from, to) > from ==> !text::is_space(
            text[text::back_space(text, from, to) - 1],
        ),
    decreases to - from,
{
    if from < to {
        spaces_are_skipped(text, from + 1, to);
        spaces_are_skipped(text, from, to - 1);
    }
}

/// Trimming takes white space from both ends, all of it and nothing else.
pub proof fn trimming_takes_the_ends(text: Seq<char>)
    ensures
        ({
            let left = lines::trim(text);
            &&& left.len() > 0 ==> !text::is_space(left[0]) && !text::is_space(left.last())
            &&& exists|from: int, to: int|
                0 <= from <= to <= text.len() && left == #[trigger] text.subrange(from, to) && (
                forall|i: int|
                    (0 <= i < from || to <= i < text.len()) ==> text::is_space(#[trigger] text[i]))
        }),
{
    let start = text::skip_space(text, 0, text.len() as int);
    spaces_are_skipped(text, 0, text.len() as int);
    spaces_are_skipped(text, start, text.len() as int);
    let end = text::back_space(text, start, text.len() as int);
    let left = lines::trim(text);
    assert(left == text.subrange(start, end));
    if left.len() > 0 {
        assert(left[0] == text[start]);
        assert(left.last() == text[end - 1]);
        if start == end - 1 {
        }
    }
}

proof fn the_first_place_is_found(line: Seq<char>, part: Seq<char>, from: int)
    requires
        0 <= from,
    ensures
        match lines::first_at(line, part, from) {
            Some(at) => from <= at && at + part.len() <= line.len() && line.subrange(
                at,
                at + part.len(),
            ) == part && forall|i: int| from <= i < at ==> !#[trigger] text::has_at(line, i, part),
            None => forall|i: int| from <= i ==> !#[trigger] text::has_at(line, i, part),
        },
    decreases line.len() - from,
{
    if from + part.len() <= line.len() && !text::has_at(line, from, part) && from < line.len() {
        the_first_place_is_found(line, part, from + 1);
    } else if from + part.len() > line.len() {
        assert forall|i: int| from <= i implies !#[trigger] text::has_at(line, i, part) by {}
    } else if !text::has_at(line, from, part) {
        assert(part.len() == 0);
        assert(line.subrange(from, from) =~= part);
    }
}

/// A line is cut at the first place where the part stands: what is before it, the part
/// and what is behind it are the line. It is not cut where the part stands nowhere.
pub proof fn a_cut_is_at_the_first_place(line: Seq<char>, part: Seq<char>)
    ensures
        match lines::cut(line, part) {
            Some((before, after)) => before + part + after == line && forall|i: int|
                0 <= i < before.len() ==> #[trigger] line.subrange(i, i + part.len()) != part,
            None => forall|i: int|
                0 <= i <= line.len() - part.len() ==> #[trigger] line.subrange(i, i + part.len())
                    != part,
        },
{
    the_first_place_is_found(line, part, 0);
    match lines::first_at(line, part, 0) {
        Some(at) => {
            assert(line.take(at) + part + line.skip(at + part.len()) =~= line);
            assert forall|i: int| 0 <= i < at implies #[trigger] line.subrange(i, i + part.len())
                != part by {
                assert(!text::has_at(line, i, part));
            }
        },
        None => {
            assert forall|i: int|
                0 <= i <= line.len() - part.len() implies #[trigger] line.subrange(
                i,
                i + part.len(),
            ) != part by {
                assert(!text::has_at(line, i, part));
            }
        },
    }
}

/// What stands behind a beginning is the rest of the line, and only a line that begins
/// so has it.
pub proof fn a_beginning_is_taken_off(line: Seq<char>, head: Seq<char>)
    ensures
        match lines::behind(line, head) {
            Some(rest) => head + rest == line,
            None => forall|rest: Seq<char>| #[trigger] (head + rest) != line,
        },
{
    match lines::behind(line, head) {
        Some(rest) => {
            assert(head + rest =~= line);
        },
        None => {
            assert forall|rest: Seq<char>| #[trigger] (head + rest) != line by {
                if head + rest == line {
                    assert(line.take(head.len() as int) =~= head);
                }
            }
        },
    }
}

/// A number is written in decimal digits, without zeros before it, and its digits are
/// worth it.
pub proof fn decimals_are_worth_their_number(number: nat)
    ensures
        crate::numbers::value_of(text::decimal(number)) == number,
        text::decimal(number).len() >= 1,
        number > 0 ==> text::decimal(number)[0] != '0',
        number == 0 ==> text::decimal(number) == seq!['0'],
        forall|i: int|
            0 <= i < text::decimal(number).len() ==> '0' <= #[trigger] text::decimal(number)[i]
                <= '9',
    decreases number,
{
    let all = text::decimal(number);
    if number < 10 {
        assert(all.drop_last() =~= Seq::empty());
        assert(crate::numbers::value_of(all.drop_last()) == 0);
    } else {
        decimals_are_worth_their_number(number / 10);
        let before = text::decimal(number / 10);
        assert(all.drop_last() =~= before);
        assert(all[0] == before[0]);
        assert forall|i: int| 0 <= i < all.len() implies '0' <= #[trigger] all[i] <= '9' by {
            if i < before.len() {
                assert(all[i] == before[i]);
            }
        }
    }
}

// --- paths ------------------------------------------------------------------------------

/// Both strokes part a path that is not taken word for word.
pub proof fn both_strokes_part_a_path(path: Seq<char>)
    requires
        !paths::is_verbatim(path),
    ensures
        paths::parts(paths::straight(path)) == paths::parts(path),
        forall|i: int|
            0 <= i < path.len() ==> #[trigger] paths::straight(path)[i] == if path[i] == '\\' {
                '/'
            } else {
                path[i]
            },
{
    let straight = paths::straight(path);
    if straight.len() >= 4 {
        assert(straight[0] != '\\');
    }
    assert(paths::straight(straight) =~= straight);
}

proof fn a_first_part_is_there(text: Seq<char>, mark: char)
    requires
        text.len() > 0,
        text[0] != mark,
    ensures
        lines::split(text, mark)[0].len() > 0,
        lines::split(text, mark).len() > 0,
    decreases text.len(),
{
    let less = text.drop_last();
    lines::split_is_some(less, mark);
    if less.len() > 0 {
        a_first_part_is_there(less, mark);
    }
}

proof fn the_parts_before_stay(pieces: Seq<Seq<char>>, last: Seq<char>, n: int)
    requires
        0 <= n <= pieces.len(),
        pieces.len() > 0,
        pieces[0].len() > 0,
        pieces.len() > 1 || !paths::has_drive(pieces[0]),
    ensures
        paths::parts_to(pieces.push(last), false, n) == paths::parts_to(pieces, false, n),
    decreases n,
{
    if n > 0 {
        the_parts_before_stay(pieces, last, n - 1);
        assert(pieces.push(last)[n - 1] == pieces[n - 1]);
        assert(pieces.push(last)[0] == pieces[0]);
    }
}

/// A path that begins with a name, and whose drive is not all of it.
pub open spec fn begins_with_a_name(path: Seq<char>) -> bool {
    &&& path.len() > 0
    &&& path[0] != '/'
    &&& path[0] != '\\'
    &&& !paths::has_drive(path) || path.contains('/') || path.contains('\\')
}

/// A name behind a path and a stroke is one part more. A stroke at the end is none.
pub proof fn a_name_behind_a_path_is_a_part(path: Seq<char>, name: Seq<char>)
    requires
        begins_with_a_name(path),
        name.len() > 0,
        name != "."@,
        !name.contains('/'),
        !name.contains('\\'),
    ensures
        paths::parts(path + seq!['/'] + name) == paths::parts(path).push(name),
        paths::parts(path + seq!['/']) == paths::parts(path),
{
    let straight = paths::straight(path);
    let pieces = lines::split(straight, '/');
    assert(straight[0] == path[0]);
    a_first_part_is_there(straight, '/');
    let ended = path + seq!['/'];
    let whole = ended + name;
    assert(ended[0] == path[0] && whole[0] == path[0]);
    assert(paths::straight(ended) =~= straight + seq!['/']);
    assert((straight + seq!['/']).drop_last() =~= straight);
    let longer = pieces.push(Seq::<char>::empty());
    assert(lines::split(straight + seq!['/'], '/') =~= longer);
    assert(paths::straight(whole) =~= straight + seq!['/'] + name) by {
        assert forall|k: int| 0 <= k < name.len() implies #[trigger] name[k] != '\\' by {
            if name[k] == '\\' {
                assert(name.contains('\\'));
            }
        }
    }
    lines::split_grows(straight + seq!['/'], name, '/');
    assert(longer.last() + name =~= name);
    assert(longer.update(longer.len() - 1, longer.last() + name) =~= pieces.push(name));
    if pieces.len() == 1 {
        parts_make_the_text(straight, '/');
        assert(pieces[0] == straight);
        assert(!straight.contains('/')) by {
            if straight.contains('/') {
                let k = choose|k: int| 0 <= k < straight.len() && straight[k] == '/';
                assert(pieces[0][k] != '/');
            }
        }
        if path.contains('/') {
            let k = choose|k: int| 0 <= k < path.len() && path[k] == '/';
            assert(straight[k] == '/');
        }
        if path.contains('\\') {
            let k = choose|k: int| 0 <= k < path.len() && path[k] == '\\';
            assert(straight[k] == '/');
        }
        assert(straight =~= path) by {
            assert forall|k: int| 0 <= k < path.len() implies straight[k] == path[k] by {
                if path[k] == '\\' {
                    assert(path.contains('\\'));
                }
            }
        }
    }
    let n = pieces.len() as int;
    the_parts_before_stay(pieces, name, n);
    the_parts_before_stay(pieces, Seq::empty(), n);
    assert(pieces.push(name)[0] == pieces[0] && longer[0] == pieces[0]);
    assert(pieces.push(name)[n] == name && longer[n] == Seq::<char>::empty());
}

} // verus!
