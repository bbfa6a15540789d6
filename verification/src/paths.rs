//! Paths, compared part by part, as Windows takes them apart.
use crate::lines;
use crate::text;
use vstd::prelude::*;

verus! {

/// A path that is to be taken word for word begins with two strokes, a question mark
/// and a stroke. In it only the backward stroke parts.
pub open spec fn is_verbatim(path: Seq<char>) -> bool {
    path.len() >= 4 && path[0] == '\\' && path[1] == '\\' && path[2] == '?' && path[3] == '\\'
}

/// A path with every backward stroke turned forward.
pub open spec fn straight(path: Seq<char>) -> Seq<char> {
    path.map_values(
        |c: char|
            if c == '\\' {
                '/'
            } else {
                c
            },
    )
}

/// What stands between the strokes of a path.
pub open spec fn pieces(path: Seq<char>) -> Seq<Seq<char>> {
    if is_verbatim(path) {
        lines::split(path, '\\')
    } else {
        lines::split(straight(path), '/')
    }
}

/// Two strokes with two names behind them: a share of another machine, a device, or
/// a path taken word for word.
pub open spec fn is_share(pieces: Seq<Seq<char>>) -> bool {
    pieces.len() > 3 && pieces[0].len() == 0 && pieces[1].len() == 0 && pieces[2].len() > 0
        && pieces[3].len() > 0
}

/// A piece that begins with the letter of a drive.
pub open spec fn has_drive(piece: Seq<char>) -> bool {
    piece.len() >= 2 && 'a' <= text::small_letter(piece[0]) <= 'z' && piece[1] == ':'
}

/// Whether the piece at `at` counts: not where it is empty or a lone full stop. In
/// front of the first stroke nothing is the root, and a full stop counts. What names
/// a share counts, and in a path taken word for word a full stop does.
pub open spec fn is_part(pieces: Seq<Seq<char>>, at: int, verbatim: bool) -> bool {
    if at == 0 {
        pieces[0].len() > 0 || pieces.len() > 1
    } else if at < 4 && is_share(pieces) {
        true
    } else {
        pieces[at].len() > 0 && (verbatim || pieces[at] != "."@)
    }
}

/// A piece as it is compared: a drive has one letter, small or capital, and with a
/// stroke behind it the drive is its root.
pub open spec fn part(pieces: Seq<Seq<char>>, at: int, verbatim: bool) -> Seq<char> {
    let piece = pieces[at];
    if has_drive(piece) && (at == 0 || (verbatim && at == 3)) {
        let drive = piece.update(0, text::small_letter(piece[0]));
        if at == 0 && piece.len() == 2 && pieces.len() > 1 {
            drive.push('/')
        } else {
            drive
        }
    } else {
        piece
    }
}

/// The first `n` of the pieces, without those that do not count.
pub open spec fn parts_to(pieces: Seq<Seq<char>>, verbatim: bool, n: int) -> Seq<Seq<char>>
    decreases n,
{
    if n <= 0 {
        Seq::empty()
    } else if is_part(pieces, n - 1, verbatim) {
        parts_to(pieces, verbatim, n - 1).push(part(pieces, n - 1, verbatim))
    } else {
        parts_to(pieces, verbatim, n - 1)
    }
}

/// The parts of a path. Both strokes part; strokes in a row count as one, a stroke at
/// the end not at all, nor a part that is a lone full stop, but for the first.
pub open spec fn parts(path: Seq<char>) -> Seq<Seq<char>> {
    parts_to(pieces(path), is_verbatim(path), pieces(path).len() as int)
}

fn taken_verbatim(path: &Vec<char>) -> (out: bool)
    ensures
        out == is_verbatim(path@),
{
    path.len() >= 4 && path[0] == '\\' && path[1] == '\\' && path[2] == '?' && path[3] == '\\'
}

fn pieces_of(path: &str) -> (out: Vec<String>)
    ensures
        lines::texts(out@) == pieces(path@),
        out@.len() > 0,
{
    let chars = text::chars_of(path);
    if taken_verbatim(&chars) {
        return lines::split_at(path, '\\');
    }
    let mut turned = String::new();
    let mut at: usize = 0;
    while at < chars.len()
        invariant
            at <= chars@.len(),
            turned@ == straight(chars@).take(at as int),
        decreases chars@.len() - at,
    {
        let c: char = if chars[at] == '\\' {
            '/'
        } else {
            chars[at]
        };
        turned.push(c);
        at += 1;
        assert(turned@ =~= straight(chars@).take(at as int));
    }
    assert(turned@ =~= straight(path@));
    lines::split_at(turned.as_str(), '/')
}

fn is_empty(text: &String) -> (out: bool)
    ensures
        out == (text@.len() == 0),
{
    text::chars_of(text.as_str()).len() == 0
}

/// A piece as it is compared.
fn part_of(pieces: &Vec<String>, at: usize, verbatim: bool) -> (out: String)
    requires
        at < pieces@.len(),
    ensures
        out@ == part(lines::texts(pieces@), at as int, verbatim),
{
    let chars = text::chars_of(pieces[at].as_str());
    if (at == 0 || (verbatim && at == 3)) && chars.len() >= 2 && chars[1] == ':' {
        let letter: char = text::make_small(chars[0]);
        if 'a' <= letter && letter <= 'z' {
            let mut out = String::new();
            out.push(letter);
            text::push_range(&mut out, &chars, 1, chars.len());
            assert(out@ =~= chars@.update(0, letter));
            if at == 0 && chars.len() == 2 && pieces.len() > 1 {
                out.push('/');
            }
            return out;
        }
    }
    pieces[at].clone()
}

/// The parts of a path, each as a text.
fn parts_of(path: &str) -> (out: Vec<String>)
    ensures
        lines::texts(out@) == parts(path@),
{
    let verbatim: bool = taken_verbatim(&text::chars_of(path));
    let pieces = pieces_of(path);
    let ghost all = lines::texts(pieces@);
    let share: bool = pieces.len() > 3 && is_empty(&pieces[0]) && is_empty(&pieces[1])
        && !is_empty(&pieces[2]) && !is_empty(&pieces[3]);
    let mut out: Vec<String> = Vec::new();
    let mut at: usize = 0;
    assert(lines::texts(out@) =~= Seq::empty());
    while at < pieces.len()
        invariant
            at <= pieces@.len(),
            all == lines::texts(pieces@),
            share == is_share(all),
            lines::texts(out@) == parts_to(all, verbatim, at as int),
        decreases pieces@.len() - at,
    {
        let empty: bool = is_empty(&pieces[at]);
        let counts: bool = if at == 0 {
            !empty || pieces.len() > 1
        } else if at < 4 && share {
            true
        } else {
            !empty && (verbatim || !text::same_text(pieces[at].as_str(), "."))
        };
        if counts {
            let ghost before = lines::texts(out@);
            let one = part_of(&pieces, at, verbatim);
            out.push(one);
            assert(lines::texts(out@) =~= before.push(one@));
        }
        at += 1;
    }
    out
}

/// Whether two paths have the same parts.
pub fn same_path(one: &str, two: &str) -> (out: bool)
    ensures
        out == (parts(one@) == parts(two@)),
{
    let left = parts_of(one);
    let right = parts_of(two);
    if left.len() != right.len() {
        assert(lines::texts(left@).len() != lines::texts(right@).len());
        return false;
    }
    let mut at: usize = 0;
    while at < left.len()
        invariant
            at <= left@.len(),
            left@.len() == right@.len(),
            lines::texts(left@) == parts(one@),
            lines::texts(right@) == parts(two@),
            forall|i: int| 0 <= i < at ==> left@[i]@ == right@[i]@,
        decreases left@.len() - at,
    {
        if !text::same_text(left[at].as_str(), right[at].as_str()) {
            assert(lines::texts(left@)[at as int] != lines::texts(right@)[at as int]);
            return false;
        }
        at += 1;
    }
    assert(lines::texts(left@) =~= lines::texts(right@));
    true
}

} // verus!
