//! What the tags promise as a whole.
use crate::letters;
use crate::lines;
use crate::tags::finding::{self, Place, TagModel};
use crate::tags::name;
use crate::tags::query;
use crate::tags::tree::{self, EntryModel, RowModel, TagNode};
use crate::text;
use vstd::prelude::*;

verus! {

/// A tag of a line that begins at `start`: a hash at the beginning of the line
/// or behind white space, with a name behind it.
pub open spec fn is_line_tag(text: Seq<char>, start: int, to: int, place: Place) -> bool {
    &&& start <= place.0 < place.2 <= to
    &&& place.1 == place.0 + 1
    &&& text[place.0] == '#'
    &&& place.0 == start || text::is_space(text[place.0 - 1])
    &&& name::is_name(text, place.1, place.2)
}

/// The character before a place of a line that begins at `start`.
pub open spec fn character_before(text: Seq<char>, start: int, at: int) -> Option<char> {
    if at == start {
        None
    } else {
        Some(text[at - 1])
    }
}

proof fn quotes_stand(text: Seq<char>, at: int, run: int, to: int)
    ensures
        match finding::next_quotes(text, at, run, to) {
            Some(found) => finding::has_quotes(text, found, run, to) && at <= found,
            None => true,
        },
    decreases to - at,
{
    if at + run <= to && at < to && !finding::has_quotes(text, at, run, to) {
        quotes_stand(text, at + 1, run, to);
    }
}

proof fn signs_stand(text: Seq<char>, at: int, to: int)
    ensures
        match finding::next_signs(text, at, to) {
            Some(found) => finding::has_signs(text, found, to) && at <= found,
            None => true,
        },
    decreases to - at,
{
    if at + 2 <= to && !finding::has_signs(text, at, to) {
        signs_stand(text, at + 1, to);
    }
}

proof fn quotes_are_some(text: Seq<char>, at: int, to: int)
    requires
        at <= to,
    ensures
        finding::quotes_end(text, at, to) >= at,
        at < to && text[at] == '`' ==> finding::quotes_end(text, at, to) > at,
    decreases to - at,
{
    if at < to && text[at] == '`' {
        quotes_are_some(text, at + 1, to);
    }
}

/// A step remembers the character it passed last.
proof fn a_step_remembers(text: Seq<char>, start: int, at: int, to: int)
    requires
        0 <= start <= at < to <= text.len(),
    ensures
        ({
            let (next, before, found) = finding::step(
                text,
                at,
                to,
                character_before(text, start, at),
            );
            before == character_before(text, start, next)
        }),
{
    let previous = character_before(text, start, at);
    finding::a_step_goes_on(text, at, to, previous);
    quotes_are_some(text, at, to);
    let quoted = finding::quotes_end(text, at, to);
    let run = quoted - at;
    quotes_stand(text, quoted, run, to);
    signs_stand(text, at + 2, to);
    if text[at] == '`' {
        if let Some(found) = finding::next_quotes(text, quoted, run, to) {
            assert(text[found + run - 1] == '`');
        }
    }
}

/// Every tag that is found in a line is one, and none begins within another.
pub proof fn every_tag_is_one(text: Seq<char>, start: int, at: int, to: int)
    requires
        0 <= start <= at <= to <= text.len(),
    ensures
        ({
            let found = finding::line_found(text, at, to, character_before(text, start, at));
            &&& forall|i: int|
                0 <= i < found.len() ==> is_line_tag(text, start, to, #[trigger] found[i])
                    && found[i].0 >= at
            &&& forall|i: int, j: int|
                0 <= i < j < found.len() ==> (#[trigger] found[i]).2 <= (#[trigger] found[j]).0
        }),
    decreases to - at,
{
    let previous = character_before(text, start, at);
    if at < to {
        finding::a_step_goes_on(text, at, to, previous);
        a_step_remembers(text, start, at, to);
        let (next, before, here) = finding::step(text, at, to, previous);
        every_tag_is_one(text, start, next, to);
        let rest = finding::line_found(text, next, to, before);
        let all = finding::line_found(text, at, to, previous);
        if let Some(place) = here {
            assert(all == seq![place] + rest);
            assert(is_line_tag(text, start, to, place));
            assert forall|i: int| 0 <= i < all.len() implies is_line_tag(
                text,
                start,
                to,
                #[trigger] all[i],
            ) && all[i].0 >= at by {
                if i > 0 {
                    assert(all[i] == rest[i - 1]);
                }
            }
            assert forall|i: int, j: int| 0 <= i < j < all.len() implies (#[trigger] all[i]).2 <= (
            #[trigger] all[j]).0 by {
                assert(all[j] == rest[j - 1]);
                if i > 0 {
                    assert(all[i] == rest[i - 1]);
                }
            }
        } else {
            assert(all == rest);
        }
    }
}

/// A tag answers to its own name, and to the name of every tag above it.
pub proof fn a_tag_answers_to_those_above(name: Seq<char>, above: Seq<char>, rest: Seq<char>)
    ensures
        query::answers(name, letters::lowered(name)),
        letters::lowered(name) == above.push('/') + rest ==> query::answers(name, above),
{
    let low = letters::lowered(name);
    if low == above.push('/') + rest {
        assert(low.subrange(0, above.len() as int) =~= above);
        assert(low[above.len() as int] == '/');
    }
}

/// The names of a document differ by more than their case, and every tag has
/// its name among them.
pub proof fn names_are_unique_and_complete(tags: Seq<TagModel>, n: int)
    requires
        0 <= n <= tags.len(),
    ensures
        ({
            let names = finding::names_of(tags, n);
            &&& forall|i: int, j: int|
                0 <= i < j < names.len() ==> letters::lowered(#[trigger] names[i])
                    != letters::lowered(#[trigger] names[j])
            &&& forall|k: int|
                0 <= k < n ==> exists|i: int|
                    0 <= i < names.len() && letters::lowered(#[trigger] names[i])
                        == letters::lowered((#[trigger] tags[k]).name)
            &&& forall|i: int|
                0 <= i < names.len() ==> finding::is_named(tags, #[trigger] names[i], n)
        }),
    decreases n,
{
    if n > 0 {
        names_are_unique_and_complete(tags, n - 1);
        let before = finding::names_of(tags, n - 1);
        let names = finding::names_of(tags, n);
        let last = tags[n - 1].name;
        assert forall|i: int| 0 <= i < names.len() implies finding::is_named(
            tags,
            #[trigger] names[i],
            n,
        ) by {
            if i < before.len() {
                assert(names[i] == before[i]);
                assert(finding::is_named(tags, before[i], n - 1));
                let k = choose|k: int|
                    0 <= k < n - 1 && letters::lowered((#[trigger] tags[k]).name)
                        == letters::lowered(before[i]);
                assert(letters::lowered(tags[k].name) == letters::lowered(names[i]));
            } else {
                assert(letters::lowered(tags[n - 1].name) == letters::lowered(names[i]));
            }
        }
        assert forall|k: int| 0 <= k < n implies exists|i: int|
            0 <= i < names.len() && letters::lowered(#[trigger] names[i]) == letters::lowered((
            #[trigger] tags[k]).name) by {
            if k < n - 1 {
                let i = choose|i: int|
                    0 <= i < before.len() && letters::lowered(#[trigger] before[i])
                        == letters::lowered(tags[k].name);
                assert(names[i] == before[i]);
            } else if finding::is_named(tags, last, n - 1) {
                let other = choose|i: int|
                    0 <= i < n - 1 && letters::lowered((#[trigger] tags[i]).name)
                        == letters::lowered(last);
                let i = choose|i: int|
                    0 <= i < before.len() && letters::lowered(#[trigger] before[i])
                        == letters::lowered(tags[other].name);
                assert(names[i] == before[i]);
            } else {
                assert(names[before.len() as int] == last);
            }
        }
        assert forall|i: int, j: int| 0 <= i < j < names.len() implies letters::lowered(
            #[trigger] names[i],
        ) != letters::lowered(#[trigger] names[j]) by {
            assert(names[i] == before[i]);
            if j < before.len() {
                assert(names[j] == before[j]);
            } else {
                assert(finding::is_named(tags, before[i], n - 1));
                if letters::lowered(before[i]) == letters::lowered(last) {
                    let k = choose|k: int|
                        0 <= k < n - 1 && letters::lowered((#[trigger] tags[k]).name)
                            == letters::lowered(before[i]);
                    assert(letters::lowered(tags[k].name) == letters::lowered(last));
                    assert(finding::is_named(tags, last, n - 1));
                }
            }
        }
    }
}

proof fn order_goes_on(one: Seq<char>, two: Seq<char>, three: Seq<char>)
    requires
        tree::comes_before(one, two),
        tree::comes_before(two, three),
    ensures
        tree::comes_before(one, three),
    decreases one.len(),
{
    if one.len() > 0 && one[0] == two[0] && two[0] == three[0] {
        order_goes_on(one.skip(1), two.skip(1), three.skip(1));
    }
}

proof fn one_comes_first(one: Seq<char>, two: Seq<char>)
    ensures
        tree::comes_before(one, two) || tree::comes_before(two, one) || one == two,
    decreases one.len(),
{
    if one.len() > 0 && two.len() > 0 && one[0] == two[0] {
        one_comes_first(one.skip(1), two.skip(1));
        if one.skip(1) == two.skip(1) {
            assert(one =~= two) by {
                assert(one.skip(1).len() == two.skip(1).len());
                assert forall|i: int| 0 <= i < one.len() implies one[i] == two[i] by {
                    if i > 0 {
                        assert(one[i] == one.skip(1)[i - 1]);
                        assert(two[i] == two.skip(1)[i - 1]);
                    }
                }
            }
        }
    } else if one.len() == 0 && two.len() == 0 {
        assert(one =~= two);
    }
}

proof fn nothing_comes_before_itself(one: Seq<char>)
    ensures
        !tree::comes_before(one, one),
    decreases one.len(),
{
    if one.len() > 0 {
        nothing_comes_before_itself(one.skip(1));
    }
}

/// The entries stand in order, each key once.
pub open spec fn in_order(entries: Seq<EntryModel>) -> bool {
    forall|i: int, j: int|
        0 <= i < j < entries.len() ==> tree::comes_before(
            (#[trigger] entries[i]).key,
            (#[trigger] entries[j]).key,
        )
}

proof fn the_place_parts(entries: Seq<EntryModel>, key: Seq<char>, from: int)
    requires
        0 <= from <= entries.len(),
    ensures
        from <= tree::place_for(entries, key, from) <= entries.len(),
        forall|i: int|
            from <= i < tree::place_for(entries, key, from) ==> tree::comes_before(
                (#[trigger] entries[i]).key,
                key,
            ),
        tree::place_for(entries, key, from) < entries.len() ==> !tree::comes_before(
            entries[tree::place_for(entries, key, from)].key,
            key,
        ),
    decreases entries.len() - from,
{
    if from < entries.len() && tree::comes_before(entries[from].key, key) {
        the_place_parts(entries, key, from + 1);
    }
}

/// One document has a tag, or one below it: some name of it has a level that is
/// compared so.
pub open spec fn has_tag(names: Seq<Seq<char>>, key: Seq<char>) -> bool {
    exists|i: int, end: int|
        0 <= i < names.len() && #[trigger] tree::level_ends(names[i], end) && letters::lowered(
            names[i].take(end),
        ) == key
}

/// The documents of an entry are counted once each, in order.
pub open spec fn counted_once(files: Seq<usize>, limit: int) -> bool {
    &&& forall|i: int, j: int|
        0 <= i < j < files.len() ==> #[trigger] files[i] < #[trigger] files[j]
    &&& forall|i: int| 0 <= i < files.len() ==> #[trigger] files[i] < limit
}

/// What is known of the entries while a document with the number `file` is
/// read.
spec fn sound(entries: Seq<EntryModel>, file: int) -> bool {
    &&& in_order(entries)
    &&& forall|i: int| 0 <= i < entries.len() ==> counted_once((#[trigger] entries[i]).files, file + 1)
}

proof fn with_tag_is_sound(entries: Seq<EntryModel>, path: Seq<char>, file: usize)
    requires
        sound(entries, file as int),
    ensures
        sound(tree::with_tag(entries, path, file), file as int),
        tree::is_entry(tree::with_tag(entries, path, file), letters::lowered(path)),
        forall|key: Seq<char>| #[trigger]
            tree::is_entry(tree::with_tag(entries, path, file), key) <==> tree::is_entry(
                entries,
                key,
            ) || key == letters::lowered(path),
        forall|i: int|
            0 <= i < tree::with_tag(entries, path, file).len() ==> {
                let entry = #[trigger] tree::with_tag(entries, path, file)[i];
                forall|f: usize| #[trigger]
                    entry.files.contains(f) <==> has_file(entries, entry.key, f) || (f == file
                        && entry.key == letters::lowered(path))
            },
{
    let key = letters::lowered(path);
    let at = tree::place_for(entries, key, 0);
    the_place_parts(entries, key, 0);
    let after = tree::with_tag(entries, path, file);
    if at < entries.len() && entries[at].key == key {
        let held = entries[at];
        let files = tree::with_file(held.files, file);
        with_file_counts(held.files, file);
        assert(after.len() == entries.len());
        assert forall|i: int| 0 <= i < after.len() implies (#[trigger] after[i]).key
            == entries[i].key by {}
        assert forall|i: int, j: int| 0 <= i < j < after.len() implies tree::comes_before(
            (#[trigger] after[i]).key,
            (#[trigger] after[j]).key,
        ) by {
            assert(entries[i].key == after[i].key && entries[j].key == after[j].key);
        }
        assert forall|i: int| 0 <= i < after.len() implies counted_once(
            (#[trigger] after[i]).files,
            file + 1,
        ) by {
            if i != at {
                assert(after[i] == entries[i]);
            }
        }
        assert forall|other: Seq<char>| #[trigger] tree::is_entry(after, other)
            <==> tree::is_entry(entries, other) || other == key by {
            if tree::is_entry(after, other) {
                let i = choose|i: int| 0 <= i < after.len() && (#[trigger] after[i]).key == other;
                assert(entries[i].key == other);
            }
            if tree::is_entry(entries, other) {
                let i = choose|i: int|
                    0 <= i < entries.len() && (#[trigger] entries[i]).key == other;
                assert(after[i].key == other);
            }
            assert(after[at].key == key);
        }
        assert forall|i: int| 0 <= i < after.len() implies {
            let entry = #[trigger] after[i];
            forall|f: usize| #[trigger]
                entry.files.contains(f) <==> has_file(entries, entry.key, f) || (f == file
                    && entry.key == key)
        } by {
            let entry = after[i];
            assert forall|f: usize| #[trigger] entry.files.contains(f) <==> has_file(
                entries,
                entry.key,
                f,
            ) || (f == file && entry.key == key) by {
                one_entry_each(entries, i, f);
                if i == at {
                    with_file_counts(held.files, file);
                } else if entry.key == key {
                    if i < at {
                        assert(tree::comes_before(entries[i].key, entries[at].key));
                    } else {
                        assert(tree::comes_before(entries[at].key, entries[i].key));
                    }
                    nothing_comes_before_itself(key);
                }
            }
        }
    } else {
        let new = EntryModel { key, path, files: seq![file] };
        assert(after == entries.insert(at, new));
        if at < entries.len() {
            one_comes_first(entries[at].key, key);
        }
        assert forall|i: int, j: int| 0 <= i < j < after.len() implies tree::comes_before(
            (#[trigger] after[i]).key,
            (#[trigger] after[j]).key,
        ) by {
            let a = if i < at {
                i
            } else {
                i - 1
            };
            let b = if j < at {
                j
            } else {
                j - 1
            };
            if i == at {
                assert(after[j] == entries[b]);
                if b > at {
                    assert(tree::comes_before(entries[at].key, entries[b].key));
                    order_goes_on(key, entries[at].key, entries[b].key);
                }
            } else if j == at {
                assert(after[i] == entries[a]);
            } else {
                assert(after[i] == entries[a] && after[j] == entries[b]);
            }
        }
        assert forall|i: int| 0 <= i < after.len() implies counted_once(
            (#[trigger] after[i]).files,
            file + 1,
        ) by {
            if i < at {
                assert(after[i] == entries[i]);
            } else if i > at {
                assert(after[i] == entries[i - 1]);
            }
        }
        assert forall|other: Seq<char>| #[trigger] tree::is_entry(after, other)
            <==> tree::is_entry(entries, other) || other == key by {
            if tree::is_entry(after, other) {
                let i = choose|i: int| 0 <= i < after.len() && (#[trigger] after[i]).key == other;
                if i < at {
                    assert(entries[i].key == other);
                } else if i > at {
                    assert(entries[i - 1].key == other);
                }
            }
            if tree::is_entry(entries, other) {
                let i = choose|i: int|
                    0 <= i < entries.len() && (#[trigger] entries[i]).key == other;
                if i < at {
                    assert(after[i].key == other);
                } else {
                    assert(after[i + 1].key == other);
                }
            }
            assert(after[at].key == key);
        }
        assert forall|i: int| 0 <= i < after.len() implies {
            let entry = #[trigger] after[i];
            forall|f: usize| #[trigger]
                entry.files.contains(f) <==> has_file(entries, entry.key, f) || (f == file
                    && entry.key == key)
        } by {
            let entry = after[i];
            assert forall|f: usize| #[trigger] entry.files.contains(f) <==> has_file(
                entries,
                entry.key,
                f,
            ) || (f == file && entry.key == key) by {
                if i == at {
                    assert(seq![file][0] == file);
                    if has_file(entries, key, f) {
                        let k = choose|k: int|
                            0 <= k < entries.len() && (#[trigger] entries[k]).key == key
                                && entries[k].files.contains(f);
                        if k < at {
                            assert(tree::comes_before(entries[k].key, key));
                            nothing_comes_before_itself(key);
                        } else if k > at {
                            assert(tree::comes_before(entries[at].key, entries[k].key));
                            order_goes_on(key, entries[at].key, key);
                            nothing_comes_before_itself(key);
                        }
                    }
                } else {
                    let k = if i < at {
                        i
                    } else {
                        i - 1
                    };
                    assert(entry == entries[k]);
                    one_entry_each(entries, k, f);
                    if entry.key == key {
                        if k < at {
                            nothing_comes_before_itself(key);
                        } else if k == at {
                        } else {
                            assert(tree::comes_before(entries[at].key, entries[k].key));
                            order_goes_on(key, entries[at].key, key);
                            nothing_comes_before_itself(key);
                        }
                    }
                }
            }
        }
    }
}

/// The entry of a key has a document.
pub open spec fn has_file(entries: Seq<EntryModel>, key: Seq<char>, file: usize) -> bool {
    exists|i: int|
        0 <= i < entries.len() && (#[trigger] entries[i]).key == key && entries[i].files.contains(
            file,
        )
}

proof fn one_entry_each(entries: Seq<EntryModel>, i: int, file: usize)
    requires
        in_order(entries),
        0 <= i < entries.len(),
    ensures
        has_file(entries, entries[i].key, file) == entries[i].files.contains(file),
{
    let key = entries[i].key;
    if has_file(entries, key, file) {
        let k = choose|k: int|
            0 <= k < entries.len() && (#[trigger] entries[k]).key == key
                && entries[k].files.contains(file);
        if k < i {
            assert(tree::comes_before(entries[k].key, entries[i].key));
            nothing_comes_before_itself(key);
        } else if i < k {
            assert(tree::comes_before(entries[i].key, entries[k].key));
            nothing_comes_before_itself(key);
        }
    }
    if entries[i].files.contains(file) {
        assert(entries[i].key == key);
    }
}

proof fn with_file_counts(files: Seq<usize>, file: usize)
    requires
        counted_once(files, file + 1),
    ensures
        counted_once(tree::with_file(files, file), file + 1),
        forall|f: usize| #[trigger]
            tree::with_file(files, file).contains(f) <==> files.contains(f) || f == file,
{
    let after = tree::with_file(files, file);
    assert forall|f: usize| #[trigger] after.contains(f) <==> files.contains(f) || f == file by {
        if files.contains(f) {
            let i = choose|i: int| 0 <= i < files.len() && files[i] == f;
            assert(after[i] == f);
        }
        assert(after[after.len() - 1] == file);
        if after.contains(f) {
            let i = choose|i: int| 0 <= i < after.len() && after[i] == f;
            if i < files.len() {
                assert(files[i] == f);
            }
        }
    }
    if files.len() > 0 && files.last() != file {
        assert forall|i: int, j: int| 0 <= i < j < after.len() implies #[trigger] after[i]
            < #[trigger] after[j] by {
            if j == files.len() {
                assert(files[i] <= file);
                if i < files.len() - 1 {
                    assert(files[i] < files[files.len() - 1]);
                }
            }
        }
    }
}

/// One of the first `n` names, or one of the first `m` levels of the next, is
/// compared so.
spec fn mentioned(names: Seq<Seq<char>>, n: int, m: int, key: Seq<char>) -> bool {
    exists|i: int, end: int|
        0 <= i <= n && i < names.len() && (i == n ==> end <= m) && #[trigger] tree::level_ends(
            names[i],
            end,
        ) && letters::lowered(names[i].take(end)) == key
}

/// What the entries are after part of a document.
spec fn reads_so(
    before: Seq<EntryModel>,
    after: Seq<EntryModel>,
    file: usize,
    names: Seq<Seq<char>>,
    n: int,
    m: int,
) -> bool {
    &&& sound(after, file as int)
    &&& forall|key: Seq<char>| #[trigger]
        tree::is_entry(after, key) <==> tree::is_entry(before, key) || mentioned(names, n, m, key)
    &&& forall|key: Seq<char>, f: usize| #[trigger]
        has_file(after, key, f) <==> has_file(before, key, f) || (f == file && mentioned(
            names,
            n,
            m,
            key,
        ))
}

proof fn levels_read_so(
    first: Seq<EntryModel>,
    before: Seq<EntryModel>,
    file: usize,
    names: Seq<Seq<char>>,
    n: int,
    m: int,
)
    requires
        0 <= n < names.len(),
        0 <= m <= names[n].len(),
        reads_so(first, before, file, names, n, 0),
    ensures
        reads_so(first, tree::with_levels(before, names[n], file, m), file, names, n, m),
    decreases m,
{
    if m > 0 {
        levels_read_so(first, before, file, names, n, m - 1);
        let held = tree::with_levels(before, names[n], file, m - 1);
        let after = tree::with_levels(before, names[n], file, m);
        let level = letters::lowered(names[n].take(m));
        assert forall|key: Seq<char>| #[trigger] mentioned(names, n, m, key) <==> mentioned(
            names,
            n,
            m - 1,
            key,
        ) || (tree::level_ends(names[n], m) && key == level) by {
            if mentioned(names, n, m, key) {
                let (i, end) = choose|i: int, end: int|
                    0 <= i <= n && i < names.len() && (i == n ==> end <= m)
                        && #[trigger] tree::level_ends(names[i], end) && letters::lowered(
                        names[i].take(end),
                    ) == key;
                if !(i == n && end == m) {
                    assert(tree::level_ends(names[i], end));
                }
            }
            if mentioned(names, n, m - 1, key) {
                let (i, end) = choose|i: int, end: int|
                    0 <= i <= n && i < names.len() && (i == n ==> end <= m - 1)
                        && #[trigger] tree::level_ends(names[i], end) && letters::lowered(
                        names[i].take(end),
                    ) == key;
                assert(tree::level_ends(names[i], end));
            }
        }
        if tree::level_ends(names[n], m) {
            with_tag_is_sound(held, names[n].take(m), file);
            assert forall|key: Seq<char>, f: usize| #[trigger] has_file(after, key, f)
                <==> has_file(held, key, f) || (f == file && key == level) by {
                if has_file(after, key, f) {
                    let i = choose|i: int|
                        0 <= i < after.len() && (#[trigger] after[i]).key == key
                            && after[i].files.contains(f);
                    assert(has_file(held, key, f) || (f == file && key == level));
                }
                if has_file(held, key, f) || (f == file && key == level) {
                    if has_file(held, key, f) {
                        let i = choose|i: int|
                            0 <= i < held.len() && (#[trigger] held[i]).key == key
                                && held[i].files.contains(f);
                        assert(tree::is_entry(held, key));
                    }
                    assert(tree::is_entry(after, key));
                    let i = choose|i: int| 0 <= i < after.len() && (#[trigger] after[i]).key == key;
                    assert(after[i].files.contains(f));
                }
            }
        }
    }
}

proof fn names_read_so(
    first: Seq<EntryModel>,
    file: usize,
    names: Seq<Seq<char>>,
    n: int,
)
    requires
        0 <= n <= names.len(),
        sound(first, file as int),
    ensures
        reads_so(first, tree::with_names(first, names, file, n), file, names, n, 0),
    decreases n,
{
    let after = tree::with_names(first, names, file, n);
    if n == 0 {
        assert forall|key: Seq<char>| !#[trigger] mentioned(names, 0, 0, key) by {}
    } else {
        names_read_so(first, file, names, n - 1);
        let held = tree::with_names(first, names, file, n - 1);
        let length = names[n - 1].len() as int;
        levels_read_so(first, held, file, names, n - 1, length);
        assert forall|key: Seq<char>| #[trigger] mentioned(names, n, 0, key) <==> mentioned(
            names,
            n - 1,
            length,
            key,
        ) by {
            if mentioned(names, n, 0, key) {
                let (i, end) = choose|i: int, end: int|
                    0 <= i <= n && i < names.len() && (i == n ==> end <= 0)
                        && #[trigger] tree::level_ends(names[i], end) && letters::lowered(
                        names[i].take(end),
                    ) == key;
                assert(tree::level_ends(names[i], end));
                assert(i <= n - 1);
            }
            if mentioned(names, n - 1, length, key) {
                let (i, end) = choose|i: int, end: int|
                    0 <= i <= n - 1 && i < names.len() && (i == n - 1 ==> end <= length)
                        && #[trigger] tree::level_ends(names[i], end) && letters::lowered(
                        names[i].take(end),
                    ) == key;
                assert(tree::level_ends(names[i], end));
            }
        }
    }
}

proof fn all_names_are_mentioned(names: Seq<Seq<char>>, key: Seq<char>)
    ensures
        mentioned(names, names.len() as int, 0, key) == has_tag(names, key),
{
    let n = names.len() as int;
    if mentioned(names, n, 0, key) {
        let (i, end) = choose|i: int, end: int|
            0 <= i <= n && i < names.len() && (i == n ==> end <= 0) && #[trigger] tree::level_ends(
                names[i],
                end,
            ) && letters::lowered(names[i].take(end)) == key;
        assert(tree::level_ends(names[i], end));
    }
    if has_tag(names, key) {
        let (i, end) = choose|i: int, end: int|
            0 <= i < names.len() && #[trigger] tree::level_ends(names[i], end) && letters::lowered(
                names[i].take(end),
            ) == key;
        assert(tree::level_ends(names[i], end));
    }
}

proof fn wider_is_sound(entries: Seq<EntryModel>, file: int)
    requires
        sound(entries, file),
    ensures
        sound(entries, file + 1),
{
    assert forall|i: int| 0 <= i < entries.len() implies counted_once(
        (#[trigger] entries[i]).files,
        file + 2,
    ) by {
        assert(counted_once(entries[i].files, file + 1));
    }
}

/// The entries of documents stand in order; there is one for exactly the tags
/// that some document has, at every level; and each counts exactly the
/// documents that have it or a tag below it, each once.
pub proof fn the_entries_count_every_document_once(documents: Seq<Seq<Seq<char>>>, n: int)
    requires
        0 <= n <= documents.len(),
        n <= usize::MAX,
    ensures
        ({
            let entries = tree::entries_to(documents, n);
            &&& in_order(entries)
            &&& forall|i: int|
                0 <= i < entries.len() ==> counted_once((#[trigger] entries[i]).files, n)
            &&& forall|key: Seq<char>| #[trigger]
                tree::is_entry(entries, key) <==> exists|d: int|
                    0 <= d < n && has_tag(#[trigger] documents[d], key)
            &&& forall|key: Seq<char>, f: usize| #[trigger]
                has_file(entries, key, f) <==> f < n && has_tag(documents[f as int], key)
        }),
    decreases n,
{
    let entries = tree::entries_to(documents, n);
    if n == 0 {
        assert(entries =~= Seq::empty());
    } else {
        the_entries_count_every_document_once(documents, n - 1);
        let before = tree::entries_to(documents, n - 1);
        let file = (n - 1) as usize;
        let names = documents[n - 1];
        assert(sound(before, file - 1));
        wider_is_sound(before, file - 1);
        names_read_so(before, file, names, names.len() as int);
        assert forall|key: Seq<char>| #[trigger] tree::is_entry(entries, key) <==> exists|d: int|
            0 <= d < n && has_tag(#[trigger] documents[d], key) by {
            all_names_are_mentioned(names, key);
            if tree::is_entry(entries, key) {
                if tree::is_entry(before, key) {
                    let d = choose|d: int| 0 <= d < n - 1 && has_tag(#[trigger] documents[d], key);
                    assert(has_tag(documents[d], key));
                } else {
                    assert(has_tag(documents[n - 1], key));
                }
            }
            if exists|d: int| 0 <= d < n && has_tag(#[trigger] documents[d], key) {
                let d = choose|d: int| 0 <= d < n && has_tag(#[trigger] documents[d], key);
                if d < n - 1 {
                    assert(tree::is_entry(before, key));
                }
            }
        }
        assert forall|key: Seq<char>, f: usize| #[trigger] has_file(entries, key, f) <==> f < n
            && has_tag(documents[f as int], key) by {
            all_names_are_mentioned(names, key);
            assert(has_file(before, key, f) <==> f < n - 1 && has_tag(documents[f as int], key));
        }
    }
}

/// How many tags stand in the first `n` nodes, with all below them.
pub open spec fn node_count(nodes: Seq<TagNode>, n: nat) -> int
    decreases nodes, n,
{
    if n == 0 || n > nodes.len() {
        0
    } else {
        let node = nodes[n - 1];
        node_count(nodes, (n - 1) as nat) + 1 + node_count(node.children@, node.children@.len())
    }
}

/// A tag of the tree, and how deep it stands.
pub ghost struct Visit {
    pub node: TagNode,
    pub depth: usize,
}

/// The first `n` nodes with all below them, each before those below it.
pub open spec fn preorder(nodes: Seq<TagNode>, depth: usize, n: nat) -> Seq<Visit>
    decreases nodes, n,
{
    if n == 0 || n > nodes.len() {
        Seq::empty()
    } else {
        let node = nodes[n - 1];
        preorder(nodes, depth, (n - 1) as nat).push(Visit { node, depth }) + preorder(
            node.children@,
            tree::deeper(depth),
            node.children@.len(),
        )
    }
}

/// The rows of these tags, with nothing looked for.
pub open spec fn rows_of(visits: Seq<Visit>, open: Seq<Seq<char>>) -> Seq<RowModel> {
    visits.map_values(
        |visit: Visit| tree::row_of(visit.node, visit.depth, open, Seq::empty()),
    )
}

/// With every tag open that has others below it, every tag has its row, once, each
/// before those below it and one level above them.
pub proof fn all_open_shows_all(
    nodes: Seq<TagNode>,
    depth: usize,
    open: Seq<Seq<char>>,
    n: nat,
)
    requires
        n <= nodes.len(),
        forall|key: Seq<char>| #[trigger]
            tree::parents_to(nodes, n).contains(key) ==> open.contains(key),
    ensures
        tree::rows_to(nodes, depth, open, Seq::empty(), n) == rows_of(
            preorder(nodes, depth, n),
            open,
        ),
        preorder(nodes, depth, n).len() == node_count(nodes, n),
    decreases nodes, n,
{
    let rows = tree::rows_to(nodes, depth, open, Seq::empty(), n);
    if n > 0 {
        let node = nodes[n - 1];
        let before = tree::parents_to(nodes, (n - 1) as nat);
        let all = tree::parents_to(nodes, n);
        let own = letters::lowered(node.path@);
        let count = node.children@.len();
        let inner = tree::parents_to(node.children@, count);
        let next = tree::deeper(depth);
        assert forall|key: Seq<char>| #[trigger] before.contains(key) implies open.contains(
            key,
        ) by {
            let i = choose|i: int| 0 <= i < before.len() && before[i] == key;
            assert(all[i] == key);
            assert(all.contains(key));
        }
        all_open_shows_all(nodes, depth, open, (n - 1) as nat);
        if count > 0 {
            assert(all[before.len() as int] == own);
            assert(all.contains(own));
            assert forall|key: Seq<char>| #[trigger] inner.contains(key) implies open.contains(
                key,
            ) by {
                let i = choose|i: int| 0 <= i < inner.len() && inner[i] == key;
                assert(all[before.len() + 1 + i] == key);
                assert(all.contains(key));
            }
            all_open_shows_all(node.children@, next, open, count);
        } else {
            assert(tree::rows_to(node.children@, next, open, Seq::empty(), 0) =~= Seq::empty());
            assert(preorder(node.children@, next, 0) =~= Seq::empty());
            assert(node_count(node.children@, 0) == 0);
        }
        assert(rows =~= rows_of(preorder(nodes, depth, n), open));
    } else {
        assert(rows =~= rows_of(preorder(nodes, depth, n), open));
    }
}

proof fn a_row_each_at_most(nodes: Seq<TagNode>, depth: usize, open: Seq<Seq<char>>, n: nat)
    requires
        n <= nodes.len(),
    ensures
        tree::rows_to(nodes, depth, open, Seq::empty(), n).len() <= node_count(nodes, n),
        n <= node_count(nodes, n),
    decreases nodes, n,
{
    if n > 0 {
        let node = nodes[n - 1];
        a_row_each_at_most(nodes, depth, open, (n - 1) as nat);
        a_row_each_at_most(node.children@, tree::deeper(depth), open, node.children@.len());
    }
}

/// With a tag shut that has others below it, some tag has no row.
pub proof fn one_shut_hides_some(
    nodes: Seq<TagNode>,
    depth: usize,
    open: Seq<Seq<char>>,
    n: nat,
    key: Seq<char>,
)
    requires
        n <= nodes.len(),
        tree::parents_to(nodes, n).contains(key),
        !open.contains(key),
    ensures
        tree::rows_to(nodes, depth, open, Seq::empty(), n).len() < node_count(nodes, n),
    decreases nodes, n,
{
    if n > 0 {
        let node = nodes[n - 1];
        let before = tree::parents_to(nodes, (n - 1) as nat);
        let all = tree::parents_to(nodes, n);
        let own = letters::lowered(node.path@);
        let count = node.children@.len();
        let inner = tree::parents_to(node.children@, count);
        let next = tree::deeper(depth);
        a_row_each_at_most(nodes, depth, open, (n - 1) as nat);
        a_row_each_at_most(node.children@, next, open, count);
        let at = choose|i: int| 0 <= i < all.len() && all[i] == key;
        if at < before.len() {
            assert(before[at] == key);
            one_shut_hides_some(nodes, depth, open, (n - 1) as nat, key);
        } else if at > before.len() {
            assert(inner[at - before.len() - 1] == key);
            one_shut_hides_some(node.children@, next, open, count, key);
        } else {
            assert(key == own);
        }
    }
}

/// The tree with all its parents open and nothing looked for: every tag once, each
/// before those below it. With any of the parents left out, some tag is.
pub proof fn all_parents_show_all(nodes: Seq<TagNode>, filter: Seq<char>, fewer: Seq<Seq<char>>)
    requires
        lines::trim(filter).len() == 0,
    ensures
        ({
            let n = nodes.len();
            let parents = tree::parents_to(nodes, n);
            let looked_for = letters::small(lines::trim(filter));
            let all = tree::rows_to(nodes, 0, parents, looked_for, n);
            &&& all == rows_of(preorder(nodes, 0, n), parents)
            &&& all.len() == node_count(nodes, n)
            &&& forall|key: Seq<char>| #[trigger]
                parents.contains(key) && !fewer.contains(key) ==> tree::rows_to(
                    nodes,
                    0,
                    fewer,
                    looked_for,
                    n,
                ).len() < all.len()
        }),
{
    let n = nodes.len();
    let parents = tree::parents_to(nodes, n);
    all_open_shows_all(nodes, 0, parents, n);
    assert forall|key: Seq<char>| #[trigger]
        parents.contains(key) && !fewer.contains(key) implies tree::rows_to(
        nodes,
        0,
        fewer,
        Seq::empty(),
        n,
    ).len() < node_count(nodes, n) by {
        one_shut_hides_some(nodes, 0, fewer, n, key);
    }
}

} // verus!
