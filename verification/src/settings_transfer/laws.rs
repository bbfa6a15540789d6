//! What the presets and the exports promise as a whole: what is written reads
//! back.
use crate::lines;
use crate::settings_transfer::book;
use crate::settings_transfer::export::{self, ExportModel};
use crate::settings_transfer::presets::{
    self, BookModel, PresetKind, PresetModel, Reading, Value, CHOSEN_KEY, KEYS_SETTING,
    PRESETS_MAGIC, PRESET_KEY, VALUE_KEY,
};
use crate::text;
use vstd::prelude::*;

verus! {

/// A name as [`book::save_as`] keeps it: with something in it, no white space
/// at its ends, and no break within.
pub open spec fn good_name(name: Seq<char>) -> bool {
    &&& name.len() > 0
    &&& !text::is_space(name[0])
    &&& !text::is_space(name.last())
    &&& forall|i: int| 0 <= i < name.len() ==> !lines::is_break(#[trigger] name[i])
}

/// A setting whose line can only be read as that setting.
pub open spec fn good_value(value: Value) -> bool {
    &&& !value.0.contains('\n')
    &&& !value.1.contains('\n')
    &&& !value.1.contains('\r')
    &&& forall|i: int| 0 <= i < value.0.len() ==> !text::has_at(value.0, i, VALUE_KEY@)
    &&& !CHOSEN_KEY@.is_prefix_of(presets::value_line(value))
    &&& !PRESET_KEY@.is_prefix_of(presets::value_line(value))
}

/// Presets that [`book::save_as`] makes, and chosen names that are theirs.
pub open spec fn good_book(book: BookModel) -> bool {
    &&& book.chosen.len() == 3
    &&& forall|i: int| 0 <= i < book.presets.len() ==> good_name((#[trigger] book.presets[i]).name)
    &&& forall|i: int, j: int|
        #![trigger book.presets[i].values[j]]
        0 <= i < book.presets.len() && 0 <= j < book.presets[i].values.len() ==> good_value(
            book.presets[i].values[j],
        )
    &&& forall|k: int|
        0 <= k < 3 && (#[trigger] book.chosen[k]) is Some ==> good_name(book.chosen[k]->0)
            && presets::preset_at(
            book.presets,
            presets::numbered(k),
            book.chosen[k]->0,
        ) is Some
}

proof fn name_is_spaced(name: Seq<char>)
    requires
        good_name(name),
    ensures
        lines::spaced(name) == name,
        lines::trim(name) == name,
        !name.contains('\n'),
        name.last() != '\r',
{
    assert(lines::spaced(name) =~= name);
    lines::trim_of_trimmed(name);
    assert(!lines::is_break(name[name.len() - 1]));
}

proof fn words_are_words(kind: PresetKind)
    ensures
        presets::meant(presets::word_of(kind)) == Some(kind),
        !presets::word_of(kind).contains('\t'),
        !presets::word_of(kind).contains('\n'),
{
    reveal_strlit("editor");
    reveal_strlit("terminal");
    reveal_strlit("keys");
    assert("editor"@.len() == 6 && "terminal"@.len() == 8 && "keys"@.len() == 4);
}

proof fn heading_reads(kind: PresetKind, name: Seq<char>)
    requires
        good_name(name),
    ensures
        presets::headed(presets::heading(kind, name)) == Some((kind, name)),
        !presets::heading(kind, name).contains('\n'),
        presets::heading(kind, name).len() > 0,
        presets::heading(kind, name).last() != '\r',
{
    name_is_spaced(name);
    words_are_words(kind);
    let word = presets::word_of(kind);
    let line = presets::heading(kind, name);
    let tab = seq!['\t'];
    let at = word.len() as int;
    assert(line.subrange(at, at + 1) =~= tab);
    assert forall|i: int| 0 <= i < at implies !text::has_at(line, i, tab) by {
        if text::has_at(line, i, tab) {
            assert(line.subrange(i, i + 1)[0] == '\t');
            assert(word[i] == '\t');
        }
    }
    lines::first_is_first(line, tab, 0, at);
    assert(line.take(at) =~= word);
    assert(line.skip(at + 1) =~= name);
    assert forall|i: int| 0 <= i < line.len() implies line[i] != '\n' by {
        if i < at {
            assert(word[i] != '\n');
        } else if i > at {
            assert(name[i - at - 1] != '\n');
        }
    }
}

proof fn keys_open_lines()
    ensures
        CHOSEN_KEY@.len() == 8 && PRESET_KEY@.len() == 8 && VALUE_KEY@.len() == 2,
        CHOSEN_KEY@[0] == 'c' && PRESET_KEY@[0] == 'p' && VALUE_KEY@[0] == ':' && VALUE_KEY@[1]
            == ' ',
        !CHOSEN_KEY@.contains('\n') && !PRESET_KEY@.contains('\n') && !VALUE_KEY@.contains('\n'),
        PRESETS_MAGIC@.len() == 18 && !PRESETS_MAGIC@.contains('\n') && PRESETS_MAGIC@.last() == '1'
            && PRESETS_MAGIC@[0] == 'R',
{
    reveal_strlit("chosen: ");
    reveal_strlit("preset: ");
    reveal_strlit(": ");
    reveal_strlit("RFN-EDIT-PRESETS 1");
}

proof fn prefix_of_sum(head: Seq<char>, tail: Seq<char>)
    ensures
        head.is_prefix_of(head + tail),
        (head + tail).skip(head.len() as int) == tail,
        lines::behind(head + tail, head) == Some(tail),
{
    assert((head + tail).skip(head.len() as int) =~= tail);
    assert((head + tail).subrange(0, head.len() as int) =~= head);
}

proof fn sum_has_no_break(one: Seq<char>, two: Seq<char>, mark: char)
    requires
        !one.contains(mark),
        !two.contains(mark),
    ensures
        !(one + two).contains(mark),
{
    assert forall|i: int| 0 <= i < (one + two).len() implies (one + two)[i] != mark by {
        if i < one.len() {
            assert(one[i] != mark);
        } else {
            assert(two[i - one.len()] != mark);
        }
    }
}

/// A chosen line reads as what it says.
proof fn chosen_line_reads(before: Reading, kind: PresetKind, name: Seq<char>)
    requires
        good_name(name),
    ensures
        ({
            let line = CHOSEN_KEY@ + presets::heading(kind, name);
            &&& presets::read_line(before, lines::without_returns(line)) == (Reading {
                chosen: before.chosen.update(presets::number_of(kind), Some(name)),
                open: false,
                ..before
            })
            &&& !line.contains('\n')
        }),
{
    heading_reads(kind, name);
    keys_open_lines();
    let head = presets::heading(kind, name);
    prefix_of_sum(CHOSEN_KEY@, head);
    sum_has_no_break(CHOSEN_KEY@, head, '\n');
    let line = CHOSEN_KEY@ + head;
    assert(line.last() == head.last());
    lines::no_returns_to_strip(line);
}

/// A heading opens its preset.
proof fn heading_line_reads(before: Reading, kind: PresetKind, name: Seq<char>)
    requires
        good_name(name),
    ensures
        ({
            let line = PRESET_KEY@ + presets::heading(kind, name);
            &&& presets::read_line(before, lines::without_returns(line)) == (Reading {
                presets: before.presets.push(PresetModel { kind, name, values: Seq::empty() }),
                open: true,
                ..before
            })
            &&& !line.contains('\n')
        }),
{
    heading_reads(kind, name);
    keys_open_lines();
    let head = presets::heading(kind, name);
    prefix_of_sum(PRESET_KEY@, head);
    sum_has_no_break(PRESET_KEY@, head, '\n');
    let line = PRESET_KEY@ + head;
    assert(line[0] == 'p');
    assert(!CHOSEN_KEY@.is_prefix_of(line)) by {
        if CHOSEN_KEY@.is_prefix_of(line) {
            assert(line.subrange(0, 8)[0] == CHOSEN_KEY@[0]);
        }
    }
    assert(line.last() == head.last());
    lines::no_returns_to_strip(line);
}

/// The line of a setting comes apart into the setting and its value.
proof fn value_line_cuts(value: Value)
    requires
        !value.0.contains('\n'),
        !value.1.contains('\n'),
        !value.1.contains('\r'),
        forall|i: int| 0 <= i < value.0.len() ==> !text::has_at(value.0, i, VALUE_KEY@),
    ensures
        ({
            let line = presets::value_line(value);
            &&& lines::cut(lines::without_returns(line), VALUE_KEY@) == Some(value)
            &&& lines::without_returns(line) == line
            &&& !line.contains('\n')
        }),
{
    keys_open_lines();
    lines::joined_keeps(value.1);
    let line = presets::value_line(value);
    let at = value.0.len() as int;
    sum_has_no_break(value.0, VALUE_KEY@, '\n');
    sum_has_no_break(value.0 + VALUE_KEY@, value.1, '\n');
    if value.1.len() == 0 {
        assert(line.last() == VALUE_KEY@[1]);
    } else {
        assert(line.last() == value.1[value.1.len() - 1]);
    }
    lines::no_returns_to_strip(line);
    assert(line.subrange(at, at + 2) =~= VALUE_KEY@);
    assert forall|i: int| 0 <= i < at implies !text::has_at(line, i, VALUE_KEY@) by {
        if text::has_at(line, i, VALUE_KEY@) {
            let part = line.subrange(i, i + 2);
            assert(part[0] == ':' && part[1] == ' ');
            assert(line[i + 1] == ' ');
            if i + 1 < at {
                assert(value.0.subrange(i, i + 2) =~= VALUE_KEY@);
                assert(text::has_at(value.0, i, VALUE_KEY@));
            } else {
                assert(line[at] == VALUE_KEY@[0]);
            }
        }
    }
    lines::first_is_first(line, VALUE_KEY@, 0, at);
    assert(line.take(at) =~= value.0);
    assert(line.skip(at + 2) =~= value.1);
}

proof fn value_line_reads(before: Reading, value: Value)
    requires
        good_value(value),
        before.open,
        before.presets.len() > 0,
    ensures
        ({
            let line = presets::value_line(value);
            let last = before.presets.last();
            presets::read_line(before, lines::without_returns(line)) == (Reading {
                presets: before.presets.update(
                    before.presets.len() - 1,
                    PresetModel { values: last.values.push(value), ..last },
                ),
                ..before
            })
        }),
{
    value_line_cuts(value);
}

proof fn chosen_lines_grow(chosen: Seq<Option<Seq<char>>>, k: int, n: int)
    requires
        0 <= k <= n,
    ensures
        presets::chosen_lines(chosen, k).len() <= presets::chosen_lines(chosen, n).len(),
        forall|i: int|
            0 <= i < presets::chosen_lines(chosen, k).len() ==> presets::chosen_lines(chosen, k)[i]
                == presets::chosen_lines(chosen, n)[i],
    decreases n - k,
{
    if k < n {
        chosen_lines_grow(chosen, k, n - 1);
    }
}

proof fn preset_lines_grow(held: Seq<PresetModel>, k: int, n: int)
    requires
        0 <= k <= n,
    ensures
        presets::all_preset_lines(held, k).len() <= presets::all_preset_lines(held, n).len(),
        forall|i: int|
            0 <= i < presets::all_preset_lines(held, k).len() ==> presets::all_preset_lines(
                held,
                k,
            )[i] == presets::all_preset_lines(held, n)[i],
    decreases n - k,
{
    if k < n {
        preset_lines_grow(held, k, n - 1);
    }
}

/// The file with any number of empty lines behind it.
pub open spec fn with_blanks(book: BookModel, blanks: nat) -> Seq<Seq<char>> {
    presets::book_lines(book) + Seq::new(blanks, |i: int| Seq::<char>::empty())
}

proof fn chosen_part_reads(book: BookModel, whole: Seq<Seq<char>>, k: int)
    requires
        good_book(book),
        0 <= k <= 3,
        whole.len() >= presets::book_lines(book).len(),
        forall|i: int|
            0 <= i < presets::book_lines(book).len() ==> whole[i] == presets::book_lines(book)[i],
    ensures
        presets::read_to(whole, (1 + presets::chosen_lines(book.chosen, k).len()) as int) == (Reading {
            presets: Seq::empty(),
            chosen: Seq::new(
                3,
                |i: int|
                    if i < k {
                        book.chosen[i]
                    } else {
                        None
                    },
            ),
            open: false,
        }),
    decreases k,
{
    let made = Seq::new(
        3,
        |i: int|
            if i < k {
                book.chosen[i]
            } else {
                None
            },
    );
    if k == 0 {
        assert(made =~= Seq::new(3, |i: int| None::<Seq<char>>));
    } else {
        chosen_part_reads(book, whole, k - 1);
        let before = presets::chosen_lines(book.chosen, k - 1);
        let n = 1 + before.len();
        let held = presets::read_to(whole, n as int);
        match book.chosen[k - 1] {
            None => {
                assert(made =~= held.chosen);
            },
            Some(name) => {
                chosen_lines_grow(book.chosen, k, 3);
                let line = CHOSEN_KEY@ + presets::heading(presets::numbered(k - 1), name);
                assert(presets::chosen_lines(book.chosen, k)[before.len() as int] == line);
                assert(presets::book_lines(book)[n as int] == line);
                chosen_line_reads(held, presets::numbered(k - 1), name);
                assert(presets::number_of(presets::numbered(k - 1)) == k - 1);
                assert(made =~= held.chosen.update(k - 1, Some(name)));
            },
        }
    }
}

proof fn values_read(book: BookModel, whole: Seq<Seq<char>>, k: int, j: int)
    requires
        good_book(book),
        0 <= k < book.presets.len(),
        0 <= j <= book.presets[k].values.len(),
        whole.len() >= presets::book_lines(book).len(),
        forall|i: int|
            0 <= i < presets::book_lines(book).len() ==> whole[i] == presets::book_lines(book)[i],
        ({
            let start = 1 + presets::chosen_lines(book.chosen, 3).len()
                + presets::all_preset_lines(book.presets, k).len();
            let read = presets::read_to(whole, start as int);
            read.presets == book.presets.take(k)
        }),
    ensures
        ({
            let start = 1 + presets::chosen_lines(book.chosen, 3).len()
                + presets::all_preset_lines(book.presets, k).len();
            let read = presets::read_to(whole, start as int);
            let preset = book.presets[k];
            presets::read_to(whole, (start + 1 + j) as int) == (Reading {
                presets: book.presets.take(k).push(
                    PresetModel { values: preset.values.take(j), ..preset },
                ),
                open: true,
                ..read
            })
        }),
    decreases j,
{
    let head = presets::chosen_lines(book.chosen, 3).len();
    let before = presets::all_preset_lines(book.presets, k);
    let start = 1 + head + before.len();
    let preset = book.presets[k];
    let listed = presets::preset_lines(preset);
    preset_lines_grow(book.presets, k + 1, book.presets.len() as int);
    let all = presets::all_preset_lines(book.presets, book.presets.len() as int);
    let next = presets::all_preset_lines(book.presets, k + 1);
    assert(next[before.len() + j] == listed[j]);
    assert(all[before.len() + j] == listed[j]);
    assert(presets::book_lines(book)[(start + j) as int] == listed[j]);
    assert(good_name(preset.name));
    if j == 0 {
        let read = presets::read_to(whole, start as int);
        heading_line_reads(read, preset.kind, preset.name);
        assert(preset.values.take(0) =~= Seq::empty());
    } else {
        values_read(book, whole, k, j - 1);
        let read = presets::read_to(whole, (start + j) as int);
        let value = book.presets[k].values[j - 1];
        assert(listed[j] == presets::value_line(value));
        value_line_reads(read, value);
        assert(preset.values.take(j) =~= preset.values.take(j - 1).push(value));
        let after = PresetModel { values: preset.values.take(j), ..preset };
        assert(read.presets.update(k, after) =~= book.presets.take(k).push(after));
    }
}

proof fn presets_read(book: BookModel, whole: Seq<Seq<char>>, k: int)
    requires
        good_book(book),
        0 <= k <= book.presets.len(),
        whole.len() >= presets::book_lines(book).len(),
        forall|i: int|
            0 <= i < presets::book_lines(book).len() ==> whole[i] == presets::book_lines(book)[i],
    ensures
        ({
            let n = 1 + presets::chosen_lines(book.chosen, 3).len()
                + presets::all_preset_lines(book.presets, k).len();
            let read = presets::read_to(whole, n as int);
            read.presets == book.presets.take(k) && read.chosen == book.chosen
        }),
    decreases k,
{
    if k == 0 {
        chosen_part_reads(book, whole, 3);
        assert(book.presets.take(0) =~= Seq::empty());
        let made = Seq::new(
            3,
            |i: int|
                if i < 3 {
                    book.chosen[i]
                } else {
                    None
                },
        );
        assert(made =~= book.chosen);
    } else {
        presets_read(book, whole, k - 1);
        let preset = book.presets[k - 1];
        values_read(book, whole, k - 1, preset.values.len() as int);
        assert(preset.values.take(preset.values.len() as int) =~= preset.values);
        assert(book.presets.take(k - 1).push(preset) =~= book.presets.take(k));
    }
}

proof fn blanks_read(book: BookModel, whole: Seq<Seq<char>>, n: int)
    requires
        good_book(book),
        presets::book_lines(book).len() <= n <= whole.len(),
        forall|i: int|
            0 <= i < presets::book_lines(book).len() ==> whole[i] == presets::book_lines(book)[i],
        forall|i: int|
            presets::book_lines(book).len() <= i < whole.len() ==> (#[trigger] whole[i]).len() == 0,
    ensures
        presets::read_to(whole, n).presets == book.presets,
        presets::read_to(whole, n).chosen == book.chosen,
    decreases n,
{
    if n == presets::book_lines(book).len() {
        presets_read(book, whole, book.presets.len() as int);
        assert(book.presets.take(book.presets.len() as int) =~= book.presets);
    } else {
        blanks_read(book, whole, n - 1);
        keys_open_lines();
        assert(whole[n - 1].len() == 0);
    }
}

proof fn chosen_lines_have_no_breaks(book: BookModel, k: int)
    requires
        good_book(book),
        0 <= k <= 3,
    ensures
        forall|i: int|
            0 <= i < presets::chosen_lines(book.chosen, k).len() ==> !(
            #[trigger] presets::chosen_lines(book.chosen, k)[i]).contains('\n'),
    decreases k,
{
    if k > 0 {
        chosen_lines_have_no_breaks(book, k - 1);
        if let Some(name) = book.chosen[k - 1] {
            let none = Reading { presets: Seq::empty(), chosen: book.chosen, open: false };
            chosen_line_reads(none, presets::numbered(k - 1), name);
        }
        let before = presets::chosen_lines(book.chosen, k - 1);
        let all = presets::chosen_lines(book.chosen, k);
        assert forall|i: int| 0 <= i < all.len() implies !(#[trigger] all[i]).contains('\n') by {
            if i < before.len() {
                assert(all[i] == before[i]);
            }
        }
    }
}

proof fn preset_lines_have_no_breaks(book: BookModel, k: int)
    requires
        good_book(book),
        0 <= k <= book.presets.len(),
    ensures
        forall|i: int|
            0 <= i < presets::all_preset_lines(book.presets, k).len() ==> !(
            #[trigger] presets::all_preset_lines(book.presets, k)[i]).contains('\n'),
    decreases k,
{
    if k > 0 {
        preset_lines_have_no_breaks(book, k - 1);
        let preset = book.presets[k - 1];
        let listed = presets::preset_lines(preset);
        let none = Reading { presets: Seq::empty(), chosen: book.chosen, open: false };
        assert(good_name(preset.name));
        heading_line_reads(none, preset.kind, preset.name);
        let all = presets::all_preset_lines(book.presets, k);
        let before = presets::all_preset_lines(book.presets, k - 1);
        assert forall|i: int| 0 <= i < all.len() implies !(#[trigger] all[i]).contains('\n') by {
            if i < before.len() {
                assert(all[i] == before[i]);
            } else {
                let j = i - before.len();
                assert(all[i] == listed[j]);
                if j > 0 {
                    let value = book.presets[k - 1].values[j - 1];
                    assert(listed[j] == presets::value_line(value));
                    value_line_cuts(value);
                }
            }
        }
    }
}

proof fn book_lines_have_no_breaks(book: BookModel, blanks: nat)
    requires
        good_book(book),
    ensures
        forall|i: int|
            0 <= i < with_blanks(book, blanks).len() ==> !(
            #[trigger] with_blanks(book, blanks)[i]).contains('\n'),
{
    chosen_lines_have_no_breaks(book, 3);
    preset_lines_have_no_breaks(book, book.presets.len() as int);
    keys_open_lines();
    let whole = with_blanks(book, blanks);
    let head = presets::chosen_lines(book.chosen, 3);
    let rest = presets::all_preset_lines(book.presets, book.presets.len() as int);
    assert forall|i: int| 0 <= i < whole.len() implies !(#[trigger] whole[i]).contains('\n') by {
        if i == 0 {
            assert(whole[i] == PRESETS_MAGIC@);
        } else if i < 1 + head.len() {
            assert(whole[i] == head[i - 1]);
        } else if i < 1 + head.len() + rest.len() {
            assert(whole[i] == rest[i - 1 - head.len()]);
        } else {
            assert(whole[i] =~= Seq::empty());
        }
    }
}

/// Presets come back as they were written, whatever empty lines were added
/// behind them.
pub proof fn presets_come_back(book: BookModel, blanks: nat)
    requires
        good_book(book),
    ensures
        presets::decoded(lines::flat(with_blanks(book, blanks))) == Some(book),
{
    let written = with_blanks(book, blanks);
    book_lines_have_no_breaks(book, blanks);
    lines::flat_splits(written);
    let whole = written.push(Seq::empty());
    keys_open_lines();
    lines::no_returns_to_strip(PRESETS_MAGIC@);
    assert(whole[0] == PRESETS_MAGIC@);
    assert forall|i: int| 0 <= i < presets::book_lines(book).len() implies whole[i]
        == presets::book_lines(book)[i] by {}
    blanks_read(book, whole, whole.len() as int);
    assert(presets::still_there(book.presets, book.chosen) =~= book.chosen);
}

/// The file of presets that is written reads back as it was.
pub proof fn a_book_comes_back(book: BookModel)
    requires
        good_book(book),
    ensures
        presets::decoded(lines::flat(presets::book_lines(book))) == Some(book),
{
    presets_come_back(book, 0);
    assert(with_blanks(book, 0) =~= presets::book_lines(book));
}

/// A setting whose line reads as that setting.
pub open spec fn plain_value(value: Value) -> bool {
    &&& !value.0.contains('\n')
    &&& !value.1.contains('\n')
    &&& !value.1.contains('\r')
    &&& forall|i: int| 0 <= i < value.0.len() ==> !text::has_at(value.0, i, VALUE_KEY@)
}

proof fn settings_read(values: Seq<Value>, whole: Seq<Seq<char>>, n: int)
    requires
        forall|i: int| 0 <= i < values.len() ==> plain_value(#[trigger] values[i]),
        1 <= n <= whole.len(),
        whole.len() > values.len(),
        forall|i: int|
            0 <= i < values.len() ==> whole[i + 1] == presets::value_line(#[trigger] values[i]),
        forall|i: int| values.len() < i < whole.len() ==> (#[trigger] whole[i]).len() == 0,
    ensures
        export::settings_to(whole, n) == values.take(
            if n - 1 < values.len() {
                n - 1
            } else {
                values.len() as int
            },
        ),
    decreases n,
{
    if n <= 1 {
        assert(values.take(0) =~= Seq::empty());
    } else {
        settings_read(values, whole, n - 1);
        if n - 1 <= values.len() {
            let value = values[n - 2];
            assert(plain_value(value));
            value_line_cuts(value);
            assert(whole[n - 1] == presets::value_line(value));
            assert(values.take(n - 2).push(value) =~= values.take(n - 1));
        } else {
            keys_open_lines();
            assert(whole[n - 1].len() == 0);
        }
    }
}

proof fn settings_lines_have_no_breaks(values: Seq<Value>)
    requires
        forall|i: int| 0 <= i < values.len() ==> plain_value(#[trigger] values[i]),
    ensures
        forall|i: int|
            0 <= i < export::settings_lines(values).len() ==> !(
            #[trigger] export::settings_lines(values)[i]).contains('\n'),
        export::SETTINGS_MAGIC@.last() == '1' && export::SETTINGS_MAGIC@.len() == 19
            && export::SETTINGS_MAGIC@[0] == 'R',
{
    reveal_strlit("RFN-EDIT-SETTINGS 1");
    let whole = export::settings_lines(values);
    assert forall|i: int| 0 <= i < whole.len() implies !(#[trigger] whole[i]).contains('\n') by {
        if i > 0 {
            let value = values[i - 1];
            assert(plain_value(value));
            value_line_cuts(value);
        }
    }
}

/// Settings come back as they were written.
pub proof fn settings_come_back(values: Seq<Value>)
    requires
        forall|i: int| 0 <= i < values.len() ==> plain_value(#[trigger] values[i]),
    ensures
        export::settings_decoded(lines::flat(export::settings_lines(values))) == Some(values),
{
    let written = export::settings_lines(values);
    settings_lines_have_no_breaks(values);
    lines::flat_splits(written);
    let whole = written.push(Seq::empty());
    lines::no_returns_to_strip(export::SETTINGS_MAGIC@);
    settings_read(values, whole, whole.len() as int);
    assert(values.take(values.len() as int) =~= values);
}

/// Values that are kept under a name are found under it, and are what is shown
/// for the page.
pub proof fn kept_values_are_found(
    held: Seq<PresetModel>,
    kind: PresetKind,
    name: Seq<char>,
    values: Seq<Value>,
)
    ensures
        ({
            let after = book::with_preset(held, kind, name, values);
            let at = presets::preset_at(after, kind, name);
            &&& at is Some
            &&& after[at->0].kind == kind && after[at->0].name == name && after[at->0].values
                == values
            &&& book::shown(after, Some(name), kind, book::as_map(values)) == (name, false)
        }),
{
    let after = book::with_preset(held, kind, name, values);
    presets::preset_holds(held, kind, name, held.len() as int);
    presets::preset_holds(after, kind, name, after.len() as int);
    match presets::preset_at(held, kind, name) {
        Some(at) => {
            assert(after[at].kind == kind && after[at].name == name);
            same_presets_before(held, after, kind, name, at);
            first_stays(held, kind, name, at);
            presets::preset_found(after, kind, name, at, after.len() as int);
        },
        None => {
            same_presets_before(held, after, kind, name, held.len() as int);
            presets::preset_found(after, kind, name, held.len() as int, after.len() as int);
        },
    }
}

proof fn same_presets_before(
    one: Seq<PresetModel>,
    two: Seq<PresetModel>,
    kind: PresetKind,
    name: Seq<char>,
    n: int,
)
    requires
        0 <= n <= one.len(),
        n <= two.len(),
        forall|i: int| 0 <= i < n ==> one[i] == two[i],
    ensures
        presets::preset_among(one, kind, name, n) == presets::preset_among(two, kind, name, n),
    decreases n,
{
    if n > 0 {
        same_presets_before(one, two, kind, name, n - 1);
    }
}

proof fn first_stays(held: Seq<PresetModel>, kind: PresetKind, name: Seq<char>, at: int)
    requires
        presets::preset_at(held, kind, name) == Some(at),
    ensures
        0 <= at < held.len(),
        presets::preset_among(held, kind, name, at) is None,
{
    presets::preset_holds(held, kind, name, held.len() as int);
    if presets::preset_among(held, kind, name, at) is Some {
        presets::preset_holds(held, kind, name, at);
        let early = presets::preset_among(held, kind, name, at)->0;
        still_first(held, kind, name, at, held.len() as int);
    }
}

proof fn still_first(held: Seq<PresetModel>, kind: PresetKind, name: Seq<char>, at: int, n: int)
    requires
        0 <= at <= n <= held.len(),
        presets::preset_among(held, kind, name, at) is Some,
    ensures
        presets::preset_among(held, kind, name, n) == presets::preset_among(held, kind, name, at),
    decreases n - at,
{
    if at < n {
        still_first(held, kind, name, at, n - 1);
    }
}

/// A preset that is dropped is gone, and no other is.
pub proof fn a_dropped_preset_is_gone(
    held: Seq<PresetModel>,
    kind: PresetKind,
    name: Seq<char>,
)
    ensures
        presets::preset_at(book::without_preset(held, kind, name), kind, name) is None,
        forall|preset: PresetModel|
            held.contains(preset) && !(preset.kind == kind && preset.name == name)
                ==> #[trigger] book::without_preset(held, kind, name).contains(preset),
    decreases held.len(),
{
    let after = book::without_preset(held, kind, name);
    if held.len() > 0 {
        let less = held.drop_last();
        let before = book::without_preset(less, kind, name);
        a_dropped_preset_is_gone(less, kind, name);
        if !(held.last().kind == kind && held.last().name == name) {
            same_presets_before(before, after, kind, name, before.len() as int);
        }
        assert forall|preset: PresetModel|
            held.contains(preset) && !(preset.kind == kind && preset.name == name) implies
            #[trigger] after.contains(preset) by {
            let i = choose|i: int| 0 <= i < held.len() && held[i] == preset;
            if i < less.len() {
                assert(less[i] == preset);
                assert(less.contains(preset));
                assert(before.contains(preset));
                let j = choose|j: int| 0 <= j < before.len() && before[j] == preset;
                assert(after[j] == preset);
            } else {
                assert(after[after.len() - 1] == preset);
            }
        }
    }
}

/// The lines of a text that ends with a line break.
pub open spec fn lines_of(text: Seq<char>) -> Seq<Seq<char>> {
    lines::split(text, '\n').drop_last()
}

proof fn split_joins(text: Seq<char>)
    ensures
        lines::flat(lines_of(text)) + lines::split(text, '\n').last() == text,
        lines::split(text, '\n').len() > 0,
        forall|i: int|
            0 <= i < lines::split(text, '\n').len() ==> !(
            #[trigger] lines::split(text, '\n')[i]).contains('\n'),
    decreases text.len(),
{
    let parts = lines::split(text, '\n');
    if text.len() == 0 {
        assert(parts.drop_last() =~= Seq::empty());
        assert(lines::flat(parts.drop_last()) + parts.last() =~= text);
    } else {
        let less = text.drop_last();
        split_joins(less);
        let before = lines::split(less, '\n');
        if text.last() == '\n' {
            assert(parts.drop_last() =~= before);
            assert(before =~= before.drop_last().push(before.last()));
            assert(lines::flat(before) =~= (lines::flat(before.drop_last()) + before.last()).push(
                '\n',
            ));
            assert(text =~= less.push('\n'));
            assert(lines::flat(parts.drop_last()) + parts.last() =~= text);
        } else {
            assert(parts.drop_last() =~= before.drop_last());
            assert(text =~= less.push(text.last()));
            assert(lines::flat(parts.drop_last()) + parts.last() =~= text);
            assert forall|i: int| 0 <= i < parts.len() implies !(#[trigger] parts[i]).contains(
                '\n',
            ) by {
                if i == parts.len() - 1 {
                    let c = text.last();
                    assert forall|j: int| 0 <= j < parts[i].len() implies parts[i][j] != '\n' by {
                        if j < before.last().len() {
                            assert(before[before.len() - 1][j] != '\n');
                        }
                    }
                } else {
                    assert(parts[i] == before[i]);
                }
            }
        }
    }
}

/// A line that begins no part.
pub open spec fn no_section(line: Seq<char>) -> bool {
    !export::SECTION@.is_prefix_of(line)
}

proof fn body_grows(whole: Seq<Seq<char>>, from: int, to: int)
    requires
        1 <= from <= to <= whole.len(),
        export::parts_to(whole, from).len() > 0,
        forall|i: int| from <= i < to ==> no_section(#[trigger] whole[i]),
    ensures
        ({
            let before = export::parts_to(whole, from);
            export::parts_to(whole, to) == before.update(
                before.len() - 1,
                (before.last().0, before.last().1 + lines::flat(whole.subrange(from, to))),
            )
        }),
    decreases to - from,
{
    let before = export::parts_to(whole, from);
    if from == to {
        assert(whole.subrange(from, to) =~= Seq::empty());
        assert(before.last().1 + lines::flat(whole.subrange(from, to)) =~= before.last().1);
        assert(before.update(
            before.len() - 1,
            (before.last().0, before.last().1 + lines::flat(whole.subrange(from, to))),
        ) =~= before);
    } else {
        body_grows(whole, from, to - 1);
        assert(no_section(whole[to - 1]));
        let part = whole.subrange(from, to);
        assert(part.drop_last() =~= whole.subrange(from, to - 1));
        assert(part.last() == whole[to - 1]);
        let last = before.last().1;
        assert((last + lines::flat(part.drop_last()) + part.last()).push('\n') =~= last
            + lines::flat(part));
        assert(export::parts_to(whole, to) =~= before.update(
            before.len() - 1,
            (before.last().0, last + lines::flat(part)),
        ));
    }
}

proof fn section_opens(whole: Seq<Seq<char>>, n: int, name: Seq<char>)
    requires
        1 <= n < whole.len(),
        whole[n] == export::section(name),
        name.len() > 0,
        !text::is_space(name[0]) && !text::is_space(name.last()),
    ensures
        export::parts_to(whole, n + 1) == export::parts_to(whole, n).push((name, Seq::empty())),
{
    prefix_of_sum(export::SECTION@, name);
    lines::trim_of_trimmed(name);
}

proof fn section_names()
    ensures
        export::SECTION@.len() == 19 && export::SECTION@[0] == '@' && !export::SECTION@.contains(
            '\n',
        ) && !export::SECTION@.contains('\r'),
        export::EXPORT_MAGIC@.len() == 17 && !export::EXPORT_MAGIC@.contains('\n')
            && !export::EXPORT_MAGIC@.contains('\r') && export::EXPORT_MAGIC@[0] == 'R',
        "settings"@.len() == 8 && "settings"@[0] == 's' && "settings"@.last() == 's',
        "keys"@.len() == 4 && "keys"@[0] == 'k' && "keys"@.last() == 's',
        "presets"@.len() == 7 && "presets"@[0] == 'p' && "presets"@.last() == 's',
        "words"@.len() == 5 && "words"@[0] == 'w' && "words"@.last() == 's',
        !"settings"@.contains('\n') && !"keys"@.contains('\n') && !"presets"@.contains('\n')
            && !"words"@.contains('\n'),
        KEYS_SETTING@.len() == 17 && KEYS_SETTING@[0] == 's' && !KEYS_SETTING@.contains('\n'),
{
    reveal_strlit("@@RFN-EDIT-SECTION ");
    reveal_strlit("RFN-EDIT-EXPORT 1");
    reveal_strlit("settings");
    reveal_strlit("keys");
    reveal_strlit("presets");
    reveal_strlit("words");
    reveal_strlit("shortcut-bindings");
}

/// A setting that begins no part either.
pub open spec fn movable(value: Value) -> bool {
    plain_value(value) && (value.0.len() == 0 || value.0[0] != '@')
}

/// An export that carries what the editor makes: settings, keys and presets
/// that can be read back, and word sets of lines that begin no part. No
/// carriage return stands in it.
pub open spec fn good_export(export: ExportModel) -> bool {
    &&& forall|i: int| 0 <= i < export.settings.len() ==> movable(#[trigger] export.settings[i])
    &&& export.keys is Some ==> !export.keys->0.contains('\n') && !export.keys->0.contains('\r')
    &&& good_book(export.presets)
    &&& forall|i: int, j: int|
        #![trigger export.presets.presets[i].values[j]]
        0 <= i < export.presets.presets.len() && 0 <= j < export.presets.presets[i].values.len()
            ==> movable(export.presets.presets[i].values[j])
    &&& export.words is Some ==> forall|i: int|
        0 <= i < lines_of(export::ended(export.words->0)).len() ==> no_section(
            #[trigger] lines_of(export::ended(export.words->0))[i],
        )
    &&& !export::exported(export).contains('\r')
}

/// The lines of the keys.
spec fn keys_line(keys: Seq<char>) -> Seq<char> {
    KEYS_SETTING@ + VALUE_KEY@ + lines::joined(keys)
}

/// The lines of an export, part by part.
spec fn settings_part(export: ExportModel) -> Seq<Seq<char>> {
    seq![export::EXPORT_MAGIC@, export::section("settings"@)] + export::settings_lines(
        export.settings,
    )
}

spec fn keys_part(export: ExportModel) -> Seq<Seq<char>> {
    match export.keys {
        Some(keys) => seq![export::section("keys"@), keys_line(keys)],
        None => Seq::empty(),
    }
}

spec fn presets_part(export: ExportModel) -> Seq<Seq<char>> {
    seq![export::section("presets"@)] + presets::book_lines(export.presets)
}

spec fn words_part(export: ExportModel) -> Seq<Seq<char>> {
    match export.words {
        Some(words) => seq![export::section("words"@)] + lines_of(export::ended(words)),
        None => Seq::empty(),
    }
}

spec fn export_lines(export: ExportModel) -> Seq<Seq<char>> {
    settings_part(export) + keys_part(export) + presets_part(export) + words_part(export)
}

proof fn ended_splits(text: Seq<char>)
    ensures
        lines::flat(lines_of(export::ended(text))) == export::ended(text),
        forall|i: int|
            0 <= i < lines_of(export::ended(text)).len() ==> !(
            #[trigger] lines_of(export::ended(text))[i]).contains('\n'),
{
    let whole = export::ended(text);
    split_joins(whole);
    assert(whole.last() == '\n');
    let parts = lines::split(whole, '\n');
    assert(parts.last() =~= Seq::empty());
    assert(lines::flat(lines_of(whole)) + parts.last() =~= lines::flat(lines_of(whole)));
    assert forall|i: int| 0 <= i < lines_of(whole).len() implies !(
    #[trigger] lines_of(whole)[i]).contains('\n') by {
        assert(lines_of(whole)[i] == parts[i]);
    }
}

proof fn export_is_flat(export: ExportModel)
    ensures
        export::exported(export) == lines::flat(export_lines(export)),
{
    let a = settings_part(export);
    let b = keys_part(export);
    let c = presets_part(export);
    let d = words_part(export);
    lines::flat_adds(
        seq![export::EXPORT_MAGIC@, export::section("settings"@)],
        export::settings_lines(export.settings),
    );
    lines::flat_adds(seq![export::section("presets"@)], presets::book_lines(export.presets));
    lines::flat_adds(a + b + c, d);
    lines::flat_adds(a + b, c);
    lines::flat_adds(a, b);
    match export.words {
        Some(words) => {
            ended_splits(words);
            lines::flat_adds(seq![export::section("words"@)], lines_of(export::ended(words)));
        },
        None => {},
    }
    assert(lines::flat(Seq::<Seq<char>>::empty()) =~= Seq::<char>::empty());
}

proof fn export_lines_have_no_breaks(export: ExportModel)
    requires
        good_export(export),
    ensures
        forall|i: int|
            0 <= i < export_lines(export).len() ==> !(#[trigger] export_lines(export)[i]).contains(
                '\n',
            ),
{
    section_names();
    keys_open_lines();
    let a = settings_part(export);
    let b = keys_part(export);
    let c = presets_part(export);
    let d = words_part(export);
    sum_has_no_break(export::SECTION@, "settings"@, '\n');
    sum_has_no_break(export::SECTION@, "keys"@, '\n');
    sum_has_no_break(export::SECTION@, "presets"@, '\n');
    sum_has_no_break(export::SECTION@, "words"@, '\n');
    assert forall|i: int| 0 <= i < export.settings.len() implies plain_value(
        #[trigger] export.settings[i],
    ) by {
        assert(movable(export.settings[i]));
    }
    settings_lines_have_no_breaks(export.settings);
    book_lines_have_no_breaks(export.presets, 0);
    assert(with_blanks(export.presets, 0) =~= presets::book_lines(export.presets));
    if let Some(keys) = export.keys {
        lines::joined_has_no_breaks(keys);
        sum_has_no_break(KEYS_SETTING@, VALUE_KEY@, '\n');
        sum_has_no_break(KEYS_SETTING@ + VALUE_KEY@, lines::joined(keys), '\n');
    }
    if let Some(words) = export.words {
        ended_splits(words);
    }
    let whole = export_lines(export);
    assert forall|i: int| 0 <= i < whole.len() implies !(#[trigger] whole[i]).contains('\n') by {
        if i < a.len() {
            assert(whole[i] == a[i]);
            if i >= 2 {
                assert(a[i] == export::settings_lines(export.settings)[i - 2]);
            }
        } else if i < a.len() + b.len() {
            assert(whole[i] == b[i - a.len()]);
        } else if i < a.len() + b.len() + c.len() {
            let j = i - a.len() - b.len();
            assert(whole[i] == c[j]);
            if j >= 1 {
                assert(c[j] == presets::book_lines(export.presets)[j - 1]);
            }
        } else {
            let j = i - a.len() - b.len() - c.len();
            assert(whole[i] == d[j]);
            if j >= 1 {
                assert(d[j] == lines_of(export::ended(export.words->0))[j - 1]);
            }
        }
    }
}

proof fn plain_stays(text: Seq<char>)
    requires
        !text.contains('\r'),
    ensures
        export::plain_breaks(text) == text,
    decreases text.len(),
{
    if text.len() > 0 {
        let less = text.skip(1);
        assert(text[0] != '\r');
        assert forall|i: int| 0 <= i < less.len() implies less[i] != '\r' by {
            assert(text[i + 1] != '\r');
        }
        plain_stays(less);
        assert(seq![text[0]] + less =~= text);
    }
}

proof fn first_is_no_section(line: Seq<char>)
    requires
        line.len() == 0 || line[0] != '@',
    ensures
        no_section(line),
{
    section_names();
    if export::SECTION@.is_prefix_of(line) {
        assert(line.subrange(0, 19)[0] == export::SECTION@[0]);
    }
}

proof fn settings_begin_no_section(values: Seq<Value>)
    requires
        forall|i: int| 0 <= i < values.len() ==> movable(#[trigger] values[i]),
    ensures
        forall|i: int|
            0 <= i < export::settings_lines(values).len() ==> no_section(
                #[trigger] export::settings_lines(values)[i],
            ),
{
    reveal_strlit("RFN-EDIT-SETTINGS 1");
    keys_open_lines();
    let whole = export::settings_lines(values);
    assert forall|i: int| 0 <= i < whole.len() implies no_section(#[trigger] whole[i]) by {
        if i > 0 {
            assert(movable(values[i - 1]));
            assert(whole[i] == presets::value_line(values[i - 1]));
        }
        first_is_no_section(whole[i]);
    }
}

proof fn chosen_lines_begin(chosen: Seq<Option<Seq<char>>>, k: int)
    ensures
        forall|i: int|
            0 <= i < presets::chosen_lines(chosen, k).len() ==> (
            #[trigger] presets::chosen_lines(chosen, k)[i]).len() > 0
                && presets::chosen_lines(chosen, k)[i][0] == 'c',
    decreases k,
{
    keys_open_lines();
    if k > 0 {
        chosen_lines_begin(chosen, k - 1);
        let before = presets::chosen_lines(chosen, k - 1);
        let all = presets::chosen_lines(chosen, k);
        assert forall|i: int| 0 <= i < all.len() implies (#[trigger] all[i]).len() > 0
            && all[i][0] == 'c' by {
            if i < before.len() {
                assert(all[i] == before[i]);
            }
        }
    }
}

proof fn preset_lines_begin(book: BookModel, k: int)
    requires
        0 <= k <= book.presets.len(),
        forall|i: int, j: int|
            #![trigger book.presets[i].values[j]]
            0 <= i < book.presets.len() && 0 <= j < book.presets[i].values.len() ==> movable(
                book.presets[i].values[j],
            ),
    ensures
        forall|i: int|
            0 <= i < presets::all_preset_lines(book.presets, k).len() ==> no_section(
                #[trigger] presets::all_preset_lines(book.presets, k)[i],
            ),
    decreases k,
{
    keys_open_lines();
    if k > 0 {
        preset_lines_begin(book, k - 1);
        let before = presets::all_preset_lines(book.presets, k - 1);
        let all = presets::all_preset_lines(book.presets, k);
        let preset = book.presets[k - 1];
        let listed = presets::preset_lines(preset);
        assert forall|i: int| 0 <= i < all.len() implies no_section(#[trigger] all[i]) by {
            if i < before.len() {
                assert(all[i] == before[i]);
            } else {
                let j = i - before.len();
                assert(all[i] == listed[j]);
                if j > 0 {
                    let value = book.presets[k - 1].values[j - 1];
                    assert(listed[j] == presets::value_line(value));
                    assert(movable(value));
                }
                first_is_no_section(all[i]);
            }
        }
    }
}

proof fn book_begins_no_section(book: BookModel)
    requires
        forall|i: int, j: int|
            #![trigger book.presets[i].values[j]]
            0 <= i < book.presets.len() && 0 <= j < book.presets[i].values.len() ==> movable(
                book.presets[i].values[j],
            ),
    ensures
        forall|i: int|
            0 <= i < presets::book_lines(book).len() ==> no_section(
                #[trigger] presets::book_lines(book)[i],
            ),
{
    keys_open_lines();
    chosen_lines_begin(book.chosen, 3);
    preset_lines_begin(book, book.presets.len() as int);
    let whole = presets::book_lines(book);
    let head = presets::chosen_lines(book.chosen, 3);
    let rest = presets::all_preset_lines(book.presets, book.presets.len() as int);
    assert forall|i: int| 0 <= i < whole.len() implies no_section(#[trigger] whole[i]) by {
        if i == 0 {
            first_is_no_section(whole[i]);
        } else if i < 1 + head.len() {
            assert(whole[i] == head[i - 1]);
            first_is_no_section(whole[i]);
        } else {
            assert(whole[i] == rest[i - 1 - head.len()]);
        }
    }
}

/// What the word sets come back as: the lines they were, and an empty one where
/// they stood last.
pub open spec fn words_back(words: Option<Seq<char>>) -> Option<Seq<char>> {
    match words {
        Some(text) => Some(export::ended(text).push('\n')),
        None => None,
    }
}

/// The parts that an export is taken apart into.
spec fn parts_back(export: ExportModel) -> Seq<(Seq<char>, Seq<char>)> {
    let settings = seq![("settings"@, lines::flat(export::settings_lines(export.settings)))];
    let keys = match export.keys {
        Some(keys) => seq![("keys"@, keys_line(keys).push('\n'))],
        None => Seq::empty(),
    };
    let presets = lines::flat(presets::book_lines(export.presets));
    match export.words {
        Some(words) => settings + keys + seq![
            ("presets"@, presets),
            ("words"@, export::ended(words).push('\n')),
        ],
        None => settings + keys + seq![("presets"@, presets.push('\n'))],
    }
}

proof fn one_part(
    whole: Seq<Seq<char>>,
    start: int,
    name: Seq<char>,
    body: Seq<Seq<char>>,
)
    requires
        1 <= start,
        start + 1 + body.len() <= whole.len(),
        whole[start] == export::section(name),
        name.len() > 0,
        !text::is_space(name[0]) && !text::is_space(name.last()),
        whole.subrange(start + 1, start + 1 + body.len()) == body,
        forall|i: int| 0 <= i < body.len() ==> no_section(#[trigger] body[i]),
    ensures
        export::parts_to(whole, start + 1 + body.len()) == export::parts_to(whole, start).push(
            (name, lines::flat(body)),
        ),
{
    section_opens(whole, start, name);
    let from = start + 1;
    let to = start + 1 + body.len();
    assert forall|i: int| from <= i < to implies no_section(#[trigger] whole[i]) by {
        assert(whole.subrange(from, to)[i - from] == whole[i]);
        assert(no_section(body[i - from]));
    }
    body_grows(whole, from, to);
    let before = export::parts_to(whole, start);
    assert(Seq::<char>::empty() + lines::flat(body) =~= lines::flat(body));
    assert(export::parts_to(whole, to) =~= before.push((name, lines::flat(body))));
}

#[verifier::spinoff_prover]
#[verifier::rlimit(40)]
proof fn export_comes_apart(export: ExportModel)
    requires
        good_export(export),
    ensures
        export::parts_of(export::exported(export)) == Some(parts_back(export)),
{
    section_names();
    let a = settings_part(export);
    let b = keys_part(export);
    let c = presets_part(export);
    let d = words_part(export);
    let written = export_lines(export);
    let raw = export::exported(export);
    export_is_flat(export);
    export_lines_have_no_breaks(export);
    lines::flat_splits(written);
    plain_stays(raw);
    let whole = written.push(Seq::empty());
    assert(whole[0] == export::EXPORT_MAGIC@);
    assert(raw[0] == 'R') by {
        lines::flat_adds(written.take(1), written.skip(1));
        assert(written.take(1) + written.skip(1) =~= written);
        lines::flat_of_one(export::EXPORT_MAGIC@);
        assert(written.take(1) =~= seq![export::EXPORT_MAGIC@]);
    }
    assert(export::unmarked(raw) == raw);
    let settings = export::settings_lines(export.settings);
    settings_begin_no_section(export.settings);
    assert(whole.subrange(2, 2 + settings.len() as int) =~= settings);
    assert(whole[1] == export::section("settings"@));
    assert(export::parts_to(whole, 1) =~= Seq::empty());
    one_part(whole, 1, "settings"@, settings);
    let first = export::parts_to(whole, a.len() as int);
    assert(first =~= seq![("settings"@, lines::flat(settings))]);
    let mid = (a.len() + b.len()) as int;
    match export.keys {
        Some(keys) => {
            let body = seq![keys_line(keys)];
            assert(whole[a.len() as int] == b[0]);
            assert(whole[a.len() as int + 1] == b[1]);
            assert(whole.subrange(a.len() as int + 1, a.len() as int + 2) =~= body);
            first_is_no_section(keys_line(keys));
            one_part(whole, a.len() as int, "keys"@, body);
            lines::flat_of_one(keys_line(keys));
        },
        None => {},
    }
    let second = export::parts_to(whole, mid as int);
    let book = presets::book_lines(export.presets);
    book_begins_no_section(export.presets);
    assert(whole[mid as int] == c[0]);
    assert(whole.subrange(mid + 1, mid + 1 + book.len() as int) =~= book);
    one_part(whole, mid as int, "presets"@, book);
    let third = mid + c.len() as int;
    let empty = Seq::<char>::empty();
    first_is_no_section(empty);
    match export.words {
        Some(words) => {
            let body = lines_of(export::ended(words));
            ended_splits(words);
            assert(whole[third as int] == d[0]);
            assert(whole.subrange(third + 1, third + 1 + body.len() as int) =~= body);
            one_part(whole, third as int, "words"@, body);
            let end = third + d.len() as int;
            assert(whole[end as int] == empty);
            let held = export::parts_to(whole, end as int);
            assert((held.last().1 + empty).push('\n') =~= export::ended(words).push('\n'));
            assert(export::parts_to(whole, end + 1) =~= parts_back(export));
        },
        None => {
            let end = third;
            assert(whole[end as int] == empty);
            let held = export::parts_to(whole, end as int);
            assert((held.last().1 + empty).push('\n') =~= lines::flat(book).push('\n'));
            assert(export::parts_to(whole, end + 1) =~= parts_back(export));
        },
    }
}

proof fn keys_read(keys: Seq<char>)
    requires
        !keys.contains('\n'),
        !keys.contains('\r'),
    ensures
        lines::behind(
            export::first_line(keys_line(keys).push('\n')),
            KEYS_SETTING@ + VALUE_KEY@,
        ) == Some(keys),
{
    section_names();
    keys_open_lines();
    lines::joined_keeps(keys);
    let head = KEYS_SETTING@ + VALUE_KEY@;
    let line = keys_line(keys);
    sum_has_no_break(KEYS_SETTING@, VALUE_KEY@, '\n');
    sum_has_no_break(head, keys, '\n');
    let one = seq![line];
    lines::flat_of_one(line);
    lines::flat_splits(one);
    assert(lines::split(line.push('\n'), '\n')[0] == line);
    if keys.len() == 0 {
        assert(line.last() == VALUE_KEY@[1]);
    } else {
        assert(line.last() == keys[keys.len() - 1]);
    }
    prefix_of_sum(head, keys);
}

/// An export comes back whole: what was carried is what is read.
#[verifier::spinoff_prover]
#[verifier::rlimit(50)]
pub proof fn an_export_comes_back(export: ExportModel)
    requires
        good_export(export),
    ensures
        export::export_decoded(export::exported(export), true) == Some(
            ExportModel { words: words_back(export.words), ..export },
        ),
{
    export_comes_apart(export);
    section_names();
    let parts = parts_back(export);
    assert forall|i: int| 0 <= i < export.settings.len() implies plain_value(
        #[trigger] export.settings[i],
    ) by {
        assert(movable(export.settings[i]));
    }
    settings_come_back(export.settings);
    let none = export::empty_export();
    let one = ExportModel { settings: export.settings, ..none };
    assert(parts[0] == ("settings"@, lines::flat(export::settings_lines(export.settings))));
    assert(export::with_parts(parts, true, 0) == Some(none));
    assert(export::with_parts(parts, true, 1) == Some(one));
    let two = ExportModel { keys: export.keys, ..one };
    let mid = if export.keys is Some {
        2int
    } else {
        1int
    };
    if let Some(keys) = export.keys {
        keys_read(keys);
        assert(parts[1] == ("keys"@, keys_line(keys).push('\n')));
    }
    assert(export::with_parts(parts, true, mid) == Some(two));
    let three = ExportModel { presets: export.presets, ..two };
    let book = presets::book_lines(export.presets);
    presets_come_back(export.presets, 0);
    assert(with_blanks(export.presets, 0) =~= book);
    presets_come_back(export.presets, 1);
    let empty = Seq::<char>::empty();
    assert(with_blanks(export.presets, 1) =~= book.push(empty));
    assert(book.push(empty).drop_last() =~= book);
    assert(lines::flat(book.push(empty)) =~= lines::flat(book).push('\n'));
    assert(parts[mid].0 == "presets"@);
    assert(export::with_parts(parts, true, mid + 1) == Some(three));
    if let Some(words) = export.words {
        assert(parts[mid + 1] == ("words"@, export::ended(words).push('\n')));
        let four = ExportModel { words: words_back(export.words), ..three };
        assert(export::with_parts(parts, true, mid + 2) == Some(four));
        assert(four == (ExportModel { words: words_back(export.words), ..export }));
    } else {
        assert(three == (ExportModel { words: words_back(export.words), ..export }));
    }
}

/// A part that cannot be read refuses the whole export, wherever it stands.
pub proof fn a_broken_part_refuses_all(
    parts: Seq<(Seq<char>, Seq<char>)>,
    words_read: bool,
    at: int,
)
    requires
        0 <= at < parts.len(),
        forall|before: ExportModel| (#[trigger] export::with_part(before, parts[at], words_read)) is None,
    ensures
        export::with_parts(parts, words_read, parts.len() as int) is None,
{
    broken_stays(parts, words_read, at, parts.len() as int);
}

proof fn broken_stays(
    parts: Seq<(Seq<char>, Seq<char>)>,
    words_read: bool,
    at: int,
    n: int,
)
    requires
        0 <= at < n <= parts.len(),
        forall|before: ExportModel| (#[trigger] export::with_part(before, parts[at], words_read)) is None,
    ensures
        export::with_parts(parts, words_read, n) is None,
    decreases n,
{
    if n > at + 1 {
        broken_stays(parts, words_read, at, n - 1);
    }
}

} // verus!
