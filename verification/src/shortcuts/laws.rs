//! What the keys promise as a whole.
use crate::letters;
use crate::lines;
use crate::shortcuts::actions::{
    self, ACTION_COUNT, BODY_COUNT, RESERVED, CalloutType, InsertEdit, InsertShape, LineNoteEdit,
    ShortcutAction,
};
use crate::shortcuts::bindings;
use crate::shortcuts::keys;
use crate::shortcuts::page::{self, ItemModel, Shown};
use crate::shortcuts::spelling::{self, Held};
use crate::numbers;
use crate::text;
use vstd::prelude::*;

verus! {

/// The place of an action of the menus.
pub open spec fn place_of(action: ShortcutAction) -> int {
    match action {
        ShortcutAction::NewFile => 46,
        ShortcutAction::NewTerminal => 47,
        ShortcutAction::FolderTerminal => 48,
        ShortcutAction::Insert(InsertShape::Edit(InsertEdit::MarkdownLink)) => 49,
        ShortcutAction::Insert(InsertShape::Edit(InsertEdit::WikiLink)) => 50,
        ShortcutAction::Insert(InsertShape::Edit(InsertEdit::WikiLinkAlias)) => 51,
        ShortcutAction::Insert(InsertShape::Edit(InsertEdit::Ruby)) => 52,
        ShortcutAction::Insert(InsertShape::Edit(InsertEdit::SideNote)) => 53,
        ShortcutAction::Insert(InsertShape::Edit(InsertEdit::RubyWithSideNote)) => 54,
        ShortcutAction::Insert(InsertShape::Edit(InsertEdit::EmphasisDots)) => 55,
        ShortcutAction::Insert(InsertShape::Edit(InsertEdit::SesameDotsNote)) => 56,
        ShortcutAction::Insert(InsertShape::Edit(InsertEdit::RoundDotsNote)) => 57,
        ShortcutAction::Insert(InsertShape::Edit(InsertEdit::WhiteRoundDotsNote)) => 58,
        ShortcutAction::Insert(InsertShape::Edit(InsertEdit::DoubleRoundDotsNote)) => 59,
        ShortcutAction::Insert(InsertShape::Edit(InsertEdit::CrossDotsNote)) => 60,
        ShortcutAction::Insert(InsertShape::Edit(InsertEdit::LineNote)) => 61,
        ShortcutAction::Insert(InsertShape::Edit(InsertEdit::DoubleLineNote)) => 62,
        ShortcutAction::Insert(InsertShape::Edit(InsertEdit::WaveLineNote)) => 63,
        ShortcutAction::Insert(InsertShape::Edit(InsertEdit::ChainLineNote)) => 64,
        ShortcutAction::Insert(InsertShape::Edit(InsertEdit::DashLineNote)) => 65,
        ShortcutAction::Insert(InsertShape::Edit(InsertEdit::Upright)) => 66,
        ShortcutAction::Insert(InsertShape::Edit(InsertEdit::Warichu)) => 67,
        ShortcutAction::Insert(InsertShape::Edit(InsertEdit::SmallText)) => 68,
        ShortcutAction::Insert(InsertShape::Edit(InsertEdit::LargeText)) => 69,
        ShortcutAction::Insert(InsertShape::Line(LineNoteEdit::Heading(1))) => 70,
        ShortcutAction::Insert(InsertShape::Line(LineNoteEdit::Heading(2))) => 71,
        ShortcutAction::Insert(InsertShape::Line(LineNoteEdit::Heading(3))) => 72,
        ShortcutAction::Insert(InsertShape::Line(LineNoteEdit::Heading(4))) => 73,
        ShortcutAction::Insert(InsertShape::Line(LineNoteEdit::Heading(5))) => 74,
        ShortcutAction::Insert(InsertShape::Line(LineNoteEdit::Heading(6))) => 75,
        ShortcutAction::Insert(InsertShape::Line(LineNoteEdit::NoHeading)) => 76,
        ShortcutAction::Insert(InsertShape::Line(LineNoteEdit::Indent(1))) => 77,
        ShortcutAction::Insert(InsertShape::Line(LineNoteEdit::Indent(2))) => 78,
        ShortcutAction::Insert(InsertShape::Line(LineNoteEdit::Indent(3))) => 79,
        ShortcutAction::Insert(InsertShape::Line(LineNoteEdit::Indent(4))) => 80,
        ShortcutAction::Insert(InsertShape::Line(LineNoteEdit::NoIndent)) => 81,
        ShortcutAction::Insert(InsertShape::Line(LineNoteEdit::AlignToEnd(0))) => 82,
        ShortcutAction::Insert(InsertShape::Line(LineNoteEdit::AlignToEnd(1))) => 83,
        ShortcutAction::Insert(InsertShape::Line(LineNoteEdit::AlignToEnd(2))) => 84,
        ShortcutAction::Insert(InsertShape::Line(LineNoteEdit::AlignToEnd(3))) => 85,
        ShortcutAction::Insert(InsertShape::Line(LineNoteEdit::AlignToEnd(4))) => 86,
        ShortcutAction::Insert(InsertShape::Line(LineNoteEdit::NoAlignToEnd)) => 87,
        ShortcutAction::Insert(InsertShape::PageBreak) => 88,
        ShortcutAction::Bullets(0) => 89,
        ShortcutAction::Bullets(1) => 90,
        ShortcutAction::Bullets(2) => 91,
        ShortcutAction::NumberedList => 92,
        ShortcutAction::Renumber => 93,
        ShortcutAction::Insert(InsertShape::Edit(InsertEdit::MarkdownImage)) => 94,
        ShortcutAction::Insert(InsertShape::Edit(InsertEdit::WikiImage)) => 95,
        ShortcutAction::Insert(InsertShape::Edit(InsertEdit::Highlight)) => 96,
        ShortcutAction::Insert(InsertShape::Edit(InsertEdit::Comment)) => 97,
        ShortcutAction::Insert(InsertShape::Edit(InsertEdit::Footnote)) => 98,
        ShortcutAction::Insert(InsertShape::Edit(InsertEdit::Callout(CalloutType::Note))) => 99,
        ShortcutAction::Insert(InsertShape::Edit(InsertEdit::Callout(CalloutType::Tip))) => 100,
        ShortcutAction::Insert(InsertShape::Edit(InsertEdit::Callout(CalloutType::Important))) => 101,
        ShortcutAction::Insert(InsertShape::Edit(InsertEdit::Callout(CalloutType::Warning))) => 102,
        ShortcutAction::Insert(InsertShape::Edit(InsertEdit::Callout(CalloutType::Caution))) => 103,
        ShortcutAction::Insert(InsertShape::Table) => 104,
        _ => -1,
    }
}

/// No two places hold the same action of the menus, so that each form can be
/// given a key, and only one.
pub proof fn every_menu_action_has_one_place(id: usize, other: usize)
    requires
        actions::menu_action(id) is Some,
        actions::menu_action(id) == actions::menu_action(other),
    ensures
        id == other,
        BODY_COUNT <= id < ACTION_COUNT,
{
    assert(place_of(actions::menu_action(id)->0) == id);
    assert(place_of(actions::menu_action(other)->0) == other);
}

/// The place of the action that starts with a key of this length and this end.
spec fn starts_with(length: int, end: char) -> int {
    if length == 6 && end == 'O' {
        0
    } else if length == 6 && end == 'S' {
        1
    } else if length == 12 && end == 'S' {
        2
    } else if length == 6 && end == 'W' {
        3
    } else if length == 6 && end == 'F' {
        4
    } else if length == 6 && end == 'H' {
        5
    } else if length == 6 && end == 'G' {
        6
    } else if length == 12 && end == 'T' {
        7
    } else if length == 6 && end == 'Z' {
        8
    } else if length == 6 && end == 'Y' {
        9
    } else if length == 8 && end == 'b' {
        11
    } else if length == 14 && end == 'b' {
        12
    } else if length == 13 && end == 't' {
        13
    } else if length == 14 && end == 't' {
        14
    } else if length == 11 && end == 'p' {
        15
    } else if length == 13 && end == 'n' {
        16
    } else if length == 6 && end == '`' {
        17
    } else if length == 8 && end == 't' {
        19
    } else if length == 9 && end == 't' {
        20
    } else if length == 6 && end == 'D' {
        21
    } else if length == 5 && end == 'F' {
        22
    } else if length == 5 && end == 'B' {
        23
    } else if length == 6 && end == 'K' {
        24
    } else if length == 10 && end == 'e' {
        25
    } else if length == 16 && end == 'e' {
        26
    } else if length == 5 && end == 'W' {
        27
    } else if length == 5 && end == 'X' {
        28
    } else if length == 5 && end == 'Y' {
        29
    } else if length == 11 && end == 'Y' {
        30
    } else if length == 11 && end == 'F' {
        31
    } else if length == 11 && end == 'B' {
        32
    } else if length == 12 && end == 'K' {
        33
    } else if length == 6 && end == 'p' {
        34
    } else if length == 8 && end == 'n' {
        35
    } else if length == 12 && end == 'p' {
        36
    } else if length == 14 && end == 'n' {
        37
    } else if length == 12 && end == 'C' {
        38
    } else if length == 6 && end == 'P' {
        45
    } else if length == 6 && end == 'N' {
        46
    } else {
        -1
    }
}

/// The keys that the actions start with differ in their length or their end.
proof fn first_keys_differ(id: usize)
    requires
        actions::first_key(id)@.len() > 0,
    ensures
        starts_with(actions::first_key(id)@.len() as int, actions::first_key(id)@.last()) == id,
{
    reveal_strlit("");
    if id == 0 {
        reveal_strlit("Ctrl+O");
        assert("Ctrl+O"@.len() == 6 && "Ctrl+O"@[5] == 'O');
    } else if id == 1 {
        reveal_strlit("Ctrl+S");
        assert("Ctrl+S"@.len() == 6 && "Ctrl+S"@[5] == 'S');
    } else if id == 2 {
        reveal_strlit("Ctrl+Shift+S");
        assert("Ctrl+Shift+S"@.len() == 12 && "Ctrl+Shift+S"@[11] == 'S');
    } else if id == 3 {
        reveal_strlit("Ctrl+W");
        assert("Ctrl+W"@.len() == 6 && "Ctrl+W"@[5] == 'W');
    } else if id == 4 {
        reveal_strlit("Ctrl+F");
        assert("Ctrl+F"@.len() == 6 && "Ctrl+F"@[5] == 'F');
    } else if id == 5 {
        reveal_strlit("Ctrl+H");
        assert("Ctrl+H"@.len() == 6 && "Ctrl+H"@[5] == 'H');
    } else if id == 6 {
        reveal_strlit("Ctrl+G");
        assert("Ctrl+G"@.len() == 6 && "Ctrl+G"@[5] == 'G');
    } else if id == 7 {
        reveal_strlit("Ctrl+Shift+T");
        assert("Ctrl+Shift+T"@.len() == 12 && "Ctrl+Shift+T"@[11] == 'T');
    } else if id == 8 {
        reveal_strlit("Ctrl+Z");
        assert("Ctrl+Z"@.len() == 6 && "Ctrl+Z"@[5] == 'Z');
    } else if id == 9 {
        reveal_strlit("Ctrl+Y");
        assert("Ctrl+Y"@.len() == 6 && "Ctrl+Y"@[5] == 'Y');
    } else if id == 11 {
        reveal_strlit("Ctrl+Tab");
        assert("Ctrl+Tab"@.len() == 8 && "Ctrl+Tab"@[7] == 'b');
    } else if id == 12 {
        reveal_strlit("Ctrl+Shift+Tab");
        assert("Ctrl+Shift+Tab"@.len() == 14 && "Ctrl+Shift+Tab"@[13] == 'b');
    } else if id == 13 {
        reveal_strlit("Ctrl+Alt+Left");
        assert("Ctrl+Alt+Left"@.len() == 13 && "Ctrl+Alt+Left"@[12] == 't');
    } else if id == 14 {
        reveal_strlit("Ctrl+Alt+Right");
        assert("Ctrl+Alt+Right"@.len() == 14 && "Ctrl+Alt+Right"@[13] == 't');
    } else if id == 15 {
        reveal_strlit("Ctrl+Alt+Up");
        assert("Ctrl+Alt+Up"@.len() == 11 && "Ctrl+Alt+Up"@[10] == 'p');
    } else if id == 16 {
        reveal_strlit("Ctrl+Alt+Down");
        assert("Ctrl+Alt+Down"@.len() == 13 && "Ctrl+Alt+Down"@[12] == 'n');
    } else if id == 17 {
        reveal_strlit("Ctrl+`");
        assert("Ctrl+`"@.len() == 6 && "Ctrl+`"@[5] == '`');
    } else if id == 19 {
        reveal_strlit("Alt+Left");
        assert("Alt+Left"@.len() == 8 && "Alt+Left"@[7] == 't');
    } else if id == 20 {
        reveal_strlit("Alt+Right");
        assert("Alt+Right"@.len() == 9 && "Alt+Right"@[8] == 't');
    } else if id == 21 {
        reveal_strlit("Ctrl+D");
        assert("Ctrl+D"@.len() == 6 && "Ctrl+D"@[5] == 'D');
    } else if id == 22 {
        reveal_strlit("Alt+F");
        assert("Alt+F"@.len() == 5 && "Alt+F"@[4] == 'F');
    } else if id == 23 {
        reveal_strlit("Alt+B");
        assert("Alt+B"@.len() == 5 && "Alt+B"@[4] == 'B');
    } else if id == 24 {
        reveal_strlit("Ctrl+K");
        assert("Ctrl+K"@.len() == 6 && "Ctrl+K"@[5] == 'K');
    } else if id == 25 {
        reveal_strlit("Ctrl+Space");
        assert("Ctrl+Space"@.len() == 10 && "Ctrl+Space"@[9] == 'e');
    } else if id == 26 {
        reveal_strlit("Ctrl+Shift+Space");
        assert("Ctrl+Shift+Space"@.len() == 16 && "Ctrl+Shift+Space"@[15] == 'e');
    } else if id == 27 {
        reveal_strlit("Alt+W");
        assert("Alt+W"@.len() == 5 && "Alt+W"@[4] == 'W');
    } else if id == 28 {
        reveal_strlit("Alt+X");
        assert("Alt+X"@.len() == 5 && "Alt+X"@[4] == 'X');
    } else if id == 29 {
        reveal_strlit("Alt+Y");
        assert("Alt+Y"@.len() == 5 && "Alt+Y"@[4] == 'Y');
    } else if id == 30 {
        reveal_strlit("Alt+Shift+Y");
        assert("Alt+Shift+Y"@.len() == 11 && "Alt+Shift+Y"@[10] == 'Y');
    } else if id == 31 {
        reveal_strlit("Alt+Shift+F");
        assert("Alt+Shift+F"@.len() == 11 && "Alt+Shift+F"@[10] == 'F');
    } else if id == 32 {
        reveal_strlit("Alt+Shift+B");
        assert("Alt+Shift+B"@.len() == 11 && "Alt+Shift+B"@[10] == 'B');
    } else if id == 33 {
        reveal_strlit("Ctrl+Shift+K");
        assert("Ctrl+Shift+K"@.len() == 12 && "Ctrl+Shift+K"@[11] == 'K');
    } else if id == 34 {
        reveal_strlit("Alt+Up");
        assert("Alt+Up"@.len() == 6 && "Alt+Up"@[5] == 'p');
    } else if id == 35 {
        reveal_strlit("Alt+Down");
        assert("Alt+Down"@.len() == 8 && "Alt+Down"@[7] == 'n');
    } else if id == 36 {
        reveal_strlit("Alt+Shift+Up");
        assert("Alt+Shift+Up"@.len() == 12 && "Alt+Shift+Up"@[11] == 'p');
    } else if id == 37 {
        reveal_strlit("Alt+Shift+Down");
        assert("Alt+Shift+Down"@.len() == 14 && "Alt+Shift+Down"@[13] == 'n');
    } else if id == 38 {
        reveal_strlit("Ctrl+Shift+C");
        assert("Ctrl+Shift+C"@.len() == 12 && "Ctrl+Shift+C"@[11] == 'C');
    } else if id == 45 {
        reveal_strlit("Ctrl+P");
        assert("Ctrl+P"@.len() == 6 && "Ctrl+P"@[5] == 'P');
    } else if id == 46 {
        reveal_strlit("Ctrl+N");
        assert("Ctrl+N"@.len() == 6 && "Ctrl+N"@[5] == 'N');
    }
}

/// What the keys that are spoken for end in.
proof fn taken_keys_end_so(key: Seq<char>)
    requires
        spelling::is_taken(key),
    ensures
        ({
            let (length, end) = (key.len(), key.last());
            ||| length == 6 && end == 'C'
            ||| length == 6 && end == 'X'
            ||| length == 6 && end == 'V'
            ||| length == 6 && end == 'A'
            ||| length == 12 && end == 'C'
            ||| length == 7 && end == 'b'
            ||| length == 13 && end == 'b'
            ||| length == 6 && end == '4'
            ||| length == 9 && end == 'e'
            ||| length == 2 && end == '3'
            ||| length == 8 && end == '3'
        }),
{
    reveal_strlit("Ctrl+C");
    assert("Ctrl+C"@.len() == 6 && "Ctrl+C"@[5] == 'C');
    reveal_strlit("Ctrl+X");
    assert("Ctrl+X"@.len() == 6 && "Ctrl+X"@[5] == 'X');
    reveal_strlit("Ctrl+V");
    assert("Ctrl+V"@.len() == 6 && "Ctrl+V"@[5] == 'V');
    reveal_strlit("Ctrl+A");
    assert("Ctrl+A"@.len() == 6 && "Ctrl+A"@[5] == 'A');
    reveal_strlit("Ctrl+Shift+C");
    assert("Ctrl+Shift+C"@.len() == 12 && "Ctrl+Shift+C"@[11] == 'C');
    reveal_strlit("Alt+Tab");
    assert("Alt+Tab"@.len() == 7 && "Alt+Tab"@[6] == 'b');
    reveal_strlit("Alt+Shift+Tab");
    assert("Alt+Shift+Tab"@.len() == 13 && "Alt+Shift+Tab"@[12] == 'b');
    reveal_strlit("Alt+F4");
    assert("Alt+F4"@.len() == 6 && "Alt+F4"@[5] == '4');
    reveal_strlit("Alt+Space");
    assert("Alt+Space"@.len() == 9 && "Alt+Space"@[8] == 'e');
    reveal_strlit("F3");
    assert("F3"@.len() == 2 && "F3"@[1] == '3');
    reveal_strlit("Shift+F3");
    assert("Shift+F3"@.len() == 8 && "Shift+F3"@[7] == '3');
}

/// A clash that is found is one.
proof fn a_clash_is_a_clash(held: Seq<Seq<char>>, i: int, key: Seq<char>, n: int)
    requires
        0 <= n <= held.len(),
    ensures
        match bindings::clash_among(held, i, key, n) {
            Some(other) => 0 <= other < n && other != i && key.len() > 0 && held[other] == key
                && actions::heard_in(other as usize) == actions::heard_in(i as usize),
            None => key.len() > 0 ==> forall|other: int|
                0 <= other < n && other != i && actions::heard_in(other as usize)
                    == actions::heard_in(i as usize) ==> #[trigger] held[other] != key,
        },
    decreases n,
{
    if n > 0 && key.len() > 0 {
        a_clash_is_a_clash(held, i, key, n - 1);
    }
}

/// The keys that the actions start with do not clash.
pub proof fn the_first_keys_do_not_clash()
    ensures
        !bindings::clashes(bindings::defaults()),
{
    let held = bindings::defaults();
    assert forall|i: int| 0 <= i < held.len() implies #[trigger] bindings::clash(
        held,
        i,
        held[i],
    ) is None by {
        a_clash_is_a_clash(held, i, held[i], held.len() as int);
        if let Some(other) = bindings::clash(held, i, held[i]) {
            first_keys_differ(i as usize);
            first_keys_differ(other as usize);
        }
    }
}

/// Whatever was saved, no two actions hear the same key in the same place.
pub proof fn no_key_has_two_actions(raw: Seq<char>, i: int, j: int)
    requires
        0 <= i < j < ACTION_COUNT,
        actions::heard_in(i as usize) == actions::heard_in(j as usize),
        bindings::bound(raw)[i].len() > 0,
    ensures
        bindings::bound(raw)[i] != bindings::bound(raw)[j],
{
    let held = bindings::bound(raw);
    the_first_keys_do_not_clash();
    read_keys_are_all(raw);
    assert(!bindings::clashes(held));
    assert(bindings::clash(held, i, held[i]) is None);
    a_clash_is_a_clash(held, i, held[i], held.len() as int);
}

proof fn entries_keep_the_count(entries: Seq<Seq<char>>, n: int)
    ensures
        bindings::with_entries(entries, n).len() == ACTION_COUNT,
    decreases n,
{
    if n > 0 {
        entries_keep_the_count(entries, n - 1);
        if let Some(both) = lines::cut(entries[n - 1], seq!['=']) {
            numbers::number_is_within(both.0, ACTION_COUNT - 1);
        }
    }
}

proof fn read_keys_are_all(raw: Seq<char>)
    ensures
        bindings::read_keys(raw).len() == ACTION_COUNT,
        bindings::bound(raw).len() == ACTION_COUNT,
{
    let entries = lines::split(raw, ';');
    entries_keep_the_count(entries, entries.len() as int);
}

proof fn heard_is_heard(held: Seq<Seq<char>>, scope: i32, key: Seq<char>, from: int)
    requires
        0 <= from <= held.len(),
    ensures
        match bindings::heard_at(held, scope, key, from) {
            Some(at) => from <= at < held.len() && held[at] == key && actions::heard_in(
                at as usize,
            ) == scope,
            None => forall|i: int|
                from <= i < held.len() && actions::heard_in(i as usize) == scope
                    ==> #[trigger] held[i] != key,
        },
    decreases held.len() - from,
{
    if from < held.len() {
        heard_is_heard(held, scope, key, from + 1);
    }
}

/// A key runs the action that has it, and no other; a key that an action
/// started with and lost runs nothing, and nobody else hears it.
pub proof fn a_key_runs_its_action(raw: Seq<char>, scope: i32, text: Seq<char>, held: Held, key: Seq<char>)
    requires
        !keys::is_modifier(text),
        spelling::pressed(text, held) == Some(key),
    ensures
        ({
            let run = bindings::resolved(raw, scope, text, held);
            &&& run >= 0 ==> run < ACTION_COUNT && bindings::bound(raw)[run] == key
                && actions::heard_in(run as usize) == scope
            &&& forall|i: int|
                0 <= i < ACTION_COUNT && actions::heard_in(i as usize) == scope && (
                #[trigger] bindings::bound(raw)[i]) == key && key.len() > 0 ==> run == i
            &&& run == -1 ==> forall|i: int|
                0 <= i < ACTION_COUNT && actions::heard_in(i as usize) == scope
                    ==> #[trigger] bindings::defaults()[i] != key
        }),
{
    read_keys_are_all(raw);
    let now = bindings::bound(raw);
    heard_is_heard(now, scope, key, 0);
    heard_is_heard(bindings::defaults(), scope, key, 0);
    let run = bindings::resolved(raw, scope, text, held);
    assert forall|i: int|
        0 <= i < ACTION_COUNT && actions::heard_in(i as usize) == scope && (#[trigger] now[i])
            == key && key.len() > 0 implies run == i by {
        if run < i {
            no_key_has_two_actions(raw, run, i);
        } else if run > i {
            no_key_has_two_actions(raw, i, run);
        }
    }
}

/// A text that ends open: whatever stands behind it is one more word.
spec fn opens(before: Seq<char>, words: Seq<Seq<char>>, mark: char) -> bool {
    forall|more: Seq<char>|
        !more.contains(mark) ==> #[trigger] lines::split(before + more, mark) == words.push(more)
}

proof fn nothing_opens(mark: char)
    ensures
        opens(Seq::empty(), Seq::empty(), mark),
{
    let none = Seq::<char>::empty();
    assert forall|more: Seq<char>| !more.contains(mark) implies #[trigger] lines::split(
        none + more,
        mark,
    ) == Seq::<Seq<char>>::empty().push(more) by {
        lines::split_grows(none, more, mark);
        assert(none + more =~= more);
        assert(lines::split(none + more, mark) =~= Seq::<Seq<char>>::empty().push(more));
    }
}

proof fn one_more_opens(before: Seq<char>, words: Seq<Seq<char>>, word: Seq<char>, mark: char)
    requires
        opens(before, words, mark),
        !word.contains(mark),
    ensures
        opens(before + word.push(mark), words.push(word), mark),
{
    let longer = before + word.push(mark);
    assert(longer.drop_last() =~= before + word);
    assert(longer.last() == mark);
    assert(lines::split(before + word, mark) == words.push(word));
    assert(lines::split(longer, mark) =~= words.push(word).push(Seq::empty()));
    assert forall|more: Seq<char>| !more.contains(mark) implies #[trigger] lines::split(
        longer + more,
        mark,
    ) == words.push(word).push(more) by {
        lines::split_grows(longer, more, mark);
        assert(Seq::<char>::empty() + more =~= more);
        assert(lines::split(longer + more, mark) =~= words.push(word).push(more));
    }
}

/// A key as it is spelt.
pub open spec fn is_spelling(key: Seq<char>) -> bool {
    ||| key.len() == 1 && keys::is_plain(key[0]) && keys::capital(key[0]) == key[0]
    ||| exists|number: int| 1 <= number <= 12 && key == #[trigger] keys::function_name(number)
    ||| key == "Tab"@
    ||| key == "Space"@
    ||| key == "`"@
    ||| key == "Left"@
    ||| key == "Right"@
    ||| key == "Up"@
    ||| key == "Down"@
}

proof fn capital_of_capital(c: char)
    ensures
        keys::capital(keys::capital(c)) == keys::capital(c),
{
}

proof fn spelt_keys_are_spellings(token: Seq<char>)
    ensures
        spelling::key_spelt(token) is Some ==> is_spelling(spelling::key_spelt(token)->0),
{
    let upper = keys::capitals(lines::trim(token));
    if upper.len() == 1 {
        capital_of_capital(lines::trim(token)[0]);
    }
    if spelling::is_function_name(upper) {
        let number = numbers::number_in(upper.skip(1), 12)->0;
        assert(1 <= number <= 12);
        assert(keys::function_name(number) == keys::function_name(number));
    }
}

/// What a spelling looks like: not empty, no white space at its ends, no plus,
/// no semicolon.
proof fn spellings_look_so(key: Seq<char>)
    requires
        is_spelling(key),
    ensures
        key.len() > 0,
        !text::is_space(key[0]) && !text::is_space(key.last()),
        !key.contains('+') && !key.contains(';'),
        !keys::capitals(key).contains('+'),
        spelling::key_spelt(keys::capitals(key)) == Some(key),
{
    reveal_strlit("Tab");
    reveal_strlit("TAB");
    reveal_strlit("Space");
    reveal_strlit("SPACE");
    reveal_strlit("`");
    reveal_strlit("Left");
    reveal_strlit("LEFT");
    reveal_strlit("Right");
    reveal_strlit("RIGHT");
    reveal_strlit("Up");
    reveal_strlit("UP");
    reveal_strlit("Down");
    reveal_strlit("DOWN");
    let upper = keys::capitals(key);
    if key.len() == 1 && keys::is_plain(key[0]) && keys::capital(key[0]) == key[0] {
        assert(upper =~= key);
        lines::trim_of_trimmed(key);
    } else if exists|number: int| 1 <= number <= 12 && key == #[trigger] keys::function_name(number) {
        let number = choose|number: int|
            1 <= number <= 12 && key == #[trigger] keys::function_name(number);
        let digits = text::decimal(number as nat);
        numbers::decimal_is_digits(number as nat);
        numbers::a_number_reads_back(number as nat, 12);
        assert(key.skip(1) =~= digits);
        assert forall|i: int| 0 <= i < key.len() implies key[i] == 'F' || numbers::is_digit(
            #[trigger] key[i],
        ) by {
            if i > 0 {
                assert(key[i] == digits[i - 1]);
            }
        }
        assert(upper =~= key);
        assert(numbers::is_digit(key[key.len() - 1]));
        lines::trim_of_trimmed(key);
    } else if key == "Tab"@ {
        assert(upper =~= "TAB"@);
        lines::trim_of_trimmed(upper);
        assert(keys::capitals(upper) =~= upper);
        assert(!numbers::is_digit(upper[1]));
    } else if key == "Space"@ {
        assert(upper =~= "SPACE"@);
        lines::trim_of_trimmed(upper);
        assert(keys::capitals(upper) =~= upper);
    } else if key == "`"@ {
        assert(upper =~= "`"@);
        lines::trim_of_trimmed(upper);
        assert(keys::capitals(upper) =~= upper);
    } else if key == "Left"@ {
        assert(upper =~= "LEFT"@);
        lines::trim_of_trimmed(upper);
        assert(keys::capitals(upper) =~= upper);
    } else if key == "Right"@ {
        assert(upper =~= "RIGHT"@);
        lines::trim_of_trimmed(upper);
        assert(keys::capitals(upper) =~= upper);
    } else if key == "Up"@ {
        assert(upper =~= "UP"@);
        lines::trim_of_trimmed(upper);
        assert(keys::capitals(upper) =~= upper);
    } else {
        assert(upper =~= "DOWN"@);
        lines::trim_of_trimmed(upper);
        assert(keys::capitals(upper) =~= upper);
    }
}

/// The modifiers of a spelling, as words.
spec fn words_before(held: Held) -> Seq<Seq<char>> {
    let control = if held.control {
        seq!["CTRL"@]
    } else {
        Seq::empty()
    };
    let alt = if held.alt {
        control.push("ALT"@)
    } else {
        control
    };
    if held.shift {
        alt.push("SHIFT"@)
    } else {
        alt
    }
}

/// The modifiers of a spelling, in capitals.
spec fn text_before(held: Held) -> Seq<char> {
    let control = if held.control {
        "CTRL"@.push('+')
    } else {
        Seq::empty()
    };
    let alt = if held.alt {
        control + "ALT"@.push('+')
    } else {
        control
    };
    if held.shift {
        alt + "SHIFT"@.push('+')
    } else {
        alt
    }
}

proof fn modifiers_open(held: Held)
    ensures
        opens(text_before(held), words_before(held), '+'),
        spelling::modifiers_in(words_before(held), words_before(held).len() as int) == Some(held),
{
    reveal_strlit("CTRL");
    reveal_strlit("ALT");
    reveal_strlit("SHIFT");
    let none = Seq::<char>::empty();
    let no_words = Seq::<Seq<char>>::empty();
    nothing_opens('+');
    let one = Held { control: held.control, alt: false, shift: false };
    let two = Held { control: held.control, alt: held.alt, shift: false };
    if held.control {
        one_more_opens(none, no_words, "CTRL"@, '+');
        assert(none + "CTRL"@.push('+') =~= "CTRL"@.push('+'));
        assert(no_words.push("CTRL"@) =~= seq!["CTRL"@]);
    }
    if held.alt {
        one_more_opens(text_before(one), words_before(one), "ALT"@, '+');
    }
    if held.shift {
        one_more_opens(text_before(two), words_before(two), "SHIFT"@, '+');
    }
    reveal_with_fuel(spelling::modifiers_in, 4);
    assert("CTRL"@.len() == 4 && "ALT"@.len() == 3 && "SHIFT"@.len() == 5);
}

proof fn capitals_of_spelling(held: Held, key: Seq<char>)
    ensures
        keys::capitals(spelling::spelt(held, key)) == text_before(held) + keys::capitals(key),
{
    reveal_strlit("CTRL");
    reveal_strlit("ALT");
    reveal_strlit("SHIFT");
    reveal_strlit("Ctrl+");
    reveal_strlit("Alt+");
    reveal_strlit("Shift+");
    reveal_strlit("");
    assert(keys::capitals("Ctrl+"@) =~= "CTRL"@.push('+'));
    assert(keys::capitals("Alt+"@) =~= "ALT"@.push('+'));
    assert(keys::capitals("Shift+"@) =~= "SHIFT"@.push('+'));
    let control = if held.control {
        "Ctrl+"@
    } else {
        ""@
    };
    let alt = if held.alt {
        "Alt+"@
    } else {
        ""@
    };
    let shift = if held.shift {
        "Shift+"@
    } else {
        ""@
    };
    capitals_add(control, alt);
    capitals_add(control + alt, shift);
    capitals_add(control + alt + shift, key);
    assert(keys::capitals(""@) =~= Seq::empty());
    assert(keys::capitals(control + alt + shift) =~= text_before(held));
}

proof fn capitals_add(one: Seq<char>, two: Seq<char>)
    ensures
        keys::capitals(one + two) == keys::capitals(one) + keys::capitals(two),
{
    assert(keys::capitals(one + two) =~= keys::capitals(one) + keys::capitals(two));
}

proof fn spelling_is_plain(held: Held, key: Seq<char>)
    requires
        is_spelling(key),
    ensures
        ({
            let whole = spelling::spelt(held, key);
            &&& whole.len() > 0
            &&& lines::trim(whole) == whole
            &&& !whole.contains(';')
        }),
{
    reveal_strlit("Ctrl+");
    reveal_strlit("Alt+");
    reveal_strlit("Shift+");
    reveal_strlit("");
    spellings_look_so(key);
    let whole = spelling::spelt(held, key);
    assert(whole.last() == key.last());
    assert(!text::is_space(whole[0]));
    lines::trim_of_trimmed(whole);
    let before = whole.len() - key.len();
    assert forall|i: int| 0 <= i < whole.len() implies whole[i] != ';' by {
        if i >= before {
            assert(whole[i] == key[i - before]);
        }
    }
}

/// A key that is spelt so is kept so, unless it is spoken for.
proof fn a_spelling_is_kept(held: Held, key: Seq<char>)
    requires
        is_spelling(key),
        spelling::may_be_given(held, key),
    ensures
        ({
            let whole = spelling::spelt(held, key);
            spelling::normalized(whole) == if spelling::is_taken(whole) {
                None
            } else {
                Some(whole)
            }
        }),
{
    spellings_look_so(key);
    spelling_is_plain(held, key);
    capitals_of_spelling(held, key);
    modifiers_open(held);
    let upper = keys::capitals(key);
    let words = lines::split(text_before(held) + upper, '+');
    assert(words == words_before(held).push(upper));
    assert(words.last() == upper);
    same_modifiers(words_before(held), words, words_before(held).len() as int);
}

/// A key as it is kept is kept as it is: what was accepted once is accepted
/// again, in the same spelling.
pub proof fn an_accepted_key_is_accepted_again(value: Seq<char>)
    requires
        spelling::normalized(value) is Some,
    ensures
        spelling::normalized(spelling::normalized(value)->0) == spelling::normalized(value),
        !spelling::normalized(value)->0.contains(';'),
{
    let kept = spelling::normalized(value)->0;
    if value.len() > 0 {
        let words = lines::split(keys::capitals(lines::trim(value)), '+');
        let key = spelling::key_spelt(words.last())->0;
        let held = spelling::modifiers_in(words, words.len() - 1)->0;
        spelt_keys_are_spellings(words.last());
        spelling_is_plain(held, key);
        a_spelling_is_kept(held, key);
    }
}

proof fn same_modifiers(one: Seq<Seq<char>>, two: Seq<Seq<char>>, n: int)
    requires
        0 <= n <= one.len(),
        n <= two.len(),
        forall|i: int| 0 <= i < n ==> one[i] == two[i],
    ensures
        spelling::modifiers_in(one, n) == spelling::modifiers_in(two, n),
    decreases n,
{
    if n > 0 {
        same_modifiers(one, two, n - 1);
    }
}

/// A key that an action may have: one that is accepted, or the one that the
/// quick draft starts with for copying, which nothing else can be given.
pub open spec fn is_good_key(id: int, key: Seq<char>) -> bool {
    spelling::normalized(key) == Some(key) || (id == 38 && key == "Ctrl+Shift+C"@)
}

/// A default key by its parts.
proof fn a_first_key_is_good(id: usize, held: Held, key: Seq<char>)
    requires
        is_spelling(key),
        held.control || held.alt,
        actions::first_key(id)@ == spelling::spelt(held, key),
    ensures
        is_good_key(id as int, actions::first_key(id)@),
{
    a_spelling_is_kept(held, key);
    spelling_is_plain(held, key);
    first_keys_differ(id);
    if spelling::is_taken(actions::first_key(id)@) {
        taken_keys_end_so(actions::first_key(id)@);
    }
}


#[verifier::spinoff_prover]
#[verifier::rlimit(40)]
proof fn first_keys_are_good_a(id: usize)
    requires
        id == 0 || id == 1 || id == 2 || id == 3 || id == 4 || id == 5 || id == 6 || id == 7 || id == 8 || id == 9,
    ensures
        is_good_key(id as int, actions::first_key(id)@),
{
    reveal_strlit("Ctrl+");
    reveal_strlit("Alt+");
    reveal_strlit("Shift+");
    reveal_strlit("");
    if id == 0 {
        reveal_strlit("Ctrl+O");
        let held = Held { control: true, alt: false, shift: false };
        let key = seq!['O'];
        assert("Ctrl+O"@ =~= spelling::spelt(held, key));
        a_first_key_is_good(id, held, key);
    } else if id == 1 {
        reveal_strlit("Ctrl+S");
        let held = Held { control: true, alt: false, shift: false };
        let key = seq!['S'];
        assert("Ctrl+S"@ =~= spelling::spelt(held, key));
        a_first_key_is_good(id, held, key);
    } else if id == 2 {
        reveal_strlit("Ctrl+Shift+S");
        let held = Held { control: true, alt: false, shift: true };
        let key = seq!['S'];
        assert("Ctrl+Shift+S"@ =~= spelling::spelt(held, key));
        a_first_key_is_good(id, held, key);
    } else if id == 3 {
        reveal_strlit("Ctrl+W");
        let held = Held { control: true, alt: false, shift: false };
        let key = seq!['W'];
        assert("Ctrl+W"@ =~= spelling::spelt(held, key));
        a_first_key_is_good(id, held, key);
    } else if id == 4 {
        reveal_strlit("Ctrl+F");
        let held = Held { control: true, alt: false, shift: false };
        let key = seq!['F'];
        assert("Ctrl+F"@ =~= spelling::spelt(held, key));
        a_first_key_is_good(id, held, key);
    } else if id == 5 {
        reveal_strlit("Ctrl+H");
        let held = Held { control: true, alt: false, shift: false };
        let key = seq!['H'];
        assert("Ctrl+H"@ =~= spelling::spelt(held, key));
        a_first_key_is_good(id, held, key);
    } else if id == 6 {
        reveal_strlit("Ctrl+G");
        let held = Held { control: true, alt: false, shift: false };
        let key = seq!['G'];
        assert("Ctrl+G"@ =~= spelling::spelt(held, key));
        a_first_key_is_good(id, held, key);
    } else if id == 7 {
        reveal_strlit("Ctrl+Shift+T");
        let held = Held { control: true, alt: false, shift: true };
        let key = seq!['T'];
        assert("Ctrl+Shift+T"@ =~= spelling::spelt(held, key));
        a_first_key_is_good(id, held, key);
    } else if id == 8 {
        reveal_strlit("Ctrl+Z");
        let held = Held { control: true, alt: false, shift: false };
        let key = seq!['Z'];
        assert("Ctrl+Z"@ =~= spelling::spelt(held, key));
        a_first_key_is_good(id, held, key);
    } else if id == 9 {
        reveal_strlit("Ctrl+Y");
        let held = Held { control: true, alt: false, shift: false };
        let key = seq!['Y'];
        assert("Ctrl+Y"@ =~= spelling::spelt(held, key));
        a_first_key_is_good(id, held, key);
    }
}

#[verifier::spinoff_prover]
#[verifier::rlimit(40)]
proof fn first_keys_are_good_b(id: usize)
    requires
        id == 11 || id == 12 || id == 13 || id == 14 || id == 15 || id == 16 || id == 17 || id == 19 || id == 20 || id == 21,
    ensures
        is_good_key(id as int, actions::first_key(id)@),
{
    reveal_strlit("Ctrl+");
    reveal_strlit("Alt+");
    reveal_strlit("Shift+");
    reveal_strlit("");
    if id == 11 {
        reveal_strlit("Ctrl+Tab");
        let held = Held { control: true, alt: false, shift: false };
        reveal_strlit("Tab");
        let key = "Tab"@;
        assert("Ctrl+Tab"@ =~= spelling::spelt(held, key));
        a_first_key_is_good(id, held, key);
    } else if id == 12 {
        reveal_strlit("Ctrl+Shift+Tab");
        let held = Held { control: true, alt: false, shift: true };
        reveal_strlit("Tab");
        let key = "Tab"@;
        assert("Ctrl+Shift+Tab"@ =~= spelling::spelt(held, key));
        a_first_key_is_good(id, held, key);
    } else if id == 13 {
        reveal_strlit("Ctrl+Alt+Left");
        let held = Held { control: true, alt: true, shift: false };
        reveal_strlit("Left");
        let key = "Left"@;
        assert("Ctrl+Alt+Left"@ =~= spelling::spelt(held, key));
        a_first_key_is_good(id, held, key);
    } else if id == 14 {
        reveal_strlit("Ctrl+Alt+Right");
        let held = Held { control: true, alt: true, shift: false };
        reveal_strlit("Right");
        let key = "Right"@;
        assert("Ctrl+Alt+Right"@ =~= spelling::spelt(held, key));
        a_first_key_is_good(id, held, key);
    } else if id == 15 {
        reveal_strlit("Ctrl+Alt+Up");
        let held = Held { control: true, alt: true, shift: false };
        reveal_strlit("Up");
        let key = "Up"@;
        assert("Ctrl+Alt+Up"@ =~= spelling::spelt(held, key));
        a_first_key_is_good(id, held, key);
    } else if id == 16 {
        reveal_strlit("Ctrl+Alt+Down");
        let held = Held { control: true, alt: true, shift: false };
        reveal_strlit("Down");
        let key = "Down"@;
        assert("Ctrl+Alt+Down"@ =~= spelling::spelt(held, key));
        a_first_key_is_good(id, held, key);
    } else if id == 17 {
        reveal_strlit("Ctrl+`");
        let held = Held { control: true, alt: false, shift: false };
        reveal_strlit("`");
        let key = "`"@;
        assert("Ctrl+`"@ =~= spelling::spelt(held, key));
        a_first_key_is_good(id, held, key);
    } else if id == 19 {
        reveal_strlit("Alt+Left");
        let held = Held { control: false, alt: true, shift: false };
        reveal_strlit("Left");
        let key = "Left"@;
        assert("Alt+Left"@ =~= spelling::spelt(held, key));
        a_first_key_is_good(id, held, key);
    } else if id == 20 {
        reveal_strlit("Alt+Right");
        let held = Held { control: false, alt: true, shift: false };
        reveal_strlit("Right");
        let key = "Right"@;
        assert("Alt+Right"@ =~= spelling::spelt(held, key));
        a_first_key_is_good(id, held, key);
    } else if id == 21 {
        reveal_strlit("Ctrl+D");
        let held = Held { control: true, alt: false, shift: false };
        let key = seq!['D'];
        assert("Ctrl+D"@ =~= spelling::spelt(held, key));
        a_first_key_is_good(id, held, key);
    }
}

#[verifier::spinoff_prover]
#[verifier::rlimit(40)]
proof fn first_keys_are_good_c(id: usize)
    requires
        id == 22 || id == 23 || id == 24 || id == 25 || id == 26 || id == 27 || id == 28 || id == 29 || id == 30 || id == 31,
    ensures
        is_good_key(id as int, actions::first_key(id)@),
{
    reveal_strlit("Ctrl+");
    reveal_strlit("Alt+");
    reveal_strlit("Shift+");
    reveal_strlit("");
    if id == 22 {
        reveal_strlit("Alt+F");
        let held = Held { control: false, alt: true, shift: false };
        let key = seq!['F'];
        assert("Alt+F"@ =~= spelling::spelt(held, key));
        a_first_key_is_good(id, held, key);
    } else if id == 23 {
        reveal_strlit("Alt+B");
        let held = Held { control: false, alt: true, shift: false };
        let key = seq!['B'];
        assert("Alt+B"@ =~= spelling::spelt(held, key));
        a_first_key_is_good(id, held, key);
    } else if id == 24 {
        reveal_strlit("Ctrl+K");
        let held = Held { control: true, alt: false, shift: false };
        let key = seq!['K'];
        assert("Ctrl+K"@ =~= spelling::spelt(held, key));
        a_first_key_is_good(id, held, key);
    } else if id == 25 {
        reveal_strlit("Ctrl+Space");
        let held = Held { control: true, alt: false, shift: false };
        reveal_strlit("Space");
        let key = "Space"@;
        assert("Ctrl+Space"@ =~= spelling::spelt(held, key));
        a_first_key_is_good(id, held, key);
    } else if id == 26 {
        reveal_strlit("Ctrl+Shift+Space");
        let held = Held { control: true, alt: false, shift: true };
        reveal_strlit("Space");
        let key = "Space"@;
        assert("Ctrl+Shift+Space"@ =~= spelling::spelt(held, key));
        a_first_key_is_good(id, held, key);
    } else if id == 27 {
        reveal_strlit("Alt+W");
        let held = Held { control: false, alt: true, shift: false };
        let key = seq!['W'];
        assert("Alt+W"@ =~= spelling::spelt(held, key));
        a_first_key_is_good(id, held, key);
    } else if id == 28 {
        reveal_strlit("Alt+X");
        let held = Held { control: false, alt: true, shift: false };
        let key = seq!['X'];
        assert("Alt+X"@ =~= spelling::spelt(held, key));
        a_first_key_is_good(id, held, key);
    } else if id == 29 {
        reveal_strlit("Alt+Y");
        let held = Held { control: false, alt: true, shift: false };
        let key = seq!['Y'];
        assert("Alt+Y"@ =~= spelling::spelt(held, key));
        a_first_key_is_good(id, held, key);
    } else if id == 30 {
        reveal_strlit("Alt+Shift+Y");
        let held = Held { control: false, alt: true, shift: true };
        let key = seq!['Y'];
        assert("Alt+Shift+Y"@ =~= spelling::spelt(held, key));
        a_first_key_is_good(id, held, key);
    } else if id == 31 {
        reveal_strlit("Alt+Shift+F");
        let held = Held { control: false, alt: true, shift: true };
        let key = seq!['F'];
        assert("Alt+Shift+F"@ =~= spelling::spelt(held, key));
        a_first_key_is_good(id, held, key);
    }
}

#[verifier::spinoff_prover]
#[verifier::rlimit(40)]
proof fn first_keys_are_good_d(id: usize)
    requires
        id == 32 || id == 33 || id == 34 || id == 35 || id == 36 || id == 37 || id == 38 || id == 45 || id == 46,
    ensures
        is_good_key(id as int, actions::first_key(id)@),
{
    reveal_strlit("Ctrl+");
    reveal_strlit("Alt+");
    reveal_strlit("Shift+");
    reveal_strlit("");
    if id == 32 {
        reveal_strlit("Alt+Shift+B");
        let held = Held { control: false, alt: true, shift: true };
        let key = seq!['B'];
        assert("Alt+Shift+B"@ =~= spelling::spelt(held, key));
        a_first_key_is_good(id, held, key);
    } else if id == 33 {
        reveal_strlit("Ctrl+Shift+K");
        let held = Held { control: true, alt: false, shift: true };
        let key = seq!['K'];
        assert("Ctrl+Shift+K"@ =~= spelling::spelt(held, key));
        a_first_key_is_good(id, held, key);
    } else if id == 34 {
        reveal_strlit("Alt+Up");
        let held = Held { control: false, alt: true, shift: false };
        reveal_strlit("Up");
        let key = "Up"@;
        assert("Alt+Up"@ =~= spelling::spelt(held, key));
        a_first_key_is_good(id, held, key);
    } else if id == 35 {
        reveal_strlit("Alt+Down");
        let held = Held { control: false, alt: true, shift: false };
        reveal_strlit("Down");
        let key = "Down"@;
        assert("Alt+Down"@ =~= spelling::spelt(held, key));
        a_first_key_is_good(id, held, key);
    } else if id == 36 {
        reveal_strlit("Alt+Shift+Up");
        let held = Held { control: false, alt: true, shift: true };
        reveal_strlit("Up");
        let key = "Up"@;
        assert("Alt+Shift+Up"@ =~= spelling::spelt(held, key));
        a_first_key_is_good(id, held, key);
    } else if id == 37 {
        reveal_strlit("Alt+Shift+Down");
        let held = Held { control: false, alt: true, shift: true };
        reveal_strlit("Down");
        let key = "Down"@;
        assert("Alt+Shift+Down"@ =~= spelling::spelt(held, key));
        a_first_key_is_good(id, held, key);
    } else if id == 38 {
        reveal_strlit("Ctrl+Shift+C");
        let held = Held { control: true, alt: false, shift: true };
        let key = seq!['C'];
        assert("Ctrl+Shift+C"@ =~= spelling::spelt(held, key));
        a_first_key_is_good(id, held, key);
    } else if id == 45 {
        reveal_strlit("Ctrl+P");
        let held = Held { control: true, alt: false, shift: false };
        let key = seq!['P'];
        assert("Ctrl+P"@ =~= spelling::spelt(held, key));
        a_first_key_is_good(id, held, key);
    } else if id == 46 {
        reveal_strlit("Ctrl+N");
        let held = Held { control: true, alt: false, shift: false };
        let key = seq!['N'];
        assert("Ctrl+N"@ =~= spelling::spelt(held, key));
        a_first_key_is_good(id, held, key);
    }
}

proof fn the_first_keys_are_good(id: usize)
    ensures
        is_good_key(id as int, actions::first_key(id)@),
{
    reveal_strlit("");
    if id == 0 || id == 1 || id == 2 || id == 3 || id == 4 || id == 5 || id == 6 || id == 7 || id == 8 || id == 9 {
        first_keys_are_good_a(id);
    }
    if id == 11 || id == 12 || id == 13 || id == 14 || id == 15 || id == 16 || id == 17 || id == 19 || id == 20 || id == 21 {
        first_keys_are_good_b(id);
    }
    if id == 22 || id == 23 || id == 24 || id == 25 || id == 26 || id == 27 || id == 28 || id == 29 || id == 30 || id == 31 {
        first_keys_are_good_c(id);
    }
    if id == 32 || id == 33 || id == 34 || id == 35 || id == 36 || id == 37 || id == 38 || id == 45 || id == 46 {
        first_keys_are_good_d(id);
    }
    if actions::first_key(id)@.len() == 0 {
        assert(spelling::normalized(""@) == Some(""@));
    }
}


proof fn entry_reads(held: Seq<Seq<char>>, before: Seq<Seq<char>>, i: int)
    requires
        0 <= i < ACTION_COUNT,
        held.len() == ACTION_COUNT,
        before.len() == ACTION_COUNT,
        is_good_key(i, held[i]),
        before[i] == actions::first_key(i as usize)@,
    ensures
        bindings::with_entry(before, bindings::entry(held, i)) == before.update(i, held[i]),
        !bindings::entry(held, i).contains(';'),
{
    let digits = text::decimal(i as nat);
    let line = bindings::entry(held, i);
    let mark = seq!['='];
    let at = digits.len() as int;
    numbers::decimal_is_digits(i as nat);
    numbers::a_number_reads_back(i as nat, ACTION_COUNT - 1);
    assert(line.subrange(at, at + 1) =~= mark);
    assert forall|k: int| 0 <= k < at implies !text::has_at(line, k, mark) by {
        if text::has_at(line, k, mark) {
            assert(line.subrange(k, k + 1)[0] == '=');
            assert(numbers::is_digit(digits[k]));
        }
    }
    lines::first_is_first(line, mark, 0, at);
    assert(line.take(at) =~= digits);
    assert(line.skip(at + 1) =~= held[i]);
    if spelling::normalized(held[i]) == Some(held[i]) {
        an_accepted_key_is_accepted_again(held[i]);
    } else {
        reveal_strlit("Ctrl+Shift+C");
        reveal_strlit("Ctrl+");
        reveal_strlit("Shift+");
        reveal_strlit("");
        let copy = Held { control: true, alt: false, shift: true };
        let key = seq!['C'];
        assert("Ctrl+Shift+C"@ =~= spelling::spelt(copy, key));
        a_spelling_is_kept(copy, key);
        spelling_is_plain(copy, key);
        assert(before.update(i, held[i]) =~= before);
    }
    assert forall|k: int| 0 <= k < line.len() implies line[k] != ';' by {
        if k < at {
            assert(numbers::is_digit(digits[k]));
        } else if k > at {
            assert(line[k] == held[i][k - at - 1]);
        }
    }
}

/// The entries of saved keys.
spec fn entries_of(held: Seq<Seq<char>>, n: int) -> Seq<Seq<char>> {
    Seq::new(n as nat, |i: int| bindings::entry(held, i))
}

proof fn saved_splits(held: Seq<Seq<char>>, n: int)
    requires
        held.len() == ACTION_COUNT,
        1 <= n <= ACTION_COUNT,
        forall|i: int|
            0 <= i < held.len() ==> is_good_key(i, #[trigger] held[i]),
    ensures
        lines::split(bindings::saved(held, n), ';') == entries_of(held, n),
    decreases n,
{
    let all = bindings::defaults();
    if n == 1 {
        entry_reads(held, all, 0);
        nothing_opens(';');
        let one = bindings::entry(held, 0);
        assert(Seq::<char>::empty() + one =~= one);
        assert(lines::split(one, ';') =~= entries_of(held, 1));
    } else {
        saved_splits(held, n - 1);
        entry_reads(held, all, n - 1);
        let before = bindings::saved(held, n - 1);
        let next = bindings::entry(held, n - 1);
        let longer = before.push(';');
        assert(longer.drop_last() =~= before);
        lines::split_grows(longer, next, ';');
        assert(Seq::<char>::empty() + next =~= next);
        assert(lines::split(longer + next, ';') =~= entries_of(held, n));
    }
}

proof fn saved_reads(held: Seq<Seq<char>>, n: int)
    requires
        held.len() == ACTION_COUNT,
        0 <= n <= ACTION_COUNT,
        forall|i: int|
            0 <= i < held.len() ==> is_good_key(i, #[trigger] held[i]),
    ensures
        bindings::with_entries(entries_of(held, ACTION_COUNT as int), n) == Seq::new(
            ACTION_COUNT as nat,
            |i: int|
                if i < n {
                    held[i]
                } else {
                    bindings::defaults()[i]
                },
        ),
    decreases n,
{
    let entries = entries_of(held, ACTION_COUNT as int);
    let made = Seq::new(
        ACTION_COUNT as nat,
        |i: int|
            if i < n {
                held[i]
            } else {
                bindings::defaults()[i]
            },
    );
    if n == 0 {
        assert(made =~= bindings::defaults());
    } else {
        saved_reads(held, n - 1);
        let before = bindings::with_entries(entries, n - 1);
        assert(entries[n - 1] == bindings::entry(held, n - 1));
        entry_reads(held, before, n - 1);
        assert(made =~= before.update(n - 1, held[n - 1]));
    }
}

/// Keys that are saved come back: every key that was accepted, where no two
/// clash.
pub proof fn saved_keys_come_back(held: Seq<Seq<char>>)
    requires
        held.len() == ACTION_COUNT,
        forall|i: int|
            0 <= i < held.len() ==> is_good_key(i, #[trigger] held[i]),
        held[RESERVED as int].len() == 0,
        !bindings::clashes(held),
    ensures
        bindings::bound(bindings::saved(held, ACTION_COUNT as int)) == held,
{
    saved_splits(held, ACTION_COUNT as int);
    saved_reads(held, ACTION_COUNT as int);
    let read = bindings::with_entries(
        entries_of(held, ACTION_COUNT as int),
        ACTION_COUNT as int,
    );
    assert(read =~= held);
    assert(held[RESERVED as int] =~= Seq::empty());
    assert(read.update(RESERVED as int, Seq::empty()) =~= held);
}

proof fn read_keys_are_accepted(entries: Seq<Seq<char>>, n: int)
    ensures
        forall|i: int|
            0 <= i < ACTION_COUNT ==> is_good_key(
                i,
                #[trigger] bindings::with_entries(entries, n)[i],
            ),
        bindings::with_entries(entries, n).len() == ACTION_COUNT,
    decreases n,
{
    entries_keep_the_count(entries, n);
    if n <= 0 {
        assert forall|i: int| 0 <= i < ACTION_COUNT implies is_good_key(
            i,
            #[trigger] bindings::defaults()[i],
        ) by {
            the_first_keys_are_good(i as usize);
        }
    } else {
        read_keys_are_accepted(entries, n - 1);
        let before = bindings::with_entries(entries, n - 1);
        let after = bindings::with_entries(entries, n);
        assert forall|i: int| 0 <= i < ACTION_COUNT implies is_good_key(i, #[trigger] after[i]) by {
            if after[i] != before[i] {
                let both = lines::cut(entries[n - 1], seq!['='])->0;
                numbers::number_is_within(both.0, ACTION_COUNT - 1);
                an_accepted_key_is_accepted_again(both.1);
                assert(after[i] == spelling::normalized(both.1)->0);
            } else {
                assert(is_good_key(i, before[i]));
            }
        }
    }
}

/// Giving a key to an action and reading the keys again gives the action that
/// key, and leaves every other action its own.
pub proof fn a_given_key_is_kept(raw: Seq<char>, id: int, typed: Seq<char>)
    requires
        0 <= id < ACTION_COUNT,
        id != RESERVED,
        spelling::normalized(typed) is Some,
        bindings::clash(bindings::bound(raw), id, spelling::normalized(typed)->0) is None,
    ensures
        bindings::bound(
            bindings::saved(
                bindings::bound(raw).update(id, spelling::normalized(typed)->0),
                ACTION_COUNT as int,
            ),
        ) == bindings::bound(raw).update(id, spelling::normalized(typed)->0),
{
    let key = spelling::normalized(typed)->0;
    let before = bindings::bound(raw);
    let after = before.update(id, key);
    let entries = lines::split(raw, ';');
    read_keys_are_all(raw);
    the_first_keys_do_not_clash();
    an_accepted_key_is_accepted_again(typed);
    read_keys_are_accepted(entries, entries.len() as int);
    read_keys_are_accepted(entries, 0);
    assert forall|i: int| 0 <= i < after.len() implies is_good_key(i, #[trigger] after[i]) by {
        if i != id {
            assert(after[i] == before[i]);
            if bindings::clashes(bindings::read_keys(raw)) {
                assert(before[i] == bindings::with_entries(entries, 0)[i]);
            } else if i != RESERVED {
                assert(before[i] == bindings::with_entries(entries, entries.len() as int)[i]);
            }
        }
    }
    reveal_strlit("");
    assert(before[RESERVED as int].len() == 0);
    assert forall|i: int| 0 <= i < after.len() implies #[trigger] bindings::clash(
        after,
        i,
        after[i],
    ) is None by {
        a_clash_is_a_clash(after, i, after[i], after.len() as int);
        if let Some(other) = bindings::clash(after, i, after[i]) {
            a_clash_is_a_clash(before, id, key, before.len() as int);
            if i == id {
                assert(before[other] == key);
            } else if other == id {
                assert(before[i] == key);
            } else {
                a_clash_is_a_clash(before, i, before[i], before.len() as int);
                assert(bindings::clash(before, i, before[i]) is None);
                assert(before[other] == before[i]);
            }
        }
    }
    saved_keys_come_back(after);
}

/// With nothing typed to search for, no search goes on: every group has its heading,
/// folded groups show no more than that, and the others show all they hold, whatever
/// the names and the keys are.
pub proof fn without_a_query_nothing_is_left_out(
    shown: Shown,
    typed: Seq<char>,
    category: i32,
    at: int,
)
    requires
        typed.len() == 0,
        shown.query == letters::small(typed),
        shown.key_query.len() == 0,
        0 <= at < ACTION_COUNT,
        at != RESERVED,
        actions::group_of(at as usize) == category,
    ensures
        ({
            let items = page::group_items(shown, category);
            let open = !page::is_folded(shown.folded, category);
            &&& page::group_rows(shown, category) == seq![
                page::heading(shown, category, open, items.len() as usize),
            ] + if open {
                items
            } else {
                Seq::empty()
            }
            &&& items.contains(
                page::item(at as i32, shown.names[at], shown.held[at], category, false),
            )
        }),
{
    let items = page::group_items(shown, category);
    let one = page::item(at as i32, shown.names[at], shown.held[at], category, false);
    let listed = page::changeable(
        shown.names,
        shown.held,
        shown.query,
        shown.key_query,
        category,
        ACTION_COUNT as int,
    );
    an_action_is_listed(shown, category, at, ACTION_COUNT as int);
    let k = choose|k: int| 0 <= k < listed.len() && listed[k] == one;
    assert(items[k] == one);
    let head = seq![
        page::heading(
            shown,
            category,
            !page::is_folded(shown.folded, category),
            items.len() as usize,
        ),
    ];
    assert(head + Seq::<ItemModel>::empty() =~= head);
}

proof fn an_action_is_listed(shown: Shown, category: i32, at: int, n: int)
    requires
        shown.query.len() == 0,
        shown.key_query.len() == 0,
        0 <= at < n,
        at != RESERVED,
        actions::group_of(at as usize) == category,
    ensures
        page::changeable(
            shown.names,
            shown.held,
            shown.query,
            shown.key_query,
            category,
            n,
        ).contains(page::item(at as i32, shown.names[at], shown.held[at], category, false)),
    decreases n,
{
    let one = page::item(at as i32, shown.names[at], shown.held[at], category, false);
    let listed = page::changeable(
        shown.names,
        shown.held,
        shown.query,
        shown.key_query,
        category,
        n,
    );
    if at == n - 1 {
        assert(listed.last() == one);
    } else {
        an_action_is_listed(shown, category, at, n - 1);
        let before = page::changeable(
            shown.names,
            shown.held,
            shown.query,
            shown.key_query,
            category,
            n - 1,
        );
        let k = choose|k: int| 0 <= k < before.len() && before[k] == one;
        assert(listed[k] == one);
    }
}

} // verus!
