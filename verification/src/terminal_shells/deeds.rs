//! How shells are started, and what the page of shells does.
use crate::lines;
use crate::tags::query;
use crate::terminal_shells::command;
use crate::terminal_shells::profiles::{self, FieldsModel};
use crate::terminal_shells::ShellModel;
use crate::text;
use vstd::prelude::*;

verus! {

/// The program of a command that is written between quotation marks is what stands between
/// them, and the rest is what is behind, without white space around it.
pub proof fn a_quoted_program_is_read(program: Seq<char>, rest: Seq<char>)
    requires
        forall|i: int| 0 <= i < program.len() ==> #[trigger] program[i] != '"',
        rest.len() > 0 ==> !text::is_space(rest.last()),
    ensures
        command::parts_of(seq!['"'] + program + seq!['"'] + rest) == (program, lines::trim(rest)),
{
    reveal_strlit("\"");
    let whole = seq!['"'] + program + seq!['"'] + rest;
    assert(whole[0] == '"');
    if rest.len() > 0 {
        assert(whole.last() == rest.last());
    } else {
        assert(whole.last() == '"');
    }
    lines::trim_of_trimmed(whole);
    let inner = whole.skip(1);
    assert(inner =~= program + seq!['"'] + rest);
    let mark = "\""@;
    assert(mark =~= seq!['"']);
    let at = program.len() as int;
    assert(inner.subrange(at, at + 1) =~= mark);
    assert forall|i: int| 0 <= i < at implies !text::has_at(inner, i, mark) by {
        assert(inner[i] == program[i]);
        if text::has_at(inner, i, mark) {
            assert(inner.subrange(i, i + 1)[0] == mark[0]);
        }
    }
    lines::first_is_first(inner, mark, 0, at);
    assert(inner.take(at) =~= program);
    assert(inner.skip(at + 1) =~= rest);
}

/// A command without quotation marks is its first word and what is behind it.
pub proof fn a_plain_program_is_the_first_word(program: Seq<char>, space: char, rest: Seq<char>)
    requires
        program.len() > 0,
        program[0] != '"',
        forall|i: int| 0 <= i < program.len() ==> !text::is_space(#[trigger] program[i]),
        text::is_space(space),
        rest.len() > 0,
        !text::is_space(rest.last()),
    ensures
        command::parts_of(program + seq![space] + rest) == (program, lines::trim(rest)),
        command::parts_of(program) == (program, Seq::<char>::empty()),
{
    let whole = program + seq![space] + rest;
    assert(whole[0] == program[0]);
    assert(whole.last() == rest.last());
    assert(program.last() == program[program.len() - 1]);
    lines::trim_of_trimmed(whole);
    lines::trim_of_trimmed(program);
    let end = program.len() as int;
    the_word_ends(whole, 0, end);
    assert(whole[end] == space);
    the_word_ends(program, 0, end);
    assert(whole.take(end) =~= program);
    assert(whole.skip(end + 1) =~= rest);
}

proof fn the_word_ends(text: Seq<char>, from: int, end: int)
    requires
        0 <= from <= end <= text.len(),
        forall|i: int| from <= i < end ==> !text::is_space(#[trigger] text[i]),
        end == text.len() || text::is_space(text[end]),
    ensures
        query::word_end(text, from) == end,
    decreases end - from,
{
    if from < end {
        the_word_ends(text, from + 1, end);
    }
}

/// A shell starts with its command as it is, in its folder where it has one; only WSL with
/// a folder of its own system is told of it in the command instead.
pub proof fn a_shell_starts_in_its_folder(shell: ShellModel, stem: Option<Seq<char>>)
    ensures
        ({
            let folder = lines::trim(shell.directory);
            let (command, begins) = command::launched(shell, stem);
            let own = command::is_wsl(stem) && ((folder.len() > 0 && folder[0] == '/') || folder
                == "~"@);
            &&& !own ==> command == shell.command
            &&& !own && folder.len() == 0 ==> begins is None
            &&& !own && folder.len() > 0 ==> begins == Some(folder)
            &&& own ==> begins is None
        }),
        stem is None ==> !command::is_wsl(stem),
        stem is Some && stem->0.len() != 3 ==> !command::is_wsl(stem),
{
    reveal_strlit("wsl");
}

/// The page does what its numbers say: 1 keeps the fields where they may be kept, 2 and 3
/// add a shell at the end, 4 and 5 move the one shown up and down, 6 takes it away, and no
/// other number changes the list.
pub proof fn the_list_of_shells_changes(
    shells: Seq<ShellModel>,
    index: int,
    what: i32,
    fields: FieldsModel,
)
    requires
        0 <= index < shells.len(),
    ensures
        ({
            let after = profiles::changed(shells, index, what, fields);
            let refused = profiles::is_refused(shells, index, fields);
            &&& what == 1 && refused ==> after == shells
            &&& what == 1 && !refused ==> after.len() == shells.len() && after[index].name
                == lines::trim(fields.name) && after[index].directory == lines::trim(
                fields.directory,
            ) && forall|i: int|
                0 <= i < shells.len() && i != index ==> #[trigger] after[i] == shells[i]
            &&& what == 2 || what == 3 ==> after.len() == shells.len() + 1 && after.drop_last()
                == shells
            &&& what == 3 ==> after.last().command == shells[index].command
                && after.last().directory == shells[index].directory
            &&& what == 4 && index > 0 ==> after.len() == shells.len() && after[index - 1]
                == shells[index] && after[index] == shells[index - 1] && forall|i: int|
                0 <= i < shells.len() && i != index && i != index - 1 ==> #[trigger] after[i]
                    == shells[i]
            &&& what == 5 && index + 1 < shells.len() ==> after.len() == shells.len()
                && after[index + 1] == shells[index] && after[index] == shells[index + 1]
                && forall|i: int|
                0 <= i < shells.len() && i != index && i != index + 1 ==> #[trigger] after[i]
                    == shells[i]
            &&& what == 6 && shells.len() > 1 ==> after.len() == shells.len() - 1 && (forall|i: int|
                0 <= i < index ==> #[trigger] after[i] == shells[i]) && (forall|i: int|
                index <= i < after.len() ==> #[trigger] after[i] == shells[i + 1])
            &&& what == 6 && shells.len() == 1 ==> after == shells
            &&& what < 1 || what > 6 ==> after == shells
        }),
{
    let after = profiles::changed(shells, index, what, fields);
    if what == 2 || what == 3 {
        assert(after.drop_last() =~= shells);
    }
}

/// A shell that was moved is still the one that is shown, a new one is shown, and the
/// chosen default is the one shown, or keeps its part under its new name.
pub proof fn the_shell_shown_stays_shown(
    shells: Seq<ShellModel>,
    index: int,
    what: i32,
    fields: FieldsModel,
    default_name: Seq<char>,
)
    requires
        0 <= index < shells.len(),
        profiles::changes(shells, index, what, fields),
    ensures
        ({
            let after = profiles::changed(shells, index, what, fields);
            let shown = profiles::shown_after(shells.len(), index, what);
            let chosen = profiles::default_after(shells, index, what, fields, default_name);
            &&& 0 <= shown < after.len()
            &&& what == 4 || what == 5 ==> after[shown] == shells[index]
            &&& what == 2 || what == 3 ==> shown == shells.len()
            &&& what == 7 ==> chosen == shells[index].name
            &&& what == 1 && shells[index].name == default_name ==> chosen == after[index].name
            &&& what != 7 && !(what == 1 && shells[index].name == default_name) ==> chosen
                == default_name
        }),
{
}

/// Fields are refused where the name or the program is missing, where another shell has
/// the name, and where they hold a line break or a tab.
pub proof fn fields_are_refused_for_a_reason(
    shells: Seq<ShellModel>,
    index: int,
    fields: FieldsModel,
)
    ensures
        lines::trim(fields.name).len() == 0 ==> profiles::is_refused(shells, index, fields),
        lines::trim(fields.executable).len() == 0 ==> profiles::is_refused(shells, index, fields),
        (exists|i: int|
            0 <= i < shells.len() && i != index && (#[trigger] shells[i]).name == lines::trim(
                fields.name,
            )) ==> profiles::is_refused(shells, index, fields),
{
}

/// A file is called what stands behind the last stroke of its path.
pub proof fn a_file_is_called_by_its_last_part(front: Seq<char>, name: Seq<char>)
    requires
        !name.contains('/'),
    ensures
        command::last_part(front + seq!['/'] + name) == name,
        command::last_part(name) == name,
    decreases name.len(),
{
    let whole = front + seq!['/'] + name;
    if name.len() == 0 {
        assert(whole.last() == '/');
        assert(name =~= Seq::empty());
    } else {
        let rest = name.drop_last();
        assert(name[name.len() - 1] != '/');
        if rest.contains('/') {
            let k = choose|k: int| 0 <= k < rest.len() && rest[k] == '/';
            assert(name[k] == '/');
        }
        a_file_is_called_by_its_last_part(front, rest);
        assert(whole.drop_last() =~= front + seq!['/'] + rest);
        assert(rest.push(name.last()) =~= name);
    }
}

/// The ending of a name is what stands behind its last point; a name without one, or that
/// begins with its only one, is whole.
pub proof fn a_stem_ends_at_the_last_point(stem: Seq<char>, ending: Seq<char>)
    requires
        !ending.contains('.'),
    ensures
        stem.len() > 0 ==> command::stem_of(stem + seq!['.'] + ending) == stem,
        stem.len() == 0 ==> command::stem_of(stem + seq!['.'] + ending) == seq!['.'] + ending,
        command::stem_of(ending) == ending,
{
    let whole = stem + seq!['.'] + ending;
    assert forall|k: int| stem.len() < k < whole.len() implies #[trigger] whole[k] != '.' by {
        assert(whole[k] == ending[k - stem.len() - 1]);
    }
    the_last_point_is_found(whole, stem.len() as int, whole.len() as int);
    assert(whole.take(stem.len() as int) =~= stem);
    if stem.len() == 0 {
        assert(whole =~= seq!['.'] + ending);
    }
    no_point_is_found(ending, ending.len() as int);
}

proof fn the_last_point_is_found(name: Seq<char>, at: int, to: int)
    requires
        0 <= at < to <= name.len(),
        name[at] == '.',
        forall|k: int| at < k < to ==> #[trigger] name[k] != '.',
    ensures
        command::last_point(name, to) == at,
    decreases to - at,
{
    if at < to - 1 {
        assert(name[to - 1] != '.');
        the_last_point_is_found(name, at, to - 1);
    }
}

proof fn no_point_is_found(name: Seq<char>, to: int)
    requires
        0 <= to <= name.len(),
        !name.contains('.'),
    ensures
        command::last_point(name, to) == -1,
    decreases to,
{
    if to > 0 {
        assert(name[to - 1] != '.');
        no_point_is_found(name, to - 1);
    }
}

} // verus!
