//! What the shells promise as a whole.
use crate::lines;
use crate::terminal_shells::command;
use crate::terminal_shells::profiles::{self, FieldsModel};
use crate::terminal_shells::ShellModel;
use crate::text;
use vstd::prelude::*;

verus! {

/// A shell that is written comes back, as long as its parts hold no tab.
pub proof fn a_written_shell_comes_back(shell: ShellModel)
    requires
        !shell.name.contains('\t'),
        !shell.command.contains('\t'),
        !shell.directory.contains('\t'),
    ensures
        ShellModel::read(shell.written()) == Some(shell),
{
    let none = Seq::<char>::empty();
    assert(lines::split(none, '\t') =~= seq![none]);
    lines::split_grows(none, shell.name, '\t');
    let one = none + shell.name;
    assert(one =~= shell.name);
    assert(lines::split(one, '\t') =~= seq![shell.name]);
    let two = one.push('\t');
    assert(two.drop_last() =~= one);
    assert(lines::split(two, '\t') =~= seq![shell.name, none]);
    lines::split_grows(two, shell.command, '\t');
    let three = two + shell.command;
    assert(none + shell.command =~= shell.command);
    assert(lines::split(three, '\t') =~= seq![shell.name, shell.command]);
    let four = three.push('\t');
    assert(four.drop_last() =~= three);
    assert(lines::split(four, '\t') =~= seq![shell.name, shell.command, none]);
    lines::split_grows(four, shell.directory, '\t');
    assert(none + shell.directory =~= shell.directory);
    assert(four + shell.directory =~= shell.written());
    assert(lines::split(shell.written(), '\t') =~= seq![
        shell.name,
        shell.command,
        shell.directory,
    ]);
}

proof fn skipping_ends(text: Seq<char>, from: int, to: int)
    requires
        0 <= from <= to <= text.len(),
    ensures
        from <= text::skip_space(text, from, to) <= to,
        text::skip_space(text, from, to) < to ==> !text::is_space(
            text[text::skip_space(text, from, to)],
        ),
    decreases to - from,
{
    if from < to && text::is_space(text[from]) {
        skipping_ends(text, from + 1, to);
    }
}

proof fn backing_ends(text: Seq<char>, from: int, to: int)
    requires
        0 <= from <= to <= text.len(),
    ensures
        from <= text::back_space(text, from, to) <= to,
        text::back_space(text, from, to) > from ==> !text::is_space(
            text[text::back_space(text, from, to) - 1],
        ),
    decreases to - from,
{
    if from < to && text::is_space(text[to - 1]) {
        backing_ends(text, from, to - 1);
    }
}

proof fn trimmed_ends_plainly(text: Seq<char>)
    ensures
        lines::trim(text).len() > 0 ==> !text::is_space(lines::trim(text)[0]) && !text::is_space(
            lines::trim(text).last(),
        ),
{
    let length = text.len() as int;
    skipping_ends(text, 0, length);
    let start = text::skip_space(text, 0, length);
    backing_ends(text, start, length);
}

/// The command of a profile: the program between quotation marks, and what
/// stands behind it.
proof fn a_command_is_trimmed(executable: Seq<char>, arguments: Seq<char>)
    requires
        arguments.len() > 0 ==> !text::is_space(arguments.last()),
    ensures
        lines::trim("\""@ + executable + "\" "@ + arguments) == if arguments.len() > 0 {
            "\""@ + executable + "\" "@ + arguments
        } else {
            seq!['"'] + executable + seq!['"']
        },
{
    reveal_strlit("\"");
    reveal_strlit("\" ");
    let whole = "\""@ + executable + "\" "@ + arguments;
    assert(whole[0] == '"');
    assert(!text::is_space('"') && text::is_space(' '));
    if arguments.len() > 0 {
        assert(whole.last() == arguments.last());
        lines::trim_of_trimmed(whole);
    } else {
        let length = whole.len() as int;
        assert(whole[length - 1] == ' ' && whole[length - 2] == '"');
        assert(text::skip_space(whole, 0, length) == 0);
        assert(text::back_space(whole, 0, length) == text::back_space(whole, 0, length - 1));
        assert(text::back_space(whole, 0, length - 1) == length - 1);
        assert(lines::trim(whole) =~= seq!['"'] + executable + seq!['"']);
    }
}

/// Fields that are kept are shown as they were given, without the white space
/// around them.
pub proof fn kept_fields_are_shown_again(given: FieldsModel)
    requires
        !given.trimmed().is_broken(),
    ensures
        FieldsModel::of(given.trimmed().shell()) == given.trimmed(),
{
    reveal_strlit("\"");
    reveal_strlit("\" ");
    reveal_strlit("\"\r\n\t");
    let fields = given.trimmed();
    let executable = fields.executable;
    let arguments = fields.arguments;
    trimmed_ends_plainly(given.arguments);
    a_command_is_trimmed(executable, arguments);
    let written = fields.shell().command;
    assert(!text::is_space('"'));
    lines::trim_of_trimmed(written);
    let rest = written.skip(1);
    let mark = "\""@;
    assert(rest[executable.len() as int] == '"');
    assert(rest.subrange(executable.len() as int, executable.len() as int + 1) =~= mark);
    assert forall|i: int| 0 <= i < executable.len() implies !text::has_at(rest, i, mark) by {
        assert(rest[i] == executable[i]);
        if text::has_at(rest, i, mark) {
            assert(rest.subrange(i, i + 1)[0] == '"');
            assert("\"\r\n\t"@[0] == '"');
            assert("\"\r\n\t"@.contains(executable[i]));
        }
    }
    lines::first_is_first(rest, mark, 0, executable.len() as int);
    assert(rest.take(executable.len() as int) =~= executable);
    let behind = rest.skip(executable.len() as int + 1);
    if arguments.len() > 0 {
        assert(behind =~= seq![' '] + arguments);
        let length = behind.len() as int;
        assert(text::is_space(behind[0]) && behind[1] == arguments[0]);
        assert(text::skip_space(behind, 0, length) == text::skip_space(behind, 1, length));
        assert(text::skip_space(behind, 1, length) == 1);
        assert(behind[length - 1] == arguments.last());
        assert(text::back_space(behind, 1, length) == length);
        assert(lines::trim(behind) =~= arguments);
    } else {
        assert(behind =~= Seq::empty());
        assert(lines::trim(behind) =~= arguments);
    }
    assert(command::parts_of(written) == (executable, arguments));
}

/// No two shells have the same name.
pub open spec fn all_differ(shells: Seq<ShellModel>) -> bool {
    forall|i: int, j: int|
        0 <= i < j < shells.len() ==> (#[trigger] shells[i]).name != (#[trigger] shells[j]).name
}

/// Shells that differ by name still do after one was kept, moved, taken away or
/// chosen.
pub proof fn names_stay_apart(
    shells: Seq<ShellModel>,
    index: int,
    what: i32,
    fields: FieldsModel,
)
    requires
        all_differ(shells),
        0 <= index < shells.len(),
        what != 2 && what != 3,
    ensures
        all_differ(profiles::changed(shells, index, what, fields)),
{
    let after = profiles::changed(shells, index, what, fields);
    if what == 1 && !profiles::is_refused(shells, index, fields) {
        let new = fields.trimmed().shell();
        assert forall|i: int, j: int| 0 <= i < j < after.len() implies (#[trigger] after[i]).name
            != (#[trigger] after[j]).name by {
            if i == index {
                assert(after[j] == shells[j]);
            } else if j == index {
                assert(after[i] == shells[i]);
            } else {
                assert(after[i] == shells[i] && after[j] == shells[j]);
            }
        }
    } else if what == 6 && shells.len() > 1 {
        assert forall|i: int, j: int| 0 <= i < j < after.len() implies (#[trigger] after[i]).name
            != (#[trigger] after[j]).name by {
            let a = if i < index {
                i
            } else {
                i + 1
            };
            let b = if j < index {
                j
            } else {
                j + 1
            };
            assert(after[i] == shells[a] && after[j] == shells[b]);
        }
    } else if (what == 4 && index > 0) || (what == 5 && index + 1 < shells.len()) {
        let other = if what == 4 {
            index - 1
        } else {
            index + 1
        };
        assert forall|i: int, j: int| 0 <= i < j < after.len() implies (#[trigger] after[i]).name
            != (#[trigger] after[j]).name by {
            let a = if i == index {
                other
            } else if i == other {
                index
            } else {
                i
            };
            let b = if j == index {
                other
            } else if j == other {
                index
            } else {
                j
            };
            assert(after[i] == shells[a] && after[j] == shells[b]);
            assert(a != b);
            if a < b {
                assert(shells[a].name != shells[b].name);
            } else {
                assert(shells[b].name != shells[a].name);
            }
        }
    }
}

} // verus!
