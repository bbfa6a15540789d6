//! The page on which the writer changes the shells.
use crate::lines;
use crate::terminal_shells::command;
use crate::terminal_shells::{self, ShellModel, TerminalShell};
use crate::text;
use vstd::prelude::*;

verus! {

/// What the page holds of one shell, as the writer sees it.
pub struct ProfileFields {
    pub name: String,
    pub executable: String,
    pub arguments: String,
    pub directory: String,
}

pub ghost struct FieldsModel {
    pub name: Seq<char>,
    pub executable: Seq<char>,
    pub arguments: Seq<char>,
    pub directory: Seq<char>,
}

impl View for ProfileFields {
    type V = FieldsModel;

    open spec fn view(&self) -> FieldsModel {
        FieldsModel {
            name: self.name@,
            executable: self.executable@,
            arguments: self.arguments@,
            directory: self.directory@,
        }
    }
}

impl FieldsModel {
    /// The fields of a shell.
    pub open spec fn of(shell: ShellModel) -> FieldsModel {
        let (executable, arguments) = command::parts_of(shell.command);
        FieldsModel { name: shell.name, executable, arguments, directory: shell.directory }
    }

    /// The fields without the white space around them.
    pub open spec fn trimmed(self) -> FieldsModel {
        FieldsModel {
            name: lines::trim(self.name),
            executable: lines::trim(self.executable),
            arguments: lines::trim(self.arguments),
            directory: lines::trim(self.directory),
        }
    }

    /// The shell that the fields give.
    pub open spec fn shell(self) -> ShellModel {
        ShellModel {
            name: self.name,
            command: lines::trim("\""@ + self.executable + "\" "@ + self.arguments),
            directory: self.directory,
        }
    }

    /// No shell can be kept so: it has no name or no program, or a character
    /// that would be read as something else.
    pub open spec fn is_broken(self) -> bool {
        ||| self.name.len() == 0
        ||| self.executable.len() == 0
        ||| text::holds_any(self.name, "|\r\n\t"@)
        ||| text::holds_any(self.executable, "\"\r\n\t"@)
        ||| text::holds_any(self.arguments, "\r\n\t"@)
        ||| text::holds_any(self.directory, "\r\n\t\""@)
    }
}

/// Another shell than that at `index` has the name.
pub open spec fn is_taken(shells: Seq<ShellModel>, index: int, name: Seq<char>) -> bool {
    exists|i: int| 0 <= i < shells.len() && i != index && (#[trigger] shells[i]).name == name
}

/// What the page shows.
pub struct ProfilePage {
    pub names: Vec<String>,
    pub index: usize,
    /// The shell that is shown is the one that terminals open with.
    pub is_default: bool,
    /// The fields, where there is a shell to show.
    pub fields: Option<ProfileFields>,
}

/// The name of a shell in the list.
pub open spec fn listed_name(name: Seq<char>, default_name: Seq<char>, english: bool) -> Seq<char> {
    if name == default_name {
        name + " ("@ + if english {
            "Default"@
        } else {
            "既定"@
        } + ")"@
    } else {
        name
    }
}

/// The place in a list of `count` that is nearest to `index`.
pub open spec fn nearest(index: int, count: nat) -> int {
    if count == 0 {
        0
    } else if index >= count {
        count - 1
    } else {
        index
    }
}

fn find_nearest(index: usize, count: usize) -> (out: usize)
    ensures
        out as int == nearest(index as int, count as nat),
        count > 0 ==> out < count,
{
    if count == 0 {
        0
    } else if index >= count {
        count - 1
    } else {
        index
    }
}

pub open spec fn optional_fields(fields: Option<ProfileFields>) -> Option<FieldsModel> {
    match fields {
        Some(held) => Some(held@),
        None => None,
    }
}

fn list_name(name: &str, default_name: &str, english: bool) -> (out: String)
    ensures
        out@ == listed_name(name@, default_name@, english),
{
    let mut out = name.to_owned();
    if text::same_text(name, default_name) {
        text::push_text(&mut out, " (");
        text::push_text(
            &mut out,
            if english {
                "Default"
            } else {
                "既定"
            },
        );
        text::push_text(&mut out, ")");
        assert(out@ =~= listed_name(name@, default_name@, english));
    }
    out
}

/// The page, with the shell at `index` shown, or the last where there are fewer.
pub fn publish(
    shells: &Vec<TerminalShell>,
    default_name: &str,
    index: usize,
    english: bool,
) -> (out: ProfilePage)
    ensures
        lines::texts(out.names@) == Seq::new(
            shells@.len(),
            |i: int| listed_name(shells@[i]@.name, default_name@, english),
        ),
        out.index as int == nearest(index as int, shells@.len()),
        out.is_default == (shells@.len() > 0 && shells@[out.index as int]@.name == default_name@),
        optional_fields(out.fields) == if shells@.len() > 0 {
            Some(FieldsModel::of(shells@[out.index as int]@))
        } else {
            None
        },
{
    let mut names: Vec<String> = Vec::new();
    let mut at: usize = 0;
    while at < shells.len()
        invariant
            at <= shells@.len(),
            names@.len() == at,
            forall|i: int|
                0 <= i < at ==> (#[trigger] names@[i])@ == listed_name(
                    shells@[i]@.name,
                    default_name@,
                    english,
                ),
        decreases shells@.len() - at,
    {
        names.push(list_name(shells[at].name.as_str(), default_name, english));
        at += 1;
    }
    assert(lines::texts(names@) =~= Seq::new(
        shells@.len(),
        |i: int| listed_name(shells@[i]@.name, default_name@, english),
    ));
    let index: usize = find_nearest(index, shells.len());
    if shells.len() == 0 {
        return ProfilePage { names, index, is_default: false, fields: None };
    }
    let shell = &shells[index];
    let (executable, arguments) = command::command_parts(shell.command.as_str());
    ProfilePage {
        names,
        index,
        is_default: text::same_text(shell.name.as_str(), default_name),
        fields: Some(
            ProfileFields {
                name: shell.name.clone(),
                executable,
                arguments,
                directory: shell.directory.clone(),
            },
        ),
    }
}

/// What the page asks for.
#[derive(Debug)]
pub enum ProfileStep {
    Nothing,
    /// Another shell is shown.
    Show(usize),
    /// The writer is told why nothing was done.
    Tell(&'static str),
    /// A terminal is opened in a folder.
    Open(String),
    /// The shells have changed: they are kept, the one at `index` is shown, and
    /// terminals open with the one called `default_name`.
    Keep { index: usize, default_name: String },
}

pub ghost enum StepModel {
    Nothing,
    Show(int),
    Tell(Seq<char>),
    Open(Seq<char>),
    Keep { index: int, default_name: Seq<char> },
}

impl View for ProfileStep {
    type V = StepModel;

    open spec fn view(&self) -> StepModel {
        match self {
            ProfileStep::Nothing => StepModel::Nothing,
            ProfileStep::Show(index) => StepModel::Show(*index as int),
            ProfileStep::Tell(words) => StepModel::Tell(words@),
            ProfileStep::Open(folder) => StepModel::Open(folder@),
            ProfileStep::Keep { index, default_name } => StepModel::Keep {
                index: *index as int,
                default_name: default_name@,
            },
        }
    }
}

pub open spec fn check_words(english: bool) -> Seq<char> {
    if english {
        "Check the name and executable; names must be unique and fields cannot contain line breaks"@
    } else {
        "名前と実行ファイルを確認してください。同じ名前や改行は使えません"@
    }
}

pub open spec fn choose_words(english: bool) -> Seq<char> {
    if english {
        "Choose a saved document"@
    } else {
        "保存済みの文書を選んでください"@
    }
}

/// The fields are refused.
pub open spec fn is_refused(shells: Seq<ShellModel>, index: int, fields: FieldsModel) -> bool {
    fields.trimmed().is_broken() || is_taken(shells, index, fields.trimmed().name)
}

/// A shell of a new profile.
pub open spec fn fresh_shell(number: nat) -> ShellModel {
    ShellModel {
        name: "Shell "@ + text::decimal(number),
        command: "powershell.exe -NoLogo"@,
        directory: Seq::empty(),
    }
}

/// A shell like another, under a name of its own.
pub open spec fn twin(shell: ShellModel, number: nat) -> ShellModel {
    ShellModel { name: shell.name + " ("@ + text::decimal(number) + ")"@, ..shell }
}

/// The shells after what the page asked for: 1 keeps the fields, 2 adds a shell,
/// 3 adds one like the one shown, 4 and 5 move it up and down, 6 takes it away.
pub open spec fn changed(
    shells: Seq<ShellModel>,
    index: int,
    what: i32,
    fields: FieldsModel,
) -> Seq<ShellModel> {
    if what == 1 && !is_refused(shells, index, fields) {
        shells.update(index, fields.trimmed().shell())
    } else if what == 2 {
        shells.push(fresh_shell(shells.len() + 1))
    } else if what == 3 {
        shells.push(twin(shells[index], shells.len() + 1))
    } else if what == 4 && index > 0 {
        shells.update(index, shells[index - 1]).update(index - 1, shells[index])
    } else if what == 5 && index + 1 < shells.len() {
        shells.update(index, shells[index + 1]).update(index + 1, shells[index])
    } else if what == 6 && shells.len() > 1 {
        shells.remove(index)
    } else {
        shells
    }
}

/// The shell that is shown after what the page asked for.
pub open spec fn shown_after(count: nat, index: int, what: i32) -> int {
    if what == 2 || what == 3 {
        count as int
    } else if what == 4 {
        index - 1
    } else if what == 5 {
        index + 1
    } else if what == 6 {
        nearest(index, (count - 1) as nat)
    } else {
        index
    }
}

/// The shell that terminals open with afterwards: 7 asks for the one shown, and
/// it keeps its part when its name changes.
pub open spec fn default_after(
    shells: Seq<ShellModel>,
    index: int,
    what: i32,
    fields: FieldsModel,
    default_name: Seq<char>,
) -> Seq<char> {
    if what == 7 {
        shells[index].name
    } else if what == 1 && shells[index].name == default_name {
        fields.trimmed().name
    } else {
        default_name
    }
}

/// The page asks for something that changes the shells.
pub open spec fn changes(shells: Seq<ShellModel>, index: int, what: i32, fields: FieldsModel) -> bool {
    ||| what == 1 && !is_refused(shells, index, fields)
    ||| what == 2
    ||| what == 3
    ||| what == 4 && index > 0
    ||| what == 5 && index + 1 < shells.len()
    ||| what == 6 && shells.len() > 1
    ||| what == 7
}

/// What is done for what the page asks for. `folder` is that of the document in
/// front, where it has one.
pub open spec fn step_for(
    shells: Seq<ShellModel>,
    index: int,
    default_name: Seq<char>,
    what: i32,
    at: i32,
    fields: FieldsModel,
    folder: Option<Seq<char>>,
    english: bool,
) -> StepModel {
    if changes(shells, index, what, fields) {
        StepModel::Keep {
            index: shown_after(shells.len(), index, what),
            default_name: default_after(shells, index, what, fields, default_name),
        }
    } else if what == 0 {
        StepModel::Show(
            if at < 0 {
                0
            } else {
                at as int
            },
        )
    } else if what == 1 {
        StepModel::Tell(check_words(english))
    } else if what == 8 {
        match folder {
            Some(folder) => StepModel::Open(folder),
            None => StepModel::Tell(choose_words(english)),
        }
    } else {
        StepModel::Nothing
    }
}

fn trim_fields(fields: &ProfileFields) -> (out: ProfileFields)
    ensures
        out@ == fields@.trimmed(),
{
    ProfileFields {
        name: lines::trim_text(fields.name.as_str()),
        executable: lines::trim_text(fields.executable.as_str()),
        arguments: lines::trim_text(fields.arguments.as_str()),
        directory: lines::trim_text(fields.directory.as_str()),
    }
}

fn is_empty(source: &str) -> (out: bool)
    ensures
        out == (source@.len() == 0),
{
    let chars = text::chars_of(source);
    chars.len() == 0
}

fn has_broken(fields: &ProfileFields) -> (out: bool)
    ensures
        out == fields@.is_broken(),
{
    is_empty(fields.name.as_str()) || is_empty(fields.executable.as_str()) || text::has_any(
        fields.name.as_str(),
        "|\r\n\t",
    ) || text::has_any(fields.executable.as_str(), "\"\r\n\t") || text::has_any(
        fields.arguments.as_str(),
        "\r\n\t",
    ) || text::has_any(fields.directory.as_str(), "\r\n\t\"")
}

fn name_taken(shells: &Vec<TerminalShell>, index: usize, name: &str) -> (out: bool)
    ensures
        out == is_taken(terminal_shells::models(shells@), index as int, name@),
{
    let ghost all = terminal_shells::models(shells@);
    let mut at: usize = 0;
    while at < shells.len()
        invariant
            at <= shells@.len(),
            all == terminal_shells::models(shells@),
            forall|i: int| 0 <= i < at && i != index ==> (#[trigger] all[i]).name != name@,
        decreases shells@.len() - at,
    {
        if at != index && text::same_text(shells[at].name.as_str(), name) {
            assert(all[at as int].name == name@);
            return true;
        }
        at += 1;
    }
    false
}

fn make_shell(fields: ProfileFields) -> (out: TerminalShell)
    ensures
        out@ == fields@.shell(),
{
    let mut whole = String::new();
    text::push_text(&mut whole, "\"");
    text::push_text(&mut whole, fields.executable.as_str());
    text::push_text(&mut whole, "\" ");
    text::push_text(&mut whole, fields.arguments.as_str());
    assert(whole@ =~= "\""@ + fields@.executable + "\" "@ + fields@.arguments);
    TerminalShell {
        name: fields.name,
        command: lines::trim_text(whole.as_str()),
        directory: fields.directory,
    }
}

fn make_fresh(number: u64) -> (out: TerminalShell)
    ensures
        out@ == fresh_shell(number as nat),
{
    let mut name = String::new();
    text::push_text(&mut name, "Shell ");
    text::push_decimal(&mut name, number);
    let out = TerminalShell {
        name,
        command: "powershell.exe -NoLogo".to_owned(),
        directory: String::new(),
    };
    assert(out@.name =~= fresh_shell(number as nat).name);
    assert(out@.directory =~= Seq::empty());
    out
}

fn make_twin(shell: &TerminalShell, number: u64) -> (out: TerminalShell)
    ensures
        out@ == twin(shell@, number as nat),
{
    let mut out = shell.copied();
    text::push_text(&mut out.name, " (");
    text::push_decimal(&mut out.name, number);
    text::push_text(&mut out.name, ")");
    assert(out@.name =~= twin(shell@, number as nat).name);
    out
}

/// Does what the page asks for.
///
/// 0 shows another shell, 7 makes the one shown the one that terminals open
/// with, and 8 opens a terminal in the folder of the document in front. A list
/// without shells has none to keep, to copy or to choose.
pub fn action(
    shells: &mut Vec<TerminalShell>,
    index: i32,
    default_name: &str,
    what: i32,
    at: i32,
    fields: &ProfileFields,
    folder: &Option<String>,
    english: bool,
) -> (out: ProfileStep)
    requires
        old(shells)@.len() < usize::MAX,
        old(shells)@.len() == 0 ==> what != 3 && what != 7 && (what == 1 ==> is_refused(
            Seq::empty(),
            0,
            fields@,
        )),
    ensures
        ({
            let before = terminal_shells::models(old(shells)@);
            let place = nearest(
                if index < 0 {
                    0
                } else {
                    index as int
                },
                before.len(),
            );
            &&& terminal_shells::models(final(shells)@) == changed(before, place, what, fields@)
            &&& out@ == step_for(
                before,
                place,
                default_name@,
                what,
                at,
                fields@,
                lines::optional(*folder),
                english,
            )
        }),
{
    let ghost before = terminal_shells::models(shells@);
    let count: usize = shells.len();
    let index: usize = find_nearest(
        if index < 0 {
            0
        } else {
            index as usize
        },
        count,
    );
    let number: u64 = count as u64 + 1;
    assert(before =~= terminal_shells::models(shells@));
    let editing_default: bool = count > 0 && text::same_text(
        shells[index].name.as_str(),
        default_name,
    );
    if what == 0 {
        return ProfileStep::Show(
            if at < 0 {
                0
            } else {
                at as usize
            },
        );
    }
    if what == 1 {
        let wanted = trim_fields(fields);
        if has_broken(&wanted) || name_taken(shells, index, wanted.name.as_str()) {
            proof {
                assert(before.len() == 0 ==> before =~= Seq::empty());
            }
            return ProfileStep::Tell(
                if english {
                    "Check the name and executable; names must be unique and fields cannot contain line breaks"
                } else {
                    "名前と実行ファイルを確認してください。同じ名前や改行は使えません"
                },
            );
        }
        assert(before.len() == 0 ==> before =~= Seq::empty());
        let name = wanted.name.clone();
        let new = make_shell(wanted);
        let ghost model = new@;
        shells.set(index, new);
        assert(terminal_shells::models(shells@) =~= before.update(index as int, model));
        let default_name = if editing_default {
            name
        } else {
            default_name.to_owned()
        };
        return ProfileStep::Keep { index, default_name };
    }
    if what == 2 {
        let new = make_fresh(number);
        let ghost model = new@;
        shells.push(new);
        assert(terminal_shells::models(shells@) =~= before.push(model));
        return ProfileStep::Keep { index: count, default_name: default_name.to_owned() };
    }
    if what == 3 {
        let new = make_twin(&shells[index], number);
        let ghost model = new@;
        shells.push(new);
        assert(terminal_shells::models(shells@) =~= before.push(model));
        return ProfileStep::Keep { index: count, default_name: default_name.to_owned() };
    }
    if what == 4 && index > 0 {
        let one = shells[index].copied();
        let two = shells[index - 1].copied();
        shells.set(index, two);
        shells.set(index - 1, one);
        assert(terminal_shells::models(shells@) =~= changed(before, index as int, what, fields@));
        return ProfileStep::Keep { index: index - 1, default_name: default_name.to_owned() };
    }
    if what == 5 && count - index > 1 {
        let one = shells[index].copied();
        let two = shells[index + 1].copied();
        shells.set(index, two);
        shells.set(index + 1, one);
        assert(terminal_shells::models(shells@) =~= changed(before, index as int, what, fields@));
        return ProfileStep::Keep { index: index + 1, default_name: default_name.to_owned() };
    }
    if what == 6 && count > 1 {
        shells.remove(index);
        assert(terminal_shells::models(shells@) =~= before.remove(index as int));
        let index: usize = find_nearest(index, count - 1);
        return ProfileStep::Keep { index, default_name: default_name.to_owned() };
    }
    if what == 7 {
        return ProfileStep::Keep { index, default_name: shells[index].name.clone() };
    }
    if what == 8 {
        return match folder {
            Some(folder) => ProfileStep::Open(folder.clone()),
            None => ProfileStep::Tell(
                if english {
                    "Choose a saved document"
                } else {
                    "保存済みの文書を選んでください"
                },
            ),
        };
    }
    ProfileStep::Nothing
}

} // verus!
