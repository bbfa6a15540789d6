//! How a shell is started.
use crate::lines;
use crate::tags::query;
use crate::terminal_shells::{ShellModel, TerminalShell};
use crate::text;
use vstd::prelude::*;

verus! {

/// The program of a command, and what stands behind it. A program that holds
/// spaces is written between quotation marks.
pub open spec fn parts_of(command: Seq<char>) -> (Seq<char>, Seq<char>) {
    let held = lines::trim(command);
    if held.len() > 0 && held[0] == '"' && lines::cut(held.skip(1), "\""@) is Some {
        let (program, rest) = lines::cut(held.skip(1), "\""@)->0;
        (program, lines::trim(rest))
    } else {
        let end = query::word_end(held, 0);
        if end < held.len() {
            (held.take(end), lines::trim(held.skip(end + 1)))
        } else {
            (held, Seq::empty())
        }
    }
}

/// [`parts_of`], of a string.
pub fn command_parts(command: &str) -> (out: (String, String))
    ensures
        (out.0@, out.1@) == parts_of(command@),
{
    let held = lines::trim_text(command);
    let chars = text::chars_of(held.as_str());
    proof {
        reveal_strlit("\"");
    }
    if chars.len() > 0 && chars[0] == '"' {
        let rest = text::string_range(&chars, 1, chars.len());
        assert(rest@ =~= held@.skip(1));
        if let Some((program, behind)) = lines::split_once(rest.as_str(), "\"") {
            let arguments = lines::trim_text(behind.as_str());
            return (program, arguments);
        }
    }
    let mut at: usize = 0;
    while at < chars.len() && !text::is_white(chars[at])
        invariant
            at <= chars@.len(),
            chars@ == held@,
            query::word_end(held@, 0) == query::word_end(held@, at as int),
        decreases chars@.len() - at,
    {
        at += 1;
    }
    if at < chars.len() {
        let program = text::string_range(&chars, 0, at);
        let behind = text::string_range(&chars, at + 1, chars.len());
        assert(program@ =~= held@.take(at as int));
        assert(behind@ =~= held@.skip(at + 1));
        let arguments = lines::trim_text(behind.as_str());
        (program, arguments)
    } else {
        let none = String::new();
        assert(none@ =~= Seq::empty());
        (held, none)
    }
}

/// The last part of a path: what stands behind its last stroke.
pub open spec fn last_part(path: Seq<char>) -> Seq<char>
    decreases path.len(),
{
    if path.len() == 0 || path.last() == '/' {
        Seq::empty()
    } else {
        last_part(path.drop_last()).push(path.last())
    }
}

/// Where the last point of a name is.
pub open spec fn last_point(name: Seq<char>, to: int) -> int
    decreases to,
{
    if to <= 0 {
        -1
    } else if name[to - 1] == '.' {
        to - 1
    } else {
        last_point(name, to - 1)
    }
}

/// A file's name without what stands behind its last point. A name that begins
/// with its only point is whole.
pub open spec fn stem_of(name: Seq<char>) -> Seq<char> {
    let point = last_point(name, name.len() as int);
    if point > 0 {
        name.take(point)
    } else {
        name
    }
}

/// A path that every system takes apart alike: with strokes alone, and with a
/// last part that names a file.
pub open spec fn is_plain_path(path: Seq<char>) -> bool {
    let last = last_part(path);
    &&& !path.contains('\\')
    &&& !(path.len() >= 2 && path[0] == '/' && path[1] == '/')
    &&& last.len() > 0
    &&& !last.contains(':')
    &&& last != seq!['.']
    &&& last != seq!['.', '.']
}

/// `Path::file_stem`: the last part of a path without its ending, as text. What
/// parts a path is the system's affair, so nothing is said of a path with
/// backslashes, of one that begins as the name of another machine does, of a
/// drive, or of one that names no file.
#[verifier::external_body]
fn file_stem(path: &str) -> (out: Option<String>)
    ensures
        is_plain_path(path@) ==> lines::optional(out) == Some(stem_of(last_part(path@))),
{
    std::path::Path::new(path).file_stem().map(|stem| stem.to_string_lossy().into_owned())
}

/// A program that takes folders of its own system, and so is told where to begin
/// by what stands behind its name.
pub open spec fn is_wsl(stem: Option<Seq<char>>) -> bool {
    match stem {
        Some(stem) => text::alike(stem, "wsl"@),
        None => false,
    }
}

/// How a shell is started: the command, and the folder it begins in, where the
/// system is told of one. `stem` is the name of its program, without its ending.
pub open spec fn launched(shell: ShellModel, stem: Option<Seq<char>>) -> (Seq<char>, Option<Seq<char>>) {
    let folder = lines::trim(shell.directory);
    let (program, arguments) = parts_of(shell.command);
    if is_wsl(stem) && ((folder.len() > 0 && folder[0] == '/') || folder == "~"@) {
        (
            "\""@ + program + "\" --cd \""@ + lines::replaced(folder, "\""@, "\\\""@) + "\" "@
                + arguments,
            None,
        )
    } else {
        (
            shell.command,
            if folder.len() == 0 {
                None
            } else {
                Some(folder)
            },
        )
    }
}

/// How a shell is started, where the name of its program is known.
pub fn launch_by(shell: &TerminalShell, stem: &Option<String>) -> (out: (String, Option<String>))
    ensures
        (out.0@, lines::optional(out.1)) == launched(shell@, lines::optional(*stem)),
{
    proof {
        reveal_strlit("\"");
    }
    let folder = lines::trim_text(shell.directory.as_str());
    let chars = text::chars_of(folder.as_str());
    let wsl: bool = match stem {
        Some(stem) => text::is_alike(stem.as_str(), "wsl"),
        None => false,
    };
    if wsl && ((chars.len() > 0 && chars[0] == '/') || text::same_text(folder.as_str(), "~")) {
        let (program, arguments) = command_parts(shell.command.as_str());
        let path = lines::replace_all(folder.as_str(), "\"", "\\\"");
        let mut out = String::new();
        text::push_text(&mut out, "\"");
        text::push_text(&mut out, program.as_str());
        text::push_text(&mut out, "\" --cd \"");
        text::push_text(&mut out, path.as_str());
        text::push_text(&mut out, "\" ");
        text::push_text(&mut out, arguments.as_str());
        assert(out@ =~= launched(shell@, lines::optional(*stem)).0);
        (out, None)
    } else if chars.len() == 0 {
        (shell.command.clone(), None)
    } else {
        (shell.command.clone(), Some(folder))
    }
}

/// How a shell is started.
pub fn launch(shell: &TerminalShell) -> (out: (String, Option<String>))
    ensures
        is_plain_path(parts_of(shell@.command).0) ==> (out.0@, lines::optional(out.1)) == launched(
            shell@,
            Some(stem_of(last_part(parts_of(shell@.command).0))),
        ),
        (out.0@, lines::optional(out.1)) == launched(shell@, Some("wsl"@)) || (
            out.0@,
            lines::optional(out.1),
        ) == launched(shell@, None),
{
    let (program, arguments) = command_parts(shell.command.as_str());
    let stem = file_stem(program.as_str());
    proof {
        assert(text::alike("wsl"@, "wsl"@));
    }
    launch_by(shell, &stem)
}

} // verus!
