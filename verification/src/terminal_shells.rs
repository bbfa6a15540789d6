//! The shells that a terminal can be opened with, and how the writer changes
//! them. Shells that already run are left as they are.
pub mod command;
pub mod deeds;
pub mod laws;
pub mod profiles;

pub use command::{command_parts, launch, launch_by};
pub use profiles::{action, publish, ProfileFields, ProfilePage, ProfileStep};

use crate::lines;
use crate::text;
use vstd::prelude::*;

verus! {

/// One shell: what it is called, how it is started and where.
#[derive(Clone, Debug, PartialEq)]
pub struct TerminalShell {
    pub name: String,
    pub command: String,
    pub directory: String,
}

pub ghost struct ShellModel {
    pub name: Seq<char>,
    pub command: Seq<char>,
    pub directory: Seq<char>,
}

impl View for TerminalShell {
    type V = ShellModel;

    open spec fn view(&self) -> ShellModel {
        ShellModel { name: self.name@, command: self.command@, directory: self.directory@ }
    }
}

pub open spec fn models(shells: Seq<TerminalShell>) -> Seq<ShellModel> {
    Seq::new(shells.len(), |i: int| shells[i]@)
}

impl ShellModel {
    /// The line that keeps a shell: its three parts, with tabs between.
    pub open spec fn written(self) -> Seq<char> {
        self.name + seq!['\t'] + self.command + seq!['\t'] + self.directory
    }

    /// The shell that a line keeps.
    pub open spec fn read(line: Seq<char>) -> Option<ShellModel> {
        let parts = lines::split(line, '\t');
        if parts.len() == 3 {
            Some(ShellModel { name: parts[0], command: parts[1], directory: parts[2] })
        } else {
            None
        }
    }
}

pub open spec fn optional_model(shell: Option<TerminalShell>) -> Option<ShellModel> {
    match shell {
        Some(held) => Some(held@),
        None => None,
    }
}

impl TerminalShell {
    /// The program that the command names.
    pub fn program(&self) -> (out: String)
        ensures
            out@ == command::parts_of(self@.command).0,
    {
        command_parts(self.command.as_str()).0
    }

    /// The line that keeps this shell.
    pub fn written(&self) -> (out: String)
        ensures
            out@ == self@.written(),
    {
        let mut out = String::new();
        text::push_text(&mut out, self.name.as_str());
        out.push('\t');
        text::push_text(&mut out, self.command.as_str());
        out.push('\t');
        text::push_text(&mut out, self.directory.as_str());
        assert(out@ =~= self@.written());
        out
    }

    /// The shell that a line keeps.
    pub fn read(line: &str) -> (out: Option<TerminalShell>)
        ensures
            optional_model(out) == ShellModel::read(line@),
    {
        let parts = lines::split_at(line, '\t');
        proof {
            assert(lines::texts(parts@).len() == parts@.len());
            if parts@.len() == 3 {
                assert(lines::texts(parts@)[0] == parts@[0]@);
                assert(lines::texts(parts@)[1] == parts@[1]@);
                assert(lines::texts(parts@)[2] == parts@[2]@);
            }
        }
        if parts.len() != 3 {
            return None;
        }
        Some(
            TerminalShell {
                name: parts[0].clone(),
                command: parts[1].clone(),
                directory: parts[2].clone(),
            },
        )
    }

    /// Another shell of the same kind.
    pub fn copied(&self) -> (out: TerminalShell)
        ensures
            out@ == self@,
    {
        TerminalShell {
            name: self.name.clone(),
            command: self.command.clone(),
            directory: self.directory.clone(),
        }
    }
}

} // verus!
