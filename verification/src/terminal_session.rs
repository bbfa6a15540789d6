//! One shell and the screen it writes on.
//!
//! The shell itself runs elsewhere. What arrives from it comes in here, and what
//! is to be written to it comes out. Everything that waits is applied before
//! one repaint, so that a program that prints thousands of lines costs the
//! window a frame rather than a frame for each line.
pub mod laws;

use crate::terminal::model::ScreenModel;
use crate::terminal::stream::ParserModel;
use crate::terminal::{encode_key, encode_paste, keys, Key, Modes, Modifiers, Screen, Terminal};
use vstd::prelude::*;
use vstd::utf8;

verus! {

/// A running shell's screen.
pub struct TerminalSession {
    /// What to call this shell on its tab: the name that the writer chose, not
    /// the command.
    pub name: String,
    pub terminal: Terminal,
    /// The shell has exited. The screen stays: what it said last is often the
    /// reason.
    pub finished: bool,
}

pub ghost struct SessionModel {
    pub name: Seq<char>,
    pub screen: ScreenModel,
    pub parser: ParserModel,
    pub finished: bool,
}

impl View for TerminalSession {
    type V = SessionModel;

    open spec fn view(&self) -> SessionModel {
        SessionModel {
            name: self.name@,
            screen: self.terminal.screen@,
            parser: self.terminal.parser@,
            finished: self.finished,
        }
    }
}

/// What applying the output of the shell came to.
pub struct Drained {
    /// The screen is no longer the one that was shown.
    pub changed: bool,
    /// What the shell asked for: it is written to the shell.
    pub replies: Vec<u8>,
}

/// What came of waiting for the shell.
pub enum Waited {
    Said(Vec<u8>),
    Silent,
    /// The reading side has stopped.
    Closed,
}

impl SessionModel {
    #[verifier::opaque]
    pub open spec fn wf(self) -> bool {
        self.screen.wf() && self.parser.wf()
    }

    /// Every byte of what arrived can be read on a screen of this size.
    #[verifier::opaque]
    pub open spec fn can_read(self, bytes: Seq<u8>) -> bool {
        self.parser.all_fit(self.screen.columns, self.screen.rows, bytes)
    }

    /// The session after one read.
    #[verifier::opaque]
    pub open spec fn heard(self, bytes: Seq<u8>) -> SessionModel {
        SessionModel {
            screen: self.parser.screen_after(self.screen, bytes),
            parser: self.parser.after(bytes),
            ..self
        }
    }

    /// The session after the first `n` of some reads.
    pub open spec fn after_reads(self, reads: Seq<Seq<u8>>, n: int) -> SessionModel
        decreases n,
    {
        if n <= 0 {
            self
        } else {
            self.after_reads(reads, n - 1).heard(reads[n - 1])
        }
    }

    /// Every one of these reads can be read when its turn comes.
    pub open spec fn can_read_all(self, reads: Seq<Seq<u8>>) -> bool {
        forall|i: int|
            0 <= i < reads.len() ==> self.after_reads(reads, i).can_read(#[trigger] reads[i])
    }

    /// The session once everything has been applied and every question has been
    /// answered. The shell is done when nothing is left of it: the pipe does not
    /// say so, so the process is asked, and only where there was nothing to
    /// read.
    pub open spec fn drained(self, reads: Seq<Seq<u8>>, gone: bool) -> SessionModel {
        let after = self.after_reads(reads, reads.len() as int);
        SessionModel {
            screen: ScreenModel { replies: Seq::empty(), ..after.screen },
            finished: after.finished || (reads.len() == 0 && gone),
            ..after
        }
    }
}

pub open spec fn reads_of(chunks: Seq<Vec<u8>>) -> Seq<Seq<u8>> {
    Seq::new(chunks.len(), |i: int| chunks[i]@)
}

/// The lower sixteen bits of a number, as the console takes it.
pub open spec fn console_size(number: usize) -> u16 {
    (number % 65536) as u16
}

fn to_console(number: usize) -> (out: u16)
    ensures
        out == console_size(number),
{
    (number % 65536) as u16
}

impl TerminalSession {
    /// A shell that has just been started, on a screen of this size.
    pub fn start(name: &str, columns: usize, rows: usize) -> (out: Self)
        ensures
            out@ == (SessionModel {
                name: name@,
                screen: ScreenModel::blank(columns, rows),
                parser: ParserModel::start(),
                finished: false,
            }),
            out@.wf(),
    {
        reveal(SessionModel::wf);
        TerminalSession {
            name: name.to_owned(),
            terminal: Terminal::new(columns, rows),
            finished: false,
        }
    }

    pub fn name(&self) -> (out: &str)
        ensures
            out@ == self@.name,
    {
        self.name.as_str()
    }

    pub fn screen(&self) -> (out: &Screen)
        ensures
            out@ == self@.screen,
    {
        &self.terminal.screen
    }

    /// The shell has exited, and everything it wrote has been applied.
    pub fn finished(&self) -> (out: bool)
        ensures
            out == self@.finished,
    {
        self.finished
    }

    fn hear(&mut self, bytes: &Vec<u8>)
        requires
            old(self)@.wf(),
            old(self)@.can_read(bytes@),
        ensures
            final(self)@ == old(self)@.heard(bytes@),
            final(self)@.wf(),
    {
        proof {
            reveal(SessionModel::wf);
            reveal(SessionModel::can_read);
            reveal(SessionModel::heard);
        }
        self.terminal.feed(bytes.as_slice());
    }

    /// Applies everything that has arrived. `gone` says that the reading side
    /// has stopped or that the process has exited.
    pub fn drain(&mut self, chunks: &Vec<Vec<u8>>, gone: bool) -> (out: Drained)
        requires
            old(self)@.wf(),
            old(self)@.can_read_all(reads_of(chunks@)),
        ensures
            final(self)@ == old(self)@.drained(reads_of(chunks@), gone),
            final(self)@.wf(),
            out.changed == (final(self)@.screen.revision != old(self)@.screen.revision),
            out.replies@ == old(self)@.after_reads(
                reads_of(chunks@),
                chunks@.len() as int,
            ).screen.replies,
    {
        let ghost first = self@;
        let ghost reads = reads_of(chunks@);
        let before: u64 = self.terminal.screen.revision();
        let mut at: usize = 0;
        while at < chunks.len()
            invariant
                at <= chunks@.len(),
                reads == reads_of(chunks@),
                first.can_read_all(reads),
                self@ == first.after_reads(reads, at as int),
                self@.wf(),
            decreases chunks@.len() - at,
        {
            assert(reads[at as int] == chunks@[at as int]@);
            self.hear(&chunks[at]);
            at += 1;
        }
        let replies = self.answer();
        if chunks.len() == 0 && gone {
            reveal(SessionModel::wf);
            self.finished = true;
        }
        Drained { changed: self.terminal.screen.revision() != before, replies }
    }

    /// Takes what came of waiting, and applies what has arrived behind it.
    /// `true` where the shell said something.
    pub fn wait(&mut self, waited: &Waited, chunks: &Vec<Vec<u8>>, gone: bool) -> (out: (
        bool,
        Vec<u8>,
    ))
        requires
            old(self)@.wf(),
            match *waited {
                Waited::Said(bytes) => old(self)@.can_read(bytes@) && old(self)@.heard(
                    bytes@,
                ).can_read_all(reads_of(chunks@)),
                Waited::Silent => old(self)@.can_read_all(reads_of(chunks@)),
                Waited::Closed => true,
            },
        ensures
            out.0 == (*waited is Said),
            final(self)@.wf(),
            match *waited {
                Waited::Said(bytes) => {
                    &&& final(self)@ == old(self)@.heard(bytes@).drained(reads_of(chunks@), gone)
                    &&& out.1@ == old(self)@.heard(bytes@).after_reads(
                        reads_of(chunks@),
                        chunks@.len() as int,
                    ).screen.replies
                },
                Waited::Silent => {
                    &&& final(self)@ == old(self)@.drained(reads_of(chunks@), gone)
                    &&& out.1@ == old(self)@.after_reads(
                        reads_of(chunks@),
                        chunks@.len() as int,
                    ).screen.replies
                },
                Waited::Closed => {
                    &&& final(self)@ == (SessionModel { finished: true, ..old(self)@ })
                    &&& out.1@.len() == 0
                },
            },
    {
        match waited {
            Waited::Said(bytes) => {
                self.hear(bytes);
                let drained = self.drain(chunks, gone);
                (true, drained.replies)
            },
            Waited::Silent => {
                let drained = self.drain(chunks, gone);
                (false, drained.replies)
            },
            Waited::Closed => {
                reveal(SessionModel::wf);
                self.finished = true;
                (false, Vec::new())
            },
        }
    }

    /// What the shell asked for. A question left unanswered is a program left
    /// waiting.
    fn answer(&mut self) -> (out: Vec<u8>)
        ensures
            out@ == old(self)@.screen.replies,
            final(self)@ == (SessionModel {
                screen: ScreenModel { replies: Seq::empty(), ..old(self)@.screen },
                ..old(self)@
            }),
            old(self)@.wf() ==> final(self)@.wf(),
    {
        reveal(SessionModel::wf);
        self.terminal.screen.take_replies()
    }

    /// What is written to the shell for a key.
    pub fn send_key(&self, key: Key, modifiers: Modifiers) -> (out: Option<Vec<u8>>)
        ensures
            written(out) == sent(keys::key_bytes(key, modifiers, self@.screen.modes)),
    {
        let bytes = encode_key(key, modifiers, self.terminal.screen.modes());
        Self::send(bytes)
    }

    /// What is written to the shell for text that is pasted.
    pub fn paste(&self, text: &str) -> (out: Option<Vec<u8>>)
        ensures
            written(out) == sent(pasted(text@, self@.screen.modes)),
    {
        let bytes = encode_paste(text, self.terminal.screen.modes());
        Self::send(bytes)
    }

    /// Bytes as they are; nothing is written where there are none.
    pub fn send(bytes: Vec<u8>) -> (out: Option<Vec<u8>>)
        ensures
            written(out) == sent(bytes@),
    {
        if bytes.len() == 0 {
            None
        } else {
            Some(bytes)
        }
    }

    /// The pane has a new size. The screen takes it first, so that what the
    /// shell writes in answer lands on a grid of the right shape; then the
    /// console is told, with the size that is handed back.
    pub fn resize(&mut self, columns: usize, rows: usize) -> (out: Option<(u16, u16)>)
        requires
            old(self)@.wf(),
        ensures
            final(self)@.wf(),
            columns == old(self)@.screen.columns && rows == old(self)@.screen.rows ==> out is None
                && final(self)@ == old(self)@,
            columns != old(self)@.screen.columns || rows != old(self)@.screen.rows ==> out == Some(
                (console_size(columns), console_size(rows)),
            ) && final(self)@ == (SessionModel {
                screen: old(self)@.screen.resize(columns, rows),
                ..old(self)@
            }),
    {
        reveal(SessionModel::wf);
        if columns == self.terminal.screen.columns() && rows == self.terminal.screen.rows() {
            return None;
        }
        self.terminal.screen.resize(columns, rows);
        Some((to_console(columns), to_console(rows)))
    }
}

/// What is written of some bytes: nothing where there are none.
pub open spec fn sent(bytes: Seq<u8>) -> Option<Seq<u8>> {
    if bytes.len() == 0 {
        None
    } else {
        Some(bytes)
    }
}

pub open spec fn written(bytes: Option<Vec<u8>>) -> Option<Seq<u8>> {
    match bytes {
        Some(held) => Some(held@),
        None => None,
    }
}

/// Text as it is pasted, between marks where the shell asked for them.
pub open spec fn pasted(text: Seq<char>, modes: Modes) -> Seq<u8> {
    let bytes = utf8::encode_utf8(keys::with_returns(text));
    if modes.bracketed_paste {
        keys::paste_start() + bytes + keys::paste_end()
    } else {
        bytes
    }
}

} // verus!
