//! Taking the output of a shell into a panel, and writing it to a file.
use crate::saving::document;
use crate::terminal_panels::tab::{PanelDocument, PanelModel};
use crate::text;
use vstd::prelude::*;

verus! {

/// What came of looking for output.
pub struct Collected {
    /// The text of the panel is another.
    pub changed: bool,
    /// What is to be written to the file now.
    pub write: Option<String>,
}

/// What is to be done as the taking in of output ends.
pub struct Stopped {
    /// What is to be written to the file yet.
    pub tail: Option<String>,
    /// The shell that is no longer listened to.
    pub session: Option<u64>,
}

/// How many characters of a text stand before its last `tail`.
pub open spec fn before_tail(text: Seq<char>, tail: int) -> int {
    if tail > text.len() {
        0
    } else {
        text.len() - tail
    }
}

fn count_of(source: &str) -> (out: usize)
    ensures
        out == source@.len(),
{
    let chars = text::chars_of(source);
    chars.len()
}

/// A text with its tail replaced by new lines and a new tail; nothing where it
/// would be the same.
fn merge(source: &str, tail: usize, completed: &str, pending: &str) -> (out: Option<String>)
    ensures
        ({
            let keep = before_tail(source@, tail as int);
            let news = completed@.len() > 0 || source@.skip(keep) != pending@;
            match out {
                Some(new) => news && new@ == source@.take(keep) + completed@ + pending@,
                None => !news,
            }
        }),
{
    let old = text::chars_of(source);
    let keep: usize = if tail > old.len() {
        0
    } else {
        old.len() - tail
    };
    let rest = text::string_range(&old, keep, old.len());
    assert(rest@ =~= source@.skip(keep as int));
    if count_of(completed) == 0 && text::same_text(rest.as_str(), pending) {
        return None;
    }
    let mut new = text::string_range(&old, 0, keep);
    text::push_text(&mut new, completed);
    text::push_text(&mut new, pending);
    assert(new@ =~= source@.take(keep as int) + completed@ + pending@);
    Some(new)
}

impl PanelModel {
    /// How many characters of the text will not change any more.
    pub open spec fn settled(self) -> int {
        before_tail(self.text, self.pending_tail)
    }

    /// The part of the text that may still change.
    pub open spec fn tail(self) -> Seq<char> {
        self.text.skip(self.settled())
    }

    /// The output says something that the text does not.
    pub open spec fn is_news(self, completed: Seq<char>, pending: Seq<char>) -> bool {
        completed.len() > 0 || self.tail() != pending
    }

    /// The panel after output has been taken in: the lines that are complete, and
    /// the one that may still change in place of the one that could before.
    pub open spec fn taken_in(self, completed: Seq<char>, pending: Seq<char>) -> PanelModel {
        let next = if self.is_news(completed, pending) {
            self.with_text(self.text.take(self.settled()) + completed + pending)
        } else {
            self
        };
        PanelModel { pending_tail: pending.len() as int, ..next }
    }

    /// The panel after a look for output, which may be none.
    pub open spec fn collected(self, update: Option<(Seq<char>, Seq<char>)>) -> PanelModel {
        match update {
            Some(told) => if self.capture is Some {
                self.taken_in(told.0, told.1)
            } else {
                self
            },
            None => self,
        }
    }

    /// The panel once no more output is taken in.
    pub open spec fn stopped(self) -> PanelModel {
        let next = PanelModel { file_log: false, ..self };
        if self.capture is Some {
            PanelModel {
                capture: None,
                viewer: self.before_read_only,
                pending_tail: 0,
                ..next
            }
        } else {
            next
        }
    }

    /// The panel once the file could not be written: what was taken in is kept.
    pub open spec fn unlogged(self, error: Seq<char>) -> PanelModel {
        PanelModel { file_log: false, file_error: Some(error), ..self }
    }

    /// The panel once the output of a shell is taken in.
    pub open spec fn capturing(self, session: u64, log_name: Seq<char>) -> PanelModel {
        PanelModel {
            before_read_only: self.viewer,
            viewer: true,
            capture: Some(session),
            pending_tail: 0,
            log_name: Some(log_name),
            ..self
        }
    }
}

pub open spec fn told(update: Option<(String, String)>) -> Option<(Seq<char>, Seq<char>)> {
    match update {
        Some(both) => Some((both.0@, both.1@)),
        None => None,
    }
}

/// How many whole characters of a text end no later than a byte offset.
pub open spec fn floor_place(text: Seq<char>, byte: int) -> int
    decreases text.len(),
{
    if text.len() == 0 || byte < text::utf8_len(text[0]) {
        0
    } else {
        1 + floor_place(text.skip(1), byte - text::utf8_len(text[0]))
    }
}

fn find_place(chars: &Vec<char>, byte: usize) -> (out: usize)
    ensures
        out as int == floor_place(chars@, byte as int),
        out <= chars@.len(),
{
    let mut at: usize = 0;
    let mut left: usize = byte;
    assert(chars@.skip(0) =~= chars@);
    while at < chars.len()
        invariant
            at <= chars@.len(),
            floor_place(chars@, byte as int) == at + floor_place(
                chars@.skip(at as int),
                left as int,
            ),
        decreases chars@.len() - at,
    {
        assert(chars@.skip(at as int)[0] == chars@[at as int]);
        assert(chars@.skip(at as int).skip(1) =~= chars@.skip(at + 1));
        let width: usize = text::width_in_utf8(chars[at]);
        if left < width {
            return at;
        }
        left -= width;
        at += 1;
    }
    at
}

impl PanelDocument {
    /// Takes in what a shell has written: `update` holds the lines that are
    /// complete and the one that may still change, where the shell is listened
    /// to.
    pub fn collect(&mut self, update: &Option<(String, String)>) -> (out: Collected)
        ensures
            final(self)@ == old(self)@.collected(told(*update)),
            out.changed == (old(self)@.capture is Some && match told(*update) {
                Some(both) => old(self)@.is_news(both.0, both.1),
                None => false,
            }),
            document::optional_text(out.write) == match told(*update) {
                Some(both) => if old(self)@.file_log && old(self)@.capture is Some {
                    Some(both.0)
                } else {
                    None
                },
                None => None,
            },
    {
        if self.capture.is_none() {
            return Collected { changed: false, write: None };
        }
        match update {
            Some((completed, pending)) => {
                let ghost before = self@;
                let new = merge(
                    self.text.as_str(),
                    self.pending_tail,
                    completed.as_str(),
                    pending.as_str(),
                );
                let changed: bool = new.is_some();
                if let Some(new) = new {
                    self.set_text(new);
                }
                self.pending_tail = count_of(pending.as_str());
                assert(self@ == before.taken_in(completed@, pending@));
                let write = if self.file_log {
                    Some(completed.clone())
                } else {
                    None
                };
                Collected { changed, write }
            },
            None => Collected { changed: false, write: None },
        }
    }

    /// The file could not be written.
    pub fn log_failed(&mut self, error: String)
        ensures
            final(self)@ == old(self)@.unlogged(error@),
    {
        self.file_log = false;
        self.file_error = Some(error);
    }

    /// Ends the taking in of output, once what is left of it has been collected.
    pub fn stop(&mut self) -> (out: Stopped)
        ensures
            final(self)@ == old(self)@.stopped(),
            document::optional_text(out.tail) == if old(self)@.file_log {
                Some(old(self)@.tail())
            } else {
                None
            },
            out.session == old(self)@.capture,
    {
        let ghost before = self@;
        let tail = if self.file_log {
            let chars = text::chars_of(self.text.as_str());
            let keep: usize = if self.pending_tail > chars.len() {
                0
            } else {
                chars.len() - self.pending_tail
            };
            let rest = text::string_range(&chars, keep, chars.len());
            assert(rest@ =~= before.tail());
            Some(rest)
        } else {
            None
        };
        self.file_log = false;
        let session = self.capture;
        if session.is_some() {
            self.capture = None;
            self.viewer = self.before_read_only;
            self.pending_tail = 0;
        }
        Stopped { tail, session }
    }

    /// Begins to take in the output of a shell.
    pub fn start_capture(&mut self, session: u64, log_name: String)
        ensures
            final(self)@ == old(self)@.capturing(session, log_name@),
    {
        self.before_read_only = self.viewer;
        self.viewer = true;
        self.capture = Some(session);
        self.pending_tail = 0;
        self.log_name = Some(log_name);
    }

    /// The output goes to a file as well from now on.
    pub fn start_log(&mut self, path: String, name: Option<String>)
        ensures
            final(self)@ == (PanelModel {
                file_log: true,
                file_path: Some(path@),
                file_name: document::optional_text(name),
                ..old(self)@
            }),
    {
        self.file_log = true;
        self.file_path = Some(path);
        self.file_name = name;
    }

    /// Puts text in at a byte offset, or at the end; nothing where the text is
    /// only read.
    pub fn insert_text(&mut self, more: &str, byte: Option<usize>) -> (out: bool)
        ensures
            out == !old(self)@.viewer,
            !out ==> final(self)@ == old(self)@,
            out ==> ({
                let text = old(self)@.text;
                let at = match byte {
                    Some(byte) => floor_place(text, byte as int),
                    None => text.len() as int,
                };
                final(self)@ == old(self)@.with_text(text.take(at) + more@ + text.skip(at))
            }),
    {
        if self.viewer {
            return false;
        }
        let ghost before = self@;
        let chars = text::chars_of(self.text.as_str());
        let at: usize = match byte {
            Some(byte) => find_place(&chars, byte),
            None => chars.len(),
        };
        let mut new = text::string_range(&chars, 0, at);
        text::push_text(&mut new, more);
        let rest = text::string_range(&chars, at, chars.len());
        text::push_text(&mut new, rest.as_str());
        assert(new@ =~= before.text.take(at as int) + more@ + before.text.skip(at as int));
        self.set_text(new);
        true
    }
}

} // verus!
