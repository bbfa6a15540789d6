//! Saving everything at once.
//!
//! The documents that have a file are written first, without a word. The ones
//! that have none are asked about afterwards, one by one; the first refusal
//! ends the asking. A document that another program changed is left for the
//! writer to save alone.
use crate::saving::document::{self, Document, DocumentModel, ExternalChange};
use crate::saving::writing;
use crate::text;
use vstd::prelude::*;

verus! {

/// A run of saves under way.
pub struct SaveAll {
    /// The places of the documents to save: first those with a file.
    pub queue: Vec<usize>,
    /// How many of the queue have a file.
    pub named: usize,
    /// How many of the queue are done with.
    pub done: usize,
    pub saved: usize,
    pub failed: usize,
    /// Documents without a file that were not given a name.
    pub left: usize,
    /// Documents that another program changed.
    pub conflicted: usize,
    /// Documents whose new name another tab has open.
    pub occupied: usize,
}

/// What is to be done next.
#[derive(Clone, Copy, Debug, PartialEq, Eq, Structural)]
pub enum BatchStep {
    /// The document at this place goes to its own file.
    Write(usize),
    /// The document at this place is asked about.
    Ask(usize),
    Finished,
}

/// A document that is written to its own file.
pub open spec fn goes(document: DocumentModel) -> bool {
    document.state.edited && document.origin is Some && document.state.change
        == ExternalChange::Unchanged && !document.state.outside
}

/// A document that is left because another program changed it.
pub open spec fn clashes(document: DocumentModel) -> bool {
    document.state.edited && document.origin is Some && !goes(document)
}

/// A document that needs a name.
pub open spec fn nameless(document: DocumentModel) -> bool {
    document.state.edited && document.origin is None
}

/// The places of the documents with a property, among the first `n`.
pub open spec fn places(
    documents: Seq<DocumentModel>,
    wanted: spec_fn(DocumentModel) -> bool,
    n: int,
) -> Seq<usize>
    decreases n,
{
    if n <= 0 {
        Seq::empty()
    } else {
        let before = places(documents, wanted, n - 1);
        if wanted(documents[n - 1]) {
            before.push((n - 1) as usize)
        } else {
            before
        }
    }
}

/// How many unsaved documents there are among the first `n`.
pub open spec fn unsaved(documents: Seq<DocumentModel>, n: int) -> int
    decreases n,
{
    if n <= 0 {
        0
    } else {
        unsaved(documents, n - 1) + if documents[n - 1].state.edited {
            1int
        } else {
            0int
        }
    }
}

proof fn places_are_few(
    documents: Seq<DocumentModel>,
    wanted: spec_fn(DocumentModel) -> bool,
    n: int,
)
    requires
        0 <= n <= documents.len(),
        n <= usize::MAX,
    ensures
        places(documents, wanted, n).len() <= n,
        forall|i: int|
            0 <= i < places(documents, wanted, n).len() ==> {
                let place = #[trigger] places(documents, wanted, n)[i];
                place < n && wanted(documents[place as int])
            },
    decreases n,
{
    if n > 0 {
        places_are_few(documents, wanted, n - 1);
    }
}

/// Begins a run over the open documents.
pub fn save_all(documents: &Vec<Document>) -> (out: SaveAll)
    ensures
        out.wf(),
        forall|i: int| 0 <= i < out.queue@.len() ==> (#[trigger] out.queue@[i]) < documents@.len(),
        out.total() == unsaved(document::models(documents@), documents@.len() as int),
        ({
            let held = document::models(documents@);
            let n = documents@.len() as int;
            &&& out.queue@ == places(held, |d: DocumentModel| goes(d), n) + places(
                held,
                |d: DocumentModel| nameless(d),
                n,
            )
            &&& out.named == places(held, |d: DocumentModel| goes(d), n).len()
            &&& out.conflicted == places(held, |d: DocumentModel| clashes(d), n).len()
        }),
        out.done == 0 && out.saved == 0 && out.failed == 0 && out.left == 0 && out.occupied == 0,
{
    let ghost held = document::models(documents@);
    let ghost own = |d: DocumentModel| goes(d);
    let ghost other = |d: DocumentModel| clashes(d);
    let ghost new = |d: DocumentModel| nameless(d);
    let mut queue: Vec<usize> = Vec::new();
    let mut unnamed: Vec<usize> = Vec::new();
    let mut conflicted: usize = 0;
    let mut at: usize = 0;
    while at < documents.len()
        invariant
            at <= documents@.len(),
            held == document::models(documents@),
            own == (|d: DocumentModel| goes(d)),
            other == (|d: DocumentModel| clashes(d)),
            new == (|d: DocumentModel| nameless(d)),
            queue@ == places(held, own, at as int),
            unnamed@ == places(held, new, at as int),
            conflicted == places(held, other, at as int).len(),
            conflicted <= at,
            queue@.len() + unnamed@.len() + conflicted == unsaved(held, at as int),
            unsaved(held, at as int) <= at,
        decreases documents@.len() - at,
    {
        let one = &documents[at];
        if one.state.edited {
            if one.origin.is_none() {
                unnamed.push(at);
            } else if one.state.change != ExternalChange::Unchanged || one.state.outside {
                conflicted += 1;
            } else {
                queue.push(at);
            }
        }
        at += 1;
    }
    let named: usize = queue.len();
    let ghost first = queue@;
    proof {
        places_are_few(held, own, documents@.len() as int);
        places_are_few(held, new, documents@.len() as int);
    }
    let mut at: usize = 0;
    while at < unnamed.len()
        invariant
            at <= unnamed@.len(),
            queue@ == first + unnamed@.take(at as int),
        decreases unnamed@.len() - at,
    {
        queue.push(unnamed[at]);
        at += 1;
        assert(queue@ =~= first + unnamed@.take(at as int));
    }
    assert(unnamed@.take(unnamed@.len() as int) =~= unnamed@);
    SaveAll {
        queue,
        named,
        done: 0,
        saved: 0,
        failed: 0,
        left: 0,
        conflicted,
        occupied: 0,
    }
}

impl SaveAll {
    /// Every document that was unsaved is either still to come or counted.
    pub open spec fn total(self) -> int {
        self.queue@.len() - self.done + self.saved + self.failed + self.left + self.conflicted
            + self.occupied
    }

    /// The counts add up.
    pub open spec fn wf(self) -> bool {
        &&& self.done <= self.queue.len()
        &&& self.named <= self.queue.len()
        &&& self.saved + self.failed + self.left + self.occupied == self.done
    }

    /// What comes next.
    pub open spec fn upcoming(self) -> BatchStep {
        if self.done >= self.queue@.len() {
            BatchStep::Finished
        } else if self.done < self.named {
            BatchStep::Write(self.queue@[self.done as int])
        } else {
            BatchStep::Ask(self.queue@[self.done as int])
        }
    }

    /// [`SaveAll::upcoming`].
    pub fn next(&self) -> (out: BatchStep)
        ensures
            out == self.upcoming(),
    {
        if self.done >= self.queue.len() {
            BatchStep::Finished
        } else if self.done < self.named {
            BatchStep::Write(self.queue[self.done])
        } else {
            BatchStep::Ask(self.queue[self.done])
        }
    }

    /// Hears whether the document that came next was written.
    pub fn wrote(&mut self, written: bool)
        requires
            old(self).wf(),
            !(old(self).upcoming() is Finished),
        ensures
            final(self).wf(),
            final(self).total() == old(self).total(),
            *final(self) == (SaveAll {
                done: (old(self).done + 1) as usize,
                saved: (old(self).saved + if written {
                    1int
                } else {
                    0int
                }) as usize,
                failed: (old(self).failed + if written {
                    0int
                } else {
                    1int
                }) as usize,
                ..*old(self)
            }),
    {
        self.done += 1;
        if written {
            self.saved += 1;
        } else {
            self.failed += 1;
        }
    }

    /// Hears the name that was given for the document that came next. Without
    /// one, nothing more is asked. A name that another document has open is not
    /// written to. The answer says whether the document is to be written now.
    pub fn chose(&mut self, documents: &Vec<Document>, target: Option<&str>) -> (out: bool)
        requires
            old(self).wf(),
            old(self).upcoming() is Ask,
        ensures
            final(self).wf(),
            final(self).total() == old(self).total(),
            target is None ==> final(self).upcoming() is Finished,
            ({
                let held = document::models(documents@);
                let waiting = old(self).queue@.len() - old(self).done;
                match target {
                    None => !out && *final(self) == (SaveAll {
                        done: old(self).queue@.len() as usize,
                        left: (old(self).left + waiting) as usize,
                        ..*old(self)
                    }),
                    Some(path) => {
                        let other = writing::file_of(held, path@);
                        let taken = other is Some && other->0 != old(self).upcoming()->Ask_0;
                        &&& out == !taken
                        &&& *final(self) == if taken {
                            SaveAll {
                                done: (old(self).done + 1) as usize,
                                occupied: (old(self).occupied + 1) as usize,
                                ..*old(self)
                            }
                        } else {
                            *old(self)
                        }
                    },
                }
            }),
    {
        match target {
            None => {
                self.left += self.queue.len() - self.done;
                self.done = self.queue.len();
                false
            },
            Some(path) => {
                if let Some(other) = writing::document_at(documents, path) {
                    if other != self.queue[self.done] {
                        self.done += 1;
                        self.occupied += 1;
                        return false;
                    }
                }
                true
            },
        }
    }

    /// What the run came to, in words.
    pub open spec fn words(self, english: bool) -> Seq<char> {
        let saved = text::decimal(self.saved as nat);
        let part = |count: usize, before: Seq<char>, after: Seq<char>|
            if count == 0 {
                Seq::<char>::empty()
            } else {
                before + text::decimal(count as nat) + after
            };
        if english {
            "Saved "@ + saved + part(self.failed, " / "@, " could not be saved"@) + part(
                self.left,
                " / "@,
                " untitled not saved"@,
            ) + part(self.conflicted, " / "@, " changed outside: save them one by one"@) + part(
                self.occupied,
                " / "@,
                " deferred: destination is open in another tab. Use Save As individually"@,
            )
        } else {
            saved + "件を保存しました"@ + part(self.failed, "／"@, "件は保存できません"@) + part(
                self.left,
                "／無題"@,
                "件は保存していません"@,
            ) + part(self.conflicted, "／外部変更"@, "件は個別に保存してください"@) + part(
                self.occupied,
                "／"@,
                "件は保存先を別のTABで開いているため保留しました。個別に名前を付けて保存してください"@,
            )
        }
    }

    /// [`SaveAll::words`].
    pub fn told(&self, english: bool) -> (out: String)
        ensures
            out@ == self.words(english),
    {
        let mut out = String::new();
        if english {
            text::push_text(&mut out, "Saved ");
            text::push_decimal(&mut out, self.saved as u64);
            assert(out@ =~= "Saved "@ + text::decimal(self.saved as nat));
            push_part(&mut out, self.failed, " / ", " could not be saved");
            push_part(&mut out, self.left, " / ", " untitled not saved");
            push_part(
                &mut out,
                self.conflicted,
                " / ",
                " changed outside: save them one by one",
            );
            push_part(
                &mut out,
                self.occupied,
                " / ",
                " deferred: destination is open in another tab. Use Save As individually",
            );
        } else {
            text::push_decimal(&mut out, self.saved as u64);
            text::push_text(&mut out, "件を保存しました");
            assert(out@ =~= text::decimal(self.saved as nat) + "件を保存しました"@);
            push_part(&mut out, self.failed, "／", "件は保存できません");
            push_part(&mut out, self.left, "／無題", "件は保存していません");
            push_part(&mut out, self.conflicted, "／外部変更", "件は個別に保存してください");
            push_part(
                &mut out,
                self.occupied,
                "／",
                "件は保存先を別のTABで開いているため保留しました。個別に名前を付けて保存してください",
            );
        }
        out
    }
}

fn push_part(out: &mut String, count: usize, before: &str, after: &str)
    ensures
        final(out)@ == old(out)@ + if count == 0 {
            Seq::<char>::empty()
        } else {
            before@ + text::decimal(count as nat) + after@
        },
{
    if count == 0 {
        assert(out@ =~= old(out)@ + Seq::<char>::empty());
        return;
    }
    text::push_text(out, before);
    text::push_decimal(out, count as u64);
    text::push_text(out, after);
    assert(out@ =~= old(out)@ + (before@ + text::decimal(count as nat) + after@));
}

} // verus!
