//! Noticing what other programs do to the files, and reading them again.
use crate::saving::document::{self, Document, DocumentModel, DocumentState, ExternalChange, Stamp};
use crate::text;
use vstd::prelude::*;

verus! {

/// What is seen of a document's file at one moment.
#[derive(Clone, Copy, Debug, PartialEq, Eq, Structural)]
pub struct Sighting {
    pub change: ExternalChange,
    /// The version on disk, where it can be told.
    pub stamp: Option<Stamp>,
    /// A pane that only reads shows the document.
    pub reading_view: bool,
}

/// What is to be done about one document.
#[derive(Clone, Copy, Debug, PartialEq, Eq, Structural)]
pub enum CheckAct {
    Quiet,
    /// Its file is gone; the text is kept.
    TellMissing,
    /// Nothing is lost by reading the file again.
    Reload,
    /// Another program changed it, and the writer decides.
    TellChanged,
}

/// What came of looking at one document.
#[derive(Clone, Copy, Debug, PartialEq, Eq, Structural)]
pub struct Check {
    /// Something on screen changes.
    pub noticed: bool,
    pub act: CheckAct,
}

/// What looking at a document makes of it, and what is to be done.
///
/// A document that nobody edits and that a reading pane shows is read again.
/// Any other is only marked, and told of once, while the mark stands.
pub open spec fn checked(
    state: DocumentState,
    seen: Sighting,
    active: bool,
) -> (DocumentState, Check) {
    let now = DocumentState { change: seen.change, ..state };
    if seen.change == ExternalChange::Missing {
        if state.missing {
            (now, Check { noticed: false, act: CheckAct::Quiet })
        } else {
            (
                DocumentState { missing: true, outside: true, ..now },
                Check {
                    noticed: true,
                    act: if active {
                        CheckAct::TellMissing
                    } else {
                        CheckAct::Quiet
                    },
                },
            )
        }
    } else {
        let back = DocumentState {
            missing: false,
            outside: if state.missing {
                seen.change == ExternalChange::Modified
            } else {
                state.outside
            },
            ..now
        };
        let news = seen.change == ExternalChange::Modified && seen.stamp is Some && state.reported
            != seen.stamp;
        if !news {
            (back, Check { noticed: state.missing, act: CheckAct::Quiet })
        } else {
            let heard = DocumentState { reported: seen.stamp, ..back };
            if !state.edited && seen.reading_view {
                (heard, Check { noticed: true, act: CheckAct::Reload })
            } else {
                (
                    DocumentState { outside: true, ..heard },
                    Check {
                        noticed: state.missing || !back.outside,
                        act: if !back.outside && active {
                            CheckAct::TellChanged
                        } else {
                            CheckAct::Quiet
                        },
                    },
                )
            }
        }
    }
}

fn check_document(document: &mut Document, seen: &Sighting, active: bool) -> (out: Check)
    ensures
        final(document)@ == old(document)@.with(checked(old(document).state, *seen, active).0),
        out == checked(old(document).state, *seen, active).1,
{
    document.state.change = seen.change;
    if seen.change == ExternalChange::Missing {
        if document.state.missing {
            return Check { noticed: false, act: CheckAct::Quiet };
        }
        document.state.missing = true;
        document.state.outside = true;
        let act: CheckAct = if active {
            CheckAct::TellMissing
        } else {
            CheckAct::Quiet
        };
        return Check { noticed: true, act };
    }
    let mut noticed: bool = false;
    if document.state.missing {
        document.state.missing = false;
        noticed = true;
        document.state.outside = seen.change == ExternalChange::Modified;
    }
    if seen.change != ExternalChange::Modified {
        return Check { noticed, act: CheckAct::Quiet };
    }
    match (seen.stamp, document.state.reported) {
        (None, _) => {
            return Check { noticed, act: CheckAct::Quiet };
        },
        (Some(stamp), Some(told)) => {
            if stamp == told {
                return Check { noticed, act: CheckAct::Quiet };
            }
        },
        (Some(_), None) => {},
    }
    document.state.reported = seen.stamp;
    if !document.state.edited && seen.reading_view {
        return Check { noticed: true, act: CheckAct::Reload };
    }
    if document.state.outside {
        return Check { noticed, act: CheckAct::Quiet };
    }
    document.state.outside = true;
    let act: CheckAct = if active {
        CheckAct::TellChanged
    } else {
        CheckAct::Quiet
    };
    Check { noticed: true, act }
}

/// Nothing came of looking.
pub open spec fn nothing_new() -> Check {
    Check { noticed: false, act: CheckAct::Quiet }
}

/// What looking at the chosen documents makes of one of them.
pub open spec fn checked_if(
    document: DocumentModel,
    chosen: bool,
    seen: Sighting,
    active: u64,
) -> (DocumentModel, Check) {
    if chosen {
        let (state, check) = checked(document.state, seen, document.state.id == active);
        (document.with(state), check)
    } else {
        (document, nothing_new())
    }
}

/// Looks at every open document, the ones behind as well as the one in front
/// (`active`). The answer holds one entry for each document.
pub fn check_external_change(
    documents: &mut Vec<Document>,
    seen: &Vec<Sighting>,
    active: u64,
) -> (out: Vec<Check>)
    requires
        seen@.len() == old(documents)@.len(),
    ensures
        out@.len() == old(documents)@.len(),
        final(documents)@.len() == old(documents)@.len(),
        forall|i: int|
            #![trigger final(documents)@[i]]
            0 <= i < out@.len() ==> final(documents)@[i]@ == checked_if(
                old(documents)@[i]@,
                true,
                seen@[i],
                active,
            ).0,
        forall|i: int|
            #![trigger out@[i]]
            0 <= i < out@.len() ==> out@[i] == checked_if(
                old(documents)@[i]@,
                true,
                seen@[i],
                active,
            ).1,
{
    let mut out: Vec<Check> = Vec::new();
    let mut at: usize = 0;
    while at < documents.len()
        invariant
            at <= documents@.len(),
            seen@.len() == documents@.len(),
            documents@.len() == old(documents)@.len(),
            out@.len() == at,
            forall|i: int|
                #![trigger documents@[i]]
                0 <= i < at ==> documents@[i]@ == checked_if(
                    old(documents)@[i]@,
                    true,
                    seen@[i],
                    active,
                ).0,
            forall|i: int|
                #![trigger out@[i]]
                0 <= i < at ==> out@[i] == checked_if(
                    old(documents)@[i]@,
                    true,
                    seen@[i],
                    active,
                ).1,
            forall|i: int| at <= i < documents@.len() ==> documents@[i] == old(documents)@[i],
        decreases documents@.len() - at,
    {
        let front: bool = documents[at].state.id == active;
        let check: Check = check_document(&mut documents[at], &seen[at], front);
        out.push(check);
        at += 1;
    }
    out
}

/// The same look, at the documents in front of reading panes only (`reading`),
/// which comes round more often.
pub fn check_read_only_change(
    documents: &mut Vec<Document>,
    seen: &Vec<Sighting>,
    reading: &Vec<bool>,
    active: u64,
) -> (out: Vec<Check>)
    requires
        seen@.len() == old(documents)@.len(),
        reading@.len() == old(documents)@.len(),
    ensures
        out@.len() == old(documents)@.len(),
        final(documents)@.len() == old(documents)@.len(),
        forall|i: int|
            #![trigger final(documents)@[i]]
            0 <= i < out@.len() ==> final(documents)@[i]@ == checked_if(
                old(documents)@[i]@,
                reading@[i],
                seen@[i],
                active,
            ).0,
        forall|i: int|
            #![trigger out@[i]]
            0 <= i < out@.len() ==> out@[i] == checked_if(
                old(documents)@[i]@,
                reading@[i],
                seen@[i],
                active,
            ).1,
{
    let mut out: Vec<Check> = Vec::new();
    let mut at: usize = 0;
    while at < documents.len()
        invariant
            at <= documents@.len(),
            seen@.len() == documents@.len(),
            reading@.len() == documents@.len(),
            documents@.len() == old(documents)@.len(),
            out@.len() == at,
            forall|i: int|
                #![trigger documents@[i]]
                0 <= i < at ==> documents@[i]@ == checked_if(
                    old(documents)@[i]@,
                    reading@[i],
                    seen@[i],
                    active,
                ).0,
            forall|i: int|
                #![trigger out@[i]]
                0 <= i < at ==> out@[i] == checked_if(
                    old(documents)@[i]@,
                    reading@[i],
                    seen@[i],
                    active,
                ).1,
            forall|i: int| at <= i < documents@.len() ==> documents@[i] == old(documents)@[i],
        decreases documents@.len() - at,
    {
        let check: Check = if reading[at] {
            let front: bool = documents[at].state.id == active;
            check_document(&mut documents[at], &seen[at], front)
        } else {
            Check { noticed: false, act: CheckAct::Quiet }
        };
        out.push(check);
        at += 1;
    }
    out
}

/// What reading the file again came to.
#[derive(Clone, Copy, Debug, PartialEq, Eq, Structural)]
pub enum ReloadOutcome {
    /// The document has no file.
    NoFile,
    Failed,
    /// The file's text.
    Read,
}

/// What is to be done after reading again.
#[derive(Clone, Copy, Debug, PartialEq, Eq, Structural)]
pub enum ReloadStep {
    Nothing,
    TellFailed,
    /// The text takes the place of what the editor held, and the document's
    /// work copy is dropped with what it held.
    Replace,
}

/// The text and the file agree.
pub open spec fn agreed(state: DocumentState) -> DocumentState {
    DocumentState {
        edited: false,
        pending_since: None,
        change: ExternalChange::Unchanged,
        ..state
    }
}

/// What reading the file again makes of the document.
pub open spec fn reloaded(
    state: DocumentState,
    outcome: ReloadOutcome,
) -> (DocumentState, ReloadStep) {
    if state.read_only || outcome == ReloadOutcome::NoFile {
        (state, ReloadStep::Nothing)
    } else if outcome == ReloadOutcome::Failed {
        (state, ReloadStep::TellFailed)
    } else {
        (
            DocumentState { outside: false, missing: false, ..agreed(state) },
            ReloadStep::Replace,
        )
    }
}

/// Takes the file as it now is in place of what the editor holds.
pub fn reload_document(document: &mut Document, outcome: ReloadOutcome) -> (out: ReloadStep)
    ensures
        final(document)@ == old(document)@.with(reloaded(old(document).state, outcome).0),
        out == reloaded(old(document).state, outcome).1,
{
    if document.state.read_only {
        return ReloadStep::Nothing;
    }
    match outcome {
        ReloadOutcome::NoFile => ReloadStep::Nothing,
        ReloadOutcome::Failed => ReloadStep::TellFailed,
        ReloadOutcome::Read => {
            document.state.edited = false;
            document.state.pending_since = None;
            document.state.change = ExternalChange::Unchanged;
            document.state.outside = false;
            document.state.missing = false;
            ReloadStep::Replace
        },
    }
}

/// [`reload_document`], of the document in front.
pub fn reload_from_file(
    documents: &mut Vec<Document>,
    active: usize,
    outcome: ReloadOutcome,
) -> (out: ReloadStep)
    requires
        active < old(documents)@.len(),
    ensures
        document::models(final(documents)@) == document::models(old(documents)@).update(
            active as int,
            old(documents)@[active as int]@.with(
                reloaded(old(documents)@[active as int].state, outcome).0,
            ),
        ),
        out == reloaded(old(documents)@[active as int].state, outcome).1,
{
    let ghost held = document::models(documents@);
    let out: ReloadStep = reload_document(&mut documents[active], outcome);
    assert(document::models(documents@) =~= held.update(
        active as int,
        documents@[active as int]@,
    ));
    out
}

/// What opening a file again in a chosen encoding came to.
pub enum ReopenOutcome {
    NoFile,
    /// Its bytes are no text in that encoding.
    Unreadable,
    /// Anything else, in words.
    Failed(String),
    /// Its text, and whether its line breaks were of more than one kind.
    Read { mixed: bool },
}

/// What the writer is told of a file that was opened again.
pub open spec fn reopened_words(
    outcome: ReopenOutcome,
    name: Seq<char>,
    same: bool,
    english: bool,
) -> Option<Seq<char>> {
    match outcome {
        ReopenOutcome::NoFile => None,
        ReopenOutcome::Unreadable => Some(
            if english {
                "Cannot read it as "@ + name + ". The document is unchanged"@
            } else {
                name + "としては読めません。文書はそのままです"@
            },
        ),
        ReopenOutcome::Failed(error) => Some(
            if english {
                "Cannot reopen: "@ + error@
            } else {
                "開き直せません: "@ + error@
            },
        ),
        ReopenOutcome::Read { mixed } => {
            let done = if same && english {
                "Reloaded as "@ + name + " (the text is unchanged)"@
            } else if same {
                name + "のまま読み直しました（字は変わりません）"@
            } else if english {
                "Reopened as "@ + name
            } else {
                name + "で開き直しました"@
            };
            Some(
                if !mixed {
                    done
                } else if english {
                    done + " (the line breaks were mixed)"@
                } else {
                    done + "（改行コードは混在していました）"@
                },
            )
        },
    }
}

/// The document's state after its file was opened again in an encoding.
pub open spec fn reopened(
    state: DocumentState,
    outcome: ReopenOutcome,
    encoding: u32,
) -> DocumentState {
    if outcome is Read {
        let form = document::TextForm { encoding, ..state.form };
        DocumentState { form, ..agreed(state) }
    } else {
        state
    }
}

/// Opens a document again in the encoding `encoding`, called `name`. Where the
/// file cannot be read so, the document stays as it is. The answer is what the
/// writer is told; a text that was read takes the place of what the editor held.
pub fn reopen_as(
    document: &mut Document,
    outcome: &ReopenOutcome,
    encoding: u32,
    name: &str,
    english: bool,
) -> (out: Option<String>)
    ensures
        old(document).state.read_only ==> *final(document) == *old(document) && out is None,
        !old(document).state.read_only ==> {
            &&& final(document)@ == old(document)@.with(
                reopened(old(document).state, *outcome, encoding),
            )
            &&& document::optional_text(out) == reopened_words(
                *outcome,
                name@,
                old(document).state.form.encoding == encoding,
                english,
            )
        },
{
    if document.state.read_only {
        return None;
    }
    let same: bool = document.state.form.encoding == encoding;
    let mut told = String::new();
    match outcome {
        ReopenOutcome::NoFile => {
            return None;
        },
        ReopenOutcome::Unreadable => {
            if english {
                text::push_text(&mut told, "Cannot read it as ");
                text::push_text(&mut told, name);
                text::push_text(&mut told, ". The document is unchanged");
                assert(told@ =~= "Cannot read it as "@ + name@ + ". The document is unchanged"@);
            } else {
                text::push_text(&mut told, name);
                text::push_text(&mut told, "としては読めません。文書はそのままです");
                assert(told@ =~= name@ + "としては読めません。文書はそのままです"@);
            }
        },
        ReopenOutcome::Failed(error) => {
            if english {
                text::push_text(&mut told, "Cannot reopen: ");
                text::push_text(&mut told, error.as_str());
                assert(told@ =~= "Cannot reopen: "@ + error@);
            } else {
                text::push_text(&mut told, "開き直せません: ");
                text::push_text(&mut told, error.as_str());
                assert(told@ =~= "開き直せません: "@ + error@);
            }
        },
        ReopenOutcome::Read { mixed } => {
            document.state.form.encoding = encoding;
            document.state.edited = false;
            document.state.pending_since = None;
            document.state.change = ExternalChange::Unchanged;
            if english {
                text::push_text(
                    &mut told,
                    if same {
                        "Reloaded as "
                    } else {
                        "Reopened as "
                    },
                );
                text::push_text(&mut told, name);
                if same {
                    text::push_text(&mut told, " (the text is unchanged)");
                    assert(told@ =~= "Reloaded as "@ + name@ + " (the text is unchanged)"@);
                } else {
                    assert(told@ =~= "Reopened as "@ + name@);
                }
                if *mixed {
                    text::push_text(&mut told, " (the line breaks were mixed)");
                }
            } else {
                text::push_text(&mut told, name);
                if same {
                    text::push_text(&mut told, "のまま読み直しました（字は変わりません）");
                    assert(told@ =~= name@ + "のまま読み直しました（字は変わりません）"@);
                } else {
                    text::push_text(&mut told, "で開き直しました");
                    assert(told@ =~= name@ + "で開き直しました"@);
                }
                if *mixed {
                    text::push_text(&mut told, "（改行コードは混在していました）");
                }
            }
        },
    }
    Some(told)
}

} // verus!
