//! The explicit save: what stops it, what it asks, and what it leaves.
use crate::saving::changes;
use crate::saving::copies;
use crate::paths;
use crate::saving::document::{
    self, CopyName, Document, DocumentModel, DocumentState, ExternalChange, TextForm, WorkIdentity,
};
use crate::text;
use vstd::prelude::*;

verus! {

/// The first thing a save comes to.
#[derive(Debug, PartialEq, Eq)]
pub enum SaveStep {
    /// The file is gone: what to do is asked first.
    AskMissing,
    /// A snapshot of another version is never written.
    RefuseReadOnly,
    /// A pane that only reads does not write over its file.
    RefuseReadingView,
    /// A name is asked for, with the form that the document has as the one at hand;
    /// a save that is not given one ends.
    AskName { form: TextForm },
    /// The document goes to its own file, in its own form.
    Ready { target: String, form: TextForm },
}

/// [`SaveStep`] with its text as characters.
pub ghost enum SaveModel {
    AskMissing,
    RefuseReadOnly,
    RefuseReadingView,
    AskName { form: TextForm },
    Ready { target: Seq<char>, form: TextForm },
}

impl View for SaveStep {
    type V = SaveModel;

    open spec fn view(&self) -> SaveModel {
        match self {
            SaveStep::AskMissing => SaveModel::AskMissing,
            SaveStep::RefuseReadOnly => SaveModel::RefuseReadOnly,
            SaveStep::RefuseReadingView => SaveModel::RefuseReadingView,
            SaveStep::AskName { form } => SaveModel::AskName { form: *form },
            SaveStep::Ready { target, form } => SaveModel::Ready { target: target@, form: *form },
        }
    }
}

/// What a save comes to before a place is known. `ask_for_name` is the save
/// under a new name.
pub open spec fn first_step(
    document: DocumentModel,
    ask_for_name: bool,
    reading_pane: bool,
) -> SaveModel {
    if !ask_for_name && document.state.change == ExternalChange::Missing {
        SaveModel::AskMissing
    } else if document.state.read_only {
        SaveModel::RefuseReadOnly
    } else if !ask_for_name && reading_pane {
        SaveModel::RefuseReadingView
    } else if ask_for_name || document.origin is None {
        SaveModel::AskName { form: document.state.form }
    } else {
        SaveModel::Ready { target: document.origin->0, form: document.state.form }
    }
}

/// Saves the document, asking for a name only when it has none.
pub fn save_document(document: &Document, ask_for_name: bool, reading_pane: bool) -> (out: SaveStep)
    ensures
        out@ == first_step(document@, ask_for_name, reading_pane),
{
    let form: TextForm = document.state.form;
    if !ask_for_name && document.state.change == ExternalChange::Missing {
        SaveStep::AskMissing
    } else if document.state.read_only {
        SaveStep::RefuseReadOnly
    } else if !ask_for_name && reading_pane {
        SaveStep::RefuseReadingView
    } else if ask_for_name {
        SaveStep::AskName { form }
    } else {
        match &document.origin {
            Some(path) => SaveStep::Ready { target: path.clone(), form },
            None => SaveStep::AskName { form },
        }
    }
}

impl SaveStep {
    /// What the writer is told where a save is refused.
    pub open spec fn refusal(self, english: bool) -> Option<Seq<char>> {
        match self {
            SaveStep::RefuseReadOnly => Some(
                if english {
                    "The outside version is read-only. Copy what you need into the original tab"@
                } else {
                    "外部版は読み取り専用です。必要な内容を元のタブへコピーしてください"@
                },
            ),
            SaveStep::RefuseReadingView => Some(
                if english {
                    "ReadOnly mode does not overwrite. Use Save As to keep a copy"@
                } else {
                    "ReadOnlyモードでは上書き保存しません。残すときは別名で保存してください"@
                },
            ),
            _ => None,
        }
    }

    /// [`SaveStep::refusal`], in words.
    pub fn words(&self, english: bool) -> (out: Option<&'static str>)
        ensures
            (match out {
                Some(words) => Some(words@),
                None => None,
            }) == self.refusal(english),
    {
        match self {
            SaveStep::RefuseReadOnly => Some(
                if english {
                    "The outside version is read-only. Copy what you need into the original tab"
                } else {
                    "外部版は読み取り専用です。必要な内容を元のタブへコピーしてください"
                },
            ),
            SaveStep::RefuseReadingView => Some(
                if english {
                    "ReadOnly mode does not overwrite. Use Save As to keep a copy"
                } else {
                    "ReadOnlyモードでは上書き保存しません。残すときは別名で保存してください"
                },
            ),
            _ => None,
        }
    }
}

/// What a save comes to once its place and its form are known.
#[derive(Clone, Copy, Debug, PartialEq, Eq, Structural)]
pub enum TargetAct {
    /// Another tab is editing that file: saving would lose its changes.
    AskSaveOverOpen(usize),
    /// Another tab shows that file, unchanged.
    SaveOverOpen(usize),
    /// Another program changed the file.
    AskConflict,
    Write,
}

/// What a save comes to, with the place and the form that it goes on with, whatever
/// is asked in between.
#[derive(Debug, PartialEq, Eq)]
pub struct TargetStep {
    pub act: TargetAct,
    pub target: String,
    pub form: TextForm,
}

/// The place of the first document at a path, among the first `n`.
pub open spec fn file_among(documents: Seq<DocumentModel>, path: Seq<char>, n: int) -> Option<int>
    decreases n,
{
    if n <= 0 {
        None
    } else {
        match file_among(documents, path, n - 1) {
            Some(at) => Some(at),
            None => if documents[n - 1].is_at(path) {
                Some(n - 1)
            } else {
                None
            },
        }
    }
}

/// The place of the document that holds a path.
pub open spec fn file_of(documents: Seq<DocumentModel>, path: Seq<char>) -> Option<int> {
    file_among(documents, path, documents.len() as int)
}

proof fn file_found(documents: Seq<DocumentModel>, path: Seq<char>, at: int, n: int)
    requires
        0 <= at < n <= documents.len(),
        file_among(documents, path, at) is None,
        documents[at].is_at(path),
    ensures
        file_among(documents, path, n) == Some(at),
    decreases n - at,
{
    if n > at + 1 {
        file_found(documents, path, at, n - 1);
    }
}

/// The document that holds a path.
pub fn document_at(documents: &Vec<Document>, path: &str) -> (out: Option<usize>)
    ensures
        match out {
            Some(at) => file_of(document::models(documents@), path@) == Some(at as int) && at
                < documents@.len(),
            None => file_of(document::models(documents@), path@) is None,
        },
{
    let mut at: usize = 0;
    while at < documents.len()
        invariant
            at <= documents@.len(),
            file_among(document::models(documents@), path@, at as int) is None,
        decreases documents@.len() - at,
    {
        if documents[at].is_at(path) {
            proof {
                file_found(document::models(documents@), path@, at as int, documents@.len() as int);
            }
            return Some(at);
        }
        at += 1;
    }
    None
}

/// What saving the document at `at` to a path comes to.
pub open spec fn target_step(documents: Seq<DocumentModel>, at: int, target: Seq<char>) -> TargetAct {
    let held = documents[at];
    let other = file_of(documents, target);
    if other is Some && other->0 != at {
        if documents[other->0].state.edited {
            TargetAct::AskSaveOverOpen(other->0 as usize)
        } else {
            TargetAct::SaveOverOpen(other->0 as usize)
        }
    } else if held.is_at(target) && (held.state.change == ExternalChange::Modified
        || held.state.outside) {
        TargetAct::AskConflict
    } else {
        TargetAct::Write
    }
}

fn target_act(documents: &Vec<Document>, at: usize, target: &str) -> (out: TargetAct)
    requires
        at < documents@.len(),
    ensures
        out == target_step(document::models(documents@), at as int, target@),
{
    if let Some(other) = document_at(documents, target) {
        if other != at {
            return if documents[other].state.edited {
                TargetAct::AskSaveOverOpen(other)
            } else {
                TargetAct::SaveOverOpen(other)
            };
        }
    }
    let held = &documents[at];
    if held.is_at(target) && (held.state.change == ExternalChange::Modified || held.state.outside) {
        TargetAct::AskConflict
    } else {
        TargetAct::Write
    }
}

/// [`target_step`], of the open documents. The place and the form go along.
pub fn save_target(documents: &Vec<Document>, at: usize, target: &str, form: TextForm) -> (out:
    TargetStep)
    requires
        at < documents@.len(),
    ensures
        out.act == target_step(document::models(documents@), at as int, target@),
        out.target@ == target@,
        out.form == form,
{
    TargetStep {
        act: target_act(documents, at, target),
        target: text::string_of(&text::chars_of(target)),
        form,
    }
}

/// What is asked before another tab's unsaved work is written over.
pub fn over_open_question(title: &str, english: bool) -> (out: String)
    ensures
        out@ == if english {
            "\""@ + title@
                + "\" is being edited in another tab.\n\nIts unsaved changes will be lost."@
        } else {
            "「"@ + title@
                + "」は別のタブで編集中です。\n\nそちらの保存していない変更は失われます。"@
        },
{
    let mut out = String::new();
    if english {
        text::push_text(&mut out, "\"");
        text::push_text(&mut out, title);
        text::push_text(
            &mut out,
            "\" is being edited in another tab.\n\nIts unsaved changes will be lost.",
        );
        assert(out@ =~= "\""@ + title@
            + "\" is being edited in another tab.\n\nIts unsaved changes will be lost."@);
    } else {
        text::push_text(&mut out, "「");
        text::push_text(&mut out, title);
        text::push_text(
            &mut out,
            "」は別のタブで編集中です。\n\nそちらの保存していない変更は失われます。",
        );
        assert(out@ =~= "「"@ + title@
            + "」は別のタブで編集中です。\n\nそちらの保存していない変更は失われます。"@);
    }
    out
}

/// The answers to [`over_open_question`]; the last is the one at hand.
pub fn over_open_choices(english: bool) -> (out: [&'static str; 3])
    ensures
        out@[0]@ == if english { "Save"@ } else { "保存する"@ },
        out@[1]@ == if english { "Save As"@ } else { "別の名前で"@ },
        out@[2]@ == if english { "Cancel"@ } else { "やめる"@ },
{
    if english {
        ["Save", "Save As", "Cancel"]
    } else {
        ["保存する", "別の名前で", "やめる"]
    }
}

/// What is asked before a file that another program changed is written over.
pub fn conflict_question(title: &str, english: bool) -> (out: String)
    ensures
        out@ == if english {
            "\""@ + title@
                + "\" was changed by another app.\n\nLoading it loses your unsaved changes."@
        } else {
            "「"@ + title@
                + "」は別のアプリで変更されています。\n\n読み込むと、保存していない変更は失われます。"@
        },
{
    let mut out = String::new();
    if english {
        text::push_text(&mut out, "\"");
        text::push_text(&mut out, title);
        text::push_text(
            &mut out,
            "\" was changed by another app.\n\nLoading it loses your unsaved changes.",
        );
        assert(out@ =~= "\""@ + title@
            + "\" was changed by another app.\n\nLoading it loses your unsaved changes."@);
    } else {
        text::push_text(&mut out, "「");
        text::push_text(&mut out, title);
        text::push_text(
            &mut out,
            "」は別のアプリで変更されています。\n\n読み込むと、保存していない変更は失われます。",
        );
        assert(out@ =~= "「"@ + title@
            + "」は別のアプリで変更されています。\n\n読み込むと、保存していない変更は失われます。"@);
    }
    out
}

/// The answers to [`conflict_question`]; the second is the one at hand.
pub fn conflict_choices(english: bool) -> (out: [&'static str; 5])
    ensures
        out@[0]@ == if english { "Overwrite with My Changes"@ } else { "作業中の内容で上書き"@ },
        out@[1]@ == if english { "Load the Outside Change"@ } else { "外部の変更を読み込む"@ },
        out@[2]@ == if english { "Save As"@ } else { "別名で保存"@ },
        out@[3]@ == if english { "Compare with Outside Version"@ } else { "外部版と比べる"@ },
        out@[4]@ == if english { "Cancel"@ } else { "キャンセル"@ },
{
    if english {
        [
            "Overwrite with My Changes",
            "Load the Outside Change",
            "Save As",
            "Compare with Outside Version",
            "Cancel",
        ]
    } else {
        [
            "作業中の内容で上書き",
            "外部の変更を読み込む",
            "別名で保存",
            "外部版と比べる",
            "キャンセル",
        ]
    }
}

/// What writing a file came to.
pub enum WriteOutcome {
    Saved,
    /// The encoding has no room for some character.
    Unmappable,
    /// Anything else, in words.
    Failed(String),
}

/// What is to be done after a document was written, or was not.
pub struct WriteStep {
    pub saved: bool,
    /// It went to another file than it had: a pane that only reads it lets go.
    pub moved: bool,
    /// What the writer is told.
    pub told: Option<String>,
    /// The work copies that are to be removed: those under the name that the document
    /// had and under the one it has now.
    pub dropped: Vec<WorkIdentity>,
}

/// The names under which work copies go once the document was written to a path.
pub open spec fn names_to_drop(document: DocumentModel, target: Seq<char>, saved: bool) -> Seq<
    CopyName,
> {
    if saved {
        seq![document.copy_name(), CopyName::File(paths::parts(target))]
    } else {
        Seq::empty()
    }
}

/// A document that has just been written to a path.
pub open spec fn written(document: DocumentModel, target: Seq<char>, form: TextForm) -> DocumentModel {
    DocumentModel {
        origin: Some(target),
        untitled: document.untitled,
        state: DocumentState {
            form,
            outside: false,
            missing: false,
            ..changes::agreed(document.state)
        },
    }
}

/// One document after the document at `at` was written to a path: the work
/// copies under the old name and under the new one are dropped.
pub open spec fn after_write(
    documents: Seq<DocumentModel>,
    at: int,
    target: Seq<char>,
    form: TextForm,
    i: int,
) -> DocumentModel {
    let one = if i == at {
        written(documents[at], target, form)
    } else {
        documents[i]
    };
    copies::forgotten(
        one,
        one.copy_name() == documents[at].copy_name() || one.copy_name() == CopyName::File(paths::parts(target)),
    )
}

/// What the writer is told of a write.
pub open spec fn write_words(
    outcome: WriteOutcome,
    encoding: Seq<char>,
    english: bool,
) -> Seq<char> {
    match outcome {
        WriteOutcome::Saved => if english {
            "Saved"@
        } else {
            "保存しました"@
        },
        WriteOutcome::Unmappable => if english {
            "Cannot save: some characters cannot be written in "@ + encoding + ". Save as UTF-8"@
        } else {
            encoding + "では表せない文字があるため保存できません。UTF-8で保存してください"@
        },
        WriteOutcome::Failed(error) => if english {
            "Cannot save: "@ + error@
        } else {
            "保存できません: "@ + error@
        },
    }
}

fn tell_write(outcome: &WriteOutcome, encoding: &str, english: bool) -> (out: String)
    ensures
        out@ == write_words(*outcome, encoding@, english),
{
    let mut out = String::new();
    match outcome {
        WriteOutcome::Saved => {
            text::push_text(
                &mut out,
                if english {
                    "Saved"
                } else {
                    "保存しました"
                },
            );
            assert(out@ =~= write_words(*outcome, encoding@, english));
        },
        WriteOutcome::Unmappable => {
            if english {
                text::push_text(&mut out, "Cannot save: some characters cannot be written in ");
                text::push_text(&mut out, encoding);
                text::push_text(&mut out, ". Save as UTF-8");
                assert(out@ =~= "Cannot save: some characters cannot be written in "@ + encoding@
                    + ". Save as UTF-8"@);
            } else {
                text::push_text(&mut out, encoding);
                text::push_text(
                    &mut out,
                    "では表せない文字があるため保存できません。UTF-8で保存してください",
                );
                assert(out@ =~= encoding@
                    + "では表せない文字があるため保存できません。UTF-8で保存してください"@);
            }
        },
        WriteOutcome::Failed(error) => {
            text::push_text(
                &mut out,
                if english {
                    "Cannot save: "
                } else {
                    "保存できません: "
                },
            );
            text::push_text(&mut out, error.as_str());
            assert(out@ =~= write_words(*outcome, encoding@, english));
        },
    }
    out
}

/// Writes the document at `at` to a path in a form, which becomes its own. A
/// snapshot is never written, and a write that fails changes nothing.
/// `encoding` is the name of the form's encoding.
pub fn write_document_in(
    documents: &mut Vec<Document>,
    at: usize,
    target: &str,
    form: TextForm,
    outcome: &WriteOutcome,
    encoding: &str,
    english: bool,
) -> (out: WriteStep)
    requires
        at < old(documents)@.len(),
    ensures
        out.saved == (!old(documents)@[at as int].state.read_only && *outcome is Saved),
        out.moved == (out.saved && !old(documents)@[at as int]@.is_at(target@)),
        document::names(out.dropped@) == names_to_drop(
            old(documents)@[at as int]@,
            target@,
            out.saved,
        ),
        document::optional_text(out.told) == if old(documents)@[at as int].state.read_only {
            None
        } else {
            Some(write_words(*outcome, encoding@, english))
        },
        final(documents)@.len() == old(documents)@.len(),
        !out.saved ==> *final(documents) == *old(documents),
        out.saved ==> forall|i: int|
            #![trigger final(documents)@[i]]
            0 <= i < old(documents)@.len() ==> final(documents)@[i]@ == after_write(
                document::models(old(documents)@),
                at as int,
                target@,
                form,
                i,
            ),
{
    let mut dropped: Vec<WorkIdentity> = Vec::new();
    assert(document::names(dropped@) =~= Seq::empty());
    if documents[at].state.read_only {
        return WriteStep { saved: false, moved: false, told: None, dropped };
    }
    let told = tell_write(outcome, encoding, english);
    match outcome {
        WriteOutcome::Saved => {},
        _ => {
            return WriteStep { saved: false, moved: false, told: Some(told), dropped };
        },
    }
    let previous = copies::work_identity(&documents[at]);
    let moved: bool = !documents[at].is_at(target);
    let place = text::string_of(&text::chars_of(target));
    let now_named = WorkIdentity::File(text::string_of(&text::chars_of(target)));
    documents[at].origin = Some(place);
    documents[at].state.form = form;
    documents[at].state.edited = false;
    documents[at].state.pending_since = None;
    documents[at].state.change = ExternalChange::Unchanged;
    documents[at].state.outside = false;
    documents[at].state.missing = false;
    assert(documents@[at as int]@ == written(
        document::models(old(documents)@)[at as int],
        target@,
        form,
    ));
    copies::discard_work_copy(documents, &previous);
    copies::discard_work_copy(documents, &now_named);
    dropped.push(previous);
    dropped.push(now_named);
    assert(document::names(dropped@) =~= names_to_drop(
        old(documents)@[at as int]@,
        target@,
        true,
    ));
    WriteStep { saved: true, moved, told: Some(told), dropped }
}

/// [`write_document_in`], in the form that the document has.
pub fn write_document_to(
    documents: &mut Vec<Document>,
    at: usize,
    target: &str,
    outcome: &WriteOutcome,
    encoding: &str,
    english: bool,
) -> (out: WriteStep)
    requires
        at < old(documents)@.len(),
    ensures
        out.saved == (!old(documents)@[at as int].state.read_only && *outcome is Saved),
        out.moved == (out.saved && !old(documents)@[at as int]@.is_at(target@)),
        document::names(out.dropped@) == names_to_drop(
            old(documents)@[at as int]@,
            target@,
            out.saved,
        ),
        document::optional_text(out.told) == if old(documents)@[at as int].state.read_only {
            None
        } else {
            Some(write_words(*outcome, encoding@, english))
        },
        final(documents)@.len() == old(documents)@.len(),
        !out.saved ==> *final(documents) == *old(documents),
        out.saved ==> forall|i: int|
            #![trigger final(documents)@[i]]
            0 <= i < old(documents)@.len() ==> final(documents)@[i]@ == after_write(
                document::models(old(documents)@),
                at as int,
                target@,
                old(documents)@[at as int].state.form,
                i,
            ),
{
    let form: TextForm = documents[at].state.form;
    write_document_in(documents, at, target, form, outcome, encoding, english)
}

/// Writes over a file that another tab has open. Where that worked, the two
/// documents become one: the answer is the number of the document that gives
/// way and the number of the one that stays. Where it did not, nothing moves.
pub fn save_over_open(
    documents: &mut Vec<Document>,
    at: usize,
    other: usize,
    target: &str,
    form: TextForm,
    outcome: &WriteOutcome,
    encoding: &str,
    english: bool,
) -> (out: (WriteStep, Option<(u64, u64)>))
    requires
        at < old(documents)@.len(),
        other < old(documents)@.len(),
    ensures
        out.0.saved == (!old(documents)@[at as int].state.read_only && *outcome is Saved),
        out.0.moved == (out.0.saved && !old(documents)@[at as int]@.is_at(target@)),
        document::names(out.0.dropped@) == names_to_drop(
            old(documents)@[at as int]@,
            target@,
            out.0.saved,
        ),
        document::optional_text(out.0.told) == if old(documents)@[at as int].state.read_only {
            None
        } else {
            Some(write_words(*outcome, encoding@, english))
        },
        out.1 == if out.0.saved {
            Some((old(documents)@[other as int].state.id, old(documents)@[at as int].state.id))
        } else {
            None
        },
        final(documents)@.len() == old(documents)@.len(),
        !out.0.saved ==> *final(documents) == *old(documents),
        out.0.saved ==> forall|i: int|
            #![trigger final(documents)@[i]]
            0 <= i < old(documents)@.len() ==> final(documents)@[i]@ == after_write(
                document::models(old(documents)@),
                at as int,
                target@,
                form,
                i,
            ),
{
    let from: u64 = documents[other].state.id;
    let into: u64 = documents[at].state.id;
    let step = write_document_in(documents, at, target, form, outcome, encoding, english);
    let merge: Option<(u64, u64)> = if step.saved {
        Some((from, into))
    } else {
        None
    };
    (step, merge)
}

/// What the writer is told where a save changed the form of the file: the
/// encoding with its mark, and the line break. Nothing where it did not.
pub fn saved_form_told(
    form: TextForm,
    held: TextForm,
    encoding: &str,
    utf8: bool,
    newline: &str,
    english: bool,
) -> (out: Option<String>)
    ensures
        document::optional_text(out) == if form == held {
            None
        } else {
            let mark = if form.byte_order_mark && utf8 {
                " BOM"@
            } else {
                ""@
            };
            Some(
                if english {
                    "Saved as "@ + encoding@ + mark + "・"@ + newline@
                } else {
                    encoding@ + mark + "・"@ + newline@ + "で保存しました"@
                },
            )
        },
{
    if form == held {
        return None;
    }
    let mark: &str = if form.byte_order_mark && utf8 {
        " BOM"
    } else {
        ""
    };
    let mut out = String::new();
    if english {
        text::push_text(&mut out, "Saved as ");
    }
    text::push_text(&mut out, encoding);
    text::push_text(&mut out, mark);
    text::push_text(&mut out, "・");
    text::push_text(&mut out, newline);
    if !english {
        text::push_text(&mut out, "で保存しました");
        assert(out@ =~= encoding@ + mark@ + "・"@ + newline@ + "で保存しました"@);
    } else {
        assert(out@ =~= "Saved as "@ + encoding@ + mark@ + "・"@ + newline@);
    }
    Some(out)
}

/// The file that is shown in the file manager for the document in front; a
/// document without one is told so.
pub fn reveal_active_document(document: &Document, english: bool) -> (out: Result<String, &'static str>)
    ensures
        match out {
            Ok(path) => document@.origin == Some(path@),
            Err(words) => document@.origin is None && words@ == if english {
                "This document has not been saved yet"@
            } else {
                "まだ保存していない文書です"@
            },
        },
{
    match &document.origin {
        Some(path) => Ok(path.clone()),
        None => Err(
            if english {
                "This document has not been saved yet"
            } else {
                "まだ保存していない文書です"
            },
        ),
    }
}

} // verus!
