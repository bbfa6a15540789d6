//! What is done when the writer asks something of a panel.
use crate::saving::document::{self, Document, DocumentModel, ExternalChange};
use crate::saving::writing;
use crate::terminal_panels::changes;
use crate::terminal_panels::entries;
use crate::terminal_panels::page;
use crate::terminal_panels::tab::{
    self, BelowModel, PanelDocument, PanelModel, Strip, StripModel,
};
use crate::text;
use vstd::prelude::*;

verus! {

/// What is done for an order.
#[derive(Clone, Copy, Debug, PartialEq, Eq, Structural)]
pub enum PanelStep {
    Nothing,
    /// The panel is shown as it is by now.
    Show,
    /// A panel is added and shown, with a shell of its own where the tab shows
    /// none.
    Add { shell: bool },
    RequestClose,
    /// The text is saved, under a name that is asked for or its own; then it is
    /// shown.
    Save { ask: bool },
    /// The taking in of output ends; then the panel is shown. `write` says that
    /// its text is written from then on.
    Stop { write: bool },
    /// Output is taken in, or copied.
    Import(i32),
    StartFile,
    OpenFile,
    /// The shell is replaced, after a question where `ask` says so.
    Switch { ask: bool },
}

/// What is known of the shells: how they are called, and which have ended.
pub struct Shells {
    pub names: Vec<(u64, String)>,
    pub finished: Vec<u64>,
    /// The writer is asked before a shell ends that still runs.
    pub confirm: bool,
}

/// A shell that would end with something in it.
pub open spec fn is_running(shells: Shells, shell: Option<u64>) -> bool {
    match shell {
        Some(id) => !shells.finished@.contains(id),
        None => false,
    }
}

fn still_runs(shells: &Shells, shell: Option<u64>) -> (out: bool)
    ensures
        out == is_running(*shells, shell),
{
    match shell {
        Some(id) => !tab::is_among(&shells.finished, id),
        None => false,
    }
}

/// What replacing the shell of a panel comes to.
pub open spec fn switch_step(entry: PanelModel, wanted: Seq<char>, shells: Shells) -> PanelStep {
    match entry.shell {
        Some(id) => if page::shell_name(shells.names@, id) == wanted {
            PanelStep::Nothing
        } else {
            PanelStep::Switch { ask: shells.confirm && is_running(shells, Some(id)) }
        },
        None => PanelStep::Nothing,
    }
}

/// The panel that is shown.
pub open spec fn current_panel(strip: StripModel) -> Option<PanelModel> {
    match strip.current() {
        Some(tab) => tab.below.current(),
        None => None,
    }
}

/// What is done for an order: 0 turns to a panel, 1 adds one, 2 closes it, 3 and
/// 6 save it, 4 changes whether its text is written, 5 ends the taking in of
/// output, 7 to 9 begin it or copy it, 10 sends it to a file, 11 opens a file,
/// 12 replaces the shell.
pub open spec fn step_for(
    strip: StripModel,
    action: i32,
    wanted: Seq<char>,
    shells: Shells,
) -> PanelStep {
    let entry = current_panel(strip);
    if action == 0 {
        PanelStep::Show
    } else if action == 1 {
        PanelStep::Add { shell: !(strip.current() is Some && strip.current()->0.terminal is Some) }
    } else if action == 2 {
        PanelStep::RequestClose
    } else if action == 3 || action == 6 {
        if entry is Some {
            PanelStep::Save { ask: action == 6 }
        } else {
            PanelStep::Show
        }
    } else if action == 4 {
        if entry is Some && entry->0.capture is Some {
            PanelStep::Stop { write: true }
        } else {
            PanelStep::Show
        }
    } else if action == 5 {
        if entry is Some {
            PanelStep::Stop { write: false }
        } else {
            PanelStep::Show
        }
    } else if 7 <= action <= 9 {
        PanelStep::Import(action)
    } else if action == 10 {
        PanelStep::StartFile
    } else if action == 11 {
        PanelStep::OpenFile
    } else if action == 12 && entry is Some {
        switch_step(entry->0, wanted, shells)
    } else {
        PanelStep::Nothing
    }
}

/// What an order changes at once.
pub open spec fn changed_by(strip: StripModel, action: i32, index: i32) -> StripModel {
    if action == 0 {
        changes::selected(strip, index)
    } else if action == 4 {
        match strip.current() {
            Some(tab) => match tab.below.current() {
                Some(entry) => if entry.capture is None {
                    strip.with_below(
                        strip.active,
                        tab.below.with_change(
                            tab.below.active,
                            PanelModel { viewer: !entry.viewer, ..entry },
                        ),
                    )
                } else {
                    strip
                },
                None => strip,
            },
            None => strip,
        }
    } else {
        strip
    }
}

/// Does what the writer asks of the panel that is shown, or says what is to be
/// done. `wanted` is what the shell is called that is asked for.
pub fn action(
    strip: &mut Strip,
    order: i32,
    index: i32,
    wanted: &str,
    shells: &Shells,
) -> (out: PanelStep)
    ensures
        final(strip)@ == changed_by(old(strip)@, order, index),
        out == step_for(old(strip)@, order, wanted@, *shells),
{
    let ghost before = strip@;
    let tab_at: usize = strip.active;
    let has_tab: bool = tab_at < strip.tabs.len();
    let has_entry: bool = has_tab && strip.tabs[tab_at].below.active
        < strip.tabs[tab_at].below.entries.len();
    if order == 0 {
        changes::select(strip, index);
        return PanelStep::Show;
    }
    if order == 1 {
        return PanelStep::Add { shell: !(has_tab && strip.tabs[tab_at].terminal.is_some()) };
    }
    if order == 2 {
        return PanelStep::RequestClose;
    }
    if order == 10 {
        return PanelStep::StartFile;
    }
    if order == 11 {
        return PanelStep::OpenFile;
    }
    if 7 <= order && order <= 9 {
        return PanelStep::Import(order);
    }
    if order != 3 && order != 4 && order != 5 && order != 6 && order != 12 {
        return PanelStep::Nothing;
    }
    if !has_entry {
        return if order == 12 {
            PanelStep::Nothing
        } else {
            PanelStep::Show
        };
    }
    let at: usize = strip.tabs[tab_at].below.active;
    assert(current_panel(before) == Some(strip.tabs@[tab_at as int].below.entries@[at as int]@));
    if order == 3 || order == 6 {
        return PanelStep::Save { ask: order == 6 };
    }
    if order == 5 {
        return PanelStep::Stop { write: false };
    }
    if order == 4 {
        if strip.tabs[tab_at].below.entries[at].capture.is_some() {
            return PanelStep::Stop { write: true };
        }
        let viewer: bool = strip.tabs[tab_at].below.entries[at].viewer;
        strip.tabs[tab_at].below.entries[at].viewer = !viewer;
        proof {
            let below = before.tabs[tab_at as int].below;
            let next = PanelModel { viewer: !viewer, ..below.entries[at as int] };
            assert(strip@.tabs[tab_at as int].below.entries =~= below.entries.update(
                at as int,
                next,
            ));
            assert(strip@.tabs =~= before.with_below(
                tab_at as int,
                below.with_change(at as int, next),
            ).tabs);
        }
        return PanelStep::Show;
    }
    match strip.tabs[tab_at].below.entries[at].shell {
        Some(id) => {
            let name = page::find_name(&shells.names, id);
            if text::same_text(name.as_str(), wanted) {
                PanelStep::Nothing
            } else {
                PanelStep::Switch { ask: shells.confirm && still_runs(shells, Some(id)) }
            }
        },
        None => PanelStep::Nothing,
    }
}

/// What taking in, or copying, the output of the terminal comes to.
#[derive(Clone, Copy, Debug, PartialEq, Eq, Structural)]
pub enum ImportStep {
    Nothing,
    /// The terminal's output is taken in already.
    TellCaptured,
    /// The panel's text is only read.
    TellReadOnly,
    /// A panel is added, and the output of this shell is taken in.
    Capture(u64),
    /// A panel is added, and the text is put into it.
    AddText,
    /// The text is put into the panel that is shown, where the caret is.
    InsertText,
}

/// What an order to take in or to copy comes to: 7 takes in what is written from
/// now on, 8 copies all there is, 9 what is selected. `text` is what is to be
/// copied.
pub open spec fn import_step(
    strip: StripModel,
    all: Seq<PanelModel>,
    action: i32,
    text: Seq<char>,
) -> ImportStep {
    match strip.current() {
        Some(tab) => match tab.terminal {
            Some(source) => if action == 7 {
                if entries::captured(all, source) {
                    ImportStep::TellCaptured
                } else {
                    ImportStep::Capture(source)
                }
            } else if text.len() == 0 {
                ImportStep::Nothing
            } else if action == 8 {
                ImportStep::AddText
            } else {
                match tab.below.current() {
                    Some(entry) => if entry.viewer {
                        ImportStep::TellReadOnly
                    } else {
                        ImportStep::InsertText
                    },
                    None => ImportStep::Nothing,
                }
            },
            None => ImportStep::Nothing,
        },
        None => ImportStep::Nothing,
    }
}

/// [`import_step`], of a pane.
pub fn import(
    strip: &Strip,
    all: &Vec<&PanelDocument>,
    action: i32,
    text: &str,
) -> (out: ImportStep)
    ensures
        out == import_step(strip@, entries::seen(all@), action, text@),
{
    if strip.active >= strip.tabs.len() {
        return ImportStep::Nothing;
    }
    let tab = &strip.tabs[strip.active];
    assert(strip@.current() == Some(tab@));
    match tab.terminal {
        Some(source) => {
            if action == 7 {
                return if entries::is_captured(all, source) {
                    ImportStep::TellCaptured
                } else {
                    ImportStep::Capture(source)
                };
            }
            let chars = text::chars_of(text);
            if chars.len() == 0 {
                return ImportStep::Nothing;
            }
            if action == 8 {
                return ImportStep::AddText;
            }
            if tab.below.active < tab.below.entries.len() {
                let entry = &tab.below.entries[tab.below.active];
                assert(tab@.below.current() == Some(entry@));
                if entry.viewer {
                    ImportStep::TellReadOnly
                } else {
                    ImportStep::InsertText
                }
            } else {
                ImportStep::Nothing
            }
        },
        None => ImportStep::Nothing,
    }
}

impl ImportStep {
    pub open spec fn told(self, english: bool) -> Option<Seq<char>> {
        match self {
            ImportStep::TellCaptured => Some(
                if english {
                    "This terminal is already being captured"@
                } else {
                    "このTerminalは取り込み中です"@
                },
            ),
            ImportStep::TellReadOnly => Some(
                if english {
                    "ReadOnly: choose another panel tab"@
                } else {
                    "ReadOnlyです。別のTABを選んでください"@
                },
            ),
            _ => None,
        }
    }

    /// What the writer is told.
    pub fn words(&self, english: bool) -> (out: Option<&'static str>)
        ensures
            (match out {
                Some(words) => Some(words@),
                None => None,
            }) == self.told(english),
    {
        match self {
            ImportStep::TellCaptured => Some(
                if english {
                    "This terminal is already being captured"
                } else {
                    "このTerminalは取り込み中です"
                },
            ),
            ImportStep::TellReadOnly => Some(
                if english {
                    "ReadOnly: choose another panel tab"
                } else {
                    "ReadOnlyです。別のTABを選んでください"
                },
            ),
            _ => None,
        }
    }
}

/// Two digits of a number, or more where it has more.
pub open spec fn two_digits(number: nat) -> Seq<char> {
    if number < 10 {
        seq!['0'] + text::decimal(number)
    } else {
        text::decimal(number)
    }
}

pub open spec fn four_digits(number: nat) -> Seq<char> {
    if number < 10 {
        seq!['0', '0', '0'] + text::decimal(number)
    } else if number < 100 {
        seq!['0', '0'] + text::decimal(number)
    } else if number < 1000 {
        seq!['0'] + text::decimal(number)
    } else {
        text::decimal(number)
    }
}

fn push_two(out: &mut String, number: u16)
    ensures
        final(out)@ == old(out)@ + two_digits(number as nat),
{
    let ghost before = out@;
    if number < 10 {
        out.push('0');
    }
    text::push_decimal(out, number as u64);
    assert(out@ =~= before + two_digits(number as nat));
}

fn push_four(out: &mut String, number: u16)
    ensures
        final(out)@ == old(out)@ + four_digits(number as nat),
{
    let ghost before = out@;
    if number < 1000 {
        out.push('0');
    }
    if number < 100 {
        out.push('0');
    }
    if number < 10 {
        out.push('0');
    }
    text::push_decimal(out, number as u64);
    assert(out@ =~= before + four_digits(number as nat));
}

/// A moment on the clock.
#[derive(Clone, Copy, Debug, PartialEq, Eq, Structural)]
pub struct Moment {
    pub year: u16,
    pub month: u16,
    pub day: u16,
    pub hour: u16,
    pub minute: u16,
    pub second: u16,
}

/// What output is called that is saved: by the moment it began.
pub open spec fn log_title(now: Moment) -> Seq<char> {
    "Terminal-"@ + four_digits(now.year as nat) + two_digits(now.month as nat) + two_digits(
        now.day as nat,
    ) + "-"@ + two_digits(now.hour as nat) + two_digits(now.minute as nat) + two_digits(
        now.second as nat,
    ) + ".txt"@
}

/// [`log_title`], as a string.
pub fn log_name(now: Moment) -> (out: String)
    ensures
        out@ == log_title(now),
{
    let mut out = String::new();
    text::push_text(&mut out, "Terminal-");
    push_four(&mut out, now.year);
    push_two(&mut out, now.month);
    push_two(&mut out, now.day);
    text::push_text(&mut out, "-");
    push_two(&mut out, now.hour);
    push_two(&mut out, now.minute);
    push_two(&mut out, now.second);
    text::push_text(&mut out, ".txt");
    assert(out@ =~= log_title(now));
    out
}

/// What sending the output to a file comes to.
#[derive(Clone, Copy, Debug, PartialEq, Eq, Structural)]
pub enum FileStep {
    Nothing,
    /// Another panel takes in the output: that has to end first.
    TellStop,
    /// The file is open in the editor, or output is written to it already.
    TellOpen,
    /// A file is asked for, for the output of this shell.
    Choose(u64),
    /// The file is made, and the output taken in.
    Create,
}

pub open spec fn terminal_of(strip: StripModel) -> Option<u64> {
    match strip.current() {
        Some(tab) => tab.terminal,
        None => None,
    }
}

fn find_terminal(strip: &Strip) -> (out: Option<u64>)
    ensures
        out == terminal_of(strip@),
{
    if strip.active < strip.tabs.len() {
        strip.tabs[strip.active].terminal
    } else {
        None
    }
}

/// Begins to send the output of the terminal to a file.
pub fn start_file(strip: &Strip, all: &Vec<&PanelDocument>) -> (out: FileStep)
    ensures
        out == match terminal_of(strip@) {
            Some(source) => if entries::captured(entries::seen(all@), source) {
                FileStep::TellStop
            } else {
                FileStep::Choose(source)
            },
            None => FileStep::Nothing,
        },
{
    match find_terminal(strip) {
        Some(source) => if entries::is_captured(all, source) {
            FileStep::TellStop
        } else {
            FileStep::Choose(source)
        },
        None => FileStep::Nothing,
    }
}

/// A file is in use: output goes to it, or it is open.
pub open spec fn in_use(
    all: Seq<PanelModel>,
    documents: Seq<DocumentModel>,
    path: Seq<char>,
    same: Seq<u64>,
) -> bool {
    entries::is_written(all, path, same) || writing::file_of(documents, path) is Some
        || entries::has_file(all, path)
}

/// Whether a file is in use. It is then no place for output.
pub fn is_in_use(
    all: &Vec<&PanelDocument>,
    documents: &Vec<Document>,
    path: &str,
    same: &Vec<u64>,
) -> (out: bool)
    ensures
        out == in_use(entries::seen(all@), document::models(documents@), path@, same@),
{
    entries::logging_to(all, path, same) || writing::document_at(documents, path).is_some()
        || entries::holds_file(all, path)
}

/// A file has been chosen for the output of a shell. By now another tab may be
/// shown.
pub fn file_chosen(
    strip: &Strip,
    all: &Vec<&PanelDocument>,
    documents: &Vec<Document>,
    path: &str,
    same: &Vec<u64>,
    source: u64,
) -> (out: FileStep)
    ensures
        out == if in_use(entries::seen(all@), document::models(documents@), path@, same@) {
            FileStep::TellOpen
        } else if terminal_of(strip@) == Some(source) {
            FileStep::Create
        } else {
            FileStep::Nothing
        },
{
    if is_in_use(all, documents, path, same) {
        return FileStep::TellOpen;
    }
    match find_terminal(strip) {
        Some(shown) => if shown == source {
            FileStep::Create
        } else {
            FileStep::Nothing
        },
        None => FileStep::Nothing,
    }
}

impl FileStep {
    pub open spec fn told(self, english: bool) -> Option<Seq<char>> {
        match self {
            FileStep::TellStop => Some(
                if english {
                    "Stop the current capture before starting another"@
                } else {
                    "現在の取り込みを停止してから開始してください"@
                },
            ),
            FileStep::TellOpen => Some(
                if english {
                    "Choose a file that is not open in the editor"@
                } else {
                    "開いている文書とは別の保存先を選んでください"@
                },
            ),
            _ => None,
        }
    }

    /// What the writer is told.
    pub fn words(&self, english: bool) -> (out: Option<&'static str>)
        ensures
            (match out {
                Some(words) => Some(words@),
                None => None,
            }) == self.told(english),
    {
        match self {
            FileStep::TellStop => Some(
                if english {
                    "Stop the current capture before starting another"
                } else {
                    "現在の取り込みを停止してから開始してください"
                },
            ),
            FileStep::TellOpen => Some(
                if english {
                    "Choose a file that is not open in the editor"
                } else {
                    "開いている文書とは別の保存先を選んでください"
                },
            ),
            _ => None,
        }
    }
}

/// A panel that has ended its taking in, as it closes.
#[derive(Debug)]
pub enum CloseStep {
    /// It stays open, for its output could not be written to the file.
    Refuse(String),
    /// What came in since it was saved is saved as well.
    SaveTail,
    /// It can close.
    Ready,
}

pub open spec fn failed_words(english: bool) -> Seq<char> {
    if english {
        "Log save failed. Save the panel contents before closing"@
    } else {
        "ログ保存に失敗しました。Panelの内容を保存してから閉じてください"@
    }
}

/// What is done with a panel before it closes, once its taking in has ended.
pub fn stop_for_close(entry: &mut PanelDocument, english: bool) -> (out: CloseStep)
    ensures
        match out {
            CloseStep::Refuse(words) => old(entry)@.file_error is Some && words@ == failed_words(
                english,
            ) + ": "@ + old(entry)@.file_error->0 && final(entry)@ == (PanelModel {
                file_error: None,
                ..old(entry)@
            }),
            CloseStep::SaveTail => old(entry)@.file_error is None && old(
                entry,
            )@.save_tail_on_close && old(entry)@.edited() && final(entry)@ == old(entry)@,
            CloseStep::Ready => old(entry)@.file_error is None && !(old(
                entry,
            )@.save_tail_on_close && old(entry)@.edited()) && final(entry)@ == (PanelModel {
                save_tail_on_close: false,
                ..old(entry)@
            }),
        },
{
    if let Some(error) = entry.file_error.take() {
        let mut words = String::new();
        text::push_text(
            &mut words,
            if english {
                "Log save failed. Save the panel contents before closing"
            } else {
                "ログ保存に失敗しました。Panelの内容を保存してから閉じてください"
            },
        );
        text::push_text(&mut words, ": ");
        text::push_text(&mut words, error.as_str());
        assert(words@ =~= failed_words(english) + ": "@ + error@);
        return CloseStep::Refuse(words);
    }
    if entry.save_tail_on_close && entry.document.state.edited {
        return CloseStep::SaveTail;
    }
    entry.save_tail_on_close = false;
    CloseStep::Ready
}

/// What came in last has been saved, or not: only then the panel can close.
pub fn tail_saved(entry: &mut PanelDocument, saved: bool) -> (out: bool)
    ensures
        out == saved,
        saved ==> final(entry)@ == (PanelModel { save_tail_on_close: false, ..old(entry)@ }),
        !saved ==> final(entry)@ == old(entry)@,
{
    if saved {
        entry.save_tail_on_close = false;
    }
    saved
}

/// The panel has been saved for closing, or not: what comes in until it closes is
/// saved as well.
pub fn save_for_close(entry: &mut PanelDocument, saved: bool) -> (out: bool)
    ensures
        out == saved,
        saved ==> final(entry)@ == (PanelModel { save_tail_on_close: true, ..old(entry)@ }),
        !saved ==> final(entry)@ == old(entry)@,
{
    if saved {
        entry.save_tail_on_close = true;
    }
    saved
}

/// Where the text of a panel is saved.
#[derive(Debug)]
pub enum SaveTo {
    /// A name is asked for; this one is offered.
    Ask(String),
    File(String),
}

/// Where the text of a panel is saved: in its file, or under a name that is asked
/// for.
pub fn save_to(entry: &PanelDocument, ask: bool) -> (out: SaveTo)
    ensures
        match out {
            SaveTo::File(path) => !ask && entry@.document.origin == Some(path@),
            SaveTo::Ask(name) => (ask || entry@.document.origin is None) && name@
                == match entry@.log_name {
                Some(name) => name,
                None => entry@.title,
            },
        },
{
    if !ask {
        if let Some(path) = &entry.document.origin {
            return SaveTo::File(path.clone());
        }
    }
    match &entry.log_name {
        Some(name) => SaveTo::Ask(name.clone()),
        None => SaveTo::Ask(entry.title.clone()),
    }
}

/// Another document than this one has a file.
pub open spec fn taken_by_another(
    all: Seq<PanelModel>,
    documents: Seq<DocumentModel>,
    own: u64,
    target: Seq<char>,
) -> bool {
    ||| match writing::file_of(documents, target) {
        Some(at) => documents[at].state.id != own,
        None => false,
    }
    ||| exists|i: int|
        0 <= i < all.len() && (#[trigger] all[i]).document.state.id != own
            && all[i].document.is_at(target)
}

/// Whether the text of a panel can be saved in a file.
#[derive(Clone, Copy, Debug, PartialEq, Eq, Structural)]
pub enum SaveCheck {
    /// The file was changed by another program.
    TellChanged,
    /// Another tab has the file open.
    TellTaken,
    Write,
}

pub open spec fn save_check(
    entry: PanelModel,
    all: Seq<PanelModel>,
    documents: Seq<DocumentModel>,
    target: Seq<char>,
) -> SaveCheck {
    if entry.document.is_at(target) && entry.document.state.change
        != ExternalChange::Unchanged {
        SaveCheck::TellChanged
    } else if taken_by_another(all, documents, entry.document.state.id, target) {
        SaveCheck::TellTaken
    } else {
        SaveCheck::Write
    }
}

/// [`save_check`]: whether the text of a panel can be saved in a file.
pub fn check_save(
    entry: &PanelDocument,
    all: &Vec<&PanelDocument>,
    documents: &Vec<Document>,
    target: &str,
) -> (out: SaveCheck)
    ensures
        out == save_check(
            entry@,
            entries::seen(all@),
            document::models(documents@),
            target@,
        ),
{
    if entry.document.is_at(target) && entry.document.state.change != ExternalChange::Unchanged {
        return SaveCheck::TellChanged;
    }
    let own: u64 = entry.document.state.id;
    if let Some(other) = writing::document_at(documents, target) {
        assert(document::models(documents@)[other as int] == documents@[other as int]@);
        if documents[other].state.id != own {
            return SaveCheck::TellTaken;
        }
    }
    let ghost seen = entries::seen(all@);
    let mut at: usize = 0;
    while at < all.len()
        invariant
            at <= all@.len(),
            seen == entries::seen(all@),
            own == entry@.document.state.id,
            !(entry@.document.is_at(target@) && entry@.document.state.change
                != ExternalChange::Unchanged),
            forall|i: int|
                0 <= i < at ==> !((#[trigger] seen[i]).document.state.id != own
                    && seen[i].document.is_at(target@)),
        decreases all@.len() - at,
    {
        assert(seen[at as int] == all@[at as int]@);
        if all[at].document.state.id != own && all[at].document.is_at(target) {
            return SaveCheck::TellTaken;
        }
        at += 1;
    }
    SaveCheck::Write
}

impl SaveCheck {
    pub open spec fn told(self, english: bool) -> Option<Seq<char>> {
        match self {
            SaveCheck::TellChanged => Some(
                if english {
                    "The file changed outside; use Save As"@
                } else {
                    "保存先が外部で変わっています。別名で保存してください"@
                },
            ),
            SaveCheck::TellTaken => Some(
                if english {
                    "Another tab has this file open; use a different name"@
                } else {
                    "別のTABで開いている保存先です。別名で保存してください"@
                },
            ),
            SaveCheck::Write => None,
        }
    }

    /// What the writer is told.
    pub fn words(&self, english: bool) -> (out: Option<&'static str>)
        ensures
            (match out {
                Some(words) => Some(words@),
                None => None,
            }) == self.told(english),
    {
        match self {
            SaveCheck::TellChanged => Some(
                if english {
                    "The file changed outside; use Save As"
                } else {
                    "保存先が外部で変わっています。別名で保存してください"
                },
            ),
            SaveCheck::TellTaken => Some(
                if english {
                    "Another tab has this file open; use a different name"
                } else {
                    "別のTABで開いている保存先です。別名で保存してください"
                },
            ),
            SaveCheck::Write => None,
        }
    }
}

/// What an order to close a panel comes to.
#[derive(Clone, Copy, Debug, PartialEq, Eq, Structural)]
pub enum CloseAsk {
    Close,
    /// The writer is asked; `save` says that there is something to save.
    Ask { save: bool },
}

pub open spec fn close_ask(entry: PanelModel, shells: Shells) -> CloseAsk {
    let save = entry.edited() || entry.capture is Some;
    if save || (shells.confirm && is_running(shells, entry.shell)) {
        CloseAsk::Ask { save }
    } else {
        CloseAsk::Close
    }
}

/// [`close_ask`]: whether the writer is asked before a panel closes.
pub fn request_close(entry: &PanelDocument, shells: &Shells) -> (out: CloseAsk)
    ensures
        out == close_ask(entry@, *shells),
{
    let save: bool = entry.document.state.edited || entry.capture.is_some();
    if save || (shells.confirm && still_runs(shells, entry.shell)) {
        CloseAsk::Ask { save }
    } else {
        CloseAsk::Close
    }
}

/// What the writer can answer.
pub fn close_choices(save: bool, english: bool) -> (out: Vec<&'static str>)
    ensures
        save ==> out@.len() == 3 && out@[0]@ == (if english {
            "Save and Close"@
        } else {
            "保存して閉じる"@
        }) && out@[1]@ == (if english {
            "Close Without Saving"@
        } else {
            "保存せず閉じる"@
        }),
        !save ==> out@.len() == 2 && out@[0]@ == (if english {
            "Close"@
        } else {
            "閉じる"@
        }),
        out@.last()@ == (if english {
            "Cancel"@
        } else {
            "キャンセル"@
        }),
{
    let mut out: Vec<&'static str> = Vec::new();
    if save {
        out.push(
            if english {
                "Save and Close"
            } else {
                "保存して閉じる"
            },
        );
        out.push(
            if english {
                "Close Without Saving"
            } else {
                "保存せず閉じる"
            },
        );
    } else {
        out.push(
            if english {
                "Close"
            } else {
                "閉じる"
            },
        );
    }
    out.push(
        if english {
            "Cancel"
        } else {
            "キャンセル"
        },
    );
    out
}

/// What the writer is asked before a panel closes.
pub fn close_question(english: bool) -> (out: &'static str)
    ensures
        out@ == if english {
            "Close this panel tab?\n\nClosing stops its log capture and shell. Cancel keeps them running."@
        } else {
            "PanelのTABを閉じますか？\n\nログ取り込みとシェルは閉じると停止します。キャンセルでは継続します。"@
        },
{
    if english {
        "Close this panel tab?\n\nClosing stops its log capture and shell. Cancel keeps them running."
    } else {
        "PanelのTABを閉じますか？\n\nログ取り込みとシェルは閉じると停止します。キャンセルでは継続します。"
    }
}

/// What the writer is asked before the shell of a panel is replaced.
pub fn switch_question(english: bool) -> (out: &'static str)
    ensures
        out@ == if english {
            "Switch this Terminal Panel shell?\n\nIts current session will end."@
        } else {
            "このTerminal Panelのシェルを切り替えますか？\n\n現在のセッションは終了します。"@
        },
{
    if english {
        "Switch this Terminal Panel shell?\n\nIts current session will end."
    } else {
        "このTerminal Panelのシェルを切り替えますか？\n\n現在のセッションは終了します。"
    }
}

/// The answers to [`switch_question`].
pub fn switch_choices(english: bool) -> (out: [&'static str; 2])
    ensures
        out@[0]@ == if english { "Switch"@ } else { "切り替える"@ },
        out@[1]@ == if english { "Cancel"@ } else { "キャンセル"@ },
{
    if english {
        ["Switch", "Cancel"]
    } else {
        ["切り替える", "キャンセル"]
    }
}

/// What is told where the file for the output could not be made.
pub fn log_not_started(error: &str, english: bool) -> (out: String)
    ensures
        out@ == if english {
            "Cannot start log: "@ + error@
        } else {
            "ログを開始できません: "@ + error@
        },
{
    text::followed(
        if english {
            "Cannot start log: "
        } else {
            "ログを開始できません: "
        },
        error,
    )
}

/// What is told where a file could not be opened in a panel.
pub fn not_opened(error: &str, english: bool) -> (out: String)
    ensures
        out@ == if english {
            "Cannot open: "@ + error@
        } else {
            "開けません: "@ + error@
        },
{
    text::followed(
        if english {
            "Cannot open: "
        } else {
            "開けません: "
        },
        error,
    )
}

/// What an order to rename the file of a panel comes to.
#[derive(Debug)]
pub enum RenameStep {
    /// The output has to end first.
    TellCapturing,
    /// The document has no file yet.
    TellUnsaved,
    /// The name stays as it is.
    Nothing,
    /// The file at this path is moved.
    Move(String),
}

/// Whether the file of a panel can be renamed. `to` is where it would be, where
/// the name is one that a file can have.
pub fn rename(entry: &PanelDocument, to: &str) -> (out: RenameStep)
    ensures
        match out {
            RenameStep::TellCapturing => entry@.capture is Some,
            RenameStep::TellUnsaved => entry@.capture is None && entry@.document.origin is None,
            RenameStep::Nothing => entry@.capture is None && entry@.document.is_at(to@),
            RenameStep::Move(from) => entry@.capture is None && entry@.document.origin == Some(
                from@,
            ) && !entry@.document.is_at(to@),
        },
{
    if entry.capture.is_some() {
        return RenameStep::TellCapturing;
    }
    match &entry.document.origin {
        Some(path) => if entry.document.is_at(to) {
            RenameStep::Nothing
        } else {
            RenameStep::Move(path.clone())
        },
        None => RenameStep::TellUnsaved,
    }
}

impl RenameStep {
    pub open spec fn told(self, english: bool) -> Option<Seq<char>> {
        match self {
            RenameStep::TellCapturing => Some(
                if english {
                    "Stop capture before renaming"@
                } else {
                    "取り込みを停止してから名前を変更してください"@
                },
            ),
            RenameStep::TellUnsaved => Some(
                if english {
                    "Rename: save the document first"@
                } else {
                    "名前の変更: 先に保存してください"@
                },
            ),
            _ => None,
        }
    }

    /// What the writer is told.
    pub fn words(&self, english: bool) -> (out: Option<&'static str>)
        ensures
            (match out {
                Some(words) => Some(words@),
                None => None,
            }) == self.told(english),
    {
        match self {
            RenameStep::TellCapturing => Some(
                if english {
                    "Stop capture before renaming"
                } else {
                    "取り込みを停止してから名前を変更してください"
                },
            ),
            RenameStep::TellUnsaved => Some(
                if english {
                    "Rename: save the document first"
                } else {
                    "名前の変更: 先に保存してください"
                },
            ),
            _ => None,
        }
    }
}

/// The file of a panel has been moved.
pub fn renamed(entry: &mut PanelDocument, to: String)
    ensures
        final(entry)@ == (PanelModel {
            document: DocumentModel { origin: Some(to@), ..old(entry)@.document },
            ..old(entry)@
        }),
{
    entry.document.origin = Some(to);
}

/// Whether the shell of a panel is still to be replaced, once the writer has
/// agreed: the panel is there yet, and has another shell.
pub fn switch_confirmed(
    all: &Vec<&PanelDocument>,
    id: u64,
    wanted: &str,
    names: &Vec<(u64, String)>,
) -> (out: bool)
    ensures
        out == still_to_switch(entries::seen(all@), id, wanted@, names@, 0),
{
    let ghost seen = entries::seen(all@);
    let mut at: usize = 0;
    while at < all.len()
        invariant
            at <= all@.len(),
            seen == entries::seen(all@),
            still_to_switch(seen, id, wanted@, names@, 0) == still_to_switch(
                seen,
                id,
                wanted@,
                names@,
                at as int,
            ),
        decreases all@.len() - at,
    {
        assert(seen[at as int] == all@[at as int]@);
        if all[at].id == id {
            return match all[at].shell {
                Some(shell) => {
                    let name = page::find_name(names, shell);
                    !text::same_text(name.as_str(), wanted)
                },
                None => true,
            };
        }
        at += 1;
    }
    false
}

pub open spec fn still_to_switch(
    all: Seq<PanelModel>,
    id: u64,
    wanted: Seq<char>,
    names: Seq<(u64, String)>,
    from: int,
) -> bool
    decreases all.len() - from,
{
    if from < 0 || from >= all.len() {
        false
    } else if all[from].id == id {
        match all[from].shell {
            Some(shell) => page::shell_name(names, shell) != wanted,
            None => true,
        }
    } else {
        still_to_switch(all, id, wanted, names, from + 1)
    }
}

/// A file that is open already is not opened in a panel as well: why it is not.
pub fn refuse_open(
    all: &Vec<&PanelDocument>,
    documents: &Vec<Document>,
    path: &str,
    english: bool,
) -> (out: Option<&'static str>)
    ensures
        match out {
            Some(words) => (writing::file_of(document::models(documents@), path@) is Some
                || entries::has_file(entries::seen(all@), path@)) && words@ == if english {
                "This file is already open"@
            } else {
                "このファイルは既に開いています"@
            },
            None => !(writing::file_of(document::models(documents@), path@) is Some
                || entries::has_file(entries::seen(all@), path@)),
        },
{
    if writing::document_at(documents, path).is_some() || entries::holds_file(all, path) {
        Some(
            if english {
                "This file is already open"
            } else {
                "このファイルは既に開いています"
            },
        )
    } else {
        None
    }
}

/// A file that has been read becomes a panel of the tab that is shown, where that
/// shows a terminal.
pub fn open_file(strip: &mut Strip, entry: PanelDocument) -> (out: bool)
    ensures
        out == (terminal_of(old(strip)@) is Some),
        !out ==> final(strip)@ == old(strip)@,
        out ==> final(strip)@ == old(strip)@.with_below(
            old(strip)@.active,
            old(strip)@.current()->0.below.with_entry(entry@),
        ),
{
    if find_terminal(strip).is_none() {
        return false;
    }
    let ghost before = strip@;
    let ghost new = entry@;
    let at: usize = strip.active;
    strip.tabs[at].below.add_entry(entry);
    proof {
        assert(strip@.tabs =~= before.with_below(
            at as int,
            before.tabs[at as int].below.with_entry(new),
        ).tabs);
    }
    true
}

/// Whether a panel has to end its taking in: the shell has ended.
pub fn should_stop(entry: &PanelDocument, finished: &Vec<u64>) -> (out: bool)
    ensures
        out == (entry@.capture is Some && finished@.contains(entry@.capture->0)),
{
    match entry.capture {
        Some(session) => tab::is_among(finished, session),
        None => false,
    }
}

pub open spec fn retained_words(english: bool) -> Seq<char> {
    if english {
        "File logging stopped; output is retained in the panel"@
    } else {
        "ログ保存が停止しました。内容はPanelに保持しています"@
    }
}

/// What the writer is told of a file that could not be written, once.
pub fn take_error(entry: &mut PanelDocument, english: bool) -> (out: Option<String>)
    ensures
        final(entry)@ == (PanelModel { file_error: None, ..old(entry)@ }),
        document::optional_text(out) == match old(entry)@.file_error {
            Some(error) => Some(retained_words(english) + ": "@ + error),
            None => None,
        },
{
    match entry.file_error.take() {
        Some(error) => {
            let mut words = String::new();
            text::push_text(
                &mut words,
                if english {
                    "File logging stopped; output is retained in the panel"
                } else {
                    "ログ保存が停止しました。内容はPanelに保持しています"
                },
            );
            text::push_text(&mut words, ": ");
            text::push_text(&mut words, error.as_str());
            assert(words@ =~= retained_words(english) + ": "@ + error@);
            Some(words)
        },
        None => None,
    }
}

} // verus!
