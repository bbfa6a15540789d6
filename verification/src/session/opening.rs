//! Putting back what the last run left.
use crate::paths;
use crate::saving::document::{self, CopyName, WorkIdentity};
use crate::session::tab::{
    self, PaneModel, Paper, SessionPane, SessionTab, TabModel, TabSettings, WindowPlace,
};
use vstd::prelude::*;

verus! {

/// Where a document of the session comes from.
#[derive(Clone, Copy, Debug, PartialEq, Eq, Structural)]
pub enum Source {
    /// The work copy at this place in the list of those that were restored.
    Restored(usize),
    /// Its file, which had nothing unsaved.
    Disk,
    /// A new one.
    New,
}

/// A document of the session.
pub struct SessionDocument {
    pub name: WorkIdentity,
    pub source: Source,
}

/// [`SessionDocument`] with its text as characters.
pub ghost struct SourceModel {
    pub name: CopyName,
    pub source: Source,
}

impl View for SessionDocument {
    type V = SourceModel;

    open spec fn view(&self) -> SourceModel {
        SourceModel { name: self.name@, source: self.source }
    }
}

pub open spec fn source_models(documents: Seq<SessionDocument>) -> Seq<SourceModel> {
    Seq::new(documents.len(), |i: int| documents[i]@)
}

/// A tab that is opened: the place of its document, and how it was looked at.
/// Without settings it is looked at afresh.
#[derive(Clone, Copy, Debug, PartialEq, Eq, Structural)]
pub struct OpenTab {
    pub document: usize,
    pub settings: Option<TabSettings>,
}

/// The tabs of one pane.
pub struct OpenStrip {
    pub tabs: Vec<OpenTab>,
    pub active: usize,
    pub paper: Paper,
}

/// [`OpenStrip`] with its tabs as a sequence.
pub ghost struct StripModel {
    pub tabs: Seq<OpenTab>,
    pub active: usize,
    pub paper: Paper,
}

impl View for OpenStrip {
    type V = StripModel;

    open spec fn view(&self) -> StripModel {
        StripModel { tabs: self.tabs@, active: self.active, paper: self.paper }
    }
}

pub open spec fn strip_models(strips: Seq<OpenStrip>) -> Seq<StripModel> {
    Seq::new(strips.len(), |i: int| strips[i]@)
}

/// What a session is opened as.
pub struct OpenSession {
    pub documents: Vec<SessionDocument>,
    pub strips: Vec<OpenStrip>,
    pub focused: usize,
}

/// [`OpenSession`] as sequences.
pub ghost struct Opening {
    pub documents: Seq<SourceModel>,
    pub strips: Seq<StripModel>,
}

impl OpenSession {
    pub open spec fn opening(self) -> Opening {
        Opening {
            documents: source_models(self.documents@),
            strips: strip_models(self.strips@),
        }
    }
}

/// Where the document that a tab names is found.
#[derive(Clone, Copy, Debug, PartialEq, Eq, Structural)]
pub enum Found {
    /// It already stands in a tab; its place among the documents.
    Held(usize),
    /// It has a work copy; its place among those.
    Restored(usize),
    /// Its file can be opened.
    Disk,
    /// It is gone.
    Nowhere,
}

/// The place of the first of the documents with a name.
pub open spec fn held_at(documents: Seq<SourceModel>, name: CopyName, n: int) -> Option<int>
    decreases n,
{
    if n <= 0 {
        None
    } else {
        match held_at(documents, name, n - 1) {
            Some(at) => Some(at),
            None => if documents[n - 1].name == name {
                Some(n - 1)
            } else {
                None
            },
        }
    }
}

/// The place of the first of the names that is this one.
pub open spec fn name_at(names: Seq<CopyName>, name: CopyName, n: int) -> Option<int>
    decreases n,
{
    if n <= 0 {
        None
    } else {
        match name_at(names, name, n - 1) {
            Some(at) => Some(at),
            None => if names[n - 1] == name {
                Some(n - 1)
            } else {
                None
            },
        }
    }
}

/// The files that could be opened, as the parts of their paths.
pub open spec fn openable(files: Seq<String>) -> Seq<Seq<Seq<char>>> {
    Seq::new(files.len(), |i: int| paths::parts(files[i]@))
}

/// Where a document is found: a file that stands in two tabs is one document,
/// and unsaved work comes before the file.
pub open spec fn found(
    name: CopyName,
    placed: Seq<SourceModel>,
    restored: Seq<CopyName>,
    files: Seq<Seq<Seq<char>>>,
) -> Found {
    match held_at(placed, name, placed.len() as int) {
        Some(at) => Found::Held(at as usize),
        None => match name_at(restored, name, restored.len() as int) {
            Some(at) => Found::Restored(at as usize),
            None => match name {
                CopyName::File(path) => if files.contains(path) {
                    Found::Disk
                } else {
                    Found::Nowhere
                },
                CopyName::Untitled(_) => Found::Nowhere,
            },
        },
    }
}

proof fn held_early(documents: Seq<SourceModel>, name: CopyName, at: int, n: int)
    requires
        0 <= at < n <= documents.len(),
        held_at(documents, name, at) is None,
        documents[at].name == name,
    ensures
        held_at(documents, name, n) == Some(at),
    decreases n - at,
{
    if n > at + 1 {
        held_early(documents, name, at, n - 1);
    }
}

proof fn name_early(names: Seq<CopyName>, name: CopyName, at: int, n: int)
    requires
        0 <= at < n <= names.len(),
        name_at(names, name, at) is None,
        names[at] == name,
    ensures
        name_at(names, name, n) == Some(at),
    decreases n - at,
{
    if n > at + 1 {
        name_early(names, name, at, n - 1);
    }
}

/// Finds the document that a tab of the session names.
pub fn document_for(
    tab: &SessionTab,
    restored: &Vec<WorkIdentity>,
    placed: &Vec<SessionDocument>,
    files: &Vec<String>,
) -> (out: Found)
    ensures
        out == found(
            tab@.name(),
            source_models(placed@),
            document::names(restored@),
            openable(files@),
        ),
        out is Held ==> out->Held_0 < placed@.len(),
        out is Restored ==> out->Restored_0 < restored@.len(),
{
    let name = tab.name();
    let mut at: usize = 0;
    while at < placed.len()
        invariant
            at <= placed@.len(),
            name@ == tab@.name(),
            held_at(source_models(placed@), name@, at as int) is None,
        decreases placed@.len() - at,
    {
        if placed[at].name.same(&name) {
            proof {
                held_early(source_models(placed@), name@, at as int, placed@.len() as int);
            }
            return Found::Held(at);
        }
        at += 1;
    }
    let mut at: usize = 0;
    while at < restored.len()
        invariant
            at <= restored@.len(),
            name@ == tab@.name(),
            held_at(source_models(placed@), name@, placed@.len() as int) is None,
            name_at(document::names(restored@), name@, at as int) is None,
        decreases restored@.len() - at,
    {
        if restored[at].same(&name) {
            proof {
                name_early(document::names(restored@), name@, at as int, restored@.len() as int);
            }
            return Found::Restored(at);
        }
        at += 1;
    }
    match &name {
        WorkIdentity::File(path) => {
            let mut at: usize = 0;
            while at < files.len()
                invariant
                    at <= files@.len(),
                    name@ == tab@.name() && name@ == CopyName::File(paths::parts(path@)),
                    held_at(source_models(placed@), name@, placed@.len() as int) is None,
                    name_at(document::names(restored@), name@, restored@.len() as int) is None,
                    forall|i: int|
                        0 <= i < at ==> openable(files@)[i] != paths::parts(path@),
                decreases files@.len() - at,
            {
                if paths::same_path(files[at].as_str(), path.as_str()) {
                    assert(openable(files@)[at as int] == paths::parts(path@));
                    return Found::Disk;
                }
                at += 1;
            }
            Found::Nowhere
        },
        WorkIdentity::Untitled(_) => Found::Nowhere,
    }
}

/// How a stored tab is looked at: without an anchor, the caret is it.
pub open spec fn settings_of(tab: TabModel) -> TabSettings {
    TabSettings {
        anchor: if tab.settings.anchor is Some {
            tab.settings.anchor
        } else {
            tab.settings.caret
        },
        ..tab.settings
    }
}

/// A tab is put at the end of a strip.
pub open spec fn with_tab(
    strips: Seq<StripModel>,
    pane: int,
    document: usize,
    settings: Option<TabSettings>,
) -> Seq<StripModel> {
    strips.update(
        pane,
        StripModel {
            tabs: strips[pane].tabs.push(OpenTab { document, settings }),
            ..strips[pane]
        },
    )
}

/// The session after one stored tab has been put into a pane.
pub open spec fn placed_tab(
    before: Opening,
    tab: TabModel,
    pane: int,
    restored: Seq<CopyName>,
    files: Seq<Seq<Seq<char>>>,
) -> Opening {
    let settings = Some(settings_of(tab));
    let end = before.documents.len() as usize;
    match found(tab.name(), before.documents, restored, files) {
        Found::Held(at) => Opening {
            strips: with_tab(before.strips, pane, at, settings),
            ..before
        },
        Found::Restored(at) => Opening {
            documents: before.documents.push(
                SourceModel { name: tab.name(), source: Source::Restored(at) },
            ),
            strips: with_tab(before.strips, pane, end, settings),
        },
        Found::Disk => Opening {
            documents: before.documents.push(
                SourceModel { name: tab.name(), source: Source::Disk },
            ),
            strips: with_tab(before.strips, pane, end, settings),
        },
        Found::Nowhere => before,
    }
}

/// The session after the first `n` tabs of a stored pane.
pub open spec fn placed_tabs(
    before: Opening,
    tabs: Seq<TabModel>,
    pane: int,
    restored: Seq<CopyName>,
    files: Seq<Seq<Seq<char>>>,
    n: int,
) -> Opening
    decreases n,
{
    if n <= 0 {
        before
    } else {
        placed_tab(
            placed_tabs(before, tabs, pane, restored, files, n - 1),
            tabs[n - 1],
            pane,
            restored,
            files,
        )
    }
}

/// The tab in front, where there are as many tabs as there are now.
pub open spec fn in_front(wanted: usize, tabs: nat) -> usize {
    if tabs == 0 {
        0
    } else if wanted < tabs {
        wanted
    } else {
        (tabs - 1) as usize
    }
}

/// The session after a stored pane: a pane past the last goes into the last.
pub open spec fn placed_pane(
    before: Opening,
    stored: PaneModel,
    position: int,
    restored: Seq<CopyName>,
    files: Seq<Seq<Seq<char>>>,
) -> Opening {
    let last = before.strips.len() - 1;
    let pane = if position < last {
        position
    } else {
        last
    };
    let after = placed_tabs(before, stored.tabs, pane, restored, files, stored.tabs.len() as int);
    let strip = after.strips[pane];
    Opening {
        strips: after.strips.update(
            pane,
            StripModel {
                active: in_front(stored.active, strip.tabs.len()),
                paper: stored.paper,
                ..strip
            },
        ),
        ..after
    }
}

/// The session after the first `n` stored panes.
pub open spec fn placed_panes(
    before: Opening,
    panes: Seq<PaneModel>,
    restored: Seq<CopyName>,
    files: Seq<Seq<Seq<char>>>,
    n: int,
) -> Opening
    decreases n,
{
    if n <= 0 {
        before
    } else {
        placed_pane(
            placed_panes(before, panes, restored, files, n - 1),
            panes[n - 1],
            n - 1,
            restored,
            files,
        )
    }
}

/// Whether the work copy at a place stands in the session.
pub open spec fn is_shown(documents: Seq<SourceModel>, copy: int, n: int) -> bool {
    exists|i: int| 0 <= i < n && (#[trigger] documents[i]).source == Source::Restored(copy as usize)
}

/// The session after the first `n` work copies: those that the session does not
/// name go into the pane in use. `n_placed` documents came from the session.
pub open spec fn left_over(
    before: Opening,
    restored: Seq<CopyName>,
    focused: int,
    n_placed: int,
    n: int,
) -> Opening
    decreases n,
{
    if n <= 0 {
        before
    } else {
        let so_far = left_over(before, restored, focused, n_placed, n - 1);
        if is_shown(before.documents, n - 1, n_placed) {
            so_far
        } else {
            Opening {
                documents: so_far.documents.push(
                    SourceModel {
                        name: restored[n - 1],
                        source: Source::Restored((n - 1) as usize),
                    },
                ),
                strips: with_tab(
                    so_far.strips,
                    focused,
                    so_far.documents.len() as usize,
                    None,
                ),
            }
        }
    }
}

/// No colours of its own.
pub open spec fn plain_paper() -> Paper {
    Paper { ground: None, ink: None }
}

/// As many empty strips as there are panes.
pub open spec fn empty_strips(panes: nat) -> Seq<StripModel> {
    Seq::new(
        panes,
        |i: int| StripModel { tabs: Seq::empty(), active: 0, paper: plain_paper() },
    )
}

/// The session opened in a window of so many panes.
pub open spec fn opened(
    stored: Seq<PaneModel>,
    focused: usize,
    panes: nat,
    restored: Seq<CopyName>,
    files: Seq<Seq<Seq<char>>>,
) -> Opening {
    let start = Opening { documents: Seq::empty(), strips: empty_strips(panes) };
    let placed = placed_panes(start, stored, restored, files, stored.len() as int);
    left_over(
        placed,
        restored,
        in_front(focused, panes) as int,
        placed.documents.len() as int,
        restored.len() as int,
    )
}

fn put_tab(
    session: &mut OpenSession,
    stored: &SessionTab,
    pane: usize,
    restored: &Vec<WorkIdentity>,
    files: &Vec<String>,
)
    requires
        pane < old(session).strips@.len(),
        tabs_hold(old(session).opening()),
    ensures
        final(session).focused == old(session).focused,
        final(session).strips@.len() == old(session).strips@.len(),
        tabs_hold(final(session).opening()),
        final(session).opening() == placed_tab(
            old(session).opening(),
            stored@,
            pane as int,
            document::names(restored@),
            openable(files@),
        ),
{
    let ghost before = session.opening();
    let settings: TabSettings = TabSettings {
        anchor: if stored.settings.anchor.is_some() {
            stored.settings.anchor
        } else {
            stored.settings.caret
        },
        ..stored.settings
    };
    let end: usize = session.documents.len();
    let place: usize = match document_for(stored, restored, &session.documents, files) {
        Found::Nowhere => {
            return;
        },
        Found::Held(at) => at,
        Found::Restored(at) => {
            let one = SessionDocument { name: stored.name(), source: Source::Restored(at) };
            session.documents.push(one);
            assert(source_models(session.documents@) =~= before.documents.push(one@));
            end
        },
        Found::Disk => {
            let one = SessionDocument { name: stored.name(), source: Source::Disk };
            session.documents.push(one);
            assert(source_models(session.documents@) =~= before.documents.push(one@));
            end
        },
    };
    session.strips[pane].tabs.push(OpenTab { document: place, settings: Some(settings) });
    proof {
        assert(strip_models(session.strips@) =~= with_tab(
            before.strips,
            pane as int,
            place,
            Some(settings),
        ));
        one_more_tab_holds(before, session.opening(), pane as int, place, Some(settings));
    }
}

/// Tabs hold on to their documents when documents come behind, and a tab that
/// shows one of them.
proof fn one_more_tab_holds(
    before: Opening,
    after: Opening,
    pane: int,
    document: usize,
    settings: Option<TabSettings>,
)
    requires
        tabs_hold(before),
        0 <= pane < before.strips.len(),
        before.documents.len() <= after.documents.len(),
        document < after.documents.len(),
        after.strips == with_tab(before.strips, pane, document, settings),
    ensures
        tabs_hold(after),
{
    assert forall|i: int, j: int|
        #![trigger after.strips[i].tabs[j]]
        0 <= i < after.strips.len() && 0 <= j < after.strips[i].tabs.len() implies after.strips[i].tabs[j].document
        < after.documents.len() by {
        if j < before.strips[i].tabs.len() {
            assert(after.strips[i].tabs[j] == before.strips[i].tabs[j]);
        }
    }
}

fn put_pane(
    session: &mut OpenSession,
    stored: &SessionPane,
    position: usize,
    restored: &Vec<WorkIdentity>,
    files: &Vec<String>,
)
    requires
        old(session).strips@.len() > 0,
        tabs_hold(old(session).opening()),
    ensures
        final(session).focused == old(session).focused,
        final(session).strips@.len() == old(session).strips@.len(),
        tabs_hold(final(session).opening()),
        final(session).opening() == placed_pane(
            old(session).opening(),
            stored@,
            position as int,
            document::names(restored@),
            openable(files@),
        ),
{
    let ghost before = session.opening();
    let last: usize = session.strips.len() - 1;
    let pane: usize = if position < last {
        position
    } else {
        last
    };
    let mut at: usize = 0;
    while at < stored.tabs.len()
        invariant
            at <= stored.tabs@.len(),
            pane < session.strips@.len(),
            session.strips@.len() == before.strips.len(),
            session.focused == old(session).focused,
            tabs_hold(session.opening()),
            session.opening() == placed_tabs(
                before,
                stored@.tabs,
                pane as int,
                document::names(restored@),
                openable(files@),
                at as int,
            ),
        decreases stored.tabs@.len() - at,
    {
        put_tab(session, &stored.tabs[at], pane, restored, files);
        at += 1;
    }
    let ghost after = session.opening();
    let count: usize = session.strips[pane].tabs.len();
    let front: usize = if count == 0 {
        0
    } else if stored.active < count {
        stored.active
    } else {
        count - 1
    };
    session.strips[pane].active = front;
    session.strips[pane].paper = stored.paper;
    assert(strip_models(session.strips@) =~= after.strips.update(
        pane as int,
        StripModel {
            active: in_front(stored.active, after.strips[pane as int].tabs.len()),
            paper: stored.paper,
            ..after.strips[pane as int]
        },
    ));
    proof {
        let now = session.opening();
        assert forall|i: int, j: int|
            #![trigger now.strips[i].tabs[j]]
            0 <= i < now.strips.len() && 0 <= j < now.strips[i].tabs.len() implies now.strips[i].tabs[j].document
            < now.documents.len() by {
            assert(now.strips[i].tabs[j] == after.strips[i].tabs[j]);
        }
    }
}

fn shows_copy(documents: &Vec<SessionDocument>, copy: usize, n: usize) -> (out: bool)
    requires
        n <= documents@.len(),
    ensures
        out == is_shown(source_models(documents@), copy as int, n as int),
{
    let mut at: usize = 0;
    while at < n
        invariant
            at <= n <= documents@.len(),
            forall|i: int|
                0 <= i < at ==> (#[trigger] source_models(documents@)[i]).source
                    != Source::Restored(copy),
        decreases n - at,
    {
        if let Source::Restored(held) = documents[at].source {
            if held == copy {
                assert(source_models(documents@)[at as int].source == Source::Restored(copy));
                return true;
            }
        }
        at += 1;
    }
    false
}

/// Puts back what the last run left, into a window of so many panes: the stored
/// tabs, in their order, and then the work copies that the session does not
/// name, in front of the writer. `files` are the stored files that could be
/// opened. A pane that stays empty is given a new document by
/// [`fill_panes`].
pub fn open_session(
    stored: &Vec<SessionPane>,
    focused: usize,
    panes: usize,
    restored: &Vec<WorkIdentity>,
    files: &Vec<String>,
) -> (out: OpenSession)
    requires
        panes > 0,
    ensures
        out.strips@.len() == panes,
        out.focused == in_front(focused, panes as nat),
        tabs_hold(out.opening()),
        out.opening() == opened(
            tab::pane_models(stored@),
            focused,
            panes as nat,
            document::names(restored@),
            openable(files@),
        ),
{
    let mut strips: Vec<OpenStrip> = Vec::new();
    let mut at: usize = 0;
    while at < panes
        invariant
            at <= panes,
            strips@.len() == at,
            forall|i: int|
                0 <= i < at ==> (#[trigger] strips@[i])@ == empty_strips(panes as nat)[i],
        decreases panes - at,
    {
        strips.push(
            OpenStrip {
                tabs: Vec::new(),
                active: 0,
                paper: Paper { ground: None, ink: None },
            },
        );
        at += 1;
    }
    let front: usize = if focused < panes {
        focused
    } else {
        panes - 1
    };
    let mut session = OpenSession { documents: Vec::new(), strips, focused: front };
    let ghost names = document::names(restored@);
    let ghost open = openable(files@);
    let ghost start = Opening { documents: Seq::empty(), strips: empty_strips(panes as nat) };
    proof {
        assert(source_models(session.documents@) =~= Seq::empty());
        assert(strip_models(session.strips@) =~= empty_strips(panes as nat));
    }
    let mut at: usize = 0;
    while at < stored.len()
        invariant
            at <= stored@.len(),
            panes > 0,
            session.strips@.len() == panes,
            session.focused == front,
            names == document::names(restored@),
            open == openable(files@),
            tabs_hold(session.opening()),
            session.opening() == placed_panes(
                start,
                tab::pane_models(stored@),
                names,
                open,
                at as int,
            ),
        decreases stored@.len() - at,
    {
        put_pane(&mut session, &stored[at], at, restored, files);
        at += 1;
    }
    let ghost placed = session.opening();
    let n_placed: usize = session.documents.len();
    let mut at: usize = 0;
    while at < restored.len()
        invariant
            at <= restored@.len(),
            front < session.strips@.len(),
            session.strips@.len() == panes,
            session.focused == front,
            names == document::names(restored@),
            tabs_hold(session.opening()),
            n_placed == placed.documents.len(),
            n_placed <= session.documents@.len(),
            forall|i: int|
                0 <= i < n_placed ==> #[trigger] source_models(session.documents@)[i]
                    == placed.documents[i],
            session.opening() == left_over(
                placed,
                names,
                front as int,
                n_placed as int,
                at as int,
            ),
        decreases restored@.len() - at,
    {
        let ghost before = session.opening();
        let shown: bool = shows_copy(&session.documents, at, n_placed);
        proof {
            same_shown(source_models(session.documents@), placed.documents, at as int, n_placed as int);
        }
        if !shown {
            let end: usize = session.documents.len();
            let one = SessionDocument { name: restored[at].copied(), source: Source::Restored(at) };
            session.documents.push(one);
            session.strips[front].tabs.push(OpenTab { document: end, settings: None });
            proof {
                assert(source_models(session.documents@) =~= before.documents.push(one@));
                assert(strip_models(session.strips@) =~= with_tab(
                    before.strips,
                    front as int,
                    end,
                    None,
                ));
                one_more_tab_holds(before, session.opening(), front as int, end, None);
            }
        }
        at += 1;
    }
    session
}

proof fn same_shown(one: Seq<SourceModel>, two: Seq<SourceModel>, copy: int, n: int)
    requires
        forall|i: int| 0 <= i < n ==> #[trigger] one[i] == two[i],
    ensures
        is_shown(one, copy, n) == is_shown(two, copy, n),
{
    if is_shown(one, copy, n) {
        let i = choose|i: int|
            0 <= i < n && (#[trigger] one[i]).source == Source::Restored(copy as usize);
        assert(two[i].source == Source::Restored(copy as usize));
    }
    if is_shown(two, copy, n) {
        let i = choose|i: int|
            0 <= i < n && (#[trigger] two[i]).source == Source::Restored(copy as usize);
        assert(one[i].source == Source::Restored(copy as usize));
    }
}

/// The first run, or one whose session could not be read: one pane, with the
/// work copies in it, or a first document where there are none.
pub open spec fn opened_afresh(restored: Seq<CopyName>) -> Opening {
    let documents = if restored.len() == 0 {
        seq![SourceModel { name: CopyName::Untitled(1), source: Source::New }]
    } else {
        Seq::new(
            restored.len(),
            |i: int| SourceModel { name: restored[i], source: Source::Restored(i as usize) },
        )
    };
    Opening {
        documents,
        strips: seq![
            StripModel {
                tabs: Seq::new(
                    documents.len(),
                    |i: int| OpenTab { document: i as usize, settings: None },
                ),
                active: 0,
                paper: plain_paper(),
            },
        ],
    }
}

/// [`opened_afresh`].
pub fn open_without_session(restored: &Vec<WorkIdentity>) -> (out: OpenSession)
    ensures
        out.opening() == opened_afresh(document::names(restored@)),
        out.focused == 0,
        tabs_hold(out.opening()),
        out.strips@[0].tabs@.len() > 0,
{
    let ghost names = document::names(restored@);
    let mut documents: Vec<SessionDocument> = Vec::new();
    let mut tabs: Vec<OpenTab> = Vec::new();
    if restored.len() == 0 {
        documents.push(SessionDocument { name: WorkIdentity::Untitled(1), source: Source::New });
        tabs.push(OpenTab { document: 0, settings: None });
    }
    let mut at: usize = 0;
    while at < restored.len()
        invariant
            at <= restored@.len(),
            names == document::names(restored@),
            restored@.len() == 0 ==> documents@.len() == 1 && documents@[0]@ == (SourceModel {
                name: CopyName::Untitled(1),
                source: Source::New,
            }) && tabs@ == seq![OpenTab { document: 0, settings: None }],
            restored@.len() > 0 ==> {
                &&& documents@.len() == at && tabs@.len() == at
                &&& forall|i: int|
                    0 <= i < at ==> (#[trigger] documents@[i])@ == (SourceModel {
                        name: names[i],
                        source: Source::Restored(i as usize),
                    })
                &&& forall|i: int|
                    0 <= i < at ==> #[trigger] tabs@[i] == (OpenTab {
                        document: i as usize,
                        settings: None,
                    })
            },
        decreases restored@.len() - at,
    {
        documents.push(
            SessionDocument { name: restored[at].copied(), source: Source::Restored(at) },
        );
        tabs.push(OpenTab { document: at, settings: None });
        at += 1;
    }
    let ghost goal = opened_afresh(names);
    proof {
        assert(source_models(documents@) =~= goal.documents);
        assert(tabs@ =~= goal.strips[0].tabs);
    }
    let strip = OpenStrip { tabs, active: 0, paper: Paper { ground: None, ink: None } };
    let mut strips: Vec<OpenStrip> = Vec::new();
    strips.push(strip);
    assert(strip_models(strips@) =~= goal.strips);
    let out = OpenSession { documents, strips, focused: 0 };
    assert(out.opening() == goal);
    out
}

/// The session after an empty pane was given a new document.
pub open spec fn filled(before: Opening, pane: int, number: u32) -> Opening {
    Opening {
        documents: before.documents.push(
            SourceModel { name: CopyName::Untitled(number), source: Source::New },
        ),
        strips: with_tab(before.strips, pane, before.documents.len() as usize, None),
    }
}

/// Gives an empty pane a new document with a number that nobody has.
pub fn fill_empty(session: &mut OpenSession, pane: usize, number: u32)
    requires
        pane < old(session).strips@.len(),
        old(session).strips@[pane as int].tabs@.len() == 0,
    ensures
        final(session).focused == old(session).focused,
        final(session).strips@.len() == old(session).strips@.len(),
        final(session).opening() == filled(old(session).opening(), pane as int, number),
        tabs_hold(old(session).opening()) ==> tabs_hold(final(session).opening()),
{
    let ghost before = session.opening();
    let end: usize = session.documents.len();
    let one = SessionDocument { name: WorkIdentity::Untitled(number), source: Source::New };
    session.documents.push(one);
    session.strips[pane].tabs.push(OpenTab { document: end, settings: None });
    proof {
        assert(source_models(session.documents@) =~= before.documents.push(one@));
        assert(strip_models(session.strips@) =~= with_tab(before.strips, pane as int, end, None));
        if tabs_hold(before) {
            one_more_tab_holds(before, session.opening(), pane as int, end, None);
        }
    }
}

/// How many of the first `n` panes are empty.
pub open spec fn empty_among(strips: Seq<StripModel>, n: int) -> int
    decreases n,
{
    if n <= 0 {
        0
    } else {
        empty_among(strips, n - 1) + if strips[n - 1].tabs.len() == 0 {
            1int
        } else {
            0int
        }
    }
}

/// The session after the empty ones among the first `n` panes were given new
/// documents, with the first of these numbers.
pub open spec fn filled_to(before: Opening, numbers: Seq<u32>, n: int) -> Opening
    decreases n,
{
    if n <= 0 {
        before
    } else {
        let so_far = filled_to(before, numbers, n - 1);
        if before.strips[n - 1].tabs.len() == 0 {
            filled(so_far, n - 1, numbers[empty_among(before.strips, n - 1)])
        } else {
            so_far
        }
    }
}

/// What filling panes leaves: the panes that had tabs keep them, and those that
/// were empty have one each, with a new document.
pub proof fn filling_fills(before: Opening, numbers: Seq<u32>, n: int)
    requires
        0 <= n <= before.strips.len(),
        before.documents.len() + n <= usize::MAX,
    ensures
        ({
            let after = filled_to(before, numbers, n);
            let filled = empty_among(before.strips, n);
            &&& 0 <= filled <= n
            &&& after.strips.len() == before.strips.len()
            &&& after.documents.len() == before.documents.len() + filled
            &&& forall|i: int|
                0 <= i < before.documents.len() ==> #[trigger] after.documents[i]
                    == before.documents[i]
            &&& forall|k: int|
                0 <= k < filled ==> #[trigger] after.documents[before.documents.len() + k] == (
                SourceModel { name: CopyName::Untitled(numbers[k]), source: Source::New })
            &&& forall|i: int|
                0 <= i < before.strips.len() && (i >= n || before.strips[i].tabs.len() > 0)
                    ==> #[trigger] after.strips[i] == before.strips[i]
            &&& forall|i: int|
                0 <= i < n && before.strips[i].tabs.len() == 0 ==> (
                #[trigger] after.strips[i]).tabs == seq![
                    OpenTab {
                        document: (before.documents.len() + empty_among(
                            before.strips,
                            i,
                        )) as usize,
                        settings: None,
                    },
                ]
        }),
    decreases n,
{
    if n > 0 {
        filling_fills(before, numbers, n - 1);
        let so_far = filled_to(before, numbers, n - 1);
        let after = filled_to(before, numbers, n);
        let count = empty_among(before.strips, n - 1);
        if before.strips[n - 1].tabs.len() == 0 {
            assert(so_far.strips[n - 1] == before.strips[n - 1]);
            assert(after.strips[n - 1].tabs =~= seq![
                OpenTab { document: so_far.documents.len() as usize, settings: None },
            ]);
            assert forall|k: int|
                0 <= k < count + 1 implies #[trigger] after.documents[before.documents.len() + k]
                == (SourceModel { name: CopyName::Untitled(numbers[k]), source: Source::New }) by {
                if k < count {
                    assert(so_far.documents[before.documents.len() + k] == (SourceModel {
                        name: CopyName::Untitled(numbers[k]),
                        source: Source::New,
                    }));
                }
            }
            assert forall|i: int|
                0 <= i < before.documents.len() implies #[trigger] after.documents[i]
                == before.documents[i] by {
                assert(so_far.documents[i] == before.documents[i]);
            }
            assert forall|i: int|
                0 <= i < before.strips.len() && (i >= n || before.strips[i].tabs.len() > 0) implies
                #[trigger] after.strips[i] == before.strips[i] by {
                assert(so_far.strips[i] == before.strips[i]);
            }
            assert forall|i: int| 0 <= i < n - 1 implies #[trigger] after.strips[i]
                == so_far.strips[i] by {}
        }
    }
}

/// Numbers that differ, and that no document in a tab has.
pub open spec fn are_free(session: Opening, numbers: Seq<u32>) -> bool {
    let taken = numbers_of(session.documents, session.strips, session.strips.len() as int);
    &&& forall|i: int, j: int|
        0 <= i < j < numbers.len() ==> #[trigger] numbers[i] != #[trigger] numbers[j]
    &&& forall|k: int| 0 <= k < numbers.len() ==> !taken.contains(#[trigger] numbers[k])
}

/// Gives every empty pane a new document: in the end no pane is without a tab.
/// `numbers` are numbers that nobody has, as many as there are panes at least.
pub fn fill_panes(session: &mut OpenSession, numbers: &Vec<u32>)
    requires
        tabs_hold(old(session).opening()),
        are_free(old(session).opening(), numbers@),
        old(session).strips@.len() <= numbers@.len(),
        old(session).documents@.len() + old(session).strips@.len() <= usize::MAX,
    ensures
        final(session).focused == old(session).focused,
        final(session).opening() == filled_to(
            old(session).opening(),
            numbers@,
            old(session).strips@.len() as int,
        ),
        final(session).strips@.len() == old(session).strips@.len(),
        forall|i: int|
            0 <= i < final(session).strips@.len() ==> (
            #[trigger] final(session).strips@[i]).tabs@.len() > 0,
        tabs_hold(final(session).opening()),
{
    let ghost before = session.opening();
    let panes: usize = session.strips.len();
    let mut at: usize = 0;
    let mut used: usize = 0;
    while at < panes
        invariant
            at <= panes == session.strips@.len(),
            panes == before.strips.len(),
            panes <= numbers@.len(),
            before.documents.len() + panes <= usize::MAX,
            used == empty_among(before.strips, at as int),
            used <= at,
            session.focused == old(session).focused,
            tabs_hold(session.opening()),
            session.opening() == filled_to(before, numbers@, at as int),
        decreases panes - at,
    {
        proof {
            filling_fills(before, numbers@, at as int);
            assert(session.opening().strips[at as int] == before.strips[at as int]);
        }
        if session.strips[at].tabs.len() == 0 {
            fill_empty(session, at, numbers[used]);
            used += 1;
        }
        at += 1;
    }
    proof {
        filling_fills(before, numbers@, panes as int);
        assert forall|i: int| 0 <= i < session.strips@.len() implies (
        #[trigger] session.strips@[i]).tabs@.len() > 0 by {
            assert(session.opening().strips[i] == session.strips@[i]@);
        }
    }
}

/// The number of a document without a file; a file's is zero.
pub open spec fn number_of(document: SourceModel) -> u32 {
    match document.name {
        CopyName::File(_) => 0,
        CopyName::Untitled(number) => number,
    }
}

/// The numbers of the documents in the first `n` tabs of a strip.
pub open spec fn numbers_in(
    documents: Seq<SourceModel>,
    tabs: Seq<OpenTab>,
    n: int,
) -> Seq<u32> {
    Seq::new(n as nat, |i: int| number_of(documents[tabs[i].document as int]))
}

/// The numbers of the documents in the first `n` strips.
pub open spec fn numbers_of(
    documents: Seq<SourceModel>,
    strips: Seq<StripModel>,
    n: int,
) -> Seq<u32>
    decreases n,
{
    if n <= 0 {
        Seq::empty()
    } else {
        numbers_of(documents, strips, n - 1) + numbers_in(
            documents,
            strips[n - 1].tabs,
            strips[n - 1].tabs.len() as int,
        )
    }
}

/// Every tab shows a document that is there.
pub open spec fn tabs_hold(session: Opening) -> bool {
    forall|i: int, j: int|
        #![trigger session.strips[i].tabs[j]]
        0 <= i < session.strips.len() && 0 <= j < session.strips[i].tabs.len()
            ==> session.strips[i].tabs[j].document < session.documents.len()
}

/// Every number that the strips are holding, in the order of their tabs.
pub fn taken_numbers(session: &OpenSession) -> (out: Vec<u32>)
    requires
        tabs_hold(session.opening()),
    ensures
        out@ == numbers_of(
            session.opening().documents,
            session.opening().strips,
            session.strips@.len() as int,
        ),
{
    let ghost documents = session.opening().documents;
    let ghost strips = session.opening().strips;
    let mut out: Vec<u32> = Vec::new();
    let mut at: usize = 0;
    while at < session.strips.len()
        invariant
            at <= session.strips@.len(),
            documents == session.opening().documents,
            strips == session.opening().strips,
            tabs_hold(session.opening()),
            out@ == numbers_of(documents, strips, at as int),
        decreases session.strips@.len() - at,
    {
        let ghost before = out@;
        let mut each: usize = 0;
        while each < session.strips[at].tabs.len()
            invariant
                at < session.strips@.len(),
                each <= session.strips@[at as int].tabs@.len(),
                documents == session.opening().documents,
                strips == session.opening().strips,
                tabs_hold(session.opening()),
                out@ == before + numbers_in(
                    documents,
                    session.strips@[at as int].tabs@,
                    each as int,
                ),
            decreases session.strips@[at as int].tabs@.len() - each,
        {
            assert(strips[at as int].tabs[each as int].document < documents.len());
            let place: usize = session.strips[at].tabs[each].document;
            let number: u32 = match &session.documents[place].name {
                WorkIdentity::File(_) => 0,
                WorkIdentity::Untitled(held) => *held,
            };
            out.push(number);
            each += 1;
            assert(out@ =~= before + numbers_in(
                documents,
                session.strips@[at as int].tabs@,
                each as int,
            ));
        }
        at += 1;
    }
    out
}

/// The word mode of the tab in front of each strip; none is zero.
pub open spec fn mode_of(strip: StripModel) -> usize {
    if strip.active < strip.tabs.len() {
        match strip.tabs[strip.active as int].settings {
            Some(settings) => settings.word_mode,
            None => 0,
        }
    } else {
        0
    }
}

/// The word mode that each pane shows.
pub fn word_modes(strips: &Vec<OpenStrip>) -> (out: Vec<usize>)
    ensures
        out@ == Seq::new(strips@.len(), |i: int| mode_of(strips@[i]@)),
{
    let mut out: Vec<usize> = Vec::new();
    let mut at: usize = 0;
    while at < strips.len()
        invariant
            at <= strips@.len(),
            out@ == Seq::new(at as nat, |i: int| mode_of(strips@[i]@)),
        decreases strips@.len() - at,
    {
        let one = &strips[at];
        let mode: usize = if one.active < one.tabs.len() {
            match one.tabs[one.active].settings {
                Some(settings) => settings.word_mode,
                None => 0,
            }
        } else {
            0
        };
        out.push(mode);
        at += 1;
        assert(out@ =~= Seq::new(at as nat, |i: int| mode_of(strips@[i]@)));
    }
    out
}

/// Whether a stored division of the window can be used: it names every pane,
/// and as many as there are.
pub fn layout_holds(named: &Vec<usize>, panes: usize) -> (out: bool)
    ensures
        out == (named@.len() == panes && forall|pane: usize| pane < panes ==> named@.contains(pane)),
{
    if named.len() != panes {
        return false;
    }
    let mut pane: usize = 0;
    while pane < panes
        invariant
            pane <= panes,
            named@.len() == panes,
            forall|one: usize| one < pane ==> named@.contains(one),
        decreases panes - pane,
    {
        let mut at: usize = 0;
        let mut seen: bool = false;
        while at < named.len()
            invariant
                at <= named@.len(),
                seen ==> named@.contains(pane),
                !seen ==> forall|i: int| 0 <= i < at ==> named@[i] != pane,
            decreases named@.len() - at,
        {
            if named[at] == pane {
                seen = true;
            }
            at += 1;
        }
        if !seen {
            assert(!named@.contains(pane));
            return false;
        }
        pane += 1;
    }
    true
}

/// The largest window that a session may ask for, in physical pixels.
pub const MAX_WINDOW: u32 = 16384;

/// Where the window is put before it is shown, and whether it then fills the
/// screen. A stored place that is larger than any screen is not used.
pub fn restore_window_place(place: Option<WindowPlace>, maximized: bool) -> (out: (
    Option<WindowPlace>,
    bool,
))
    ensures
        out.0 == match place {
            Some(held) if held.width <= MAX_WINDOW && held.height <= MAX_WINDOW => place,
            _ => None,
        },
        out.1 == maximized,
{
    let fitting: Option<WindowPlace> = match place {
        Some(held) => if held.width <= MAX_WINDOW && held.height <= MAX_WINDOW {
            place
        } else {
            None
        },
        None => None,
    };
    (fitting, maximized)
}

} // verus!
