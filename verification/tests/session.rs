//! What is kept of a session, and what is opened from it.
use rfn_edit::saving::WorkIdentity;
use rfn_edit::session::capture::{HeldStrip, HeldTab, WindowState};
use rfn_edit::session::opening::{Found, Source};
use rfn_edit::session::{
    capture_session, document_for, fill_empty, fill_panes, focused_to_keep, layout_holds, open_session,
    open_without_session, restore_window_place, session_tab, taken_numbers, window_place, word_modes,
    workspace_expanded, Paper, SessionPane, Surroundings, TabSettings, WindowPlace,
};

const NO_PAPER: Paper = Paper { ground: None, ink: None };

fn settings(mode: usize) -> TabSettings {
    TabSettings {
        word_mode: mode,
        vertical: false,
        preview: 0,
        scroll: 0,
        top: 0,
        caret: None,
        anchor: None,
        below: false,
        below_height: 0,
        empty: false,
        paper: NO_PAPER,
        tab_colour: None,
    }
}

fn held(origin: Option<&str>, untitled: u32) -> HeldTab {
    HeldTab {
        origin: origin.map(|path| path.to_owned()),
        untitled,
        settings: settings(2),
        stands_in: false,
        read_only: false,
    }
}

fn strip(tabs: Vec<HeldTab>, active: usize) -> HeldStrip {
    HeldStrip { tabs, active, zoom: 100, paper: NO_PAPER }
}

const PLACE: WindowPlace = WindowPlace { x: 1, y: 2, width: 800, height: 600 };

const WINDOW: WindowState = WindowState { maximized: false, minimized: false, place: PLACE };

fn around() -> Surroundings {
    Surroundings {
        folder: None,
        search_folder: None,
        search_exclusions: String::new(),
        shortcut_bindings: String::new(),
        expanded: Vec::new(),
        tree_shown: true,
        tree_width: 240,
        recent: vec!["a.md".to_owned()],
        folders: Vec::new(),
        needles: Vec::new(),
        replacements: Vec::new(),
    }
}

fn captured(strips: Vec<HeldStrip>) -> Vec<SessionPane> {
    capture_session(&strips, &WINDOW, None, 0, None, String::new(), around()).panes
}

#[test]
fn a_session_comes_back_in_its_order() {
    let panes = captured(vec![
        strip(vec![held(Some("a.md"), 0), held(None, 3)], 1),
        strip(vec![held(Some("a.md"), 0)], 0),
    ]);
    let restored = vec![WorkIdentity::Untitled(3)];
    let files = vec!["a.md".to_owned()];
    let opened = open_session(&panes, 1, 2, &restored, &files);
    assert_eq!(opened.documents.len(), 2);
    assert_eq!(opened.strips.len(), 2);
    assert_eq!(opened.strips[0].active, 1);
    assert_eq!(opened.strips[1].tabs[0].document, opened.strips[0].tabs[0].document);
    assert_eq!(opened.documents[1].source, Source::Restored(0));
    assert_eq!(opened.focused, 1);
    assert!(taken_numbers(&opened).contains(&3));
    assert_eq!(word_modes(&opened.strips), vec![2, 2]);
}

#[test]
fn what_only_stands_in_is_not_kept() {
    let mut shell = held(None, 1);
    shell.stands_in = true;
    let panes = captured(vec![strip(vec![shell, held(Some("a.md"), 0)], 1)]);
    assert_eq!(panes[0].tabs.len(), 1);
    assert_eq!(session_tab(&held(Some("a.md"), 0)).origin.as_deref(), Some("a.md"));
}

#[test]
fn a_document_that_is_gone_is_left_out() {
    let tab = session_tab(&held(Some("gone.md"), 0));
    let none: Vec<WorkIdentity> = Vec::new();
    assert_eq!(document_for(&tab, &none, &Vec::new(), &Vec::new()), Found::Nowhere);
    let files = vec!["gone.md".to_owned()];
    assert_eq!(document_for(&tab, &none, &Vec::new(), &files), Found::Disk);
    let panes = captured(vec![strip(vec![held(Some("gone.md"), 0)], 0)]);
    let mut opened = open_session(&panes, 0, 1, &none, &Vec::new());
    if opened.strips[0].tabs.is_empty() {
        fill_empty(&mut opened, 0, 1);
    }
    assert_eq!(opened.strips[0].tabs.len(), 1);
    assert_eq!(opened.documents.last().unwrap().source, Source::New);
}

#[test]
fn without_a_session_the_copies_are_opened() {
    let opened = open_without_session(&vec![WorkIdentity::File("a.md".to_owned())]);
    assert_eq!(opened.documents.len(), 1);
    assert_eq!(opened.strips.len(), 1);
    let none: Vec<WorkIdentity> = Vec::new();
    let fresh = open_without_session(&none);
    assert_eq!(fresh.strips[0].tabs.len(), 1);
}

#[test]
fn the_window_keeps_its_last_place() {
    assert_eq!(window_place(&WINDOW), Some(PLACE));
    let full = WindowState { maximized: true, ..WINDOW };
    assert_eq!(window_place(&full), None);
    assert_eq!(window_place(&WindowState { minimized: true, ..WINDOW }), None);
    let flat = WindowPlace { height: 0, ..PLACE };
    assert_eq!(window_place(&WindowState { place: flat, ..WINDOW }), None);
    let session = |window: &WindowState, kept: Option<WindowPlace>| {
        capture_session(&Vec::new(), window, kept, 1, Some(0), "0".to_owned(), around())
    };
    assert_eq!(session(&WINDOW, None).place, Some(PLACE));
    assert_eq!(session(&full, Some(PLACE)).place, Some(PLACE));
    let kept = session(&full, None);
    assert_eq!(kept.place, None);
    assert!(kept.maximized);
    assert_eq!(kept.focused, 0);
    assert_eq!(kept.layout, "0");
    assert_eq!(kept.around.recent, vec!["a.md".to_owned()]);
    assert_eq!(restore_window_place(Some(PLACE), true), (Some(PLACE), true));
    let wide = WindowPlace { width: 16_385, ..PLACE };
    assert_eq!(restore_window_place(Some(wide), false), (None, false));
    assert_eq!(restore_window_place(None, true), (None, true));
}

#[test]
fn a_layout_names_every_pane_once() {
    assert!(layout_holds(&vec![1, 0], 2));
    assert!(!layout_holds(&vec![0, 0], 2));
    assert!(!layout_holds(&vec![0], 2));
    let shown = vec!["a".to_owned()];
    let kept = vec!["b".to_owned()];
    assert_eq!(workspace_expanded(true, &shown, &kept), shown);
    assert_eq!(workspace_expanded(false, &shown, &kept), kept);
    assert_eq!(focused_to_keep(1, None), 1);
    assert_eq!(focused_to_keep(1, Some(0)), 0);
}

#[test]
fn every_pane_gets_a_tab() {
    let panes = captured(vec![
        strip(vec![held(Some("gone.md"), 0)], 0),
        strip(vec![held(Some("here.md"), 0)], 0),
        strip(vec![held(Some("gone.md"), 0)], 0),
    ]);
    let files = vec!["here.md".to_owned()];
    let none: Vec<WorkIdentity> = Vec::new();
    let mut opened = open_session(&panes, 1, 3, &none, &files);
    fill_panes(&mut opened, &vec![4, 7, 9]);
    let shown: Vec<Vec<usize>> = opened
        .strips
        .iter()
        .map(|strip| strip.tabs.iter().map(|tab| tab.document).collect())
        .collect();
    assert_eq!(shown, [vec![1], vec![0], vec![2]]);
    assert_eq!(opened.documents[0].source, Source::Disk);
    assert_eq!(opened.documents[1].source, Source::New);
    assert_eq!(taken_numbers(&opened), [4, 0, 7]);
}

#[test]
fn a_path_is_found_in_any_spelling() {
    let tab = session_tab(&held(Some("notes//draft/./a.md"), 0));
    let none: Vec<WorkIdentity> = Vec::new();
    let files = vec!["notes/draft/a.md".to_owned()];
    assert_eq!(document_for(&tab, &none, &Vec::new(), &files), Found::Disk);
    let copies = vec![WorkIdentity::File("notes/draft/a.md".to_owned())];
    assert_eq!(document_for(&tab, &copies, &Vec::new(), &files), Found::Restored(0));
    let other = vec!["/notes/draft/a.md".to_owned(), "./notes/draft/a.md".to_owned()];
    assert_eq!(document_for(&tab, &none, &Vec::new(), &other), Found::Nowhere);
}
