//! Working with a terminal.
use rfn_edit::saving::{Document, DocumentState, ExternalChange, TextForm};
use rfn_edit::session::Paper;
use rfn_edit::terminal::Modes;
use rfn_edit::terminal_panels::steps::Shells;
use rfn_edit::terminal_panels::{PaneTab, PanelDocument, Strip, TabBelow};
use rfn_edit::terminal_workflow::search::log_not_saved;
use rfn_edit::terminal_workflow::sending::{send_choices, send_draft};
use rfn_edit::terminal_workflow::{
    action, ask_close, close_choices, close_target, input, needs_close, pointer, search_step, send,
    unsaved_panels, InputStep, MouseAction, MouseButton, PointerStep, TerminalStep, TerminalView,
};

fn document(id: u64) -> Document {
    Document {
        origin: None,
        untitled: id as u32,
        state: DocumentState {
            id,
            edited: false,
            changed_at: 0,
            pending_since: None,
            read_only: false,
            form: TextForm { encoding: 0, byte_order_mark: false, newline: 0 },
            change: ExternalChange::Unchanged,
            outside: false,
            missing: false,
            reported: None,
            protective_recovery: false,
            recovery_failed: false,
        },
    }
}

fn panel(id: u64, text: &str) -> PanelDocument {
    PanelDocument::new(id, document(id), "p".to_owned(), text.to_owned(), None, None)
}

fn tab(id: u64, terminal: Option<u64>, entries: Vec<PanelDocument>) -> PaneTab {
    PaneTab {
        id,
        document: document(100 + id),
        terminal,
        paper: Paper { ground: None, ink: None },
        below: TabBelow {
            front_style: None,
            entries,
            active: 0,
            draft: String::new(),
            shell: None,
            open: true,
        },
    }
}

fn shells(finished: Vec<u64>, confirm: bool) -> Shells {
    Shells { names: Vec::new(), finished, confirm }
}

#[test]
fn lines_are_asked_about_before_they_are_sent() {
    assert!(matches!(input("ls", false, true, false, true), InputStep::Send));
    assert!(matches!(input("", false, true, false, true), InputStep::Nothing));
    assert!(matches!(input("ls", true, true, false, true), InputStep::Nothing));
    assert!(matches!(input("a\nb", false, false, false, true), InputStep::Send));
    assert!(matches!(input("a\nb", false, true, true, true), InputStep::Nothing));
    match input("a\r\nb\rc", false, true, false, true) {
        InputStep::Ask(words) => assert_eq!(
            words,
            "Send text containing line breaks? This can execute commands. (3 lines)\n\na\r\nb\rc"
        ),
        _ => panic!("line breaks are asked about"),
    }
    let long = format!("{}\n", "字".repeat(2000));
    match input(&long, false, true, false, false) {
        InputStep::Ask(words) => assert!(words.ends_with("字\n…") && words.contains("(2 行)")),
        _ => panic!("line breaks are asked about"),
    }
}

#[test]
fn a_draft_is_emptied_when_it_was_sent() {
    let mut entry = panel(5, "ls\n");
    assert_eq!(send_draft(&mut entry, "ls\n", true), None);
    assert_eq!(send_draft(&mut entry, "ls\n", false), Some(b"ls\r".to_vec()));
    assert_eq!(entry.text, "");
    let mut changed = panel(5, "ls\nand more");
    assert_eq!(send_draft(&mut changed, "ls\n", false), Some(b"ls\r".to_vec()));
    assert_eq!(changed.text, "ls\nand more");
    changed.viewer = true;
    assert_eq!(send_draft(&mut changed, "ls\n", false), None);
    let modes = Modes { bracketed_paste: true, ..Modes::default() };
    assert_eq!(send("ls", false, modes), Some(b"\x1b[200~ls\x1b[201~".to_vec()));
    assert_eq!(send("ls", true, modes), None);
}

#[test]
fn a_tab_with_something_in_it_is_asked_about() {
    let none: Vec<u64> = Vec::new();
    assert!(!needs_close(&tab(1, None, Vec::new()), &shells(vec![], true), &none));
    assert!(needs_close(&tab(1, Some(7), Vec::new()), &shells(vec![], true), &none));
    assert!(!needs_close(&tab(1, Some(7), Vec::new()), &shells(vec![7], true), &none));
    assert!(!needs_close(&tab(1, Some(7), Vec::new()), &shells(vec![], false), &none));
    assert!(needs_close(&tab(1, Some(7), Vec::new()), &shells(vec![], false), &vec![7]));
    let mut edited = panel(5, "x");
    edited.document.state.edited = true;
    let held = tab(1, None, vec![panel(4, ""), edited]);
    assert!(needs_close(&held, &shells(vec![], false), &none));
    assert_eq!(unsaved_panels(&held), vec![5]);
    let mut capturing = panel(5, "");
    capturing.capture = Some(7);
    let busy = tab(1, None, vec![capturing]);
    assert!(ask_close(Some(&busy), &none, true).contains("capture will stop"));
    assert!(!ask_close(Some(&held), &none, true).contains("capture will stop"));
    assert!(!ask_close(None, &none, true).contains("capture will stop"));
    assert_eq!(close_choices(true)[0], "Save Panels and Continue");
}

#[test]
fn a_tab_is_found_where_it_is_by_now() {
    let strips = vec![
        Strip { tabs: vec![tab(1, None, Vec::new())], active: 0 },
        Strip { tabs: vec![tab(2, None, Vec::new()), tab(3, None, Vec::new())], active: 0 },
    ];
    assert_eq!(close_target(&strips, 3), Some((1, 1)));
    assert_eq!(close_target(&strips, 9), None);
}

#[test]
fn the_search_goes_round() {
    let found = vec![((0, 2), (1, 2)), ((5, 0), (5, 3)), ((9, 1), (9, 2))];
    let mut view = TerminalView { selection: None, looking: 0 };
    assert_eq!(search_step(&mut view, &found, false, 7), "1 / 3");
    assert_eq!(view.selection, Some(((0, 2), (1, 2))));
    assert_eq!(view.looking, 7);
    assert_eq!(search_step(&mut view, &found, true, 7), "3 / 3");
    assert_eq!(view.looking, 0);
    assert_eq!(search_step(&mut view, &found, false, 7), "1 / 3");
    assert_eq!(search_step(&mut view, &found, false, 7), "2 / 3");
    assert_eq!(view.looking, 2);
    assert_eq!(search_step(&mut view, &Vec::new(), false, 7), "0 / 0");
    let mut fresh = TerminalView { selection: None, looking: 0 };
    assert_eq!(search_step(&mut fresh, &found, true, 7), "3 / 3");
}

#[test]
fn orders_to_a_terminal_come_to_steps() {
    let mut view = TerminalView { selection: Some(((0, 0), (0, 1))), looking: 4 };
    assert_eq!(action(&mut view, 0, false, false), TerminalStep::OpenSearch);
    assert_eq!(action(&mut view, 1, true, true), TerminalStep::Find { back: false });
    assert_eq!(action(&mut view, 2, true, true), TerminalStep::Find { back: true });
    assert_eq!(view.looking, 4);
    assert_eq!(action(&mut view, 4, true, true), TerminalStep::Return);
    assert_eq!(view.looking, 0);
    assert!(view.selection.is_some());
    assert_eq!(action(&mut view, 0, true, true), TerminalStep::CloseSearch);
    assert!(view.selection.is_none());
    assert_eq!(action(&mut view, 5, true, true), TerminalStep::ClearScreen);
    assert_eq!(action(&mut view, 6, true, true), TerminalStep::ClearHistory);
    assert_eq!(action(&mut view, 7, true, true), TerminalStep::SaveLog);
    assert_eq!(action(&mut view, 8, true, true), TerminalStep::Page { up: true });
    assert_eq!(action(&mut view, 9, true, true), TerminalStep::Page { up: false });
    assert_eq!(action(&mut view, 10, true, true), TerminalStep::Nothing);
}

#[test]
fn a_pointer_goes_to_the_program() {
    assert_eq!(pointer(0, 0, (1, 2), (25, 80), 3, false), PointerStep::Nothing);
    assert_eq!(pointer(0, 0, (1, 2), (25, 80), 0, true), PointerStep::Nothing);
    assert_eq!(
        pointer(0, 2, (99, 2), (25, 80), 0, false),
        PointerStep::Mouse {
            action: MouseAction::Press,
            button: MouseButton::Right,
            row: 24,
            column: 2
        }
    );
    assert_eq!(
        pointer(2, 3, (1, 99), (25, 80), 0, false),
        PointerStep::Mouse {
            action: MouseAction::Move,
            button: MouseButton::NoButton,
            row: 1,
            column: 79
        }
    );
    assert_eq!(
        pointer(3, 0, (1, 2), (25, 80), 0, false),
        PointerStep::Wheel { row: 1, column: 2 }
    );
}

#[test]
fn the_writer_answers_before_lines_are_sent() {
    assert_eq!(send_choices(true), ["Send", "Cancel"]);
    assert_eq!(send_choices(false), ["送信", "キャンセル"]);
    assert_eq!(log_not_saved("x", true), "Cannot save log: x");
}
