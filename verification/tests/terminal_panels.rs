//! The panels below a tab, and how they look.
use rfn_edit::saving::{Document, DocumentState, ExternalChange, TextForm};
use rfn_edit::session::{Paper, Rgb};
use rfn_edit::terminal_appearance::{
    apply, clear_paper, decode, default_style, encode, hex_colour, initial_style, look,
    parse_hex_colour, random_style, request, reset, PanelStyle, Papers, Target, TerminalSettings,
};
use rfn_edit::terminal_panels::changes::{
    add_panel, add_text, begin_capture, close, draw_drafts, ensure, insert_into, needs_panel,
    select, stop_current, switched, sync_entry,
};
use rfn_edit::terminal_panels::entries::{
    entries, holds_file, is_captured, logging_to, place_of, taken_numbers,
};
use rfn_edit::terminal_panels::page::publish;
use rfn_edit::terminal_panels::steps::{
    action, check_save, close_choices, close_question, file_chosen, import, is_in_use, log_name,
    log_not_started, not_opened, open_file, refuse_open, rename, renamed, request_close, save_for_close, save_to, should_stop,
    start_file, stop_for_close, switch_choices, switch_confirmed, switch_question, tail_saved, take_error,
    CloseAsk, CloseStep, FileStep, ImportStep, Moment, PanelStep, RenameStep, SaveCheck, SaveTo,
    Shells,
};
use rfn_edit::terminal_panels::{PaneTab, PanelDocument, Strip, TabBelow};

fn document(id: u64, path: Option<&str>, untitled: u32) -> Document {
    Document {
        origin: path.map(|path| path.to_owned()),
        untitled,
        state: DocumentState {
            id,
            edited: false,
            changed_at: 0,
            pending_since: None,
            read_only: false,
            form: TextForm { encoding: 0, byte_order_mark: false, newline: 0 },
            change: ExternalChange::Unchanged,
            outside: false,
            missing: false,
            reported: None,
            protective_recovery: false,
            recovery_failed: false,
        },
    }
}

fn panel(id: u64, path: Option<&str>, text: &str) -> PanelDocument {
    PanelDocument::new(
        id,
        document(id, path, id as u32),
        format!("panel {id}"),
        text.to_owned(),
        None,
        None,
    )
}

fn strip(terminal: Option<u64>, panels: Vec<PanelDocument>) -> Strip {
    Strip {
        tabs: vec![PaneTab {
            id: 1,
            document: document(100, Some("upper.md"), 0),
            terminal,
            paper: Paper { ground: None, ink: None },
            below: TabBelow {
                front_style: None,
                entries: panels,
                active: 0,
                draft: String::new(),
                shell: None,
                open: true,
            },
        }],
        active: 0,
    }
}

fn shells(finished: Vec<u64>) -> Shells {
    Shells {
        names: vec![(7, "WSL".to_owned()), (8, "cmd".to_owned())],
        finished,
        confirm: true,
    }
}

fn update(completed: &str, pending: &str) -> Option<(String, String)> {
    Some((completed.to_owned(), pending.to_owned()))
}

fn settings() -> TerminalSettings {
    TerminalSettings {
        paper: Rgb { red: 1, green: 2, blue: 3 },
        ink: Rgb { red: 4, green: 5, blue: 6 },
        family: "Mono".to_owned(),
        size: 20,
    }
}

#[test]
fn terminal_appearance_roundtrip_and_pane_reset_preserve_formatting() {
    let mut strips = vec![strip(None, Vec::new())];
    ensure(&mut strips[0], 5, document(5, None, 2), "Untitled".to_owned(), None);
    let mut style = default_style(&Vec::new(), 1, &settings());
    style.transparency = 65;
    style.bold = true;
    style.italic = true;
    style.paper = Rgb { red: 20, green: 40, blue: 60 };
    let encoded = encode(&style);
    assert_eq!(encode(&decode(&encoded).unwrap()), encoded);
    let tab = &mut strips[0].tabs[0];
    tab.below.entries[0].style = Some(style.copied());
    tab.below.front_style = Some(style);
    clear_paper(tab);
    assert!(!tab.below.front_style.as_ref().unwrap().paper_own);
    assert_eq!(tab.below.front_style.as_ref().unwrap().transparency, 65);
    let style = tab.below.entries[0].style.as_ref().unwrap();
    assert!(!style.paper_own);
    assert!(style.bold && style.italic);
    assert_eq!(style.transparency, 65);
}

#[test]
fn a_look_is_written_in_nine_fields() {
    let style = initial_style();
    assert_eq!(
        encode(&style),
        "#fffefa\t#24211e\t15\t0\tfalse\tfalse\tfalse\t0\tConsolas"
    );
    let read = decode("#FFFEFA\t#24211e\t500\t-3\ttrue\tfalse\ttrue\t9\ta\tb").unwrap();
    assert_eq!(read.size, 72);
    assert_eq!(read.transparency, 0);
    assert_eq!(read.random, 2);
    assert_eq!(read.family, "a\tb");
    assert!(read.bold && !read.italic && read.underline && read.paper_own);
    for bad in [
        "#fffefa\t#24211e\t15",
        "#fffef\t#24211e\t15\t0\tfalse\tfalse\tfalse\t0\tx",
        "#fffefa\t#24211e\t1x\t0\tfalse\tfalse\tfalse\t0\tx",
        "#fffefa\t#24211e\t15\t0\tno\tfalse\tfalse\t0\tx",
        "#fffefa\t#24211e\t-+5\t0\tfalse\tfalse\tfalse\t0\tx",
    ] {
        assert!(decode(bad).is_none(), "{bad}");
    }
    assert_eq!(hex_colour(Rgb { red: 171, green: 0, blue: 16 }), "#ab0010");
    assert_eq!(parse_hex_colour("#AB0010"), Some(Rgb { red: 171, green: 0, blue: 16 }));
    assert_eq!(parse_hex_colour("AB0010"), None);
}

#[test]
fn a_look_has_its_paper_from_the_nearest() {
    let red = Rgb { red: 255, green: 0, blue: 0 };
    let blue = Rgb { red: 0, green: 0, blue: 255 };
    let shown = |front: &Option<PanelStyle>, papers: Papers| {
        rfn_edit::terminal_appearance::publish(
            &Vec::new(),
            &settings(),
            front,
            &None,
            true,
            &papers,
        )
    };
    let (front, below) = shown(&None, Papers { tab: Some(red), pane: Some(blue) });
    assert_eq!(front.paper, red);
    assert_eq!(below.paper, blue);
    assert_eq!(below.size, 14);
    let (front, below) = shown(&None, Papers { tab: None, pane: None });
    assert_eq!(front.paper, settings().paper);
    assert_eq!(below.paper, settings().paper);
    let own = Some(initial_style());
    let (front, _) = shown(&own, Papers { tab: Some(red), pane: None });
    assert_eq!(front.paper, initial_style().paper);
    assert!(look(&front).is_some());
    let mut unset = initial_style();
    unset.size = 0;
    assert!(look(&unset).is_none());
    assert!(random_style(&Vec::new(), 0, &settings(), red, blue).is_none());
    let mut drawn = initial_style();
    drawn.random = 1;
    let style = random_style(&vec![drawn], 0, &settings(), red, blue).unwrap();
    assert_eq!(style.paper, red);
    assert_eq!(style.ink, blue);
}

#[test]
fn a_look_is_given_and_taken_away() {
    let front = initial_style();
    let page = request(
        0, 1, &Vec::new(), &settings(), Some(1), &front, None, &front, true, true,
    )
    .unwrap();
    assert_eq!(page.target, Target::Front(1));
    assert_eq!(page.title, "Terminal TAB — Appearance");
    assert!(request(0, 2, &Vec::new(), &settings(), Some(1), &front, None, &front, true, true)
        .is_none());
    let kind = request(
        9, 0, &Vec::new(), &settings(), None, &front, None, &front, true, false,
    )
    .unwrap();
    assert_eq!(kind.target, Target::Default(2));
    assert_eq!(kind.title, "Terminal Panel — 外観");
    let mut defaults: Vec<PanelStyle> = Vec::new();
    let mut strips = vec![strip(Some(7), vec![panel(5, None, "")])];
    let mut wanted = initial_style();
    wanted.random = 2;
    assert!(apply(page.target, wanted, &mut defaults, &settings(), &mut strips));
    assert_eq!(strips[0].tabs[0].below.front_style.as_ref().unwrap().random, 0);
    let mut nameless = initial_style();
    nameless.family = "  ".to_owned();
    assert!(!apply(Target::Panel(5), nameless, &mut defaults, &settings(), &mut strips));
    assert!(strips[0].tabs[0].below.entries[0].style.is_none());
    assert!(apply(Target::Panel(5), initial_style(), &mut defaults, &settings(), &mut strips));
    assert!(strips[0].tabs[0].below.entries[0].style.is_some());
    reset(Target::Panel(5), &mut defaults, &settings(), &mut strips);
    assert!(strips[0].tabs[0].below.entries[0].style.is_none());
    reset(Target::Front(1), &mut defaults, &settings(), &mut strips);
    assert!(strips[0].tabs[0].below.front_style.is_none());
    reset(Target::Default(1), &mut defaults, &settings(), &mut strips);
    assert_eq!(defaults.len(), 3);
    assert_eq!(defaults[1].size, 14);
    assert_eq!(defaults[0].family, "Mono");
}

#[test]
fn the_file_and_the_panel_hold_the_same() {
    let mut entry = panel(5, None, "before\n");
    entry.start_capture(7, "log.txt".to_owned());
    entry.start_log("C:\\log.txt".to_owned(), Some("log.txt".to_owned()));
    assert!(entry.viewer);
    let mut file = String::new();
    for told in [update("", "prom"), update("prompt> a\n日本\n", "pro"), update("", "pro")] {
        let collected = entry.collect(&told);
        file.push_str(&collected.write.unwrap());
    }
    assert_eq!(entry.text, "before\nprompt> a\n日本\npro");
    let stopped = entry.stop();
    file.push_str(&stopped.tail.unwrap());
    assert_eq!(stopped.session, Some(7));
    assert_eq!(entry.text, format!("before\n{file}"));
    assert!(!entry.viewer && entry.capture.is_none());
    assert!(entry.document.state.edited);
}

#[test]
fn a_file_that_fails_leaves_the_text() {
    let mut entry = panel(5, None, "");
    assert!(!entry.collect(&update("x\n", "")).changed);
    entry.start_capture(7, "log.txt".to_owned());
    entry.start_log("log.txt".to_owned(), None);
    entry.collect(&update("x\n", "y"));
    entry.log_failed("full".to_owned());
    assert!(entry.collect(&update("y\n", "")).write.is_none());
    assert_eq!(entry.text, "x\ny\n");
    assert_eq!(
        take_error(&mut entry, true).unwrap(),
        "File logging stopped; output is retained in the panel: full"
    );
    assert!(take_error(&mut entry, true).is_none());
    assert!(should_stop(&entry, &vec![7]));
    assert!(!should_stop(&entry, &vec![8]));
    assert!(entry.stop().tail.is_none());
}

#[test]
fn text_goes_in_between_characters() {
    let mut entry = panel(5, None, "日本");
    assert!(entry.insert_text("x", Some(4)));
    assert_eq!(entry.text, "日x本");
    assert!(entry.insert_text("!", None));
    assert_eq!(entry.text, "日x本!");
    assert!(entry.insert_text("0", Some(99)));
    assert_eq!(entry.text, "日x本!0");
    entry.viewer = true;
    assert!(!entry.insert_text("y", None));
}

#[test]
fn the_first_panel_takes_over_what_was_below() {
    let mut one = strip(Some(7), Vec::new());
    one.tabs[0].below.draft = "restored draft".to_owned();
    one.tabs[0].below.shell = Some(8);
    assert!(needs_panel(&one));
    ensure(&mut one, 5, document(5, None, 2), "Untitled".to_owned(), None);
    assert!(!needs_panel(&one));
    let entry = &one.tabs[0].below.entries[0];
    assert_eq!(entry.text, "restored draft");
    assert_eq!(entry.shell, Some(8));
    one.tabs[0].below.draft = "restored draft edited".to_owned();
    sync_entry(&mut one.tabs[0]);
    assert_eq!(one.tabs[0].below.entries[0].text, "restored draft edited");
    one.tabs[0].below.entries[0].text.push('!');
    assert!(draw_drafts(&mut one));
    assert_eq!(one.tabs[0].below.draft, "restored draft edited!");
    assert!(!draw_drafts(&mut one));
}

#[test]
fn orders_to_a_panel_come_to_steps() {
    let mut one = strip(Some(7), vec![panel(5, None, "a"), panel(6, None, "b")]);
    assert_eq!(action(&mut one, 0, 1, "", &shells(vec![])), PanelStep::Show);
    assert_eq!(one.tabs[0].below.active, 1);
    one.tabs[0].below.show();
    assert_eq!(one.tabs[0].below.draft, "b");
    select(&mut one, 9);
    assert_eq!(one.tabs[0].below.active, 1);
    assert_eq!(action(&mut one, 1, 0, "", &shells(vec![])), PanelStep::Add { shell: false });
    assert_eq!(action(&mut one, 2, 0, "", &shells(vec![])), PanelStep::RequestClose);
    assert_eq!(action(&mut one, 3, 0, "", &shells(vec![])), PanelStep::Save { ask: false });
    assert_eq!(action(&mut one, 6, 0, "", &shells(vec![])), PanelStep::Save { ask: true });
    assert_eq!(action(&mut one, 4, 0, "", &shells(vec![])), PanelStep::Show);
    assert!(one.tabs[0].below.entries[1].viewer);
    one.tabs[0].below.entries[1].capture = Some(7);
    assert_eq!(action(&mut one, 4, 0, "", &shells(vec![])), PanelStep::Stop { write: true });
    assert_eq!(action(&mut one, 5, 0, "", &shells(vec![])), PanelStep::Stop { write: false });
    assert_eq!(action(&mut one, 8, 0, "", &shells(vec![])), PanelStep::Import(8));
    assert_eq!(action(&mut one, 10, 0, "", &shells(vec![])), PanelStep::StartFile);
    assert_eq!(action(&mut one, 11, 0, "", &shells(vec![])), PanelStep::OpenFile);
    assert_eq!(action(&mut one, 12, 0, "cmd", &shells(vec![])), PanelStep::Nothing);
    one.tabs[0].below.entries[1].shell = Some(7);
    assert_eq!(action(&mut one, 12, 0, "WSL", &shells(vec![])), PanelStep::Nothing);
    assert_eq!(
        action(&mut one, 12, 0, "cmd", &shells(vec![])),
        PanelStep::Switch { ask: true }
    );
    assert_eq!(
        action(&mut one, 12, 0, "cmd", &shells(vec![7])),
        PanelStep::Switch { ask: false }
    );
    assert_eq!(action(&mut one, 99, 0, "", &shells(vec![])), PanelStep::Nothing);
}

#[test]
fn output_is_taken_in_by_one_panel() {
    let mut strips = vec![strip(Some(7), vec![panel(5, None, "")])];
    {
        let all = entries(&strips);
        assert_eq!(import(&strips[0], &all, 7, ""), ImportStep::Capture(7));
        assert_eq!(import(&strips[0], &all, 8, ""), ImportStep::Nothing);
        assert_eq!(import(&strips[0], &all, 8, "x"), ImportStep::AddText);
        assert_eq!(import(&strips[0], &all, 9, "x"), ImportStep::InsertText);
        assert_eq!(start_file(&strips[0], &all), FileStep::Choose(7));
        assert!(!is_captured(&all, 7));
    }
    strips[0].tabs[0].below.entries[0].start_capture(7, "l".to_owned());
    let all = entries(&strips);
    assert!(is_captured(&all, 7));
    let step = import(&strips[0], &all, 7, "");
    assert_eq!(step, ImportStep::TellCaptured);
    assert_eq!(step.words(true), Some("This terminal is already being captured"));
    assert_eq!(import(&strips[0], &all, 9, "x"), ImportStep::TellReadOnly);
    assert_eq!(start_file(&strips[0], &all), FileStep::TellStop);
    assert_eq!(import(&strip(None, Vec::new()), &all, 7, ""), ImportStep::Nothing);
}

#[test]
fn output_goes_to_a_file_that_is_not_in_use() {
    let mut strips = vec![strip(Some(7), vec![panel(5, Some("p.txt"), "")])];
    strips[0].tabs[0].below.entries[0].start_log("C:\\Log.TXT".to_owned(), None);
    let upper = vec![document(100, Some("upper.md"), 0)];
    let all = entries(&strips);
    let none: Vec<u64> = Vec::new();
    assert!(logging_to(&all, "c:\\log.txt", &none));
    assert!(!logging_to(&all, "d:\\log.txt", &none));
    assert!(logging_to(&all, "d:\\log.txt", &vec![5]));
    assert!(is_in_use(&all, &upper, "upper.md", &none));
    assert!(is_in_use(&all, &upper, "p.txt", &none));
    assert!(holds_file(&all, "p.txt"));
    assert_eq!(
        file_chosen(&strips[0], &all, &upper, "p.txt", &none, 7),
        FileStep::TellOpen
    );
    assert_eq!(
        file_chosen(&strips[0], &all, &upper, "new.txt", &none, 7),
        FileStep::Create
    );
    assert_eq!(
        file_chosen(&strips[0], &all, &upper, "new.txt", &none, 8),
        FileStep::Nothing
    );
    assert_eq!(
        FileStep::TellOpen.words(true),
        Some("Choose a file that is not open in the editor")
    );
    assert!(refuse_open(&all, &upper, "p.txt", true).is_some());
    assert!(refuse_open(&all, &upper, "q.txt", true).is_none());
    assert_eq!(taken_numbers(&strips), vec![0, 5]);
}

#[test]
fn a_log_is_called_by_its_moment() {
    let now = Moment { year: 2026, month: 9, day: 7, hour: 8, minute: 5, second: 59 };
    assert_eq!(log_name(now), "Terminal-20260907-080559.txt");
    let early = Moment { year: 7, ..now };
    assert_eq!(log_name(early), "Terminal-00070907-080559.txt");
}

#[test]
fn a_panel_is_saved_where_nobody_else_is() {
    let upper = vec![document(100, Some("upper.md"), 0)];
    let mut first = panel(5, Some("p.txt"), "");
    let second = panel(6, Some("q.txt"), "");
    assert!(matches!(save_to(&first, false), SaveTo::File(path) if path == "p.txt"));
    assert!(matches!(save_to(&first, true), SaveTo::Ask(name) if name == "panel 5"));
    first.log_name = Some("log.txt".to_owned());
    assert!(matches!(save_to(&first, true), SaveTo::Ask(name) if name == "log.txt"));
    {
        let all = vec![&first, &second];
        assert_eq!(check_save(&first, &all, &upper, "p.txt"), SaveCheck::Write);
        assert_eq!(check_save(&first, &all, &upper, "q.txt"), SaveCheck::TellTaken);
        assert_eq!(check_save(&first, &all, &upper, "upper.md"), SaveCheck::TellTaken);
        assert_eq!(check_save(&first, &all, &upper, "new.txt"), SaveCheck::Write);
    }
    first.document.state.change = ExternalChange::Modified;
    let all = vec![&first, &second];
    let check = check_save(&first, &all, &upper, "p.txt");
    assert_eq!(check, SaveCheck::TellChanged);
    assert_eq!(check.words(true), Some("The file changed outside; use Save As"));
    assert_eq!(check_save(&first, &all, &upper, "new.txt"), SaveCheck::Write);
}

#[test]
fn closing_asks_where_something_would_be_lost() {
    let mut entry = panel(5, None, "");
    assert_eq!(request_close(&entry, &shells(vec![])), CloseAsk::Close);
    entry.shell = Some(7);
    assert_eq!(request_close(&entry, &shells(vec![])), CloseAsk::Ask { save: false });
    assert_eq!(request_close(&entry, &shells(vec![7])), CloseAsk::Close);
    entry.document.state.edited = true;
    assert_eq!(request_close(&entry, &shells(vec![7])), CloseAsk::Ask { save: true });
    assert_eq!(close_choices(true, true), vec!["Save and Close", "Close Without Saving", "Cancel"]);
    assert_eq!(close_choices(false, true), vec!["Close", "Cancel"]);
    assert!(close_question(true).starts_with("Close this panel tab?"));
    assert!(switch_question(true).starts_with("Switch this Terminal Panel shell?"));
    assert!(save_for_close(&mut entry, true));
    assert!(matches!(stop_for_close(&mut entry, true), CloseStep::SaveTail));
    assert!(!tail_saved(&mut entry, false));
    assert!(entry.save_tail_on_close);
    assert!(tail_saved(&mut entry, true));
    assert!(matches!(stop_for_close(&mut entry, true), CloseStep::Ready));
    entry.log_failed("full".to_owned());
    assert!(matches!(
        stop_for_close(&mut entry, true),
        CloseStep::Refuse(words)
            if words == "Log save failed. Save the panel contents before closing: full"
    ));
}

#[test]
fn a_closed_panel_leaves_the_next() {
    let mut strips = vec![
        strip(None, Vec::new()),
        strip(Some(7), vec![panel(5, None, "five"), panel(6, None, "six")]),
    ];
    strips[1].tabs[0].below.active = 1;
    assert_eq!(close(&mut strips, 0, 6), (1, true));
    let below = &strips[1].tabs[0].below;
    assert_eq!(below.entries.len(), 1);
    assert_eq!(below.active, 0);
    assert_eq!(below.draft, "five");
    assert!(below.open);
    assert_eq!(close(&mut strips, 0, 5), (1, true));
    assert!(!strips[1].tabs[0].below.open);
    assert_eq!(strips[1].tabs[0].below.draft, "");
    assert_eq!(close(&mut strips, 0, 99), (0, false));
}

#[test]
fn a_panel_is_renamed_and_gets_another_shell() {
    let mut entry = panel(5, None, "");
    assert!(matches!(rename(&entry, "x"), RenameStep::TellUnsaved));
    renamed(&mut entry, "a.txt".to_owned());
    assert!(matches!(rename(&entry, "a.txt"), RenameStep::Nothing));
    assert!(matches!(rename(&entry, "b.txt"), RenameStep::Move(from) if from == "a.txt"));
    entry.capture = Some(7);
    let step = rename(&entry, "b.txt");
    assert_eq!(step.words(true), Some("Stop capture before renaming"));
    entry.capture = None;
    entry.shell = Some(7);
    let mut strips = vec![strip(None, vec![entry])];
    {
        let all = entries(&strips);
        let names = shells(vec![]).names;
        assert!(switch_confirmed(&all, 5, "cmd", &names));
        assert!(!switch_confirmed(&all, 5, "WSL", &names));
        assert!(!switch_confirmed(&all, 9, "cmd", &names));
        assert_eq!(place_of(&all, 5), Some(0));
        assert_eq!(place_of(&all, 9), None);
    }
    switched(&mut strips[0], 5, 8);
    assert_eq!(strips[0].tabs[0].below.entries[0].shell, Some(8));
    assert_eq!(strips[0].tabs[0].below.shell, Some(8));
    assert!(!open_file(&mut strips[0], panel(9, Some("f.txt"), "f")));
    strips[0].tabs[0].terminal = Some(7);
    assert!(open_file(&mut strips[0], panel(9, Some("f.txt"), "f")));
    assert_eq!(strips[0].tabs[0].below.active, 1);
}

#[test]
fn the_page_names_the_panels() {
    let mut one = panel(5, None, "");
    one.document.state.edited = true;
    one.start_capture(7, "l".to_owned());
    let mut two = panel(6, None, "");
    two.shell = Some(7);
    let mut below = strip(None, vec![one, two]).tabs.remove(0).below;
    let page = publish(&below, &shells(vec![]).names);
    assert_eq!(page.names, vec!["panel 5* ● Panel".to_owned(), "WSL".to_owned()]);
    assert_eq!(page.file_names[1], "panel 6");
    assert!(page.read_only && page.capturing && page.source_capturing);
    assert_eq!(page.destination, "");
    below.entries[0].start_log("C:\\log.txt".to_owned(), Some("log.txt".to_owned()));
    below.active = 0;
    let page = publish(&below, &shells(vec![]).names);
    assert_eq!(page.names[0], "log.txt* ● File");
    assert_eq!(page.destination, "C:\\log.txt");
}

#[test]
fn output_begins_and_ends_in_the_panel_that_is_shown() {
    let mut one = strip(Some(7), vec![panel(5, None, "日本")]);
    assert!(insert_into(&mut one, "x", 3));
    assert_eq!(one.tabs[0].below.draft, "日x本");
    begin_capture(&mut one, panel(6, None, ""), 7, "log.txt".to_owned());
    assert_eq!(one.tabs[0].below.active, 1);
    assert!(one.tabs[0].below.entries[1].viewer);
    assert!(!insert_into(&mut one, "x", 0));
    one.tabs[0].below.entries[1].collect(&update("a\n", "b"));
    let stopped = stop_current(&mut one, false).unwrap();
    assert_eq!(stopped.session, Some(7));
    assert_eq!(one.tabs[0].below.draft, "a\nb");
    assert!(!one.tabs[0].below.entries[1].viewer);
    add_text(&mut one, panel(9, None, ""), "all there is");
    assert_eq!(one.tabs[0].below.draft, "all there is");
    add_panel(&mut one, panel(10, None, ""));
    assert_eq!(one.tabs[0].below.active, 3);
    assert_eq!(one.tabs[0].below.draft, "");
    let mut nothing = Strip { tabs: Vec::new(), active: 0 };
    assert!(stop_current(&mut nothing, true).is_none());
    assert!(!insert_into(&mut nothing, "x", 0));
}

#[test]
fn the_writer_is_told_of_a_file_that_fails() {
    assert_eq!(switch_choices(true), ["Switch", "Cancel"]);
    assert_eq!(log_not_started("x", false), "ログを開始できません: x");
    assert_eq!(not_opened("x", true), "Cannot open: x");
}
