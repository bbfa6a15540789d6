//! What a shell writes, and what is on the screen afterwards.
use rfn_edit::terminal::{Color, Terminal};

#[test]
fn search_and_urls_follow_wrapped_cells_and_unicode() {
    let mut terminal = Terminal::new(4, 5);
    terminal.feed("ABCDEF\r\n日本".as_bytes());
    assert_eq!(terminal.screen.search("CDEF", true), vec![((0, 2), (1, 2))]);
    assert_eq!(terminal.screen.search("日本", true), vec![((2, 0), (2, 4))]);
    assert_eq!(
        terminal.screen.search("cdef", false),
        vec![((0, 2), (1, 2))]
    );
    assert!(terminal.screen.search("cdef", true).is_empty());
    let mut terminal = Terminal::new(12, 5);
    terminal.feed(b"https://example.com/path.");
    assert_eq!(
        terminal.screen.url_at(1, 3).as_deref(),
        Some("https://example.com/path")
    );
    terminal.screen.clear_screen();
    assert!(terminal.screen.search("example", false).is_empty());
}

#[test]
fn retained_output_joins_wrapping_without_losing_spaces() {
    let mut term = Terminal::new(5, 3);
    term.feed(b"abcd ef\r\nnext");
    assert_eq!(term.screen.retained_text(), "abcd ef\nnext");
}

#[test]
fn history_limit_tracks_evictions_and_clear_keeps_screen() {
    let mut term = Terminal::new(10, 2);
    term.screen.set_history_limit(2);
    term.feed(b"a\r\nb\r\nc\r\nd\r\ne");
    assert_eq!(term.screen.scrollback().len(), 2);
    assert_eq!(term.screen.history_origin(), 1);
    term.screen.clear_history();
    assert_eq!(term.screen.history_origin(), 3);
    assert_eq!(term.screen.retained_text(), "d\ne");
    term.screen.set_history_limit(0);
    term.feed(b"\r\nf");
    assert!(term.screen.scrollback().is_empty());
    assert_eq!(term.screen.history_origin(), 4);
}

#[test]
fn capture_excludes_old_screen_redraw_and_keeps_real_blank_lines() {
    let mut term = Terminal::new(30, 6);
    term.feed(b"old prompt\r\n\r\ncurrent> ");
    term.screen.start_capture();
    term.feed(b"\x1b[1;1Hold prompt\x1b[3;9Hcommand\r\n\r\nresult\r\n");
    assert_eq!(term.screen.capture_update(), Some(("command\n\nresult\n".into(), "".into())));
}

#[test]
fn capture_continues_after_terminal_reset() {
    let mut term = Terminal::new(30, 6);
    term.feed(b"old\r\nprompt> ");
    term.screen.start_capture();
    term.feed(b"\x1bcnew\r\n");
    assert_eq!(term.screen.capture_update(), Some(("new\n".into(), "".into())));
}

#[test]
fn terminal_file_and_panel_capture_have_independent_start_and_stop() {
    let mut term = Terminal::new(80, 8);
    term.screen.start_capture();
    term.feed(b"panel only\r\n");
    term.screen.start_file_capture();
    term.feed(b"both\r\npending");
    assert_eq!(
        term.screen.file_capture_update(),
        Some(("both\n".into(), "pending".into()))
    );
    assert_eq!(
        term.screen.capture_update(),
        Some(("panel only\nboth\n".into(), "pending".into()))
    );
    term.screen.stop_capture();
    term.feed(b"\r\nfile only\r\n");
    assert_eq!(
        term.screen.file_capture_update(),
        Some(("pending\nfile only\n".into(), "".into()))
    );
    term.screen.start_capture();
    term.feed(b"again\r\n");
    term.screen.stop_file_capture();
    term.feed(b"panel again\r\n");
    assert_eq!(
        term.screen.capture_update(),
        Some(("again\npanel again\n".into(), "".into()))
    );
    assert!(term.screen.file_capture_update().is_none());
}

#[test]
fn capture_finishes_line_when_conpty_positions_next_prompt() {
    let mut term = Terminal::new(80, 8);
    term.screen.start_capture();
    term.feed(b"one\r\nlast\x1b[4;1Hprompt");
    assert_eq!(
        term.screen.capture_update(),
        Some(("one\nlast\n".into(), "prompt".into()))
    );
}

#[test]
fn capture_handles_wrapping_partial_utf8_and_prompt_redraw() {
    let mut term = Terminal::new(8, 4);
    term.feed(b"old> ");
    term.screen.start_capture();
    term.feed(b"\r\x1b[2Knew> ab\r\x1b[2Knew> ac");
    assert_eq!(
        term.screen.capture_update(),
        Some((String::new(), "new> ac".into()))
    );
    term.feed(b"\r\n\x1b[31m12345678x\x1b[0m\r\n");
    for byte in "日本語".as_bytes() {
        term.feed(&[*byte]);
    }
    assert_eq!(
        term.screen.capture_update(),
        Some(("new> ac\n12345678x\n".into(), "日本語".into()))
    );
    term.screen.stop_capture();
    term.feed(b"\r\nmore");
    assert!(term.screen.capture_update().is_none());
}

const WSL_PROMPT: &[u8] = b"\x1b[?9001h\x1b[?1004h\x1b[?25l\x1b[2J\x1b[m\x1b[32m\x1b[1m\
\x1b[Hken@KN01\x1b[m:\x1b[34m\x1b[1m/mnt/d/Projects/10_Creation/50_Dev/10_Editor\x1b[m$\x1b[1C\
\x1b]0;ken@KN01: /mnt/d/Projects/10_Creation/50_Dev/10_Editor\x07\x1b[?25h\x1b[?2004h";

fn terminal(columns: usize, rows: usize) -> Terminal {
    Terminal::new(columns, rows)
}

#[test]
fn the_prompt_a_real_shell_sent_lands_in_the_grid() {
    let mut it = terminal(80, 25);
    it.feed(WSL_PROMPT);
    assert_eq!(
        it.screen.row_text(0),
        "ken@KN01:/mnt/d/Projects/10_Creation/50_Dev/10_Editor$"
    );
    assert_eq!(
        it.screen.title(),
        "ken@KN01: /mnt/d/Projects/10_Creation/50_Dev/10_Editor"
    );
    assert_eq!(it.screen.cursor().row, 0);
    assert_eq!(it.screen.cursor().column, 55);
}

#[test]
fn the_modes_the_shell_asked_for_are_remembered() {
    let mut it = terminal(80, 25);
    it.feed(WSL_PROMPT);
    let modes = it.screen.modes();
    assert!(modes.win32_input, "conhost asked for win32 input");
    assert!(modes.focus_events);
    assert!(modes.bracketed_paste, "bash turns this on for its prompt");
    assert!(modes.cursor_visible, "hidden for the repaint, shown after");
}

#[test]
fn the_colours_the_prompt_was_written_in_are_kept() {
    let mut it = terminal(80, 25);
    it.feed(WSL_PROMPT);
    let user = it.screen.line(0).unwrap().cells[0];
    assert_eq!(user.text, 'k');
    assert_eq!(user.attrs.foreground, Color::Indexed(2));
    assert!(user.attrs.bold);
    let colon = it.screen.line(0).unwrap().cells[8];
    assert_eq!(colon.text, ':');
    assert_eq!(
        colon.attrs.foreground,
        Color::Default,
        "`ESC[m` between the two colours puts the pen back"
    );
    let path = it.screen.line(0).unwrap().cells[9];
    assert_eq!(path.attrs.foreground, Color::Indexed(4));
}

#[test]
fn the_last_column_is_written_before_the_line_wraps() {
    let mut it = terminal(4, 3);
    it.feed(b"abcd");
    assert_eq!(it.screen.row_text(0), "abcd");
    assert_eq!(
        (it.screen.cursor().row, it.screen.cursor().column),
        (0, 3),
        "still on the last column: a box drawn to the corner must not scroll"
    );
    it.feed(b"e");
    assert_eq!(it.screen.row_text(1), "e");
    assert_eq!((it.screen.cursor().row, it.screen.cursor().column), (1, 1));
    assert!(it.screen.line(0).unwrap().wrapped, "copying joins the two");
}

#[test]
fn a_full_width_character_takes_two_cells() {
    let mut it = terminal(10, 3);
    it.feed("あい".as_bytes());
    assert_eq!(it.screen.row_text(0), "あい");
    assert_eq!(it.screen.cursor().column, 4);
    assert!(it.screen.line(0).unwrap().cells[1].trailing);
    assert!(it.screen.line(0).unwrap().cells[3].trailing);
}

#[test]
fn writing_over_half_of_a_wide_character_takes_the_other_half_with_it() {
    let mut it = terminal(10, 3);
    it.feed("あ\r".as_bytes());
    it.feed(b"x");
    assert_eq!(
        it.screen.row_text(0),
        "x",
        "the orphaned half would shift the whole row"
    );
}

#[test]
fn a_character_split_across_two_reads_is_still_one_character() {
    let mut it = terminal(10, 3);
    let bytes = "あ".as_bytes();
    it.feed(&bytes[..1]);
    it.feed(&bytes[1..]);
    assert_eq!(it.screen.row_text(0), "あ");
}

#[test]
fn a_sequence_split_across_two_reads_is_still_one_sequence() {
    let mut it = terminal(10, 3);
    it.feed(b"\x1b[3");
    it.feed(b";2Hx");
    assert_eq!(it.screen.row_text(2), " x");
}

#[test]
fn lines_that_leave_the_top_become_history() {
    let mut it = terminal(10, 2);
    it.feed(b"one\r\ntwo\r\nthree");
    assert_eq!(it.screen.scrollback().len(), 1);
    assert_eq!(it.screen.scrollback()[0].text(), "one");
    assert_eq!(it.screen.row_text(0), "two");
    assert_eq!(it.screen.row_text(1), "three");
}

#[test]
fn the_alternate_screen_gives_the_first_one_back_untouched() {
    let mut it = terminal(10, 2);
    it.feed(b"shell\r\n");
    it.feed(b"\x1b[?1049h");
    it.feed(b"editing");
    assert_eq!(it.screen.row_text(0), "editing");
    assert!(it.screen.modes().alternate_screen);
    let history = it.screen.scrollback().len();
    it.feed(b"\r\nmore\r\nand more");
    assert_eq!(
        it.screen.scrollback().len(),
        history,
        "a full-screen program's scrolling is not the session's history"
    );
    it.feed(b"\x1b[?1049l");
    assert_eq!(it.screen.row_text(0), "shell");
    assert!(!it.screen.modes().alternate_screen);
}

#[test]
fn asking_where_the_cursor_is_gets_an_answer_to_send_back() {
    let mut it = terminal(80, 25);
    it.feed(b"\x1b[3;5H\x1b[6n");
    assert_eq!(it.screen.take_replies(), b"\x1b[3;5R".to_vec());
    assert!(
        it.screen.take_replies().is_empty(),
        "an answer is sent once"
    );
}

#[test]
fn a_title_can_end_with_bel_or_with_st() {
    let mut it = terminal(80, 25);
    it.feed(b"\x1b]0;by bell\x07");
    assert_eq!(it.screen.title(), "by bell");
    it.feed(b"\x1b]2;by string terminator\x1b\\");
    assert_eq!(it.screen.title(), "by string terminator");
}

#[test]
fn erasing_the_display_leaves_the_cursor_where_it_was() {
    let mut it = terminal(10, 3);
    it.feed(b"\x1b[2;3Hxyz\x1b[2J");
    assert_eq!(it.screen.row_text(1), "");
    assert_eq!((it.screen.cursor().row, it.screen.cursor().column), (1, 5));
}

#[test]
fn a_private_marker_does_not_make_a_sequence_an_attribute() {
    let mut it = terminal(10, 3);
    it.feed(b"\x1b[2J\x1b[?4m\x1b[?25lKN01\x1b[K");
    let letter = it.screen.line(0).unwrap().cells[0];
    assert_eq!(letter.text, 'K');
    assert!(!letter.attrs.underline, "`ESC[?4m`は下線ではない");
    assert_eq!(
        it.screen.unhandled().first().map(|(what, _)| what.as_str()),
        Some("CSI ? m"),
        "読まなかったことは記録に残る"
    );
}

#[test]
fn erasing_does_not_carry_the_pen_into_the_blanks() {
    let mut it = terminal(10, 3);
    it.feed(b"\x1b[4;7;1munderlined\x1b[2;1H\x1b[2J");
    let blank = it.screen.line(0).unwrap().cells[0];
    assert!(!blank.attrs.underline, "下線は消した跡には残らない");
    assert!(!blank.attrs.reverse);
    assert!(!blank.attrs.bold);
    it.feed(b"\x1b[41m\x1b[2J");
    assert_eq!(
        it.screen.line(0).unwrap().cells[0].attrs.background,
        Color::Indexed(1)
    );
}

#[test]
fn erasing_to_the_end_of_a_line_keeps_what_is_before_the_cursor() {
    let mut it = terminal(10, 2);
    it.feed(b"abcdef\x1b[1;4H\x1b[K");
    assert_eq!(it.screen.row_text(0), "abc");
}

#[test]
fn a_scroll_region_leaves_the_rows_outside_it_still() {
    let mut it = terminal(10, 4);
    it.feed(b"\x1b[1;1Htop\x1b[4;1Hfoot");
    it.feed(b"\x1b[2;3r"); // scroll between rows 2 and 3
    it.feed(b"\x1b[2;1Hone\r\ntwo\r\nthree");
    assert_eq!(it.screen.row_text(0), "top");
    assert_eq!(it.screen.row_text(3), "foot");
    assert_eq!(it.screen.row_text(1), "two");
    assert_eq!(it.screen.row_text(2), "three");
    assert!(
        it.screen.scrollback().is_empty(),
        "what falls out of a program's own window is not session history"
    );
}

#[test]
fn an_extended_colour_can_be_written_either_way() {
    let mut it = terminal(10, 2);
    it.feed(b"\x1b[38;2;10;20;30ma");
    assert_eq!(
        it.screen.line(0).unwrap().cells[0].attrs.foreground,
        Color::Rgb(10, 20, 30)
    );
    it.feed(b"\x1b[38:5:200mb");
    assert_eq!(
        it.screen.line(0).unwrap().cells[1].attrs.foreground,
        Color::Indexed(200)
    );
    it.feed(b"\x1b[38:2::10:20:30mc");
    assert_eq!(
        it.screen.line(0).unwrap().cells[2].attrs.foreground,
        Color::Rgb(10, 20, 30)
    );
    it.feed(b"\x1b[38;2;1;2;3;1md");
    let cell = it.screen.line(0).unwrap().cells[3];
    assert_eq!(cell.attrs.foreground, Color::Rgb(1, 2, 3));
    assert!(cell.attrs.bold, "the `1` after the colour is still bold");
}

#[test]
fn a_colour_with_colons_takes_one_parameter() {
    let mut it = terminal(10, 2);
    it.feed(b"\x1b[38:5:200;1ma\x1b[0;48:2::1:2:3;3;4mb");
    let cells = &it.screen.line(0).unwrap().cells;
    assert_eq!(cells[0].attrs.foreground, Color::Indexed(200));
    assert!(cells[0].attrs.bold);
    assert_eq!(cells[1].attrs.background, Color::Rgb(1, 2, 3));
    assert!(cells[1].attrs.italic && cells[1].attrs.underline);
}

#[test]
fn a_tab_goes_to_the_next_stop() {
    let mut it = terminal(20, 2);
    it.feed(b"ab\tc");
    assert_eq!(it.screen.row_text(0), "ab      c");
    assert_eq!(it.screen.cursor().column, 9);
}

#[test]
fn inserting_and_deleting_cells_moves_the_rest_of_the_row() {
    let mut it = terminal(10, 2);
    it.feed(b"abcdef\x1b[1;3H\x1b[2@");
    assert_eq!(it.screen.row_text(0), "ab  cdef");
    it.feed(b"\x1b[2P");
    assert_eq!(it.screen.row_text(0), "abcdef");
}

#[test]
fn a_narrower_pane_keeps_the_rows_the_reader_can_see() {
    let mut it = terminal(20, 3);
    it.feed(b"one\r\ntwo\r\nthree");
    it.screen.resize(20, 2);
    assert_eq!(it.screen.row_text(0), "two");
    assert_eq!(it.screen.row_text(1), "three");
    assert_eq!(it.screen.scrollback().len(), 1);
    assert_eq!(it.screen.cursor().row, 1);
}

#[test]
fn nothing_visible_changes_without_the_revision_moving() {
    let mut it = terminal(10, 2);
    let before = it.screen.revision();
    it.feed(b"\x1b[?25l");
    it.feed(b"x");
    assert!(it.screen.revision() > before);
    let settled = it.screen.revision();
    it.feed(b"\x00\x07");
    assert_eq!(
        it.screen.revision(),
        settled,
        "a bell does not repaint anything"
    );
}

#[test]
fn a_blank_cell_shows_nothing() {
    let mut terminal = Terminal::new(4, 2);
    terminal.feed("あ".as_bytes());
    let cells = &terminal.screen.line(0).unwrap().cells;
    assert!(!cells[0].is_blank());
    assert!(!cells[1].is_blank());
    assert!(cells[2].is_blank());
}

#[test]
fn what_is_searched_for_is_no_pattern() {
    let mut terminal = Terminal::new(12, 2);
    terminal.feed(b"abc a.c");
    assert_eq!(terminal.screen.search("a.c", true), vec![((0, 4), (0, 7))]);
    assert!(terminal.screen.search("a+", true).is_empty());
}

#[test]
fn a_title_with_broken_bytes_is_shown() {
    let mut terminal = Terminal::new(12, 2);
    terminal.feed(b"\x1b]0;a\xffb\x07");
    assert_eq!(terminal.screen.title(), "a\u{fffd}b");
}

#[test]
fn a_reset_moves_the_revision_on() {
    let mut it = Terminal::new(10, 2);
    it.feed(b"x");
    let before = it.screen.revision();
    it.feed(b"\x1bcy");
    assert_eq!(it.screen.row_text(0), "y");
    assert_ne!(it.screen.revision(), before);
    let shown = it.screen.revision();
    it.feed(b"\x1b[?25l");
    assert_ne!(it.screen.revision(), shown);
    let hidden = it.screen.revision();
    it.feed(b"\x1b[?25l");
    assert_eq!(it.screen.revision(), hidden);
}

#[test]
fn erasing_half_of_a_character_erases_it() {
    let mut it = Terminal::new(10, 2);
    it.feed("あ\x1b[1;2H\x1b[K".as_bytes());
    assert_eq!(it.screen.row_text(0), "");
    let mut it = Terminal::new(10, 2);
    it.feed("aあb\x1b[1;2H\x1b[1K".as_bytes());
    assert_eq!(it.screen.row_text(0), "   b");
    let mut it = Terminal::new(6, 2);
    it.feed("aあいb\x1b[1;3H\x1b[@".as_bytes());
    assert_eq!(it.screen.row_text(0), "a   い");
    let mut it = Terminal::new(6, 2);
    it.feed("aあいb\x1b[1;3H\x1b[P".as_bytes());
    assert_eq!(it.screen.row_text(0), "a いb");
    let mut it = Terminal::new(6, 2);
    it.feed("abcあd\x1b[1;1H\x1b[X".as_bytes());
    it.screen.resize(4, 2);
    assert_eq!(it.screen.row_text(0), " bc");
}

#[test]
fn the_alternate_screen_shows_no_history() {
    let mut it = Terminal::new(10, 2);
    it.feed(b"one\r\ntwo\r\nthree\x1b[?1049h");
    assert!(it.screen.scrollback().is_empty());
    it.feed(b"full");
    assert_eq!(it.screen.search("one", true), vec![]);
    assert_eq!(it.screen.search("full", true), vec![((0, 0), (0, 4))]);
    assert!(it.screen.retained_text().starts_with("one\n"));
    it.feed(b"\x1b[?1049l");
    assert_eq!(it.screen.scrollback().len(), 1);
    assert_eq!(it.screen.scrollback()[0].text(), "one");
    it.feed(b"\x1b[?1049h\x1bc");
    assert_eq!(it.screen.scrollback().len(), 1);
}

#[test]
fn a_lower_pane_drops_nothing_from_the_bottom() {
    let mut it = Terminal::new(20, 3);
    it.feed(b"one\r\ntwo\r\nthree\x1b[1;1H");
    it.screen.resize(20, 2);
    assert_eq!(it.screen.retained_text(), "one\ntwo\nthree");
    assert_eq!(it.screen.scrollback()[0].text(), "one");
    assert_eq!(it.screen.row_text(1), "three");
    let mut it = Terminal::new(20, 3);
    it.feed(b"one\r\ntwo\r\nthree\x1b[?1049h");
    it.screen.resize(20, 2);
    it.feed(b"\x1b[?1049l");
    assert_eq!(it.screen.retained_text(), "one\ntwo\nthree");
    assert_eq!(it.screen.cursor().row, 1);
}

#[test]
fn rows_that_leave_the_history_are_counted() {
    let mut it = Terminal::new(10, 2);
    it.screen.set_history_limit(2);
    it.feed(b"1\r\n2\r\n3\r\n4\r\n5");
    assert_eq!(it.screen.history_origin(), 1);
    assert_eq!(it.screen.scrollback().len(), 2);
    it.feed(b"\x1b[?1049h");
    it.screen.set_history_limit(1);
    assert_eq!(it.screen.history_origin(), 2);
    it.feed(b"\x1b[?1049l");
    assert_eq!(it.screen.scrollback().len(), 1);
    it.screen.clear_history();
    assert_eq!(it.screen.history_origin(), 3);
}
