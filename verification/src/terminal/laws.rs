//! What holds of the terminal as a whole.
use crate::terminal::cell::{self, Cell, LineModel};
use crate::terminal::halves;
use crate::terminal::model::{self, CaptureModel, ScreenModel};
use crate::terminal::stream::{self, ParserModel, State};
use vstd::prelude::*;

verus! {

/// Any split is allowed: reading two pieces one after the other is reading them
/// as one.
pub proof fn a_split_read_resumes(
    parser: ParserModel,
    screen: ScreenModel,
    one: Seq<u8>,
    two: Seq<u8>,
)
    ensures
        parser.after(one + two) == parser.after(one).after(two),
        parser.screen_after(screen, one + two) == parser.after(one).screen_after(
            parser.screen_after(screen, one),
            two,
        ),
    decreases two.len(),
{
    if two.len() == 0 {
        assert(one + two =~= one);
    } else {
        a_split_read_resumes(parser, screen, one, two.drop_last());
        assert((one + two).drop_last() =~= one + two.drop_last());
        assert((one + two).last() == two.last());
    }
}

/// On a screen with two columns or more, and not of 65536 rows or a multiple of
/// that, every byte can be read.
pub proof fn ordinary_screens_read_anything(
    parser: ParserModel,
    columns: usize,
    rows: usize,
    bytes: Seq<u8>,
)
    requires
        columns >= 2,
        rows % 65536 != 0,
    ensures
        parser.all_fit(columns, rows, bytes),
{
}

/// Erasing leaves the cursor where it was.
pub proof fn erasing_leaves_the_cursor(screen: ScreenModel, mode: u16, count: int)
    ensures
        screen.erase_in_display(mode).cursor == screen.cursor,
        screen.erase_in_line(mode).cursor == screen.cursor,
        screen.erase_cells(count).cursor == screen.cursor,
{
}

/// An erased cell keeps the background of the pen and nothing else of it.
pub proof fn erasing_carries_only_the_background(screen: ScreenModel, row: int, column: int)
    requires
        screen.wf(),
        0 <= row < screen.rows,
        0 <= column < screen.columns,
    ensures
        screen.erase_in_display(2).lines[row].cells[column] == cell::blank_cell(
            model::erased(screen.pen),
        ),
{
}

/// A byte that takes the alternate screen away, starts the terminal again or
/// clears the history.
pub open spec fn disturbs_the_first(parser: ParserModel, byte: u8) -> bool {
    ||| byte == 0x63 && (parser.state == State::Escape || parser.state == State::OscEscape)
    ||| parser.state == State::Csi && byte == 0x6c
    ||| parser.state == State::Csi && byte == 0x4a && stream::param(parser.params(), 0, 0) >= 3
}

/// Setting modes while the alternate screen shows leaves the first one alone.
proof fn setting_modes_keeps_the_first(
    screen: ScreenModel,
    private: bool,
    groups: Seq<Seq<u16>>,
)
    requires
        screen.stowed is Some,
    ensures
        screen.set_modes(private, groups, true).stowed == screen.stowed,
        screen.set_modes(private, groups, true).scrollback == screen.scrollback,
        screen.set_modes(private, groups, true).stowed_history
            == screen.stowed_history,
    decreases groups.len(),
{
    if groups.len() > 0 {
        setting_modes_keeps_the_first(screen, private, groups.drop_last());
    }
}

/// Moving the cursor changes neither a stowed screen nor the history.
#[verifier::spinoff_prover]
proof fn motion_keeps_the_first(groups: Seq<Seq<u16>>, screen: ScreenModel, last: u8)
    ensures
        stream::motion(groups, screen, last).stowed == screen.stowed,
        stream::motion(groups, screen, last).scrollback == screen.scrollback,
        stream::motion(groups, screen, last).stowed_history
            == screen.stowed_history,
{
    reveal(stream::motion);
}

proof fn edit_keeps_the_first(groups: Seq<Seq<u16>>, screen: ScreenModel, last: u8)
    requires
        screen.stowed is Some,
        last == 0x4a ==> stream::param(groups, 0, 0) < 3,
    ensures
        stream::edit(groups, screen, last).stowed == screen.stowed,
        stream::edit(groups, screen, last).scrollback == screen.scrollback,
        stream::edit(groups, screen, last).stowed_history
            == screen.stowed_history,
{
    reveal(stream::edit);
}

proof fn setting_keeps_the_first(
    groups: Seq<Seq<u16>>,
    private: Option<u8>,
    intermediate: Option<u8>,
    screen: ScreenModel,
    last: u8,
)
    requires
        screen.stowed is Some,
        last != 0x6c,
    ensures
        stream::setting(groups, private, intermediate, screen, last).stowed == screen.stowed,
        stream::setting(groups, private, intermediate, screen, last).scrollback
            == screen.scrollback,
        stream::setting(groups, private, intermediate, screen, last).stowed_history
            == screen.stowed_history,
{
    reveal(stream::setting);
    if last == 0x68 {
        setting_modes_keeps_the_first(screen, private == Some(0x3fu8), groups);
    }
}

proof fn ground_keeps_the_first(parser: ParserModel, screen: ScreenModel, byte: u8)
    requires
        screen.stowed is Some,
    ensures
        stream::ground_act(parser, screen, byte).stowed == screen.stowed,
        stream::ground_act(parser, screen, byte).scrollback == screen.scrollback,
        stream::ground_act(parser, screen, byte).stowed_history
            == screen.stowed_history,
{
    reveal(stream::ground_act);
}

proof fn escape_keeps_the_first(screen: ScreenModel, byte: u8)
    requires
        screen.stowed is Some,
        byte != 0x63,
    ensures
        stream::escape_act(screen, byte).stowed == screen.stowed,
        stream::escape_act(screen, byte).scrollback == screen.scrollback,
        stream::escape_act(screen, byte).stowed_history
            == screen.stowed_history,
{
    reveal(stream::escape_act);
}

/// One byte read while the alternate screen shows leaves the first one and the
/// history alone.
pub proof fn one_byte_keeps_the_first(parser: ParserModel, screen: ScreenModel, byte: u8)
    requires
        screen.stowed is Some,
        !disturbs_the_first(parser, byte),
    ensures
        parser.act(screen, byte).stowed == screen.stowed,
        parser.act(screen, byte).scrollback == screen.scrollback,
        parser.act(screen, byte).stowed_history
            == screen.stowed_history,
{
    let groups = parser.params();
    match parser.state {
        State::Ground => {
            ground_keeps_the_first(parser, screen, byte);
        },
        State::Escape => {
            escape_keeps_the_first(screen, byte);
        },
        State::Csi => {
            motion_keeps_the_first(groups, screen, byte);
            if stream::is_edit(byte) {
                edit_keeps_the_first(groups, screen, byte);
            } else if byte != 0x6c {
                setting_keeps_the_first(
                    groups,
                    parser.private,
                    parser.intermediate,
                    screen,
                    byte,
                );
            }
        },
        State::OscEscape => {
            if byte != 0x63 {
                escape_keeps_the_first(stream::titled(screen, parser.osc), byte);
            }
        },
        _ => {},
    }
}

/// Bytes none of which disturbs the first screen.
pub open spec fn undisturbing(parser: ParserModel, bytes: Seq<u8>) -> bool {
    forall|at: int|
        0 <= at < bytes.len() ==> !disturbs_the_first(
            parser.after(bytes.take(at)),
            #[trigger] bytes[at],
        )
}

/// Whatever a full-screen program writes on the alternate screen, the first one
/// and the history stay as they were.
proof fn bytes_keep_the_first(parser: ParserModel, screen: ScreenModel, bytes: Seq<u8>)
    requires
        screen.stowed is Some,
        undisturbing(parser, bytes),
    ensures
        parser.screen_after(screen, bytes).stowed == screen.stowed,
        parser.screen_after(screen, bytes).scrollback == screen.scrollback,
        parser.screen_after(screen, bytes).stowed_history
            == screen.stowed_history,
    decreases bytes.len(),
{
    if bytes.len() > 0 {
        let before = bytes.drop_last();
        assert(undisturbing(parser, before)) by {
            assert forall|at: int| 0 <= at < before.len() implies !disturbs_the_first(
                parser.after(before.take(at)),
                #[trigger] before[at],
            ) by {
                assert(before.take(at) =~= bytes.take(at));
                assert(before[at] == bytes[at]);
            }
        }
        bytes_keep_the_first(parser, screen, before);
        assert(bytes.take(bytes.len() - 1) =~= before);
        assert(bytes[bytes.len() - 1] == bytes.last());
        one_byte_keeps_the_first(
            parser.after(before),
            parser.screen_after(screen, before),
            bytes.last(),
        );
    }
}

/// The alternate screen gives the first one back untouched, and what scrolled on
/// it is not history.
pub proof fn the_alternate_screen_gives_the_first_back(
    parser: ParserModel,
    screen: ScreenModel,
    bytes: Seq<u8>,
)
    requires
        screen.wf(),
        screen.stowed is None,
        undisturbing(parser, bytes),
    ensures
        ({
            let back = parser.screen_after(
                screen.use_alternate_screen(true),
                bytes,
            ).use_alternate_screen(false);
            &&& back.lines == screen.lines
            &&& back.scrollback == screen.scrollback
            &&& back.stowed is None
        }),
{
    let shown = screen.use_alternate_screen(true);
    bytes_keep_the_first(parser, shown, bytes);
    assert(shown.stowed_history =~= screen.scrollback);
    assert(shown.stowed_history + shown.scrollback =~= screen.scrollback);
}

/// While the alternate screen is showing, there is no scrollback.
pub proof fn the_alternate_screen_has_no_history(screen: ScreenModel)
    ensures
        screen.wf() && screen.stowed is Some ==> screen.scrollback.len() == 0,
        screen.stowed is None ==> screen.use_alternate_screen(true).scrollback.len() == 0,
        screen.stowed is None ==> screen.use_alternate_screen(true).history() == screen.history(),
{
    assert(screen.history() + Seq::empty() =~= screen.history());
}

/// What a reader sees is the same in both.
pub open spec fn looks_the_same(one: ScreenModel, two: ScreenModel) -> bool {
    &&& one.lines == two.lines
    &&& one.cursor == two.cursor
    &&& one.title == two.title
    &&& one.scrollback == two.scrollback
    &&& one.modes.cursor_visible == two.modes.cursor_visible
}

/// How many steps one revision is behind another.
pub open spec fn steps(from: u64, to: u64) -> int {
    if to >= from {
        to - from
    } else {
        to - from + 0x1_0000_0000_0000_0000
    }
}

#[verifier::spinoff_prover]
proof fn motion_moves_the_revision(groups: Seq<Seq<u16>>, screen: ScreenModel, last: u8)
    ensures
        stream::motion(groups, screen, last).revision != screen.revision,
{
    reveal(stream::motion);
}

proof fn edit_moves_the_revision(groups: Seq<Seq<u16>>, screen: ScreenModel, last: u8)
    ensures
        stream::edit(groups, screen, last).revision == screen.revision ==> looks_the_same(
            stream::edit(groups, screen, last),
            screen,
        ),
{
    reveal(stream::edit);
}

proof fn one_mode_moves_the_revision(screen: ScreenModel, private: bool, mode: u16, on: bool)
    ensures
        steps(screen.revision, screen.set_mode(private, mode, on).revision) <= 2,
        screen.set_mode(private, mode, on).revision == screen.revision ==> looks_the_same(
            screen.set_mode(private, mode, on),
            screen,
        ),
{
}

/// However many modes are set at once, a change that can be seen moves the
/// revision.
proof fn modes_move_the_revision(
    screen: ScreenModel,
    private: bool,
    groups: Seq<Seq<u16>>,
    on: bool,
)
    requires
        groups.len() <= u32::MAX,
    ensures
        steps(screen.revision, screen.set_modes(private, groups, on).revision) <= 2 * groups.len(),
        screen.set_modes(private, groups, on).revision == screen.revision ==> looks_the_same(
            screen.set_modes(private, groups, on),
            screen,
        ),
    decreases groups.len(),
{
    if groups.len() > 0 {
        let before = screen.set_modes(private, groups.drop_last(), on);
        modes_move_the_revision(screen, private, groups.drop_last(), on);
        if groups.last().len() > 0 {
            one_mode_moves_the_revision(before, private, groups.last()[0], on);
        }
    }
}

proof fn setting_moves_the_revision(
    groups: Seq<Seq<u16>>,
    private: Option<u8>,
    intermediate: Option<u8>,
    screen: ScreenModel,
    last: u8,
)
    requires
        groups.len() <= u32::MAX,
    ensures
        stream::setting(groups, private, intermediate, screen, last).revision == screen.revision
            ==> looks_the_same(
            stream::setting(groups, private, intermediate, screen, last),
            screen,
        ),
{
    reveal(stream::setting);
    if last == 0x68 || last == 0x6c {
        modes_move_the_revision(screen, private == Some(0x3fu8), groups, last == 0x68);
    }
}

proof fn ground_moves_the_revision(parser: ParserModel, screen: ScreenModel, byte: u8)
    ensures
        stream::ground_act(parser, screen, byte).revision == screen.revision ==> looks_the_same(
            stream::ground_act(parser, screen, byte),
            screen,
        ),
{
    reveal(stream::ground_act);
}

proof fn line_feed_moves_the_revision(screen: ScreenModel)
    ensures
        1 <= steps(screen.revision, screen.line_feed().revision) <= 2,
{
}

proof fn small_escapes_move_the_revision(screen: ScreenModel, byte: u8)
    requires
        byte != 0x44,
        byte != 0x45,
    ensures
        steps(screen.revision, stream::escape_act(screen, byte).revision) <= 3,
        stream::escape_act(screen, byte).revision == screen.revision ==> looks_the_same(
            stream::escape_act(screen, byte),
            screen,
        ),
{
    reveal(stream::escape_act);
}

proof fn escape_moves_the_revision(screen: ScreenModel, byte: u8)
    ensures
        steps(screen.revision, stream::escape_act(screen, byte).revision) <= 3,
        stream::escape_act(screen, byte).revision == screen.revision ==> looks_the_same(
            stream::escape_act(screen, byte),
            screen,
        ),
{
    if byte == 0x44 {
        line_feed_moves_the_revision(screen);
        assert(stream::escape_act(screen, byte) == screen.line_feed()) by {
            reveal(stream::escape_act);
        }
    } else if byte == 0x45 {
        let back = screen.carriage_return();
        line_feed_moves_the_revision(back);
        assert(stream::escape_act(screen, byte) == back.line_feed()) by {
            reveal(stream::escape_act);
        }
    } else {
        small_escapes_move_the_revision(screen, byte);
    }
}

/// Where the visible grid, the cursor, the history or the title changes, the
/// revision moves, whatever byte was read. A sequence may have as many
/// parameters as can be counted in 32 bits.
pub proof fn the_revision_moves_with_the_screen(
    parser: ParserModel,
    screen: ScreenModel,
    byte: u8,
)
    requires
        parser.params().len() <= u32::MAX,
    ensures
        parser.act(screen, byte).revision == screen.revision ==> looks_the_same(
            parser.act(screen, byte),
            screen,
        ),
{
    let groups = parser.params();
    match parser.state {
        State::Ground => {
            ground_moves_the_revision(parser, screen, byte);
        },
        State::Escape => {
            escape_moves_the_revision(screen, byte);
        },
        State::Csi => {
            motion_moves_the_revision(groups, screen, byte);
            edit_moves_the_revision(groups, screen, byte);
            setting_moves_the_revision(groups, parser.private, parser.intermediate, screen, byte);
        },
        State::OscEscape => {
            if byte != 0x5c {
                escape_moves_the_revision(stream::titled(screen, parser.osc), byte);
            }
        },
        _ => {},
    }
}

/// A mode that changes what is seen moves the revision.
pub proof fn the_revision_moves_with_a_mode(
    screen: ScreenModel,
    private: bool,
    mode: u16,
    on: bool,
)
    ensures
        screen.set_mode(private, mode, on).revision == screen.revision ==> looks_the_same(
            screen.set_mode(private, mode, on),
            screen,
        ),
{
}

/// Every row that leaves the top of the primary screen is in the history or is
/// counted as gone.
pub proof fn history_counts_every_row(screen: ScreenModel, count: int)
    requires
        screen.wf(),
        screen.region.0 == 0,
        screen.stowed is None,
        0 <= count,
        screen.history_origin + screen.rows <= u64::MAX,
    ensures
        ({
            let after = screen.scroll_up(count);
            after.history_origin + after.scrollback.len() == screen.history_origin
                + screen.scrollback.len() + model::at_most(count, screen.region.1 + 1)
        }),
{
}

/// No row of the history is forgotten without being counted: neither the count
/// nor the count together with what is kept falls. A count that has reached its
/// greatest value stays there.
pub open spec fn counts_on(before: ScreenModel, after: ScreenModel) -> bool {
    &&& after.history_origin >= before.history_origin
    &&& after.history_origin < u64::MAX ==> after.history_origin + after.history().len()
        >= before.history_origin + before.history().len()
}

proof fn modes_count_on(screen: ScreenModel, private: bool, groups: Seq<Seq<u16>>, on: bool)
    ensures
        counts_on(screen, screen.set_modes(private, groups, on)),
    decreases groups.len(),
{
    if groups.len() > 0 {
        modes_count_on(screen, private, groups.drop_last(), on);
    }
}

#[verifier::spinoff_prover]
proof fn motion_counts_on(groups: Seq<Seq<u16>>, screen: ScreenModel, last: u8)
    ensures
        counts_on(screen, stream::motion(groups, screen, last)),
{
    reveal(stream::motion);
}

proof fn scrolling_counts_on(screen: ScreenModel, count: int)
    ensures
        counts_on(screen, screen.scroll_up(count)),
{
}

proof fn line_feed_counts_on(screen: ScreenModel)
    ensures
        counts_on(screen, screen.line_feed()),
{
    scrolling_counts_on(screen.capture_line(screen.cursor.row, false), 1);
}

#[verifier::spinoff_prover]
proof fn edit_counts_on(groups: Seq<Seq<u16>>, screen: ScreenModel, last: u8)
    ensures
        counts_on(screen, stream::edit(groups, screen, last)),
{
    reveal(stream::edit);
}

proof fn setting_counts_on(
    groups: Seq<Seq<u16>>,
    private: Option<u8>,
    intermediate: Option<u8>,
    screen: ScreenModel,
    last: u8,
)
    ensures
        counts_on(screen, stream::setting(groups, private, intermediate, screen, last)),
{
    reveal(stream::setting);
    modes_count_on(screen, private == Some(0x3fu8), groups, last == 0x68);
}

proof fn ground_counts_on(parser: ParserModel, screen: ScreenModel, byte: u8)
    ensures
        counts_on(screen, stream::ground_act(parser, screen, byte)),
{
    reveal(stream::ground_act);
    line_feed_counts_on(screen);
    line_feed_counts_on(screen.running_on());
}

proof fn escape_counts_on(screen: ScreenModel, byte: u8)
    ensures
        counts_on(screen, stream::escape_act(screen, byte)),
{
    reveal(stream::escape_act);
    line_feed_counts_on(screen);
    line_feed_counts_on(screen.carriage_return());
}

proof fn one_byte_counts_on(parser: ParserModel, screen: ScreenModel, byte: u8)
    ensures
        counts_on(screen, parser.act(screen, byte)),
{
    let groups = parser.params();
    match parser.state {
        State::Ground => {
            ground_counts_on(parser, screen, byte);
        },
        State::Escape => {
            escape_counts_on(screen, byte);
        },
        State::Csi => {
            motion_counts_on(groups, screen, byte);
            edit_counts_on(groups, screen, byte);
            setting_counts_on(groups, parser.private, parser.intermediate, screen, byte);
        },
        State::OscEscape => {
            escape_counts_on(stream::titled(screen, parser.osc), byte);
        },
        _ => {},
    }
}

/// Over whatever is read, the count of rows that have left the history, and that
/// count together with the rows that are kept, never fall.
pub proof fn reading_counts_on(parser: ParserModel, screen: ScreenModel, bytes: Seq<u8>)
    ensures
        counts_on(screen, parser.screen_after(screen, bytes)),
    decreases bytes.len(),
{
    if bytes.len() > 0 {
        reading_counts_on(parser, screen, bytes.drop_last());
        one_byte_counts_on(
            parser.after(bytes.drop_last()),
            parser.screen_after(screen, bytes.drop_last()),
            bytes.last(),
        );
    }
}

/// Neither do they fall over a new size. A new limit and a clear move rows from
/// what is kept to what is counted, and leave the two together as they are.
pub proof fn the_history_counts_on(
    screen: ScreenModel,
    columns: usize,
    rows: usize,
    limit: usize,
)
    requires
        screen.wf(),
    ensures
        counts_on(screen, screen.resize(columns, rows)),
        counts_on(screen, screen.set_history_limit(limit)),
        counts_on(screen, screen.clear_history()),
        screen.set_history_limit(limit).history_origin < u64::MAX
            ==> screen.set_history_limit(limit).history_origin + screen.set_history_limit(
            limit,
        ).history().len() == screen.history_origin + screen.history().len(),
        screen.clear_history().history_origin < u64::MAX ==> screen.clear_history().history_origin
            + screen.clear_history().history().len() == screen.history_origin
            + screen.history().len(),
{
    model::last_written_is_a_row(screen.lines, screen.lines.len() as int);
    if let Some(lines) = screen.stowed {
        model::last_written_is_a_row(lines, lines.len() as int);
    }
}

/// The history never outgrows its limit, and the rows kept are the newest.
pub proof fn the_history_keeps_the_newest(screen: ScreenModel, count: int)
    requires
        screen.wf(),
        screen.region.0 == 0,
        screen.stowed is None,
        0 <= count,
    ensures
        screen.scroll_up(count).scrollback.len() <= screen.scrollback_limit,
        screen.scroll_up(count).scrollback.is_suffix_of(
            screen.scrollback + screen.lines.take(model::at_most(count, screen.region.1 + 1)),
        ),
{
    let all = screen.scrollback + screen.lines.take(
        model::at_most(count, screen.region.1 + 1),
    );
    let out = model::excess(all.len() as int, screen.scrollback_limit as int);
    assert(all.skip(out) =~= all.subrange(all.len() - all.skip(out).len(), all.len() as int));
}

/// The last row with text is found again after the rows above have left and blanks
/// have come below.
proof fn the_last_row_moves(lines: Seq<LineModel>, top: int, rows: int, columns: int, n: int)
    requires
        0 <= top <= lines.len(),
        0 <= n <= rows,
        0 <= columns,
        model::last_written(lines, lines.len() as int) < top + rows,
    ensures
        ({
            let last = model::last_written(lines, lines.len() as int);
            let after = model::fitted(lines.skip(top), rows, columns);
            model::last_written(after, n) == if last < top {
                -1
            } else if last - top < n {
                last - top
            } else {
                model::last_written(after, n)
            }
        }),
    decreases n,
{
    let after = model::fitted(lines.skip(top), rows, columns);
    model::last_written_is_a_row(lines, lines.len() as int);
    if n > 0 {
        the_last_row_moves(lines, top, rows, columns, n - 1);
        let row = n - 1;
        if row < lines.skip(top).len() {
            assert(after[row] == lines[top + row]);
        } else {
            assert(after[row] == cell::blank_line(columns, cell::plain()));
            a_blank_row_says_nothing(columns, columns);
        }
    }
}

proof fn a_blank_row_says_nothing(columns: int, n: int)
    requires
        0 <= n <= columns,
    ensures
        cell::trimmed(
            cell::shown(cell::blank_line(columns, cell::plain()).cells.take(n)),
        ).len() == 0,
        n == columns ==> cell::blank_line(columns, cell::plain()).text().len() == 0,
    decreases n,
{
    let cells = cell::blank_line(columns, cell::plain()).cells;
    if n == 0 {
        assert(cells.take(0) =~= Seq::empty());
        if n == columns {
            assert(cells =~= Seq::empty());
        }
    } else {
        a_blank_row_says_nothing(columns, n - 1);
        assert(cells.take(n).drop_last() =~= cells.take(n - 1));
        assert(cells.take(n).last() == cell::blank_cell(cell::plain()));
        let before = cell::shown(cells.take(n - 1));
        assert(before.push(' ').drop_last() =~= before);
        if n == columns {
            assert(cells.take(n) =~= cells);
        }
    }
}

/// A new size loses none of the rows that show something: those that leave the
/// top are in the history, and the others on the screen, down to the last.
pub proof fn a_resize_keeps_the_rows(screen: ScreenModel, columns: usize, rows: usize)
    requires
        screen.wf(),
        screen.stowed is None,
        columns >= 1,
        rows >= 1,
        screen.scrollback.len() + screen.rows <= screen.scrollback_limit,
    ensures
        ({
            let after = screen.resize(columns, rows);
            let top = screen.leaving(rows as int);
            &&& 0 <= top <= screen.last_row()
            &&& screen.last_row() + 1 - top <= rows
            &&& after.scrollback + after.lines.take(screen.last_row() + 1 - top)
                == screen.scrollback + model::refitted_all(screen.lines, columns as int).take(
                screen.last_row() + 1,
            )
        }),
{
    model::last_written_is_a_row(screen.lines, screen.lines.len() as int);
    let wide = model::refitted_all(screen.lines, columns as int);
    let after = screen.resize(columns, rows);
    let top = screen.leaving(rows as int);
    let last = screen.last_row();
    if columns == screen.columns && rows == screen.rows {
        a_row_of_the_same_width_stays(screen);
        assert(screen.scrollback + screen.lines.take(last + 1) =~= screen.scrollback + wide.take(
            last + 1,
        ));
    } else {
        let kept = screen.scrollback + wide.take(top);
        assert(screen.stowed_history + kept =~= kept);
        assert(kept.skip(0) =~= kept);
        assert(after.scrollback =~= kept);
        assert(after.scrollback + after.lines.take(last + 1 - top) =~= screen.scrollback
            + wide.take(last + 1));
    }
}

proof fn a_row_of_the_same_width_stays(screen: ScreenModel)
    requires
        screen.wf(),
    ensures
        model::refitted_all(screen.lines, screen.columns as int) == screen.lines,
{
    let wide = model::refitted_all(screen.lines, screen.columns as int);
    assert forall|row: int| 0 <= row < screen.lines.len() implies wide[row]
        == screen.lines[row] by {
        assert(model::refitted(screen.lines[row], screen.columns as int).cells
            =~= screen.lines[row].cells);
    }
    assert(wide =~= screen.lines);
}

/// A change of height loses no text.
pub proof fn a_change_of_height_loses_no_text(screen: ScreenModel, rows: usize)
    requires
        screen.wf(),
        screen.stowed is None,
        rows >= 1,
        screen.scrollback.len() + screen.rows <= screen.scrollback_limit,
    ensures
        screen.resize(screen.columns, rows).retained_text() == screen.retained_text(),
{
    let after = screen.resize(screen.columns, rows);
    if rows != screen.rows {
        a_resize_keeps_the_rows(screen, screen.columns, rows);
        a_row_of_the_same_width_stays(screen);
        model::last_written_is_a_row(screen.lines, screen.lines.len() as int);
        let top = screen.leaving(rows as int);
        the_last_row_moves(screen.lines, top, rows as int, screen.columns as int, rows as int);
        assert(after.last_row() == screen.last_row() - top);
        assert(after.history() =~= after.scrollback);
        assert(screen.history() =~= screen.scrollback);
    }
}

/// Whatever is written, cleared, opened, taken out or cut off, no half of a
/// full-width character is left alone.
pub proof fn no_half_is_left_alone(
    cells: Seq<Cell>,
    column: int,
    count: int,
    text: char,
    pen: cell::Attrs,
)
    requires
        model::paired(cells),
        0 <= column,
        0 <= count <= cells.len() - column,
    ensures
        1 <= cell::width_of(text) <= cells.len() - column ==> model::paired(
            model::written(cells, column, text, pen),
        ),
        model::paired(model::cleared(cells, column, column + count, pen)),
        model::paired(model::opened(cells, column, count, pen)),
        model::paired(model::closed_up(cells, column, count, pen)),
        model::paired(model::refitted(model::row_of(cells), count).cells),
{
    if 1 <= cell::width_of(text) <= cells.len() - column {
        halves::writing_is_paired(cells, column, text, pen);
    }
    halves::clearing_is_paired(cells, column, column + count, pen);
    halves::opening_is_paired(cells, column, count, pen);
    halves::closing_is_paired(cells, column, count, pen);
    halves::refitting_is_paired(cells, count);
}

/// Erasing either half of a full-width character clears both.
pub proof fn erasing_a_half_clears_both(cells: Seq<Cell>, from: int, to: int, at: int, pen: cell::Attrs)
    requires
        model::paired(cells),
        0 <= from < to <= cells.len(),
        0 <= at,
        at + 1 < cells.len(),
        cells[at + 1].trailing,
        from <= at < to || from <= at + 1 < to,
    ensures
        model::cleared(cells, from, to, pen)[at] == cell::blank_cell(pen),
        model::cleared(cells, from, to, pen)[at + 1] == cell::blank_cell(pen),
{
    reveal(model::paired);
    let was = cells[at + 1];
}

/// The screen with another collection for a file.
pub open spec fn with_file(screen: ScreenModel, other: Option<CaptureModel>) -> ScreenModel {
    ScreenModel { file_capture: other, ..screen }
}

/// What is collected for a panel, and the screen, do not depend on what is
/// collected for a file: neither what is written, nor how rows are left and
/// scroll away, nor a start or a stop of the other.
pub proof fn the_panel_does_not_hear_of_the_file(
    screen: ScreenModel,
    other: Option<CaptureModel>,
    text: char,
    row: usize,
    changed_only: bool,
    to: int,
    count: int,
)
    ensures
        with_file(screen, other).put(text).capture == screen.put(text).capture,
        with_file(screen, other).capture_line(row, changed_only).capture == screen.capture_line(
            row,
            changed_only,
        ).capture,
        with_file(screen, other).leaving_rows(to).capture == screen.leaving_rows(to).capture,
        with_file(screen, other).scroll_up(count).capture == screen.scroll_up(count).capture,
        with_file(screen, other).reset().capture == screen.reset().capture,
        with_file(screen, other).start_file_capture().capture == screen.capture,
{
}

/// The counts of what was not understood come out in falling order, and each
/// name that was met comes out.
pub proof fn the_most_common_come_first(seen: Seq<(Seq<char>, u32)>)
    ensures
        model::by_count(seen).len() == seen.len(),
        model::by_count(seen).to_multiset() == seen.to_multiset(),
        forall|i: int, j: int|
            0 <= i <= j < seen.len() ==> (#[trigger] model::by_count(seen)[i]).1 >= (
            #[trigger] model::by_count(seen)[j]).1,
    decreases seen.len(),
{
    broadcast use vstd::seq_lib::group_to_multiset_ensures;
    if seen.len() > 0 {
        let rest = model::by_count(seen.drop_last());
        the_most_common_come_first(seen.drop_last());
        rank_splits(rest, seen.last().1, 0);
        let at = model::rank(rest, seen.last().1, 0);
        assert(seen =~= seen.drop_last().push(seen.last()));
    } else {
        assert(seen =~= Seq::empty());
    }
}

/// What is told of what was not understood: at most sixteen names, none twice,
/// each met at least once, the most common first.
pub proof fn what_is_told_is_told_once(screen: ScreenModel)
    requires
        screen.wf(),
    ensures
        model::by_count(screen.unhandled).len() <= 16,
        model::each_once(model::by_count(screen.unhandled)),
{
    the_most_common_come_first(screen.unhandled);
    sorting_keeps_each_once(screen.unhandled);
}

proof fn sorting_keeps_each_once(seen: Seq<(Seq<char>, u32)>)
    requires
        model::each_once(seen),
    ensures
        model::each_once(model::by_count(seen)),
        model::by_count(seen).len() == seen.len(),
        forall|i: int|
            0 <= i < seen.len() ==> seen.contains(#[trigger] model::by_count(seen)[i]),
    decreases seen.len(),
{
    if seen.len() > 0 {
        let before = seen.drop_last();
        let rest = model::by_count(before);
        assert forall|i: int| 0 <= i < before.len() implies #[trigger] before[i] == seen[i] by {}
        sorting_keeps_each_once(before);
        the_most_common_come_first(before);
        rank_splits(rest, seen.last().1, 0);
        let at = model::rank(rest, seen.last().1, 0);
        let out = model::by_count(seen);
        assert forall|i: int| 0 <= i < rest.len() implies (#[trigger] rest[i]).0 != seen.last().0
            && seen.contains(rest[i]) by {
            assert(before.contains(rest[i]));
            let k = choose|k: int| 0 <= k < before.len() && before[k] == rest[i];
            assert(seen[k] == rest[i]);
        }
        assert(seen.contains(seen.last())) by {
            assert(seen[seen.len() - 1] == seen.last());
        }
        assert forall|i: int| 0 <= i < out.len() implies #[trigger] out[i] == if i < at {
            rest[i]
        } else if i == at {
            seen.last()
        } else {
            rest[i - 1]
        } by {}
    }
}

proof fn rank_splits(ordered: Seq<(Seq<char>, u32)>, count: u32, from: int)
    requires
        0 <= from <= ordered.len(),
        forall|i: int, j: int|
            0 <= i <= j < ordered.len() ==> (#[trigger] ordered[i]).1 >= (#[trigger] ordered[j]).1,
        forall|i: int| 0 <= i < from ==> (#[trigger] ordered[i]).1 >= count,
    ensures
        from <= model::rank(ordered, count, from) <= ordered.len(),
        forall|i: int|
            0 <= i < model::rank(ordered, count, from) ==> (#[trigger] ordered[i]).1 >= count,
        forall|i: int|
            model::rank(ordered, count, from) <= i < ordered.len() ==> (#[trigger] ordered[i]).1
                < count,
    decreases ordered.len() - from,
{
    if from < ordered.len() && ordered[from].1 >= count {
        rank_splits(ordered, count, from + 1);
    }
}

} // verus!
