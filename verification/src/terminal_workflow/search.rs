//! Looking at what a terminal shows, and pointing at it.
use crate::text;
use vstd::prelude::*;

verus! {

/// A place on the screen and its history: a row and a column.
pub type Place = (usize, usize);

/// What the pane shows of a terminal: what is selected, and how many rows of the
/// history it has gone back.
#[derive(Clone, Copy, Debug, PartialEq, Eq)]
pub struct TerminalView {
    pub selection: Option<(Place, Place)>,
    pub looking: usize,
}

/// The place of what is selected among what was found, from one on.
pub open spec fn place_among(found: Seq<(Place, Place)>, selected: (Place, Place), from: int) -> Option<
    int,
>
    decreases found.len() - from,
{
    if from < 0 || from >= found.len() {
        None
    } else if found[from] == selected {
        Some(from)
    } else {
        place_among(found, selected, from + 1)
    }
}

/// The place of what is selected among what was found.
pub open spec fn current_among(found: Seq<(Place, Place)>, selection: Option<(Place, Place)>) -> Option<
    int,
> {
    match selection {
        Some(selected) => place_among(found, selected, 0),
        None => None,
    }
}

/// The next of `count` places, or the one before, round and round. Without one
/// to begin from it is the first, or the last.
pub open spec fn stepped(current: Option<int>, count: int, back: bool) -> int {
    if count == 0 {
        0
    } else if back {
        match current {
            Some(at) => (at + count - 1) % count,
            None => count - 1,
        }
    } else {
        match current {
            Some(at) => (at + 1) % count,
            None => 0,
        }
    }
}

/// What the pane says of the search: which of how many.
pub open spec fn status_of(index: int, count: int) -> Seq<char> {
    if count == 0 {
        "0 / 0"@
    } else {
        text::decimal((index + 1) as nat) + " / "@ + text::decimal(count as nat)
    }
}

/// The view once a place is selected: the pane goes back so far that the place is
/// at its top.
pub open spec fn turned_to(found: (Place, Place), history: int) -> TerminalView {
    let (anchor, head) = found;
    TerminalView {
        selection: Some(found),
        looking: (if history < anchor.0 {
            0
        } else {
            history - anchor.0
        }) as usize,
    }
}

fn find_current(found: &Vec<(Place, Place)>, selection: Option<(Place, Place)>) -> (out: Option<
    usize,
>)
    ensures
        match out {
            Some(at) => current_among(found@, selection) == Some(at as int) && at < found@.len(),
            None => current_among(found@, selection) is None,
        },
{
    match selection {
        Some(selected) => {
            let mut at: usize = 0;
            while at < found.len()
                invariant
                    at <= found@.len(),
                    selection == Some(selected),
                    place_among(found@, selected, 0) == place_among(found@, selected, at as int),
                decreases found@.len() - at,
            {
                let here = found[at];
                let (one, two) = here;
                let (anchor, head) = selected;
                if one.0 == anchor.0 && one.1 == anchor.1 && two.0 == head.0 && two.1 == head.1 {
                    assert(found@[at as int] == selected);
                    return Some(at);
                }
                assert(found@[at as int] != selected);
                at += 1;
            }
            None
        },
        None => None,
    }
}

/// Turns to the next place that was found, or to the one before. `history` is how
/// many rows there are above the screen.
pub fn search_step(
    view: &mut TerminalView,
    found: &Vec<(Place, Place)>,
    back: bool,
    history: usize,
) -> (out: String)
    ensures
        ({
            let count = found@.len() as int;
            let index = stepped(current_among(found@, old(view).selection), count, back);
            &&& out@ == status_of(index, count)
            &&& count == 0 ==> *final(view) == *old(view)
            &&& count > 0 ==> 0 <= index < count && *final(view) == turned_to(
                found@[index],
                history as int,
            )
        }),
{
    let mut out = String::new();
    let count: usize = found.len();
    if count == 0 {
        text::push_text(&mut out, "0 / 0");
        assert(out@ =~= status_of(0, 0));
        return out;
    }
    let current = find_current(found, view.selection);
    let index: usize = if back {
        match current {
            Some(at) => if at == 0 {
                proof {
                    assert((count - 1) % count as int == count - 1) by (nonlinear_arith)
                        requires
                            count > 0,
                    ;
                }
                count - 1
            } else {
                proof {
                    assert((at + count - 1) % count as int == at - 1) by (nonlinear_arith)
                        requires
                            0 < at < count,
                    ;
                }
                at - 1
            },
            None => count - 1,
        }
    } else {
        match current {
            Some(at) => if at == count - 1 {
                proof {
                    assert((at + 1) % count as int == 0) by (nonlinear_arith)
                        requires
                            at + 1 == count,
                            count > 0,
                    ;
                }
                0
            } else {
                proof {
                    assert((at + 1) % count as int == at + 1) by (nonlinear_arith)
                        requires
                            0 <= at,
                            at + 1 < count,
                    ;
                }
                at + 1
            },
            None => 0,
        }
    };
    let place = found[index];
    let (anchor, head) = place;
    view.selection = Some(place);
    view.looking = if history < anchor.0 {
        0
    } else {
        history - anchor.0
    };
    text::push_decimal(&mut out, index as u64 + 1);
    text::push_text(&mut out, " / ");
    text::push_decimal(&mut out, count as u64);
    assert(out@ =~= status_of(index as int, count as int));
    out
}

/// What is done for an order to a terminal.
#[derive(Clone, Copy, Debug, PartialEq, Eq, Structural)]
pub enum TerminalStep {
    Nothing,
    /// The search is shown.
    OpenSearch,
    /// The search goes, with what it selected.
    CloseSearch,
    /// The next place is turned to, or the one before.
    Find { back: bool },
    /// The pane shows the screen itself again.
    Return,
    ClearScreen,
    ClearHistory,
    /// All that is kept is written to a file.
    SaveLog,
    /// The pane goes up or down by a screen.
    Page { up: bool },
}

/// What is done for an order. The order that shows the search also hides it,
/// where it is shown for the same terminal.
pub open spec fn step_for(order: i32, open: bool, same_spot: bool) -> TerminalStep {
    if order == 0 {
        if open && same_spot {
            TerminalStep::CloseSearch
        } else {
            TerminalStep::OpenSearch
        }
    } else if order == 1 || order == 2 {
        TerminalStep::Find { back: order == 2 }
    } else if order == 3 {
        TerminalStep::CloseSearch
    } else if order == 4 {
        TerminalStep::Return
    } else if order == 5 {
        TerminalStep::ClearScreen
    } else if order == 6 {
        TerminalStep::ClearHistory
    } else if order == 7 {
        TerminalStep::SaveLog
    } else if order == 8 || order == 9 {
        TerminalStep::Page { up: order == 8 }
    } else {
        TerminalStep::Nothing
    }
}

/// What an order does to what the pane shows.
pub open spec fn view_after(view: TerminalView, step: TerminalStep) -> TerminalView {
    match step {
        TerminalStep::CloseSearch => TerminalView { selection: None, looking: 0 },
        TerminalStep::Return => TerminalView { looking: 0, ..view },
        _ => view,
    }
}

/// Does what is asked of what the pane shows, or says what is to be done.
pub fn action(view: &mut TerminalView, order: i32, open: bool, same_spot: bool) -> (out:
    TerminalStep)
    ensures
        out == step_for(order, open, same_spot),
        *final(view) == view_after(*old(view), out),
{
    if (order == 0 && open && same_spot) || order == 3 {
        view.selection = None;
        view.looking = 0;
        return TerminalStep::CloseSearch;
    }
    if order == 4 {
        view.looking = 0;
        return TerminalStep::Return;
    }
    if order == 0 {
        TerminalStep::OpenSearch
    } else if order == 1 || order == 2 {
        TerminalStep::Find { back: order == 2 }
    } else if order == 5 {
        TerminalStep::ClearScreen
    } else if order == 6 {
        TerminalStep::ClearHistory
    } else if order == 7 {
        TerminalStep::SaveLog
    } else if order == 8 || order == 9 {
        TerminalStep::Page { up: order == 8 }
    } else {
        TerminalStep::Nothing
    }
}

#[derive(Clone, Copy, Debug, PartialEq, Eq, Structural)]
pub enum MouseAction {
    Press,
    Release,
    Move,
}

#[derive(Clone, Copy, Debug, PartialEq, Eq, Structural)]
pub enum MouseButton {
    Left,
    Middle,
    Right,
    NoButton,
}

/// What a pointer over a terminal comes to.
#[derive(Clone, Copy, Debug, PartialEq, Eq, Structural)]
pub enum PointerStep {
    /// It is the pane's own affair.
    Nothing,
    Wheel { row: usize, column: usize },
    Mouse { action: MouseAction, button: MouseButton, row: usize, column: usize },
}

/// The nearest place on a screen with so many.
pub open spec fn on_screen(at: usize, count: usize) -> usize {
    if count == 0 {
        0
    } else if at >= count {
        (count - 1) as usize
    } else {
        at
    }
}

fn keep_on_screen(at: usize, count: usize) -> (out: usize)
    ensures
        out == on_screen(at, count),
{
    if count == 0 {
        0
    } else if at >= count {
        count - 1
    } else {
        at
    }
}

/// What a pointer comes to: 0 presses, 1 lets go, 3 turns the wheel, anything
/// else moves. Button 0 is the left, 1 the middle, 2 the right one. While the
/// pane shows the history its rows are not the program's.
pub open spec fn pointed(
    kind: i32,
    button: i32,
    place: Place,
    size: Place,
    looking: usize,
    finished: bool,
) -> PointerStep {
    let row = on_screen(place.0, size.0);
    let column = on_screen(place.1, size.1);
    if looking > 0 || finished {
        PointerStep::Nothing
    } else if kind == 3 {
        PointerStep::Wheel { row, column }
    } else {
        PointerStep::Mouse {
            action: if kind == 0 {
                MouseAction::Press
            } else if kind == 1 {
                MouseAction::Release
            } else {
                MouseAction::Move
            },
            button: if button == 0 {
                MouseButton::Left
            } else if button == 1 {
                MouseButton::Middle
            } else if button == 2 {
                MouseButton::Right
            } else {
                MouseButton::NoButton
            },
            row,
            column,
        }
    }
}

/// What is told where the text of a terminal could not be saved.
pub fn log_not_saved(error: &str, english: bool) -> (out: String)
    ensures
        out@ == if english {
            "Cannot save log: "@ + error@
        } else {
            "ログを保存できません: "@ + error@
        },
{
    text::followed(
        if english {
            "Cannot save log: "
        } else {
            "ログを保存できません: "
        },
        error,
    )
}

/// [`pointed`]: what a pointer over a cell comes to. `place` is the row and the
/// column it is over, `size` how many there are of each.
pub fn pointer(
    kind: i32,
    button: i32,
    place: Place,
    size: Place,
    looking: usize,
    finished: bool,
) -> (out: PointerStep)
    ensures
        out == pointed(kind, button, place, size, looking, finished),
{
    if looking > 0 || finished {
        return PointerStep::Nothing;
    }
    let row: usize = keep_on_screen(place.0, size.0);
    let column: usize = keep_on_screen(place.1, size.1);
    if kind == 3 {
        return PointerStep::Wheel { row, column };
    }
    let action = if kind == 0 {
        MouseAction::Press
    } else if kind == 1 {
        MouseAction::Release
    } else {
        MouseAction::Move
    };
    let button = if button == 0 {
        MouseButton::Left
    } else if button == 1 {
        MouseButton::Middle
    } else if button == 2 {
        MouseButton::Right
    } else {
        MouseButton::NoButton
    };
    PointerStep::Mouse { action, button, row, column }
}

} // verus!
