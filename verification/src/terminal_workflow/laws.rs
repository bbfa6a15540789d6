//! What the work with a terminal promises as a whole.
use crate::terminal_panels::tab::PanelModel;
use crate::terminal_workflow::search;
use crate::terminal_workflow::sending::{self, InputModel};
use crate::text;
use vstd::prelude::*;

verus! {

/// Going back undoes going on, whatever place was turned to.
pub proof fn going_back_undoes_going_on(at: int, count: int)
    requires
        0 <= at < count,
    ensures
        search::stepped(Some(search::stepped(Some(at), count, false)), count, true) == at,
        search::stepped(Some(search::stepped(Some(at), count, true)), count, false) == at,
{
    if at + 1 < count {
        assert((at + 1) % count == at + 1) by (nonlinear_arith)
            requires
                0 <= at,
                at + 1 < count,
        ;
        assert((at + 1 + count - 1) % count == at) by (nonlinear_arith)
            requires
                0 <= at < count,
        ;
    } else {
        assert((at + 1) % count == 0) by (nonlinear_arith)
            requires
                at + 1 == count,
                count > 0,
        ;
        assert((count - 1) % count == count - 1) by (nonlinear_arith)
            requires
                count > 0,
        ;
    }
    if at > 0 {
        assert((at + count - 1) % count == at - 1) by (nonlinear_arith)
            requires
                0 < at < count,
        ;
        assert((at - 1 + 1) % count == at) by (nonlinear_arith)
            requires
                0 <= at < count,
        ;
    } else {
        assert((count - 1) % count == count - 1) by (nonlinear_arith)
            requires
                count > 0,
        ;
        assert((count - 1 + 1) % count == 0) by (nonlinear_arith)
            requires
                count > 0,
        ;
    }
}

/// Text with a line break never reaches a shell unasked while the writer wants to
/// be asked; text without one is not asked about.
pub proof fn line_breaks_are_asked_about(
    text: Seq<char>,
    finished: bool,
    asking: bool,
    english: bool,
)
    ensures
        text::holds_any(text, "\n\r"@) ==> sending::input_step(
            text,
            finished,
            true,
            asking,
            english,
        ) != InputModel::Send,
        !text::holds_any(text, "\n\r"@) && text.len() > 0 && !finished ==> sending::input_step(
            text,
            finished,
            true,
            asking,
            english,
        ) == InputModel::Send,
        sending::input_step(text, true, true, asking, english) == InputModel::Nothing,
{
}

/// What is written while the question is shown is not deleted: a draft is emptied
/// only where it is still what was sent.
pub proof fn later_changes_stay(entry: PanelModel, sent: Seq<char>)
    ensures
        entry.text != sent ==> sending::after_sending(entry, sent) == entry,
        entry.text == sent ==> sending::after_sending(entry, sent).text.len() == 0,
{
}

} // verus!
