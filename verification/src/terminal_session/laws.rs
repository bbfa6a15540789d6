//! What a shell's session promises as a whole.
use crate::terminal::laws;
use crate::terminal::model::ScreenModel;
use crate::terminal::stream::{self, ParserModel, State};
use crate::terminal_session::{console_size, sent, SessionModel};
use vstd::prelude::*;

verus! {

/// The first `n` reads as one.
pub open spec fn as_one(reads: Seq<Seq<u8>>, n: int) -> Seq<u8>
    decreases n,
{
    if n <= 0 {
        Seq::empty()
    } else {
        as_one(reads, n - 1) + reads[n - 1]
    }
}

/// How the output was cut into reads makes no difference.
pub proof fn the_cuts_make_no_difference(session: SessionModel, reads: Seq<Seq<u8>>, n: int)
    requires
        0 <= n <= reads.len(),
    ensures
        session.after_reads(reads, n) == session.heard(as_one(reads, n)),
    decreases n,
{
    reveal(SessionModel::heard);
    if n > 0 {
        the_cuts_make_no_difference(session, reads, n - 1);
        laws::a_split_read_resumes(
            session.parser,
            session.screen,
            as_one(reads, n - 1),
            reads[n - 1],
        );
    }
}

proof fn reads_leave_the_rest(session: SessionModel, reads: Seq<Seq<u8>>, n: int)
    ensures
        session.after_reads(reads, n).finished == session.finished,
        session.after_reads(reads, n).name == session.name,
    decreases n,
{
    reveal(SessionModel::heard);
    if n > 0 {
        reads_leave_the_rest(session, reads, n - 1);
    }
}

/// A shell is done only once nothing of it was left to read, and then stays so.
pub proof fn a_shell_is_done_once_all_is_read(
    session: SessionModel,
    reads: Seq<Seq<u8>>,
    gone: bool,
)
    ensures
        session.finished ==> session.drained(reads, gone).finished,
        !session.finished && session.drained(reads, gone).finished ==> reads.len() == 0 && gone,
        session.drained(reads, gone).name == session.name,
{
    reads_leave_the_rest(session, reads, reads.len() as int);
}

/// What a shell said last stays on its screen when it is done.
pub proof fn the_last_words_stay(session: SessionModel)
    ensures
        ({
            let after = session.drained(Seq::empty(), true);
            &&& after.finished
            &&& after.screen.lines == session.screen.lines
            &&& after.screen.scrollback == session.screen.scrollback
            &&& after.screen.cursor == session.screen.cursor
        }),
{
}

/// Nothing is left unanswered.
pub proof fn no_question_is_left(session: SessionModel, reads: Seq<Seq<u8>>, gone: bool)
    ensures
        session.drained(reads, gone).screen.replies.len() == 0,
{
}

spec fn same_size(one: ScreenModel, two: ScreenModel) -> bool {
    one.columns == two.columns && one.rows == two.rows
}

proof fn modes_leave_the_size(
    screen: ScreenModel,
    private: bool,
    groups: Seq<Seq<u16>>,
    on: bool,
)
    ensures
        same_size(screen.set_modes(private, groups, on), screen),
    decreases groups.len(),
{
    if groups.len() > 0 {
        modes_leave_the_size(screen, private, groups.drop_last(), on);
    }
}

#[verifier::spinoff_prover]
proof fn motion_leaves_the_size(groups: Seq<Seq<u16>>, screen: ScreenModel, last: u8)
    ensures
        same_size(stream::motion(groups, screen, last), screen),
{
    reveal(stream::motion);
}

#[verifier::spinoff_prover]
proof fn edit_leaves_the_size(groups: Seq<Seq<u16>>, screen: ScreenModel, last: u8)
    ensures
        same_size(stream::edit(groups, screen, last), screen),
{
    reveal(stream::edit);
}

proof fn setting_leaves_the_size(
    groups: Seq<Seq<u16>>,
    private: Option<u8>,
    intermediate: Option<u8>,
    screen: ScreenModel,
    last: u8,
)
    ensures
        same_size(stream::setting(groups, private, intermediate, screen, last), screen),
{
    reveal(stream::setting);
    modes_leave_the_size(screen, private == Some(0x3fu8), groups, true);
    modes_leave_the_size(screen, private == Some(0x3fu8), groups, false);
}

#[verifier::spinoff_prover]
proof fn ground_leaves_the_size(parser: ParserModel, screen: ScreenModel, byte: u8)
    ensures
        same_size(stream::ground_act(parser, screen, byte), screen),
{
    reveal(stream::ground_act);
}

#[verifier::spinoff_prover]
proof fn escape_leaves_the_size(screen: ScreenModel, byte: u8)
    requires
        screen.columns >= 1,
        screen.rows >= 1,
    ensures
        same_size(stream::escape_act(screen, byte), screen),
{
    reveal(stream::escape_act);
}

proof fn one_byte_leaves_the_size(parser: ParserModel, screen: ScreenModel, byte: u8)
    requires
        screen.columns >= 1,
        screen.rows >= 1,
    ensures
        same_size(parser.act(screen, byte), screen),
{
    let groups = parser.params();
    match parser.state {
        State::Ground => {
            ground_leaves_the_size(parser, screen, byte);
        },
        State::Escape => {
            escape_leaves_the_size(screen, byte);
        },
        State::Csi => {
            motion_leaves_the_size(groups, screen, byte);
            edit_leaves_the_size(groups, screen, byte);
            setting_leaves_the_size(groups, parser.private, parser.intermediate, screen, byte);
        },
        State::OscEscape => {
            escape_leaves_the_size(stream::titled(screen, parser.osc), byte);
        },
        _ => {},
    }
}

proof fn bytes_leave_the_size(parser: ParserModel, screen: ScreenModel, bytes: Seq<u8>)
    requires
        screen.columns >= 1,
        screen.rows >= 1,
    ensures
        same_size(parser.screen_after(screen, bytes), screen),
    decreases bytes.len(),
{
    if bytes.len() > 0 {
        let before = bytes.drop_last();
        bytes_leave_the_size(parser, screen, before);
        one_byte_leaves_the_size(
            parser.after(before),
            parser.screen_after(screen, before),
            bytes.last(),
        );
    }
}

/// Whatever a shell writes, its screen keeps its size.
pub proof fn output_leaves_the_size(session: SessionModel, reads: Seq<Seq<u8>>, n: int)
    requires
        session.screen.columns >= 1,
        session.screen.rows >= 1,
    ensures
        session.after_reads(reads, n).screen.columns == session.screen.columns,
        session.after_reads(reads, n).screen.rows == session.screen.rows,
    decreases n,
{
    reveal(SessionModel::heard);
    if n > 0 {
        output_leaves_the_size(session, reads, n - 1);
        let before = session.after_reads(reads, n - 1);
        bytes_leave_the_size(before.parser, before.screen, reads[n - 1]);
    }
}

/// On a screen with two columns or more, and not of 65536 rows or a multiple of
/// that, everything can be read that a shell may write.
pub proof fn an_ordinary_screen_reads_anything(session: SessionModel, reads: Seq<Seq<u8>>)
    requires
        session.screen.columns >= 2,
        session.screen.rows % 65536 != 0,
    ensures
        session.can_read_all(reads),
{
    reveal(SessionModel::can_read);
    assert forall|i: int| 0 <= i < reads.len() implies session.after_reads(reads, i).can_read(
        #[trigger] reads[i],
    ) by {
        output_leaves_the_size(session, reads, i);
        let at = session.after_reads(reads, i);
        laws::ordinary_screens_read_anything(
            at.parser,
            at.screen.columns,
            at.screen.rows,
            reads[i],
        );
    }
}

/// What is to be sent is sent as it is; nothing is sent where there is nothing.
pub proof fn what_is_sent_is_sent_whole(bytes: Seq<u8>)
    ensures
        bytes.len() == 0 <==> sent(bytes) is None,
        bytes.len() > 0 ==> sent(bytes) == Some(bytes),
{
}

/// A console is told the size of the screen, where it can be said in sixteen bits.
pub proof fn a_console_has_the_size_of_the_screen(number: usize)
    requires
        number < 65536,
    ensures
        console_size(number) == number,
{
}

} // verus!
