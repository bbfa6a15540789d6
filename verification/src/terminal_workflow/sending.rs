//! Sending text to a terminal.
use crate::lines;
use crate::terminal::{encode_paste, encode_typing, keys, Modes};
use crate::terminal_panels::tab::{PanelDocument, PanelModel};
use crate::terminal_session;
use crate::text;
use vstd::prelude::*;
use vstd::utf8;

verus! {

/// What becomes of text that is to be sent.
#[derive(Debug)]
pub enum InputStep {
    Nothing,
    /// The writer is asked first, for every line break in it is a return key.
    Ask(String),
    Send,
}

pub ghost enum InputModel {
    Nothing,
    Ask(Seq<char>),
    Send,
}

impl View for InputStep {
    type V = InputModel;

    open spec fn view(&self) -> InputModel {
        match self {
            InputStep::Nothing => InputModel::Nothing,
            InputStep::Ask(words) => InputModel::Ask(words@),
            InputStep::Send => InputModel::Send,
        }
    }
}

/// How many lines a text has, however its lines are parted.
pub open spec fn line_count(text: Seq<char>) -> nat {
    lines::split(
        lines::replaced(lines::replaced(text, "\r\n"@, "\n"@), "\r"@, "\n"@),
        '\n',
    ).len()
}

pub open spec fn ask_words(english: bool) -> Seq<char> {
    if english {
        "Send text containing line breaks? This can execute commands."@
    } else {
        "改行を含む内容をTerminalへ送りますか？ コマンドが実行される場合があります。"@
    }
}

/// What the writer is shown before text with line breaks is sent: how many lines
/// it has, and how it begins.
pub open spec fn preview(text: Seq<char>, english: bool) -> Seq<char> {
    ask_words(english) + " ("@ + text::decimal(line_count(text)) + " "@ + (if english {
        "lines"@
    } else {
        "行"@
    }) + ")\n\n"@ + (if text.len() > 2000 {
        text.take(2000) + "\n…"@
    } else {
        text
    })
}

fn count_lines(source: &str) -> (out: usize)
    ensures
        out as nat == line_count(source@),
{
    proof {
        reveal_strlit("\r\n");
        reveal_strlit("\r");
    }
    let one = lines::replace_all(source, "\r\n", "\n");
    let two = lines::replace_all(one.as_str(), "\r", "\n");
    let parts = lines::split_at(two.as_str(), '\n');
    assert(lines::texts(parts@).len() == parts@.len());
    parts.len()
}

fn make_preview(source: &str, english: bool) -> (out: String)
    ensures
        out@ == preview(source@, english),
{
    let chars = text::chars_of(source);
    let mut out = String::new();
    text::push_text(
        &mut out,
        if english {
            "Send text containing line breaks? This can execute commands."
        } else {
            "改行を含む内容をTerminalへ送りますか？ コマンドが実行される場合があります。"
        },
    );
    text::push_text(&mut out, " (");
    text::push_decimal(&mut out, count_lines(source) as u64);
    text::push_text(&mut out, " ");
    text::push_text(
        &mut out,
        if english {
            "lines"
        } else {
            "行"
        },
    );
    text::push_text(&mut out, ")\n\n");
    let ghost head = out@;
    if chars.len() > 2000 {
        text::push_range(&mut out, &chars, 0, 2000);
        text::push_text(&mut out, "\n…");
        assert(chars@.subrange(0, 2000) =~= source@.take(2000));
        assert(out@ =~= head + (source@.take(2000) + "\n…"@));
    } else {
        text::push_text(&mut out, source);
    }
    assert(out@ =~= preview(source@, english));
    out
}

/// What becomes of text that is to be sent to a shell. `asking` says that a
/// question is shown already.
pub open spec fn input_step(
    text: Seq<char>,
    finished: bool,
    confirm: bool,
    asking: bool,
    english: bool,
) -> InputModel {
    if text.len() == 0 || finished {
        InputModel::Nothing
    } else if confirm && text::holds_any(text, "\n\r"@) {
        if asking {
            InputModel::Nothing
        } else {
            InputModel::Ask(preview(text, english))
        }
    } else {
        InputModel::Send
    }
}

/// [`input_step`], of a string.
pub fn input(source: &str, finished: bool, confirm: bool, asking: bool, english: bool) -> (out:
    InputStep)
    ensures
        out@ == input_step(source@, finished, confirm, asking, english),
{
    let chars = text::chars_of(source);
    if chars.len() == 0 || finished {
        return InputStep::Nothing;
    }
    if confirm && text::has_any(source, "\n\r") {
        if asking {
            return InputStep::Nothing;
        }
        return InputStep::Ask(make_preview(source, english));
    }
    InputStep::Send
}

/// The answers where sending is asked about.
pub fn send_choices(english: bool) -> (out: [&'static str; 2])
    ensures
        out@[0]@ == if english { "Send"@ } else { "送信"@ },
        out@[1]@ == if english { "Cancel"@ } else { "キャンセル"@ },
{
    if english {
        ["Send", "Cancel"]
    } else {
        ["送信", "キャンセル"]
    }
}

/// A draft once its text has been sent: it is emptied, unless it has been changed
/// since.
pub open spec fn after_sending(entry: PanelModel, text: Seq<char>) -> PanelModel {
    if entry.text == text {
        entry.with_text(Seq::empty())
    } else {
        entry
    }
}

/// Sends text that is a draft: as though it had been typed. Nothing is sent to a
/// shell that has ended, or from a draft that is only read.
pub fn send_draft(entry: &mut PanelDocument, source: &str, finished: bool) -> (out: Option<Vec<u8>>)
    ensures
        finished || old(entry)@.viewer ==> out is None && final(entry)@ == old(entry)@,
        !finished && !old(entry)@.viewer ==> terminal_session::written(out)
            == terminal_session::sent(utf8::encode_utf8(keys::with_returns(source@)))
            && final(entry)@ == after_sending(old(entry)@, source@),
{
    if finished || entry.viewer {
        return None;
    }
    let bytes = encode_typing(source);
    if text::same_text(entry.text.as_str(), source) {
        let none = String::new();
        assert(none@ =~= Seq::empty());
        entry.set_text(none);
    }
    terminal_session::TerminalSession::send(bytes)
}

/// Sends text as it is pasted. Nothing is sent to a shell that has ended.
pub fn send(source: &str, finished: bool, modes: Modes) -> (out: Option<Vec<u8>>)
    ensures
        terminal_session::written(out) == if finished {
            None
        } else {
            terminal_session::sent(terminal_session::pasted(source@, modes))
        },
{
    if finished {
        return None;
    }
    terminal_session::TerminalSession::send(encode_paste(source, modes))
}

} // verus!
