//! A shell's session: what arrives from it, and what is written to it.
use rfn_edit::terminal::{Key, Modifiers};
use rfn_edit::terminal_session::{TerminalSession, Waited};

#[test]
fn everything_that_waits_is_applied_at_once() {
    let mut session = TerminalSession::start("WSL", 80, 25);
    assert_eq!(session.name(), "WSL");
    assert!(!session.finished());
    let drained = session.drain(&vec![b"one\r\n\x1b[6".to_vec(), b"ntwo".to_vec()], false);
    assert!(drained.changed);
    assert_eq!(drained.replies, b"\x1b[2;1R".to_vec());
    assert_eq!(session.screen().row_text(0), "one");
    assert_eq!(session.screen().row_text(1), "two");
    let quiet = session.drain(&Vec::new(), false);
    assert!(!quiet.changed && quiet.replies.is_empty());
}

#[test]
fn a_shell_is_done_when_nothing_is_left_to_read() {
    let mut session = TerminalSession::start("cmd", 80, 25);
    session.drain(&vec![b"BYE".to_vec()], true);
    assert!(!session.finished());
    session.drain(&Vec::new(), true);
    assert!(session.finished());
    assert_eq!(session.screen().row_text(0), "BYE");
}

#[test]
fn waiting_takes_what_is_said() {
    let mut session = TerminalSession::start("cmd", 80, 25);
    let (said, replies) = session.wait(&Waited::Said(b"a\x1b[6n".to_vec()), &vec![b"b".to_vec()], false);
    assert!(said);
    assert_eq!(replies, b"\x1b[1;2R".to_vec());
    assert_eq!(session.screen().row_text(0), "ab");
    assert!(!session.wait(&Waited::Silent, &Vec::new(), false).0);
    assert!(!session.wait(&Waited::Closed, &Vec::new(), false).0);
    assert!(session.finished());
}

#[test]
fn what_is_sent_is_in_the_shells_form() {
    let mut session = TerminalSession::start("cmd", 80, 25);
    assert_eq!(
        session.send_key(Key::Char('c'), Modifiers::control()),
        Some(vec![3])
    );
    assert_eq!(session.paste("a\nb"), Some(b"a\rb".to_vec()));
    session.drain(&vec![b"\x1b[?2004h".to_vec()], false);
    assert_eq!(session.paste("a"), Some(b"\x1b[200~a\x1b[201~".to_vec()));
    assert_eq!(TerminalSession::send(Vec::new()), None);
}

#[test]
fn a_new_size_is_told_to_the_console() {
    let mut session = TerminalSession::start("cmd", 80, 25);
    assert_eq!(session.resize(80, 25), None);
    assert_eq!(session.resize(100, 30), Some((100, 30)));
    assert_eq!(session.screen().columns(), 100);
    assert_eq!(session.resize(65537, 30), Some((1, 30)));
}
