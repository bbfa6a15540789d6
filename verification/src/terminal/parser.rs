//! Bytes to sequences, sequences to the screen.
use crate::terminal::model;
use crate::terminal::screen::Screen;
use crate::terminal::stream::{self, ParserModel, State};
use vstd::prelude::*;

verus! {

/// `char::from_u32` gives the character with this code, where there is one:
/// every code up to `0x10FFFF` but the surrogates.
pub assume_specification[ std::char::from_u32 ](i: u32) -> (out: Option<char>)
    ensures
        out == stream::char_of(i),
;

/// `String::from_utf8_lossy` keeps UTF-8 as it is; what it puts in place of
/// other bytes is left to the name.
#[verifier::external_body]
fn lossy(bytes: &[u8]) -> (out: String)
    ensures
        out@ == stream::lossy_text(bytes@),
        vstd::utf8::valid_utf8(bytes@) ==> out@ == vstd::utf8::decode_utf8(bytes@),
{
    String::from_utf8_lossy(bytes).into_owned()
}

fn or_blank(byte: Option<u8>) -> (out: char)
    ensures
        out == stream::or_blank(byte),
{
    match byte {
        Some(byte) => byte as char,
        None => ' ',
    }
}

/// Bytes to sequences, sequences to the screen.
///
/// The parser holds no screen of its own. It is given one for the length of a
/// `feed`, which is what makes it safe to read a pipe into a buffer of any
/// size: a sequence split across two reads simply resumes.
#[derive(Debug)]
pub struct Parser {
    state: State,
    groups: Vec<Vec<u16>>,
    group: Vec<u16>,
    number: Option<u16>,
    private: Option<u8>,
    intermediate: Option<u8>,
    osc: Vec<u8>,
    pending: u32,
    due: u8,
}

impl View for Parser {
    type V = ParserModel;

    closed spec fn view(&self) -> ParserModel {
        ParserModel {
            state: self.state,
            groups: model::groups_of(self.groups@),
            group: self.group@,
            number: self.number,
            private: self.private,
            intermediate: self.intermediate,
            osc: self.osc@,
            pending: self.pending,
            due: self.due,
        }
    }
}

impl Default for Parser {
    fn default() -> (out: Self)
        ensures
            out@ == ParserModel::start(),
    {
        Parser::new()
    }
}

impl Parser {
    pub fn new() -> (out: Self)
        ensures
            out@ == ParserModel::start(),
            out@.wf(),
    {
        let out = Parser {
            state: State::Ground,
            groups: Vec::new(),
            group: Vec::new(),
            number: None,
            private: None,
            intermediate: None,
            osc: Vec::new(),
            pending: 0,
            due: 0,
        };
        assert(out@ =~= ParserModel::start());
        out
    }

    /// Read what the shell wrote.
    pub fn feed(&mut self, bytes: &[u8], screen: &mut Screen)
        requires
            old(self)@.wf(),
            old(screen)@.wf(),
            old(self)@.all_fit(old(screen)@.columns, old(screen)@.rows, bytes@),
        ensures
            final(self)@ == old(self)@.after(bytes@),
            final(screen)@ == old(self)@.screen_after(old(screen)@, bytes@),
            final(self)@.wf(),
            final(screen)@.wf(),
            final(screen)@.columns == old(screen)@.columns,
            final(screen)@.rows == old(screen)@.rows,
    {
        let ghost first = self@;
        let ghost before = screen@;
        let mut at: usize = 0;
        assert(bytes@.take(0) =~= Seq::empty());
        while at < bytes.len()
            invariant
                at <= bytes@.len(),
                self@.wf(),
                screen@.wf(),
                screen@.columns == before.columns,
                screen@.rows == before.rows,
                first.all_fit(before.columns, before.rows, bytes@),
                self@ == first.after(bytes@.take(at as int)),
                screen@ == first.screen_after(before, bytes@.take(at as int)),
            decreases bytes@.len() - at,
        {
            let byte: u8 = bytes[at];
            assert(bytes@.take(at + 1).drop_last() =~= bytes@.take(at as int));
            self.step(byte, screen);
            at += 1;
        }
        assert(bytes@.take(at as int) =~= bytes@);
    }

    fn step(&mut self, byte: u8, screen: &mut Screen)
        requires
            old(self)@.wf(),
            old(screen)@.wf(),
            old(self)@.fits(old(screen)@.columns, old(screen)@.rows, byte),
        ensures
            final(self)@ == old(self)@.next(byte),
            final(screen)@ == old(self)@.act(old(screen)@, byte),
            final(self)@.wf(),
            final(screen)@.wf(),
            final(screen)@.columns == old(screen)@.columns,
            final(screen)@.rows == old(screen)@.rows,
    {
        match self.state {
            State::Ground => self.ground(byte, screen),
            State::Escape => self.escape(byte, screen),
            State::Designator => {
                self.state = State::Ground;
            },
            State::Csi => self.csi(byte, screen),
            State::Osc => {
                if byte == 0x07 {
                    self.finish_osc(screen);
                    self.state = State::Ground;
                } else if byte == 0x1b {
                    self.state = State::OscEscape;
                } else {
                    self.osc.push(byte);
                }
            },
            State::OscEscape => {
                self.finish_osc(screen);
                self.state = State::Ground;
                // `ESC \` ends the string; anything else was a sequence of its
                // own and still has to be read.
                if byte != 0x5c {
                    self.escape(byte, screen);
                }
            },
            State::Ignore => {
                if byte == 0x1b {
                    self.state = State::IgnoreEscape;
                }
            },
            State::IgnoreEscape => {
                self.state = if byte == 0x5c {
                    State::Ground
                } else {
                    State::Ignore
                };
            },
        }
    }

    fn ground(&mut self, byte: u8, screen: &mut Screen)
        requires
            old(self)@.wf(),
            old(screen)@.wf(),
            old(self)@.state == State::Ground,
            old(self)@.fits(old(screen)@.columns, old(screen)@.rows, byte),
        ensures
            final(self)@ == old(self)@.ground(byte),
            final(screen)@ == stream::ground_act(old(self)@, old(screen)@, byte),
            final(self)@.wf(),
            final(screen)@.wf(),
            final(screen)@.columns == old(screen)@.columns,
            final(screen)@.rows == old(screen)@.rows,
    {
        reveal(stream::ground_act);
        if byte == 0x1b {
            self.clear();
            self.state = State::Escape;
        } else if byte == 0x08 {
            screen.backspace();
        } else if byte == 0x09 {
            screen.tab();
        } else if byte == 0x0a || byte == 0x0b || byte == 0x0c {
            screen.line_feed();
        } else if byte == 0x0d {
            screen.carriage_return();
        } else if byte < 0x20 || byte == 0x7f {
            // BEL and the rest of C0 say nothing about the screen.
        } else if byte < 0x7f {
            self.due = 0;
            screen.print(byte as char);
        } else {
            self.utf8(byte, screen);
        }
    }

    /// A character can be split across two reads.
    fn utf8(&mut self, byte: u8, screen: &mut Screen)
        requires
            old(self)@.wf(),
            old(screen)@.wf(),
            old(self)@.state == State::Ground,
            byte >= 0x80,
            old(self)@.fits(old(screen)@.columns, old(screen)@.rows, byte),
        ensures
            final(self)@ == old(self)@.utf8(byte),
            final(screen)@ == stream::ground_act(old(self)@, old(screen)@, byte),
            final(self)@.wf(),
            final(screen)@.wf(),
            final(screen)@.columns == old(screen)@.columns,
            final(screen)@.rows == old(screen)@.rows,
    {
        reveal(stream::ground_act);
        if self.due > 0 {
            if byte <= 0xbf {
                self.pending = self.pending * 64 + (byte % 64) as u32;
                self.due = self.due - 1;
                if self.due == 0 {
                    if let Some(text) = std::char::from_u32(self.pending) {
                        screen.print(text);
                    }
                }
                return;
            }
            // Truncated. Drop it and read this byte as a fresh start.
            self.due = 0;
        }
        if 0xc2 <= byte && byte <= 0xdf {
            self.pending = (byte - 0xc0) as u32;
            self.due = 1;
        } else if 0xe0 <= byte && byte <= 0xef {
            self.pending = (byte - 0xe0) as u32;
            self.due = 2;
        } else if 0xf0 <= byte && byte <= 0xf4 {
            self.pending = (byte - 0xf0) as u32;
            self.due = 3;
        }
    }

    fn escape(&mut self, byte: u8, screen: &mut Screen)
        requires
            old(self)@.wf(),
            old(screen)@.wf(),
        ensures
            final(self)@ == old(self)@.escape(byte),
            final(screen)@ == stream::escape_act(old(screen)@, byte),
            final(self)@.wf(),
            final(screen)@.wf(),
            final(screen)@.columns == old(screen)@.columns,
            final(screen)@.rows == old(screen)@.rows,
    {
        reveal(stream::escape_act);
        self.state = State::Ground;
        if byte == 0x5b {
            self.clear();
            self.state = State::Csi;
        } else if byte == 0x5d {
            self.osc.clear();
            self.state = State::Osc;
        } else if byte == 0x50 || byte == 0x58 || byte == 0x5e || byte == 0x5f {
            self.state = State::Ignore;
        } else if 0x28 <= byte && byte <= 0x2b {
            self.state = State::Designator;
        } else if byte == 0x37 {
            screen.save_cursor();
        } else if byte == 0x38 {
            screen.restore_cursor();
        } else if byte == 0x44 {
            screen.line_feed();
        } else if byte == 0x45 {
            screen.carriage_return();
            screen.line_feed();
        } else if byte == 0x4d {
            screen.reverse_index();
        } else if byte == 0x63 {
            screen.reset();
        } else if byte == 0x3d || byte == 0x3e || byte == 0x5c {
            // The keypad modes change nothing on the screen.
        } else {
            let mut what = String::new();
            what.push('E');
            what.push('S');
            what.push('C');
            what.push(' ');
            what.push(byte as char);
            assert(what@ =~= seq!['E', 'S', 'C', ' ', byte as char]);
            screen.note_unhandled(what);
        }
    }

    fn finish_group(&mut self)
        ensures
            final(self)@ == (ParserModel {
                group: old(self)@.group_so_far(),
                number: None,
                ..old(self)@
            }),
    {
        let number: u16 = match self.number {
            Some(number) => number,
            None => 0,
        };
        self.number = None;
        self.group.push(number);
    }

    fn finish_param(&mut self)
        ensures
            final(self)@ == (ParserModel {
                groups: old(self)@.groups.push(old(self)@.group_so_far()),
                group: Seq::empty(),
                number: None,
                ..old(self)@
            }),
    {
        self.finish_group();
        let mut group: Vec<u16> = Vec::new();
        std::mem::swap(&mut group, &mut self.group);
        let ghost had = self.groups@;
        self.groups.push(group);
        assert(model::groups_of(self.groups@) =~= model::groups_of(had).push(group@));
        assert(self.group@ =~= Seq::empty());
    }

    fn csi(&mut self, byte: u8, screen: &mut Screen)
        requires
            old(self)@.wf(),
            old(screen)@.wf(),
            old(self)@.state == State::Csi,
            old(self)@.fits(old(screen)@.columns, old(screen)@.rows, byte),
        ensures
            final(self)@ == old(self)@.csi(byte),
            final(screen)@ == old(self)@.act(old(screen)@, byte),
            final(self)@.wf(),
            final(screen)@.wf(),
            final(screen)@.columns == old(screen)@.columns,
            final(screen)@.rows == old(screen)@.rows,
    {
        if 0x30 <= byte && byte <= 0x39 {
            let number: u16 = match self.number {
                Some(number) => number,
                None => 0,
            };
            let value: u32 = number as u32 * 10 + (byte - 0x30) as u32;
            self.number = Some(
                if value > 65535 {
                    65535
                } else {
                    value as u16
                },
            );
        } else if byte == 0x3b {
            self.finish_param();
        } else if byte == 0x3a {
            self.finish_group();
        } else if 0x3c <= byte && byte <= 0x3f {
            self.private = Some(byte);
        } else if 0x20 <= byte && byte <= 0x2f {
            self.intermediate = Some(byte);
        } else if 0x40 <= byte && byte <= 0x7e {
            let ghost first = self@;
            if self.number.is_some() || self.group.len() > 0 {
                self.finish_param();
            }
            proof {
                assert(self@.groups == first.params());
            }
            self.dispatch(byte, screen);
            self.clear();
            self.state = State::Ground;
        }
    }

    /// The first number of parameter `index`, with 0 and "absent" meaning the
    /// same thing: the default the sequence was defined with.
    fn at(&self, index: usize, default: u16) -> (out: u16)
        ensures
            out == stream::param(self@.groups, index as int, default),
    {
        if index < self.groups.len() && self.groups[index].len() > 0 {
            assert(self@.groups[index as int] == self.groups@[index as int]@);
            let value: u16 = self.groups[index][0];
            if value != 0 {
                return value;
            }
        }
        default
    }

    fn dispatch(&self, last: u8, screen: &mut Screen)
        requires
            old(screen)@.wf(),
            old(screen)@.rows % 65536 != 0 || last != 0x72 || stream::param(self@.groups, 1, 0)
                != 0,
        ensures
            final(screen)@ == stream::dispatch(
                self@.groups,
                self@.private,
                self@.intermediate,
                old(screen)@,
                last,
            ),
            final(screen)@.wf(),
            final(screen)@.columns == old(screen)@.columns,
            final(screen)@.rows == old(screen)@.rows,
    {
        reveal(stream::motion);
        reveal(stream::edit);
        reveal(stream::setting);
        let first: usize = self.at(0, 1) as usize;
        let kind: u16 = self.at(0, 0);
        let plain = self.private.is_none();
        if last == 0x41 {
            screen.move_by(-(first as isize), 0);
        } else if last == 0x42 || last == 0x65 {
            screen.move_by(first as isize, 0);
        } else if last == 0x43 || last == 0x61 {
            screen.move_by(0, first as isize);
        } else if last == 0x44 {
            screen.move_by(0, -(first as isize));
        } else if last == 0x45 {
            screen.move_by(first as isize, 0);
            screen.carriage_return();
        } else if last == 0x46 {
            screen.move_by(-(first as isize), 0);
            screen.carriage_return();
        } else if last == 0x47 || last == 0x60 {
            let row: usize = screen.cursor().row;
            screen.move_to(row, first - 1);
        } else if last == 0x64 {
            let column: usize = screen.cursor().column;
            screen.move_to(first - 1, column);
        } else if last == 0x48 || last == 0x66 {
            screen.move_to(first - 1, self.at(1, 1) as usize - 1);
        } else if last == 0x4a {
            screen.erase_in_display(
                if kind > 3 {
                    3
                } else {
                    kind
                },
            );
        } else if last == 0x4b {
            screen.erase_in_line(
                if kind > 2 {
                    2
                } else {
                    kind
                },
            );
        } else if last == 0x4c {
            screen.insert_lines(first);
        } else if last == 0x4d {
            screen.delete_lines(first);
        } else if last == 0x50 {
            screen.delete_cells(first);
        } else if last == 0x58 {
            screen.erase_cells(first);
        } else if last == 0x40 {
            screen.insert_cells(first);
        } else if last == 0x53 {
            screen.scroll_up(first);
        } else if last == 0x54 {
            screen.scroll_down(first);
        } else if last == 0x72 {
            let bottom: usize = self.at(1, (screen.rows() % 65536) as u16) as usize;
            screen.set_region(first - 1, bottom - 1);
        } else if last == 0x68 || last == 0x6c {
            self.set_modes(last == 0x68, screen);
        } else if last == 0x6d && plain {
            screen.select_graphic_rendition(&self.groups);
        } else if last == 0x6e {
            screen.report(kind);
        } else if last == 0x63 {
            if plain {
                screen.identify();
            }
        } else if last == 0x73 {
            if plain {
                screen.save_cursor();
            }
        } else if last == 0x75 {
            if plain {
                screen.restore_cursor();
            }
        } else if last == 0x67 {
            screen.clear_stop(kind == 3);
        } else {
            self.note(last, screen);
        }
    }

    fn note(&self, last: u8, screen: &mut Screen)
        requires
            old(screen)@.wf(),
        ensures
            final(screen)@ == old(screen)@.note_unhandled(
                seq![
                    'C',
                    'S',
                    'I',
                    ' ',
                    stream::or_blank(self@.private),
                    stream::or_blank(self@.intermediate),
                    last as char,
                ],
            ),
            final(screen)@.wf(),
    {
        let mut what = String::new();
        what.push('C');
        what.push('S');
        what.push('I');
        what.push(' ');
        what.push(or_blank(self.private));
        what.push(or_blank(self.intermediate));
        what.push(last as char);
        assert(what@ =~= seq![
            'C',
            'S',
            'I',
            ' ',
            stream::or_blank(self@.private),
            stream::or_blank(self@.intermediate),
            last as char,
        ]);
        screen.note_unhandled(what);
    }

    fn set_modes(&self, on: bool, screen: &mut Screen)
        requires
            old(screen)@.wf(),
        ensures
            final(screen)@ == old(screen)@.set_modes(
                self@.private == Some(0x3fu8),
                self@.groups,
                on,
            ),
            final(screen)@.wf(),
            final(screen)@.columns == old(screen)@.columns,
            final(screen)@.rows == old(screen)@.rows,
    {
        let private = match self.private {
            Some(byte) => byte == 0x3f,
            None => false,
        };
        let ghost before = screen@;
        let ghost groups = self@.groups;
        let mut at: usize = 0;
        assert(groups.take(0) =~= Seq::empty());
        while at < self.groups.len()
            invariant
                at <= self.groups@.len() == groups.len(),
                groups == self@.groups,
                screen@.wf(),
                screen@.columns == before.columns,
                screen@.rows == before.rows,
                screen@ == before.set_modes(private, groups.take(at as int), on),
            decreases self.groups@.len() - at,
        {
            proof {
                assert(groups.take(at + 1).drop_last() =~= groups.take(at as int));
                assert(groups.take(at + 1).last() == self.groups@[at as int]@);
            }
            if self.groups[at].len() > 0 {
                screen.set_mode(private, self.groups[at][0], on);
            }
            at += 1;
        }
        assert(groups.take(at as int) =~= groups);
    }

    fn clear(&mut self)
        ensures
            final(self)@ == old(self)@.clear(),
    {
        self.groups.clear();
        self.group.clear();
        self.number = None;
        self.private = None;
        self.intermediate = None;
        assert(self@.groups =~= Seq::empty());
    }

    fn finish_osc(&mut self, screen: &mut Screen)
        requires
            old(screen)@.wf(),
        ensures
            final(self)@ == (ParserModel { osc: Seq::empty(), ..old(self)@ }),
            final(screen)@ == stream::titled(old(screen)@, old(self)@.osc),
            final(screen)@.wf(),
            final(screen)@.columns == old(screen)@.columns,
            final(screen)@.rows == old(screen)@.rows,
    {
        let mut string: Vec<u8> = Vec::new();
        std::mem::swap(&mut string, &mut self.osc);
        assert(self.osc@ =~= Seq::empty());
        if string.len() > 0 && (string[0] == 0x30 || string[0] == 0x32) && (string.len() == 1
            || string[1] == 0x3b) {
            let rest = if string.len() > 2 {
                vstd::slice::slice_subrange(string.as_slice(), 2, string.len())
            } else {
                vstd::slice::slice_subrange(string.as_slice(), 0, 0)
            };
            proof {
                if string@.len() <= 2 {
                    assert(rest@ =~= Seq::empty());
                } else {
                    assert(rest@ =~= string@.skip(2));
                }
            }
            let title = lossy(rest);
            screen.set_title(title);
        }
    }
}

} // verus!
