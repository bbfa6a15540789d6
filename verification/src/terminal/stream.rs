//! What the bytes of the stream mean.
//!
//! [`ParserModel::next`] says how far into a sequence the parser is after one
//! more byte, and [`ParserModel::act`] what that byte does to the screen. The
//! first does not look at the screen at all.
use crate::terminal::cell;
use crate::terminal::model::{self, ScreenModel};
use vstd::prelude::*;

verus! {

/// Where the byte stream is in the middle of a sequence.
#[derive(Clone, Copy, PartialEq, Eq, Structural, Debug)]
pub enum State {
    Ground,
    Escape,
    /// `ESC (` and friends: the next byte names a character set and is dropped.
    Designator,
    Csi,
    Osc,
    /// Inside an OSC, having just seen `ESC`: the next byte should be `\`.
    OscEscape,
    /// A DCS/APC/PM string, kept only so that its end can be found.
    Ignore,
    IgnoreEscape,
}

/// What a parser remembers between two bytes.
#[verifier::ext_equal]
pub struct ParserModel {
    pub state: State,
    /// Parameters that are finished.
    pub groups: Seq<Seq<u16>>,
    /// The parameter being read, but for the number being read.
    pub group: Seq<u16>,
    pub number: Option<u16>,
    pub private: Option<u8>,
    pub intermediate: Option<u8>,
    pub osc: Seq<u8>,
    /// A UTF-8 character being assembled, and how many bytes are still due.
    pub pending: u32,
    pub due: u8,
}

/// What `String::from_utf8_lossy` makes of bytes.
pub uninterp spec fn lossy_text(bytes: Seq<u8>) -> Seq<char>;

/// The bytes of a title as text. UTF-8 is kept as it is.
pub open spec fn title_of(bytes: Seq<u8>) -> Seq<char> {
    if vstd::utf8::valid_utf8(bytes) {
        vstd::utf8::decode_utf8(bytes)
    } else {
        lossy_text(bytes)
    }
}

/// The character with this code, where there is one.
pub open spec fn char_of(code: u32) -> Option<char> {
    if code <= 0xD7FF || 0xE000 <= code <= 0x10FFFF {
        Some(code as char)
    } else {
        None
    }
}

pub open spec fn is_digit(byte: u8) -> bool {
    0x30 <= byte <= 0x39
}

pub open spec fn is_continuation(byte: u8) -> bool {
    0x80 <= byte <= 0xbf
}

/// A digit more. The number stays at its greatest value.
pub open spec fn with_digit(number: Option<u16>, byte: u8) -> u16 {
    let value = number.unwrap_or(0) * 10 + (byte - 0x30);
    if value > 65535 {
        65535
    } else {
        value as u16
    }
}

/// The first number of parameter `index`, with 0 and "absent" meaning the same
/// thing: the default the sequence was defined with.
pub open spec fn param(groups: Seq<Seq<u16>>, index: int, default: u16) -> u16 {
    if index < groups.len() && groups[index].len() > 0 && groups[index][0] != 0 {
        groups[index][0]
    } else {
        default
    }
}

pub open spec fn or_blank(byte: Option<u8>) -> char {
    match byte {
        Some(byte) => byte as char,
        None => ' ',
    }
}

impl ParserModel {
    pub open spec fn start() -> ParserModel {
        ParserModel {
            state: State::Ground,
            groups: Seq::empty(),
            group: Seq::empty(),
            number: None,
            private: None,
            intermediate: None,
            osc: Seq::empty(),
            pending: 0,
            due: 0,
        }
    }

    /// What holds of every parser: the bytes of a character so far leave room
    /// for the ones that are due.
    pub open spec fn wf(self) -> bool {
        &&& self.due <= 3
        &&& self.due == 3 ==> self.pending < 8
        &&& self.due == 2 ==> self.pending < 512
        &&& self.due == 1 ==> self.pending < 32768
    }

    /// No parameters have been read.
    pub open spec fn clear(self) -> ParserModel {
        ParserModel {
            groups: Seq::empty(),
            group: Seq::empty(),
            number: None,
            private: None,
            intermediate: None,
            ..self
        }
    }

    pub open spec fn to(self, state: State) -> ParserModel {
        ParserModel { state, ..self }
    }

    /// A byte that may begin a character of several bytes.
    pub open spec fn lead(self, byte: u8) -> ParserModel {
        if 0xc2 <= byte <= 0xdf {
            ParserModel { pending: (byte - 0xc0) as u32, due: 1, ..self }
        } else if 0xe0 <= byte <= 0xef {
            ParserModel { pending: (byte - 0xe0) as u32, due: 2, ..self }
        } else if 0xf0 <= byte <= 0xf4 {
            ParserModel { pending: (byte - 0xf0) as u32, due: 3, ..self }
        } else {
            self
        }
    }

    /// A byte more of the character being read.
    pub open spec fn assembled(self, byte: u8) -> u32 {
        (self.pending * 64 + byte % 64) as u32
    }

    /// A character can be split across two reads; one that is cut short is
    /// dropped.
    pub open spec fn utf8(self, byte: u8) -> ParserModel {
        if self.due > 0 && is_continuation(byte) {
            ParserModel { pending: self.assembled(byte), due: (self.due - 1) as u8, ..self }
        } else if self.due > 0 {
            ParserModel { due: 0, ..self }.lead(byte)
        } else {
            self.lead(byte)
        }
    }

    pub open spec fn ground(self, byte: u8) -> ParserModel {
        if byte == 0x1b {
            self.clear().to(State::Escape)
        } else if byte < 0x20 || byte == 0x7f {
            self
        } else if byte < 0x7f {
            ParserModel { due: 0, ..self }
        } else {
            self.utf8(byte)
        }
    }

    pub open spec fn escape(self, byte: u8) -> ParserModel {
        if byte == 0x5b {
            self.clear().to(State::Csi)
        } else if byte == 0x5d {
            ParserModel { osc: Seq::empty(), ..self.to(State::Osc) }
        } else if byte == 0x50 || byte == 0x58 || byte == 0x5e || byte == 0x5f {
            self.to(State::Ignore)
        } else if byte == 0x28 || byte == 0x29 || byte == 0x2a || byte == 0x2b {
            self.to(State::Designator)
        } else {
            self.to(State::Ground)
        }
    }

    /// The parameter being read is finished with the number being read.
    pub open spec fn group_so_far(self) -> Seq<u16> {
        self.group.push(self.number.unwrap_or(0))
    }

    pub open spec fn csi(self, byte: u8) -> ParserModel {
        if is_digit(byte) {
            ParserModel { number: Some(with_digit(self.number, byte)), ..self }
        } else if byte == 0x3b {
            ParserModel {
                groups: self.groups.push(self.group_so_far()),
                group: Seq::empty(),
                number: None,
                ..self
            }
        } else if byte == 0x3a {
            ParserModel { group: self.group_so_far(), number: None, ..self }
        } else if 0x3c <= byte <= 0x3f {
            ParserModel { private: Some(byte), ..self }
        } else if 0x20 <= byte <= 0x2f {
            ParserModel { intermediate: Some(byte), ..self }
        } else if 0x40 <= byte <= 0x7e {
            self.clear().to(State::Ground)
        } else {
            self
        }
    }

    pub open spec fn next(self, byte: u8) -> ParserModel {
        match self.state {
            State::Ground => self.ground(byte),
            State::Escape => self.escape(byte),
            State::Designator => self.to(State::Ground),
            State::Csi => self.csi(byte),
            State::Osc => if byte == 0x07 {
                ParserModel { osc: Seq::empty(), ..self.to(State::Ground) }
            } else if byte == 0x1b {
                self.to(State::OscEscape)
            } else {
                ParserModel { osc: self.osc.push(byte), ..self }
            },
            State::OscEscape => {
                let done = ParserModel { osc: Seq::empty(), ..self.to(State::Ground) };
                if byte == 0x5c {
                    done
                } else {
                    done.escape(byte)
                }
            },
            State::Ignore => if byte == 0x1b {
                self.to(State::IgnoreEscape)
            } else {
                self
            },
            State::IgnoreEscape => if byte == 0x5c {
                self.to(State::Ground)
            } else {
                self.to(State::Ignore)
            },
        }
    }

    /// The character that this byte completes, if any.
    pub open spec fn printed(self, byte: u8) -> Option<char> {
        if self.state != State::Ground {
            None
        } else if 0x20 <= byte <= 0x7e {
            Some(byte as char)
        } else if byte >= 0x80 && self.due == 1 && is_continuation(byte) {
            char_of(self.assembled(byte))
        } else {
            None
        }
    }

    /// All parameters of a sequence that ends here.
    pub open spec fn params(self) -> Seq<Seq<u16>> {
        if self.number is Some || self.group.len() > 0 {
            self.groups.push(self.group_so_far())
        } else {
            self.groups
        }
    }

    /// What one more byte does to the screen.
    pub open spec fn act(self, screen: ScreenModel, byte: u8) -> ScreenModel {
        match self.state {
            State::Ground => ground_act(self, screen, byte),
            State::Escape => escape_act(screen, byte),
            State::Csi => if 0x40 <= byte <= 0x7e {
                dispatch(self.params(), self.private, self.intermediate, screen, byte)
            } else {
                screen
            },
            State::Osc => if byte == 0x07 {
                titled(screen, self.osc)
            } else {
                screen
            },
            State::OscEscape => if byte == 0x5c {
                titled(screen, self.osc)
            } else {
                escape_act(titled(screen, self.osc), byte)
            },
            _ => screen,
        }
    }

    /// The byte asks for nothing that a screen of this size cannot do: a
    /// full-width character needs two columns, and a scroll region without a
    /// bottom needs a number of rows that has a bottom.
    pub open spec fn fits(self, columns: usize, rows: usize, byte: u8) -> bool {
        &&& columns >= 2 || match self.printed(byte) {
            Some(text) => cell::width_of(text) < 2,
            None => true,
        }
        &&& rows % 65536 != 0 || self.state != State::Csi || byte != 0x72 || param(
            self.params(),
            1,
            0,
        ) != 0
    }

    /// The parser after all of these bytes.
    pub open spec fn after(self, bytes: Seq<u8>) -> ParserModel
        decreases bytes.len(),
    {
        if bytes.len() == 0 {
            self
        } else {
            self.after(bytes.drop_last()).next(bytes.last())
        }
    }

    /// The screen after all of these bytes.
    pub open spec fn screen_after(self, screen: ScreenModel, bytes: Seq<u8>) -> ScreenModel
        decreases bytes.len(),
    {
        if bytes.len() == 0 {
            screen
        } else {
            self.after(bytes.drop_last()).act(
                self.screen_after(screen, bytes.drop_last()),
                bytes.last(),
            )
        }
    }

    /// Every one of these bytes fits.
    pub open spec fn all_fit(self, columns: usize, rows: usize, bytes: Seq<u8>) -> bool {
        forall|at: int|
            0 <= at < bytes.len() ==> self.after(bytes.take(at)).fits(
                columns,
                rows,
                #[trigger] bytes[at],
            )
    }
}

#[verifier::opaque]
pub open spec fn ground_act(parser: ParserModel, screen: ScreenModel, byte: u8) -> ScreenModel {
    if byte == 0x08 {
        screen.backspace()
    } else if byte == 0x09 {
        screen.tab()
    } else if byte == 0x0a || byte == 0x0b || byte == 0x0c {
        screen.line_feed()
    } else if byte == 0x0d {
        screen.carriage_return()
    } else {
        match parser.printed(byte) {
            Some(text) => screen.print(text),
            None => screen,
        }
    }
}

#[verifier::opaque]
pub open spec fn escape_act(screen: ScreenModel, byte: u8) -> ScreenModel {
    if byte == 0x5b || byte == 0x5d || byte == 0x50 || byte == 0x58 || byte == 0x5e || byte == 0x5f
        || (0x28 <= byte <= 0x2b) || byte == 0x3d || byte == 0x3e || byte == 0x5c {
        screen
    } else if byte == 0x37 {
        screen.save_cursor()
    } else if byte == 0x38 {
        screen.restore_cursor()
    } else if byte == 0x44 {
        screen.line_feed()
    } else if byte == 0x45 {
        screen.carriage_return().line_feed()
    } else if byte == 0x4d {
        screen.reverse_index()
    } else if byte == 0x63 {
        screen.reset()
    } else {
        screen.note_unhandled(seq!['E', 'S', 'C', ' ', byte as char])
    }
}

/// 0 sets the icon name and the title, 2 the title. There is no icon name, so
/// they are the same thing.
pub open spec fn titled(screen: ScreenModel, osc: Seq<u8>) -> ScreenModel {
    if osc.len() > 0 && (osc[0] == 0x30 || osc[0] == 0x32) && (osc.len() == 1 || osc[1] == 0x3b) {
        screen.set_title(
            title_of(
                if osc.len() > 2 {
                    osc.skip(2)
                } else {
                    Seq::empty()
                },
            ),
        )
    } else {
        screen
    }
}

/// The default for the bottom of the scroll region.
pub open spec fn bottom_default(rows: usize) -> u16 {
    (rows % 65536) as u16
}

/// A final byte that moves the cursor.
pub open spec fn is_motion(last: u8) -> bool {
    (0x41 <= last <= 0x48) || last == 0x60 || last == 0x61 || (0x64 <= last <= 0x66)
}

/// A final byte that erases, inserts, deletes or scrolls.
pub open spec fn is_edit(last: u8) -> bool {
    last == 0x40 || (0x4a <= last <= 0x4d) || last == 0x50 || last == 0x53 || last == 0x54 || last
        == 0x58
}

/// The control sequences that move the cursor, by their final byte.
#[verifier::opaque]
pub open spec fn motion(groups: Seq<Seq<u16>>, screen: ScreenModel, last: u8) -> ScreenModel {
    let first = param(groups, 0, 1) as int;
    if last == 0x41 {
        screen.move_by(-first, 0)
    } else if last == 0x42 || last == 0x65 {
        screen.move_by(first, 0)
    } else if last == 0x43 || last == 0x61 {
        screen.move_by(0, first)
    } else if last == 0x44 {
        screen.move_by(0, -first)
    } else if last == 0x45 {
        screen.move_by(first, 0).carriage_return()
    } else if last == 0x46 {
        screen.move_by(-first, 0).carriage_return()
    } else if last == 0x47 || last == 0x60 {
        screen.move_to(screen.cursor.row as int, first - 1)
    } else if last == 0x64 {
        screen.move_to(first - 1, screen.cursor.column as int)
    } else {
        screen.move_to(first - 1, param(groups, 1, 1) - 1)
    }
}

/// The control sequences that erase, insert, delete or scroll.
#[verifier::opaque]
pub open spec fn edit(groups: Seq<Seq<u16>>, screen: ScreenModel, last: u8) -> ScreenModel {
    let first = param(groups, 0, 1) as int;
    let kind = param(groups, 0, 0);
    if last == 0x4a {
        screen.erase_in_display(model::at_most(kind as int, 3) as u16)
    } else if last == 0x4b {
        screen.erase_in_line(model::at_most(kind as int, 2) as u16)
    } else if last == 0x4c {
        screen.insert_lines(first)
    } else if last == 0x4d {
        screen.delete_lines(first)
    } else if last == 0x50 {
        screen.delete_cells(first)
    } else if last == 0x58 {
        screen.erase_cells(first)
    } else if last == 0x40 {
        screen.insert_cells(first)
    } else if last == 0x53 {
        screen.scroll_up(first)
    } else {
        screen.scroll_down(first)
    }
}

/// The control sequences that set or ask for something, and those that are not
/// acted on.
#[verifier::opaque]
pub open spec fn setting(
    groups: Seq<Seq<u16>>,
    private: Option<u8>,
    intermediate: Option<u8>,
    screen: ScreenModel,
    last: u8,
) -> ScreenModel {
    let kind = param(groups, 0, 0);
    let plain = private is None;
    if last == 0x72 {
        screen.set_region(
            param(groups, 0, 1) - 1,
            param(groups, 1, bottom_default(screen.rows)) - 1,
        )
    } else if last == 0x68 || last == 0x6c {
        screen.set_modes(private == Some(0x3fu8), groups, last == 0x68)
    } else if last == 0x6d && plain {
        screen.select_graphic_rendition(groups)
    } else if last == 0x6e {
        screen.report(kind)
    } else if last == 0x63 {
        if plain {
            screen.identify()
        } else {
            screen
        }
    } else if last == 0x73 {
        if plain {
            screen.save_cursor()
        } else {
            screen
        }
    } else if last == 0x75 {
        if plain {
            screen.restore_cursor()
        } else {
            screen
        }
    } else if last == 0x67 {
        screen.clear_stop(kind == 3)
    } else {
        screen.note_unhandled(
            seq![
                'C',
                'S',
                'I',
                ' ',
                or_blank(private),
                or_blank(intermediate),
                last as char,
            ],
        )
    }
}

/// What a control sequence does, by its final byte.
pub open spec fn dispatch(
    groups: Seq<Seq<u16>>,
    private: Option<u8>,
    intermediate: Option<u8>,
    screen: ScreenModel,
    last: u8,
) -> ScreenModel {
    if is_motion(last) {
        motion(groups, screen, last)
    } else if is_edit(last) {
        edit(groups, screen, last)
    } else {
        setting(groups, private, intermediate, screen, last)
    }
}

} // verus!
