//! Cells, lines and the cursor.
use crate::text::push_range;
use vstd::prelude::*;

verus! {

/// A colour as the shell named it.
///
/// The names are not resolved here: `Indexed(2)` is "the palette's green", and
/// which green that is belongs to the display settings, not to the stream.
#[derive(Clone, Copy, PartialEq, Eq, Structural, Hash, Debug)]
pub enum Color {
    Default,
    Indexed(u8),
    Rgb(u8, u8, u8),
}

/// Everything about a cell except which character it holds.
#[derive(Clone, Copy, PartialEq, Eq, Structural, Hash, Debug)]
pub struct Attrs {
    pub foreground: Color,
    pub background: Color,
    pub bold: bool,
    pub faint: bool,
    pub italic: bool,
    pub underline: bool,
    pub blink: bool,
    /// Foreground and background swap when drawn. Not resolved here, for the
    /// same reason that the colours are not.
    pub reverse: bool,
    pub hidden: bool,
    pub struck: bool,
}

/// The pen nothing has been asked of.
pub open spec fn plain() -> Attrs {
    Attrs {
        foreground: Color::Default,
        background: Color::Default,
        bold: false,
        faint: false,
        italic: false,
        underline: false,
        blink: false,
        reverse: false,
        hidden: false,
        struck: false,
    }
}

impl Default for Color {
    fn default() -> (out: Self)
        ensures
            out == Color::Default,
    {
        Color::Default
    }
}

impl Default for Attrs {
    fn default() -> (out: Self)
        ensures
            out == plain(),
    {
        Attrs {
            foreground: Color::Default,
            background: Color::Default,
            bold: false,
            faint: false,
            italic: false,
            underline: false,
            blink: false,
            reverse: false,
            hidden: false,
            struck: false,
        }
    }
}

/// One cell of the screen.
///
/// A full-width character occupies two cells: the character sits in the first
/// and the second is a `trailing` spacer. The spacer is a real cell: the cursor
/// can be put on it, and erasing either half has to clear both.
#[derive(Clone, Copy, PartialEq, Eq, Structural, Hash, Debug)]
pub struct Cell {
    pub text: char,
    pub attrs: Attrs,
    pub trailing: bool,
}

/// A cell that was cleared with these attributes.
pub open spec fn blank_cell(attrs: Attrs) -> Cell {
    Cell { text: ' ', attrs, trailing: false }
}

impl Default for Cell {
    fn default() -> (out: Self)
        ensures
            out == blank_cell(plain()),
    {
        Cell { text: ' ', attrs: Attrs::default(), trailing: false }
    }
}

impl Cell {
    pub(crate) fn blank(attrs: Attrs) -> (out: Self)
        ensures
            out == blank_cell(attrs),
    {
        Cell { text: ' ', attrs, trailing: false }
    }

    /// The cell holds nothing a reader would see.
    pub fn is_blank(&self) -> (out: bool)
        ensures
            out == (self.text == ' ' && !self.trailing),
    {
        self.text == ' ' && !self.trailing
    }
}

/// One row of cells.
#[derive(Clone, PartialEq, Eq, Hash, Debug)]
pub struct Line {
    pub cells: Vec<Cell>,
    /// The line ran off the right edge and continues on the next one. Copying a
    /// wrapped line should not insert a newline, which is the only reason this
    /// is remembered.
    pub wrapped: bool,
}

/// What a [`Line`] holds.
#[verifier::ext_equal]
pub struct LineModel {
    pub cells: Seq<Cell>,
    pub wrapped: bool,
}

impl View for Line {
    type V = LineModel;

    open spec fn view(&self) -> LineModel {
        LineModel { cells: self.cells@, wrapped: self.wrapped }
    }
}

/// A row of `columns` cleared cells.
pub open spec fn blank_line(columns: int, attrs: Attrs) -> LineModel {
    LineModel { cells: Seq::new(columns as nat, |at: int| blank_cell(attrs)), wrapped: false }
}

/// The characters of a row: every cell's but the spacers'.
pub open spec fn shown(cells: Seq<Cell>) -> Seq<char>
    decreases cells.len(),
{
    if cells.len() == 0 {
        Seq::empty()
    } else {
        let before = shown(cells.drop_last());
        if cells.last().trailing {
            before
        } else {
            before.push(cells.last().text)
        }
    }
}

/// A text without the blanks at its end.
pub open spec fn trimmed(text: Seq<char>) -> Seq<char>
    decreases text.len(),
{
    if text.len() > 0 && text.last() == ' ' {
        trimmed(text.drop_last())
    } else {
        text
    }
}

impl LineModel {
    /// The row as a reader sees it, without the blanks at its end.
    pub open spec fn text(self) -> Seq<char> {
        trimmed(shown(self.cells))
    }

    /// The row's share of the line that it belongs to: blanks at the end of a
    /// row that runs on are part of the text.
    pub open spec fn logical_text(self) -> Seq<char> {
        if self.wrapped {
            shown(self.cells)
        } else {
            self.text()
        }
    }
}

impl Line {
    pub(crate) fn shown_chars(&self) -> (out: Vec<char>)
        ensures
            out@ == shown(self@.cells),
    {
        let mut out: Vec<char> = Vec::new();
        let mut at: usize = 0;
        while at < self.cells.len()
            invariant
                at <= self.cells.len(),
                out@ == shown(self.cells@.take(at as int)),
            decreases self.cells.len() - at,
        {
            proof {
                assert(self.cells@.take(at + 1).drop_last() =~= self.cells@.take(at as int));
            }
            if !self.cells[at].trailing {
                out.push(self.cells[at].text);
            }
            at += 1;
        }
        proof {
            assert(self.cells@.take(at as int) =~= self.cells@);
        }
        out
    }

    /// The row's share of the line that it belongs to.
    pub fn logical_text(&self) -> (out: String)
        ensures
            out@ == self@.logical_text(),
    {
        if self.wrapped {
            let chars = self.shown_chars();
            let mut out = String::new();
            push_range(&mut out, &chars, 0, chars.len());
            assert(out@ =~= chars@);
            out
        } else {
            self.text()
        }
    }

    pub(crate) fn blank(columns: usize, attrs: Attrs) -> (out: Self)
        ensures
            out@ == blank_line(columns as int, attrs),
    {
        let mut cells: Vec<Cell> = Vec::new();
        let mut at: usize = 0;
        while at < columns
            invariant
                at <= columns,
                cells@ == Seq::new(at as nat, |k: int| blank_cell(attrs)),
            decreases columns - at,
        {
            cells.push(Cell::blank(attrs));
            at += 1;
            assert(cells@ =~= Seq::new(at as nat, |k: int| blank_cell(attrs)));
        }
        Line { cells, wrapped: false }
    }

    /// The row as a reader sees it, without the trailing blanks.
    pub fn text(&self) -> (out: String)
        ensures
            out@ == self@.text(),
    {
        let chars = self.shown_chars();
        let mut end: usize = chars.len();
        assert(chars@.take(end as int) =~= chars@);
        while end > 0 && chars[end - 1] == ' '
            invariant
                end <= chars.len(),
                trimmed(chars@.take(end as int)) == trimmed(chars@),
            decreases end,
        {
            proof {
                assert(chars@.take(end as int).drop_last() =~= chars@.take(end - 1));
            }
            end -= 1;
        }
        let mut out = String::new();
        push_range(&mut out, &chars, 0, end);
        assert(out@ =~= chars@.take(end as int));
        out
    }
}

/// Where the next character goes.
#[derive(Clone, Copy, PartialEq, Eq, Structural, Debug)]
pub struct Cursor {
    pub row: usize,
    pub column: usize,
    /// The last column is written, and only then does the line wrap. A terminal
    /// that wraps as soon as the last column is filled would break every
    /// program that draws a full-width box.
    pub pending_wrap: bool,
}

/// The upper left corner.
pub open spec fn home() -> Cursor {
    Cursor { row: 0, column: 0, pending_wrap: false }
}

impl Default for Cursor {
    fn default() -> (out: Self)
        ensures
            out == home(),
    {
        Cursor { row: 0, column: 0, pending_wrap: false }
    }
}

/// The modes the shell has asked for.
///
/// These are recorded, not obeyed: whether the pane sends bracketed paste
/// markers or focus events is a question for the pane.
#[derive(Clone, Copy, PartialEq, Eq, Structural, Debug)]
pub struct Modes {
    pub cursor_visible: bool,
    pub bracketed_paste: bool,
    pub focus_events: bool,
    /// The console asks for its own input records instead of VT input. It is
    /// recorded, and VT is still what is sent.
    pub win32_input: bool,
    pub application_cursor_keys: bool,
    pub mouse_tracking: bool,
    pub alternate_screen: bool,
}

/// What holds before the shell asks for anything.
pub open spec fn first_modes() -> Modes {
    Modes {
        cursor_visible: true,
        bracketed_paste: false,
        focus_events: false,
        win32_input: false,
        application_cursor_keys: false,
        mouse_tracking: false,
        alternate_screen: false,
    }
}

impl Default for Modes {
    fn default() -> (out: Self)
        ensures
            out == first_modes(),
    {
        Modes {
            cursor_visible: true,
            bracketed_paste: false,
            focus_events: false,
            win32_input: false,
            application_cursor_keys: false,
            mouse_tracking: false,
            alternate_screen: false,
        }
    }
}

/// A combining mark: it takes no cell of its own.
pub open spec fn is_combining(code: u32) -> bool {
    ||| 0x0300 <= code <= 0x036F
    ||| 0x0483 <= code <= 0x0489
    ||| 0x1AB0 <= code <= 0x1AFF
    ||| 0x1DC0 <= code <= 0x1DFF
    ||| 0x20D0 <= code <= 0x20F0
    ||| 0xFE00 <= code <= 0xFE0F
    ||| 0xFE20 <= code <= 0xFE2F
    ||| 0x200B <= code <= 0x200F
}

/// An East Asian wide character: it takes two cells.
pub open spec fn is_wide(code: u32) -> bool {
    ||| 0x1100 <= code <= 0x115F
    ||| 0x2E80 <= code <= 0x303E
    ||| 0x3041 <= code <= 0x33FF
    ||| 0x3400 <= code <= 0x4DBF
    ||| 0x4E00 <= code <= 0x9FFF
    ||| 0xA000 <= code <= 0xA4CF
    ||| 0xA960 <= code <= 0xA97F
    ||| 0xAC00 <= code <= 0xD7A3
    ||| 0xF900 <= code <= 0xFAFF
    ||| 0xFE10 <= code <= 0xFE19
    ||| 0xFE30 <= code <= 0xFE6F
    ||| 0xFF00 <= code <= 0xFF60
    ||| 0xFFE0 <= code <= 0xFFE6
    ||| 0x1F300 <= code <= 0x1F64F
    ||| 0x1F900 <= code <= 0x1F9FF
    ||| 0x20000 <= code <= 0x2FFFD
    ||| 0x30000 <= code <= 0x3FFFD
}

/// How many cells a character occupies.
pub open spec fn width_of(text: char) -> int {
    if is_combining(text as u32) {
        0
    } else if is_wide(text as u32) {
        2
    } else {
        1
    }
}

fn within(code: u32, low: u32, high: u32) -> (out: bool)
    ensures
        out == (low <= code <= high),
{
    low <= code && code <= high
}

/// How many cells a character occupies.
///
/// The ranges are the wide ones, not the whole of the East Asian Width table:
/// everything not named is one cell, and the combining marks are none.
pub fn character_width(text: char) -> (out: usize)
    ensures
        out == width_of(text),
{
    let code: u32 = text as u32;
    if within(code, 0x0300, 0x036F) || within(code, 0x0483, 0x0489) || within(code, 0x1AB0, 0x1AFF)
        || within(code, 0x1DC0, 0x1DFF) || within(code, 0x20D0, 0x20F0) || within(
        code,
        0xFE00,
        0xFE0F,
    ) || within(code, 0xFE20, 0xFE2F) || within(code, 0x200B, 0x200F) {
        return 0;
    }
    if within(code, 0x1100, 0x115F) || within(code, 0x2E80, 0x303E) || within(code, 0x3041, 0x33FF)
        || within(code, 0x3400, 0x4DBF) || within(code, 0x4E00, 0x9FFF) || within(
        code,
        0xA000,
        0xA4CF,
    ) || within(code, 0xA960, 0xA97F) || within(code, 0xAC00, 0xD7A3) || within(
        code,
        0xF900,
        0xFAFF,
    ) || within(code, 0xFE10, 0xFE19) || within(code, 0xFE30, 0xFE6F) || within(
        code,
        0xFF00,
        0xFF60,
    ) || within(code, 0xFFE0, 0xFFE6) || within(code, 0x1F300, 0x1F64F) || within(
        code,
        0x1F900,
        0x1F9FF,
    ) || within(code, 0x20000, 0x2FFFD) || within(code, 0x30000, 0x3FFFD) {
        return 2;
    }
    1
}

} // verus!
