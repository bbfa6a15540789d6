//! Colours, attributes, modes and reports.
use crate::terminal::cell::{Attrs, Color, Modes};
use crate::terminal::model;
use crate::terminal::screen::Screen;
use crate::text::push_decimal;
use vstd::prelude::*;

verus! {

fn low_byte(value: u16) -> (out: u8)
    ensures
        out == model::low_byte(value),
{
    (value % 256) as u8
}

/// The `5;n` and `2;r;g;b` tails of 38 and 48.
///
/// Written with colons the parts belong to one parameter and may carry a
/// colour-space slot before the components; written with semicolons they are
/// parameters of their own, and whatever follows the blue one belongs to the
/// next attribute.
fn extended_colour(parts: &Vec<u16>, colon: bool) -> (out: Option<Color>)
    ensures
        out == model::extended(parts@, colon),
{
    if parts.len() == 0 {
        return None;
    }
    if parts[0] == 5 {
        if parts.len() >= 2 {
            Some(Color::Indexed(low_byte(parts[1])))
        } else {
            None
        }
    } else if parts[0] == 2 {
        let first: usize = if colon && parts.len() >= 5 {
            2
        } else {
            1
        };
        if parts.len() >= first + 3 {
            Some(
                Color::Rgb(
                    low_byte(parts[first]),
                    low_byte(parts[first + 1]),
                    low_byte(parts[first + 2]),
                ),
            )
        } else {
            None
        }
    } else {
        None
    }
}

fn first_of(group: &Vec<u16>) -> (out: u16)
    ensures
        out == model::first_of(group@),
{
    if group.len() > 0 {
        group[0]
    } else {
        0
    }
}

/// The numbers of one parameter after its first.
fn tail_of(group: &Vec<u16>) -> (out: Vec<u16>)
    requires
        group@.len() > 0,
    ensures
        out@ == group@.skip(1),
{
    let mut out: Vec<u16> = Vec::new();
    let mut at: usize = 1;
    while at < group.len()
        invariant
            1 <= at <= group@.len(),
            out@ == group@.subrange(1, at as int),
        decreases group@.len() - at,
    {
        out.push(group[at]);
        at += 1;
        assert(out@ =~= group@.subrange(1, at as int));
    }
    assert(out@ =~= group@.skip(1));
    out
}

/// The first numbers of the parameters from `from` on.
fn firsts_from(groups: &Vec<Vec<u16>>, from: usize) -> (out: Vec<u16>)
    requires
        from <= groups@.len(),
    ensures
        out@ == model::firsts(model::groups_of(groups@).skip(from as int)),
{
    let mut out: Vec<u16> = Vec::new();
    let ghost all = model::firsts(model::groups_of(groups@).skip(from as int));
    let mut at: usize = from;
    while at < groups.len()
        invariant
            from <= at <= groups@.len(),
            all == model::firsts(model::groups_of(groups@).skip(from as int)),
            out@ == all.take(at - from),
        decreases groups@.len() - at,
    {
        out.push(first_of(&groups[at]));
        at += 1;
        assert(out@ =~= all.take(at - from));
    }
    assert(out@ =~= all);
    out
}

/// The pen after one attribute that needs no further parameters.
fn attribute(pen: Attrs, code: u16) -> (out: Attrs)
    ensures
        out == model::attribute(pen, code),
{
    let mut out = pen;
    if code == 0 {
        out = Attrs::default();
    } else if code == 1 {
        out.bold = true;
    } else if code == 2 {
        out.faint = true;
    } else if code == 3 {
        out.italic = true;
    } else if code == 4 {
        out.underline = true;
    } else if code == 5 || code == 6 {
        out.blink = true;
    } else if code == 7 {
        out.reverse = true;
    } else if code == 8 {
        out.hidden = true;
    } else if code == 9 {
        out.struck = true;
    } else if code == 21 || code == 22 {
        out.bold = false;
        out.faint = false;
    } else if code == 23 {
        out.italic = false;
    } else if code == 24 {
        out.underline = false;
    } else if code == 25 {
        out.blink = false;
    } else if code == 27 {
        out.reverse = false;
    } else if code == 28 {
        out.hidden = false;
    } else if code == 29 {
        out.struck = false;
    } else if 30 <= code && code <= 37 {
        out.foreground = Color::Indexed((code - 30) as u8);
    } else if code == 39 {
        out.foreground = Color::Default;
    } else if 40 <= code && code <= 47 {
        out.background = Color::Indexed((code - 40) as u8);
    } else if code == 49 {
        out.background = Color::Default;
    } else if 90 <= code && code <= 97 {
        out.foreground = Color::Indexed((code - 90 + 8) as u8);
    } else if 100 <= code && code <= 107 {
        out.background = Color::Indexed((code - 100 + 8) as u8);
    }
    out
}

/// Appends a number in decimal.
pub(crate) fn push_digits(out: &mut Vec<u8>, number: usize)
    ensures
        final(out)@ == old(out)@ + model::digits(number as nat),
    decreases number,
{
    if number >= 10 {
        push_digits(out, number / 10);
    }
    out.push(48 + (number % 10) as u8);
    assert(out@ =~= old(out)@ + model::digits(number as nat));
}

impl Screen {
    pub(crate) fn select_graphic_rendition(&mut self, params: &Vec<Vec<u16>>)
        requires
            old(self)@.wf(),
        ensures
            final(self)@ == old(self)@.select_graphic_rendition(model::groups_of(params@)),
            final(self)@.wf(),
    {
        if params.len() == 0 {
            self.set_pen(Attrs::default());
            return;
        }
        let ghost groups = model::groups_of(params@);
        let first = self.pen();
        let mut pen = first;
        let mut index: usize = 0;
        while index < params.len()
            invariant
                index <= params@.len() == groups.len(),
                groups == model::groups_of(params@),
                model::rendition(pen, groups, index as int) == model::rendition(first, groups, 0),
            decreases params@.len() - index,
        {
            let ghost here = pen;
            assert(groups[index as int] == params@[index as int]@);
            let code: u16 = first_of(&params[index]);
            if code == 38 || code == 48 {
                // Two spellings of the same thing: the parts in one parameter,
                // or spread over several. Both have to be read.
                let mut used: usize = 2;
                let colour = if params[index].len() > 1 {
                    used = 1;
                    extended_colour(&tail_of(&params[index]), true)
                } else {
                    if index + 1 < params.len() {
                        assert(groups[index + 1] == params@[index + 1]@);
                        let kind: u16 = first_of(&params[index + 1]);
                        if kind == 5 {
                            used = 3;
                        } else if kind == 2 {
                            used = 5;
                        }
                    }
                    extended_colour(&firsts_from(params, index + 1), false)
                };
                if let Some(colour) = colour {
                    if code == 38 {
                        pen.foreground = colour;
                    } else {
                        pen.background = colour;
                    }
                }
                assert(used == model::colour_span(groups, index as int));
                index = if used > params.len() - index {
                    params.len()
                } else {
                    index + used
                };
            } else {
                pen = attribute(pen, code);
                index += 1;
            }
        }
        self.set_pen(pen);
    }

    pub(crate) fn set_mode(&mut self, private: bool, mode: u16, on: bool)
        requires
            old(self)@.wf(),
        ensures
            final(self)@ == old(self)@.set_mode(private, mode, on),
            final(self)@.wf(),
    {
        if !private {
            return;
        }
        let modes = self.modes();
        if mode == 1 {
            self.record_modes(Modes { application_cursor_keys: on, ..modes });
        } else if mode == 25 {
            if on != modes.cursor_visible {
                self.record_modes(Modes { cursor_visible: on, ..modes });
                self.touch();
            }
        } else if mode == 1000 || mode == 1002 || mode == 1003 || mode == 1006 {
            self.record_modes(Modes { mouse_tracking: on, ..modes });
        } else if mode == 1004 {
            self.record_modes(Modes { focus_events: on, ..modes });
        } else if mode == 1049 {
            self.use_alternate_screen(on);
        } else if mode == 2004 {
            self.record_modes(Modes { bracketed_paste: on, ..modes });
        } else if mode == 9001 {
            self.record_modes(Modes { win32_input: on, ..modes });
        } else {
            let mut what = String::new();
            what.push('C');
            what.push('S');
            what.push('I');
            what.push(' ');
            what.push('?');
            push_decimal(&mut what, mode as u64);
            what.push(
                if on {
                    'h'
                } else {
                    'l'
                },
            );
            proof {
                assert(what@ =~= seq!['C', 'S', 'I', ' ', '?'] + crate::text::decimal(
                    mode as nat,
                ) + seq![
                    if on {
                        'h'
                    } else {
                        'l'
                    },
                ]);
            }
            self.note_unhandled(what);
        }
    }

    pub(crate) fn report(&mut self, kind: u16)
        requires
            old(self)@.wf(),
        ensures
            final(self)@ == old(self)@.report(kind),
            final(self)@.wf(),
    {
        if kind == 5 {
            let mut answer: Vec<u8> = vec![0x1b, 0x5b, 0x30, 0x6e];
            assert(answer@ =~= seq![0x1bu8, 0x5b, 0x30, 0x6e]);
            self.reply(&mut answer);
        } else if kind == 6 {
            let at = self.cursor();
            let mut answer: Vec<u8> = vec![0x1b, 0x5b];
            push_digits(&mut answer, at.row + 1);
            answer.push(0x3b);
            push_digits(&mut answer, at.column + 1);
            answer.push(0x52);
            assert(answer@ =~= seq![0x1bu8, 0x5b] + model::digits((at.row + 1) as nat)
                + seq![0x3bu8] + model::digits((at.column + 1) as nat) + seq![0x52u8]);
            self.reply(&mut answer);
        }
    }

    /// A VT102 with no options. Claiming less than we are is safe; claiming more
    /// invites sequences that are not implemented.
    pub(crate) fn identify(&mut self)
        requires
            old(self)@.wf(),
        ensures
            final(self)@ == old(self)@.identify(),
            final(self)@.wf(),
    {
        let mut answer: Vec<u8> = vec![0x1b, 0x5b, 0x3f, 0x36, 0x63];
        assert(answer@ =~= seq![0x1bu8, 0x5b, 0x3f, 0x36, 0x63]);
        self.reply(&mut answer);
    }
}

} // verus!
