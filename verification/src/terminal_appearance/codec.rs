//! A look as a line of text.
use crate::lines;
use crate::numbers;
use crate::session::Rgb;
use crate::terminal_appearance::style::{self, PanelStyle, StyleModel};
use crate::text;
use vstd::prelude::*;

verus! {

/// The digit of a number below sixteen.
pub open spec fn hex_digit(number: int) -> char {
    if number < 10 {
        (48 + number) as char
    } else {
        (87 + number) as char
    }
}

/// The number of a digit.
pub open spec fn hex_value(c: char) -> Option<int> {
    if '0' <= c && c <= '9' {
        Some(c as u32 - 48)
    } else if 'a' <= c && c <= 'f' {
        Some(c as u32 - 87)
    } else if 'A' <= c && c <= 'F' {
        Some(c as u32 - 55)
    } else {
        None
    }
}

/// A colour as it is written: a hash, and two digits each for red, green and
/// blue.
pub open spec fn colour_text(colour: Rgb) -> Seq<char> {
    seq![
        '#',
        hex_digit(colour.red as int / 16),
        hex_digit(colour.red as int % 16),
        hex_digit(colour.green as int / 16),
        hex_digit(colour.green as int % 16),
        hex_digit(colour.blue as int / 16),
        hex_digit(colour.blue as int % 16),
    ]
}

/// The number of two digits.
pub open spec fn byte_at(text: Seq<char>, at: int) -> Option<int> {
    match (hex_value(text[at]), hex_value(text[at + 1])) {
        (Some(high), Some(low)) => Some(16 * high + low),
        _ => None,
    }
}

/// The colour that a text is.
pub open spec fn colour_in(text: Seq<char>) -> Option<Rgb> {
    if text.len() == 7 && text[0] == '#' && byte_at(text, 1) is Some && byte_at(text, 3) is Some
        && byte_at(text, 5) is Some {
        Some(
            Rgb {
                red: byte_at(text, 1)->0 as u8,
                green: byte_at(text, 3)->0 as u8,
                blue: byte_at(text, 5)->0 as u8,
            },
        )
    } else {
        None
    }
}

fn to_hex(number: u8) -> (out: char)
    requires
        number < 16,
    ensures
        out == hex_digit(number as int),
{
    if number < 10 {
        (48 + number) as char
    } else {
        (87 + number) as char
    }
}

fn from_hex(c: char) -> (out: Option<u8>)
    ensures
        match out {
            Some(number) => hex_value(c) == Some(number as int) && number < 16,
            None => hex_value(c) is None,
        },
{
    let code: u32 = c as u32;
    if '0' <= c && c <= '9' {
        Some((code - 48) as u8)
    } else if 'a' <= c && c <= 'f' {
        Some((code - 87) as u8)
    } else if 'A' <= c && c <= 'F' {
        Some((code - 55) as u8)
    } else {
        None
    }
}

/// [`colour_text`], as a string.
pub fn hex_colour(colour: Rgb) -> (out: String)
    ensures
        out@ == colour_text(colour),
{
    let mut out = String::new();
    out.push('#');
    out.push(to_hex(colour.red / 16));
    out.push(to_hex(colour.red % 16));
    out.push(to_hex(colour.green / 16));
    out.push(to_hex(colour.green % 16));
    out.push(to_hex(colour.blue / 16));
    out.push(to_hex(colour.blue % 16));
    assert(out@ =~= colour_text(colour));
    out
}

fn read_byte(chars: &Vec<char>, at: usize) -> (out: Option<u8>)
    requires
        at + 1 < chars.len(),
    ensures
        match out {
            Some(number) => byte_at(chars@, at as int) == Some(number as int),
            None => byte_at(chars@, at as int) is None,
        },
{
    match (from_hex(chars[at]), from_hex(chars[at + 1])) {
        (Some(high), Some(low)) => Some(16 * high + low),
        _ => None,
    }
}

/// [`colour_in`], of a string.
pub fn parse_hex_colour(source: &str) -> (out: Option<Rgb>)
    ensures
        out == colour_in(source@),
{
    let chars = text::chars_of(source);
    if chars.len() != 7 || chars[0] != '#' {
        return None;
    }
    match (read_byte(&chars, 1), read_byte(&chars, 3), read_byte(&chars, 5)) {
        (Some(red), Some(green), Some(blue)) => Some(Rgb { red, green, blue }),
        _ => None,
    }
}

pub open spec fn truth_text(truth: bool) -> Seq<char> {
    if truth {
        "true"@
    } else {
        "false"@
    }
}

pub open spec fn truth_in(text: Seq<char>) -> Option<bool> {
    if text == "true"@ {
        Some(true)
    } else if text == "false"@ {
        Some(false)
    } else {
        None
    }
}

fn spell_truth(truth: bool) -> (out: String)
    ensures
        out@ == truth_text(truth),
{
    if truth {
        "true".to_owned()
    } else {
        "false".to_owned()
    }
}

fn read_truth(source: &str) -> (out: Option<bool>)
    ensures
        out == truth_in(source@),
{
    if text::same_text(source, "true") {
        Some(true)
    } else if text::same_text(source, "false") {
        Some(false)
    } else {
        None
    }
}

/// The fields of a look, in the order in which they are written. The font is the
/// last, for its name may be anything.
pub open spec fn fields_of(style: StyleModel) -> Seq<Seq<char>> {
    seq![
        colour_text(style.paper),
        colour_text(style.ink),
        numbers::signed(style.size as int),
        numbers::signed(style.transparency as int),
        truth_text(style.bold),
        truth_text(style.italic),
        truth_text(style.underline),
        numbers::signed(style.random as int),
        style.family,
    ]
}

/// The look that nine fields give, each number within its bounds.
pub open spec fn style_in(fields: Seq<Seq<char>>) -> Option<StyleModel> {
    if fields.len() == 9 && colour_in(fields[0]) is Some && colour_in(fields[1]) is Some
        && numbers::signed_in(fields[2]) is Some && numbers::signed_in(fields[3]) is Some
        && truth_in(fields[4]) is Some && truth_in(fields[5]) is Some && truth_in(fields[6]) is Some
        && numbers::signed_in(fields[7]) is Some {
        Some(
            StyleModel {
                paper_own: true,
                paper: colour_in(fields[0])->0,
                ink: colour_in(fields[1])->0,
                size: style::within(numbers::signed_in(fields[2])->0 as i32, 8, 72),
                transparency: style::within(numbers::signed_in(fields[3])->0 as i32, 0, 100),
                bold: truth_in(fields[4])->0,
                italic: truth_in(fields[5])->0,
                underline: truth_in(fields[6])->0,
                random: style::within(numbers::signed_in(fields[7])->0 as i32, 0, 2),
                family: fields[8],
            },
        )
    } else {
        None
    }
}

fn spell_number(number: i32) -> (out: String)
    ensures
        out@ == numbers::signed(number as int),
{
    let mut out = String::new();
    numbers::push_signed(&mut out, number);
    assert(out@ =~= numbers::signed(number as int));
    out
}

/// A look as a line: its fields, with tabs between.
pub fn encode(style: &PanelStyle) -> (out: String)
    ensures
        out@ == lines::tabbed(fields_of(style@)),
{
    let mut fields: Vec<String> = Vec::new();
    fields.push(hex_colour(style.paper));
    fields.push(hex_colour(style.ink));
    fields.push(spell_number(style.size));
    fields.push(spell_number(style.transparency));
    fields.push(spell_truth(style.bold));
    fields.push(spell_truth(style.italic));
    fields.push(spell_truth(style.underline));
    fields.push(spell_number(style.random));
    fields.push(style.family.clone());
    assert(lines::texts(fields@) =~= fields_of(style@));
    lines::join_tabs(&fields)
}

/// The look that a line is, if it is one.
pub fn decode(source: &str) -> (out: Option<PanelStyle>)
    ensures
        style::optional(out) == style_in(lines::tab_fields(source@, 9)),
{
    let fields = lines::take_fields(source, 9);
    let ghost all = lines::texts(fields@);
    if fields.len() != 9 {
        return None;
    }
    proof {
        assert(all[0] == fields@[0]@ && all[1] == fields@[1]@ && all[2] == fields@[2]@);
        assert(all[3] == fields@[3]@ && all[4] == fields@[4]@ && all[5] == fields@[5]@);
        assert(all[6] == fields@[6]@ && all[7] == fields@[7]@ && all[8] == fields@[8]@);
    }
    let paper = match parse_hex_colour(fields[0].as_str()) {
        Some(held) => held,
        None => return None,
    };
    let ink = match parse_hex_colour(fields[1].as_str()) {
        Some(held) => held,
        None => return None,
    };
    let size: i32 = match numbers::read_signed(fields[2].as_str()) {
        Some(held) => held,
        None => return None,
    };
    let transparency: i32 = match numbers::read_signed(fields[3].as_str()) {
        Some(held) => held,
        None => return None,
    };
    let bold = match read_truth(fields[4].as_str()) {
        Some(held) => held,
        None => return None,
    };
    let italic = match read_truth(fields[5].as_str()) {
        Some(held) => held,
        None => return None,
    };
    let underline = match read_truth(fields[6].as_str()) {
        Some(held) => held,
        None => return None,
    };
    let random: i32 = match numbers::read_signed(fields[7].as_str()) {
        Some(held) => held,
        None => return None,
    };
    Some(
        PanelStyle {
            paper_own: true,
            paper,
            ink,
            size: style::keep_within(size, 8, 72),
            transparency: style::keep_within(transparency, 0, 100),
            bold,
            italic,
            underline,
            random: style::keep_within(random, 0, 2),
            family: fields[8].clone(),
        },
    )
}

} // verus!
