//! What the looks promise as a whole.
use crate::lines;
use crate::numbers;
use crate::session::Rgb;
use crate::terminal_appearance::codec;
use crate::terminal_appearance::style::{self, StyleModel};
use vstd::prelude::*;

verus! {

/// A colour that is written reads back, and holds no tab.
pub proof fn a_colour_reads_back(colour: Rgb)
    ensures
        codec::colour_in(codec::colour_text(colour)) == Some(colour),
        !codec::colour_text(colour).contains('\t'),
{
    let text = codec::colour_text(colour);
    assert(forall|number: int|
        0 <= number < 16 ==> codec::hex_value(#[trigger] codec::hex_digit(number)) == Some(number)
            && codec::hex_digit(number) != '\t');
    assert(codec::byte_at(text, 1) == Some(colour.red as int));
    assert(codec::byte_at(text, 3) == Some(colour.green as int));
    assert(codec::byte_at(text, 5) == Some(colour.blue as int));
}

proof fn truths_read_back(truth: bool)
    ensures
        codec::truth_in(codec::truth_text(truth)) == Some(truth),
        !codec::truth_text(truth).contains('\t'),
{
    reveal_strlit("true");
    reveal_strlit("false");
    assert("true"@.len() == 4 && "false"@.len() == 5);
}

proof fn numbers_hold_no_tab(number: i32)
    ensures
        !numbers::signed(number as int).contains('\t'),
        numbers::signed_in(numbers::signed(number as int)) == Some(number as int),
{
    numbers::a_signed_number_reads_back(number as int);
    let text = numbers::signed(number as int);
    if text.contains('\t') {
        let i = choose|i: int| 0 <= i < text.len() && text[i] == '\t';
        assert(numbers::is_digit(text[i]) || text[i] == '-');
    }
}

/// A look with its paper its own and its numbers within their bounds.
pub open spec fn settled(style: StyleModel) -> StyleModel {
    StyleModel {
        paper_own: true,
        size: style::within(style.size, 8, 72),
        transparency: style::within(style.transparency, 0, 100),
        random: style::within(style.random, 0, 2),
        ..style
    }
}

/// A look that is written comes back as it was, its numbers brought within their
/// bounds.
pub proof fn a_look_comes_back(style: StyleModel)
    ensures
        codec::style_in(lines::tab_fields(lines::tabbed(codec::fields_of(style)), 9)) == Some(
            settled(style),
        ),
{
    a_colour_reads_back(style.paper);
    a_colour_reads_back(style.ink);
    truths_read_back(style.bold);
    truths_read_back(style.italic);
    truths_read_back(style.underline);
    numbers_hold_no_tab(style.size);
    numbers_hold_no_tab(style.transparency);
    numbers_hold_no_tab(style.random);
    lines::tabbed_comes_apart(codec::fields_of(style));
}

/// A look that came back is written as it was read.
pub proof fn a_look_is_written_alike(style: StyleModel)
    requires
        settled(style) == style,
    ensures
        ({
            let line = lines::tabbed(codec::fields_of(style));
            let back = codec::style_in(lines::tab_fields(line, 9));
            back is Some && lines::tabbed(codec::fields_of(back->0)) == line
        }),
{
    a_look_comes_back(style);
}

} // verus!
