//! Which look goes where, said of the colours and the marks of each look.
use crate::session::Rgb;
use crate::terminal_appearance::codec;
use crate::terminal_appearance::laws;
use crate::terminal_appearance::page::{self, Target};
use crate::terminal_appearance::style::{self, Papers, StyleModel, TerminalSettings};
use crate::terminal_panels::tab::StripModel;
use vstd::prelude::*;

verus! {

/// The paper of a terminal: its own where it has one, else that of its tab, else
/// that of its pane, else that of all terminals.
pub proof fn the_nearest_paper_counts(own: Option<StyleModel>, base: StyleModel, papers: Papers)
    ensures
        ({
            let look = style::front_look(own, base, papers);
            let has_own = own is Some && own->0.paper_own;
            &&& has_own ==> look.paper == own->0.paper
            &&& !has_own && papers.tab is Some ==> look.paper == papers.tab->0
            &&& !has_own && papers.tab is None && papers.pane is Some ==> look.paper
                == papers.pane->0
            &&& !has_own && papers.tab is None && papers.pane is None ==> look.paper == base.paper
        }),
{
}

/// All of a look but its paper is its own, or that of all terminals.
pub proof fn the_rest_of_a_look_stays(own: Option<StyleModel>, base: StyleModel, papers: Papers)
    ensures
        ({
            let look = style::front_look(own, base, papers);
            let from = if own is Some {
                own->0
            } else {
                base
            };
            &&& look.ink == from.ink
            &&& look.size == from.size
            &&& look.family == from.family
            &&& look.bold == from.bold
            &&& look.italic == from.italic
            &&& look.underline == from.underline
            &&& look.transparency == from.transparency
        }),
{
}

/// The paper of a tab does not reach the panel below it.
pub proof fn a_panel_has_no_paper_of_the_tab(
    own: Option<StyleModel>,
    base: StyleModel,
    pane: Option<Rgb>,
)
    ensures
        own is None && pane is Some ==> style::panel_look(own, base, pane).paper == pane->0,
        own is None && pane is None ==> style::panel_look(own, base, pane) == base,
        own is Some && own->0.paper_own ==> style::panel_look(own, base, pane) == own->0,
{
}

/// The look of one kind is replaced, and that of no other.
pub proof fn one_kind_is_replaced(
    defaults: Seq<StyleModel>,
    settings: TerminalSettings,
    kind: int,
    look: StyleModel,
)
    requires
        0 <= kind < 3,
        defaults.len() == 3,
    ensures
        page::with_default(defaults, settings, kind, look) == defaults.update(kind, look),
{
    assert(page::with_default(defaults, settings, kind, look) =~= defaults.update(kind, look));
}

/// Where no look was chosen yet, a kind has the colours of all terminals.
pub proof fn a_kind_begins_as_the_terminals(
    defaults: Seq<StyleModel>,
    kind: int,
    settings: TerminalSettings,
)
    requires
        kind >= 0,
    ensures
        ({
            let look = style::default_for(defaults, kind, settings);
            &&& kind < defaults.len() ==> look == defaults[kind]
            &&& kind >= defaults.len() ==> look.paper == settings.paper && look.ink == settings.ink
                && look.family == settings.family@ && !look.bold && !look.italic && !look.underline
                && look.transparency == 0 && look.random == 0
            &&& kind >= defaults.len() && kind != 1 ==> look.size == settings.size
            &&& kind >= defaults.len() && kind == 1 ==> look.size == 14
        }),
{
}

/// A look that is drawn by lot keeps all but its colours; one that draws none is
/// left alone.
pub proof fn a_drawn_look_keeps_the_rest(look: StyleModel, paper: Rgb, ink: Rgb)
    ensures
        style::drawn(look, paper, ink) is None <==> look.random == 0,
        look.random != 0 ==> ({
            let after = style::drawn(look, paper, ink)->0;
            &&& after.paper == paper
            &&& after.ink == ink
            &&& after.paper_own
            &&& after.size == look.size
            &&& after.family == look.family
            &&& after.random == look.random
            &&& after.bold == look.bold
            &&& after.italic == look.italic
            &&& after.underline == look.underline
            &&& after.transparency == look.transparency
        }),
{
}

/// A number is kept where it lies within its bounds, and else is the nearer one.
pub proof fn a_number_is_brought_within(number: i32, least: i32, most: i32)
    requires
        least <= most,
    ensures
        least <= style::within(number, least, most) <= most,
        least <= number <= most ==> style::within(number, least, most) == number,
        number < least ==> style::within(number, least, most) == least,
        number > most ==> style::within(number, least, most) == most,
{
}

/// A look is asked for of a kind, of the terminal in front or of a panel, each
/// where there is one.
pub proof fn a_look_is_asked_of_someone(
    at: i32,
    scope: i32,
    tab: Option<u64>,
    entry: Option<u64>,
)
    ensures
        ({
            let target = page::asked_for(at, scope, tab, entry);
            &&& scope == 0 && 0 <= at <= 2 ==> target == Some(Target::Default(at as usize))
            &&& scope == 0 ==> target is Some
            &&& scope == 2 && entry is Some ==> target == Some(Target::Panel(entry->0))
            &&& scope == 2 && entry is None ==> target is None
            &&& scope == 1 && tab is Some ==> target == Some(Target::Front(tab->0))
            &&& scope == 1 && tab is None ==> target is None
        }),
{
}

/// A look of a terminal goes to the tab that shows it, and to no other. The
/// paper of that tab goes.
pub proof fn a_front_look_goes_to_its_tab(
    strip: StripModel,
    id: u64,
    look: Option<StyleModel>,
    k: int,
)
    requires
        0 <= k < strip.tabs.len(),
    ensures
        ({
            let after = page::placed(strip, Target::Front(id), look);
            &&& after.tabs.len() == strip.tabs.len()
            &&& after.active == strip.active
            &&& strip.tabs[k].id != id ==> after.tabs[k] == strip.tabs[k]
            &&& strip.tabs[k].id == id ==> after.tabs[k].below.front_style == look
                && after.tabs[k].paper.ground is None && after.tabs[k].paper.ink is None
                && after.tabs[k].below.entries == strip.tabs[k].below.entries
        }),
{
}

/// A look of a panel goes to that panel, and to no other.
pub proof fn a_panel_look_goes_to_its_panel(
    strip: StripModel,
    id: u64,
    look: Option<StyleModel>,
    k: int,
    at: int,
)
    requires
        0 <= k < strip.tabs.len(),
        0 <= at < strip.tabs[k].below.entries.len(),
    ensures
        ({
            let before = strip.tabs[k].below.entries[at];
            let after = page::placed(strip, Target::Panel(id), look).tabs[k].below.entries[at];
            &&& before.id == id ==> after.style == look && after.text == before.text
            &&& before.id != id ==> after == before
        }),
{
}

/// Only the look of a kind draws its paper by lot.
pub proof fn only_a_kind_draws(target: Target, look: StyleModel)
    ensures
        target is Default ==> page::given(target, look) == look,
        !(target is Default) ==> page::given(target, look).random == 0,
        page::given(target, look).paper == look.paper,
        page::given(target, look).ink == look.ink,
        page::given(target, look).size == look.size,
        page::given(target, look).family == look.family,
{
}

/// What a small hexadecimal digit is worth.
pub open spec fn digit_worth(c: char) -> int {
    if '0' <= c && c <= '9' {
        c as u32 - 48
    } else {
        c as u32 - 87
    }
}

/// A small hexadecimal digit.
pub open spec fn is_small_digit(c: char) -> bool {
    ('0' <= c && c <= '9') || ('a' <= c && c <= 'f')
}

/// A colour is written behind a hash, with two small digits each for red, green and blue.
pub proof fn a_colour_is_written_in_small_digits(colour: Rgb)
    ensures
        ({
            let written = codec::colour_text(colour);
            &&& written.len() == 7
            &&& written[0] == '#'
            &&& forall|k: int| 1 <= k < 7 ==> is_small_digit(#[trigger] written[k])
            &&& 16 * digit_worth(written[1]) + digit_worth(written[2]) == colour.red
            &&& 16 * digit_worth(written[3]) + digit_worth(written[4]) == colour.green
            &&& 16 * digit_worth(written[5]) + digit_worth(written[6]) == colour.blue
        }),
{
    let written = codec::colour_text(colour);
    assert(is_small_digit(written[1]) && is_small_digit(written[2]));
    assert(is_small_digit(written[3]) && is_small_digit(written[4]));
    assert(is_small_digit(written[5]) && is_small_digit(written[6]));
}

/// The fields of a look stand in their order, and the name of its font is the last.
pub proof fn the_fields_of_a_look_have_their_order(look: StyleModel)
    ensures
        ({
            let fields = codec::fields_of(look);
            &&& fields.len() == 9
            &&& codec::colour_in(fields[0]) == Some(look.paper)
            &&& codec::colour_in(fields[1]) == Some(look.ink)
            &&& fields[4] == if look.bold {
                "true"@
            } else {
                "false"@
            }
            &&& fields[5] == if look.italic {
                "true"@
            } else {
                "false"@
            }
            &&& fields[6] == if look.underline {
                "true"@
            } else {
                "false"@
            }
            &&& fields[8] == look.family
        }),
{
    laws::a_colour_reads_back(look.paper);
    laws::a_colour_reads_back(look.ink);
}

} // verus!
