//! The page on which the writer changes a look.
use crate::lines;
use crate::terminal_appearance::style::{
    self, default_style, PanelStyle, StyleModel, TerminalSettings,
};
use crate::terminal_panels::changes;
use crate::terminal_panels::tab::{self, Strip, StripModel};
use crate::text;
use vstd::prelude::*;

verus! {

/// Whose look the page is about.
#[derive(Clone, Copy, Debug, PartialEq, Eq, Structural)]
pub enum Target {
    /// That of a kind.
    Default(usize),
    /// That of the terminal of a tab.
    Front(u64),
    /// That of a panel.
    Panel(u64),
}

/// What the page shows.
#[derive(Debug)]
pub struct AppearancePage {
    pub target: Target,
    pub title: String,
    /// The look is that of a kind.
    pub is_default: bool,
    pub underline_allowed: bool,
    pub style: PanelStyle,
}

/// The kind that a number asks for.
pub open spec fn kind_of(at: i32) -> int {
    style::within(at, 0, 2) as int
}

/// Whose look is asked for. `scope` 0 is a kind, 2 a panel, anything else the
/// terminal of the tab that is shown.
pub open spec fn asked_for(at: i32, scope: i32, tab: Option<u64>, entry: Option<u64>) -> Option<
    Target,
> {
    if scope == 0 {
        Some(Target::Default(kind_of(at) as usize))
    } else if scope == 2 {
        match entry {
            Some(id) => Some(Target::Panel(id)),
            None => None,
        }
    } else {
        match tab {
            Some(id) => Some(Target::Front(id)),
            None => None,
        }
    }
}

pub open spec fn heading(target: Target) -> Seq<char> {
    match target {
        Target::Default(kind) => if kind == 0 {
            "Terminal"@
        } else if kind == 1 {
            "Editor Panel"@
        } else {
            "Terminal Panel"@
        },
        Target::Front(_) => "Terminal TAB"@,
        Target::Panel(_) => "Panel TAB"@,
    }
}

fn find_heading(target: Target) -> (out: &'static str)
    ensures
        out@ == heading(target),
{
    match target {
        Target::Default(kind) => if kind == 0 {
            "Terminal"
        } else if kind == 1 {
            "Editor Panel"
        } else {
            "Terminal Panel"
        },
        Target::Front(_) => "Terminal TAB",
        Target::Panel(_) => "Panel TAB",
    }
}

/// Opens the page. `front` and `panel` are the looks that are shown, `tab` and
/// `entry` the tab and the panel they are those of; `terminal` says that the
/// pane shows a terminal.
pub fn request(
    at: i32,
    scope: i32,
    defaults: &Vec<PanelStyle>,
    settings: &TerminalSettings,
    tab: Option<u64>,
    front: &PanelStyle,
    entry: Option<u64>,
    panel: &PanelStyle,
    terminal: bool,
    english: bool,
) -> (out: Option<AppearancePage>)
    ensures
        match out {
            Some(page) => asked_for(at, scope, tab, entry) == Some(page.target) && page.title@
                == heading(page.target) + " — "@ + (if english {
                "Appearance"@
            } else {
                "外観"@
            }) && page.is_default == (scope == 0) && page.underline_allowed == (page.target
                != Target::Default(1) && !(scope == 2 && terminal)) && page.style@
                == match page.target {
                Target::Default(kind) => style::default_for(
                    style::models(defaults@),
                    kind as int,
                    *settings,
                ),
                Target::Front(_) => front@,
                Target::Panel(_) => panel@,
            },
            None => asked_for(at, scope, tab, entry) is None,
        },
{
    let (target, look): (Target, PanelStyle) = if scope == 0 {
        let kind: usize = style::keep_within(at, 0, 2) as usize;
        (Target::Default(kind), default_style(defaults, kind, settings))
    } else if scope == 2 {
        match entry {
            Some(id) => (Target::Panel(id), panel.copied()),
            None => return None,
        }
    } else {
        match tab {
            Some(id) => (Target::Front(id), front.copied()),
            None => return None,
        }
    };
    let mut title = find_heading(target).to_owned();
    text::push_text(&mut title, " — ");
    text::push_text(
        &mut title,
        if english {
            "Appearance"
        } else {
            "外観"
        },
    );
    Some(
        AppearancePage {
            target,
            title,
            is_default: scope == 0,
            underline_allowed: target != Target::Default(1) && !(scope == 2 && terminal),
            style: look,
        },
    )
}

/// The looks of the kinds, with one of them replaced.
pub open spec fn with_default(
    defaults: Seq<StyleModel>,
    settings: TerminalSettings,
    kind: int,
    look: StyleModel,
) -> Seq<StyleModel> {
    Seq::new(
        3,
        |k: int|
            if k == kind {
                look
            } else {
                style::default_for(defaults, k, settings)
            },
    )
}

fn replace_default(
    defaults: &mut Vec<PanelStyle>,
    settings: &TerminalSettings,
    kind: usize,
    look: PanelStyle,
)
    requires
        kind < 3,
    ensures
        style::models(final(defaults)@) == with_default(
            style::models(old(defaults)@),
            *settings,
            kind as int,
            look@,
        ),
{
    let ghost before = style::models(defaults@);
    let ghost new = look@;
    let mut all: Vec<PanelStyle> = Vec::new();
    all.push(default_style(defaults, 0, settings));
    all.push(default_style(defaults, 1, settings));
    all.push(default_style(defaults, 2, settings));
    all.set(kind, look);
    assert(style::models(all@) =~= with_default(before, *settings, kind as int, new));
    *defaults = all;
}

/// The panes once a look has been given, or taken away.
pub open spec fn placed(strip: StripModel, target: Target, look: Option<StyleModel>) -> StripModel {
    match target {
        Target::Default(_) => strip,
        Target::Front(id) => StripModel {
            tabs: Seq::new(
                strip.tabs.len(),
                |i: int| changes::fronted(strip.tabs[i], id, look),
            ),
            ..strip
        },
        Target::Panel(id) => StripModel {
            tabs: Seq::new(
                strip.tabs.len(),
                |i: int| changes::restyled(strip.tabs[i], id, look),
            ),
            ..strip
        },
    }
}

fn place_in(strip: &mut Strip, target: Target, look: &Option<PanelStyle>)
    ensures
        final(strip)@ == placed(old(strip)@, target, style::optional(*look)),
{
    match target {
        Target::Default(_) => {},
        Target::Front(id) => changes::set_front_style(strip, id, look),
        Target::Panel(id) => changes::set_panel_style(strip, id, look),
    }
}

fn place_all(strips: &mut Vec<Strip>, target: Target, look: &Option<PanelStyle>)
    ensures
        tab::strip_models(final(strips)@) == Seq::new(
            old(strips)@.len(),
            |i: int| placed(old(strips)@[i]@, target, style::optional(*look)),
        ),
{
    let ghost before = strips@;
    let mut at: usize = 0;
    while at < strips.len()
        invariant
            at <= strips@.len(),
            strips@.len() == before.len(),
            forall|i: int|
                0 <= i < at ==> (#[trigger] strips@[i])@ == placed(
                    before[i]@,
                    target,
                    style::optional(*look),
                ),
            forall|i: int| at <= i < before.len() ==> #[trigger] strips@[i] == before[i],
        decreases strips@.len() - at,
    {
        assert(strips@[at as int] == before[at as int]);
        place_in(&mut strips[at], target, look);
        at += 1;
    }
    assert(tab::strip_models(strips@) =~= Seq::new(
        before.len(),
        |i: int| placed(before[i]@, target, style::optional(*look)),
    ));
}

/// The look that a kind begins with.
pub open spec fn first_look(kind: usize) -> StyleModel {
    style::initial(
        if kind == 1 {
            14
        } else {
            15
        },
    )
}

/// Takes a look away: a kind has the one it began with, a tab or a panel that of
/// its kind.
pub fn reset(
    target: Target,
    defaults: &mut Vec<PanelStyle>,
    settings: &TerminalSettings,
    strips: &mut Vec<Strip>,
)
    requires
        match target {
            Target::Default(kind) => kind < 3,
            _ => true,
        },
    ensures
        style::models(final(defaults)@) == match target {
            Target::Default(kind) => with_default(
                style::models(old(defaults)@),
                *settings,
                kind as int,
                first_look(kind),
            ),
            _ => style::models(old(defaults)@),
        },
        tab::strip_models(final(strips)@) == Seq::new(
            old(strips)@.len(),
            |i: int| placed(old(strips)@[i]@, target, None),
        ),
{
    if let Target::Default(kind) = target {
        let look = style::make_initial(
            if kind == 1 {
                14
            } else {
                15
            },
        );
        replace_default(defaults, settings, kind, look);
    }
    place_all(strips, target, &None);
}

/// The look that is given: only that of a kind draws its paper by lot.
pub open spec fn given(target: Target, look: StyleModel) -> StyleModel {
    match target {
        Target::Default(_) => look,
        _ => StyleModel { random: 0, ..look },
    }
}

/// Gives a look. Without a font there is none to give: `false`, and nothing is
/// changed.
pub fn apply(
    target: Target,
    look: PanelStyle,
    defaults: &mut Vec<PanelStyle>,
    settings: &TerminalSettings,
    strips: &mut Vec<Strip>,
) -> (out: bool)
    requires
        match target {
            Target::Default(kind) => kind < 3,
            _ => true,
        },
    ensures
        out == (lines::trim(look@.family).len() > 0),
        !out ==> *final(defaults) == *old(defaults) && *final(strips) == *old(strips),
        out ==> style::models(final(defaults)@) == match target {
            Target::Default(kind) => with_default(
                style::models(old(defaults)@),
                *settings,
                kind as int,
                look@,
            ),
            _ => style::models(old(defaults)@),
        },
        out ==> tab::strip_models(final(strips)@) == Seq::new(
            old(strips)@.len(),
            |i: int| placed(old(strips)@[i]@, target, Some(given(target, look@))),
        ),
{
    let family = lines::trim_text(look.family.as_str());
    let chars = text::chars_of(family.as_str());
    if chars.len() == 0 {
        return false;
    }
    let mut look = look;
    match target {
        Target::Default(kind) => {
            let kept = look.copied();
            replace_default(defaults, settings, kind, kept);
        },
        _ => {
            look.random = 0;
        },
    }
    place_all(strips, target, &Some(look));
    true
}

} // verus!
