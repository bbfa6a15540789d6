//! The look of a terminal or a panel.
use crate::session::Rgb;
use vstd::prelude::*;

verus! {

/// How a terminal or a panel looks.
#[derive(Debug)]
pub struct PanelStyle {
    /// The paper is its own, not that of the pane it is in.
    pub paper_own: bool,
    pub paper: Rgb,
    pub ink: Rgb,
    pub size: i32,
    /// In parts of a hundred.
    pub transparency: i32,
    pub bold: bool,
    pub italic: bool,
    pub underline: bool,
    /// 0 draws no paper by lot, 1 and 2 draw one of two kinds.
    pub random: i32,
    pub family: String,
}

/// [`PanelStyle`] with its text as characters.
pub ghost struct StyleModel {
    pub paper_own: bool,
    pub paper: Rgb,
    pub ink: Rgb,
    pub size: i32,
    pub transparency: i32,
    pub bold: bool,
    pub italic: bool,
    pub underline: bool,
    pub random: i32,
    pub family: Seq<char>,
}

impl View for PanelStyle {
    type V = StyleModel;

    open spec fn view(&self) -> StyleModel {
        StyleModel {
            paper_own: self.paper_own,
            paper: self.paper,
            ink: self.ink,
            size: self.size,
            transparency: self.transparency,
            bold: self.bold,
            italic: self.italic,
            underline: self.underline,
            random: self.random,
            family: self.family@,
        }
    }
}

pub open spec fn models(styles: Seq<PanelStyle>) -> Seq<StyleModel> {
    Seq::new(styles.len(), |i: int| styles[i]@)
}

pub open spec fn optional(style: Option<PanelStyle>) -> Option<StyleModel> {
    match style {
        Some(held) => Some(held@),
        None => None,
    }
}

impl PanelStyle {
    pub fn copied(&self) -> (out: Self)
        ensures
            out@ == self@,
    {
        PanelStyle {
            paper_own: self.paper_own,
            paper: self.paper,
            ink: self.ink,
            size: self.size,
            transparency: self.transparency,
            bold: self.bold,
            italic: self.italic,
            underline: self.underline,
            random: self.random,
            family: self.family.clone(),
        }
    }
}

pub fn copy_style(style: &Option<PanelStyle>) -> (out: Option<PanelStyle>)
    ensures
        optional(out) == optional(*style),
{
    match style {
        Some(held) => Some(held.copied()),
        None => None,
    }
}

/// The paper that terminals begin with.
pub open spec fn first_paper() -> Rgb {
    Rgb { red: 255, green: 254, blue: 250 }
}

/// The ink that terminals begin with.
pub open spec fn first_ink() -> Rgb {
    Rgb { red: 36, green: 33, blue: 30 }
}

/// A plain look: nothing but its colours, its font and its size.
pub open spec fn plain(paper: Rgb, ink: Rgb, family: Seq<char>, size: i32) -> StyleModel {
    StyleModel {
        paper_own: true,
        paper,
        ink,
        size,
        transparency: 0,
        bold: false,
        italic: false,
        underline: false,
        random: 0,
        family,
    }
}

pub open spec fn initial(size: i32) -> StyleModel {
    plain(first_paper(), first_ink(), "Consolas"@, size)
}

fn make_plain(paper: Rgb, ink: Rgb, family: String, size: i32) -> (out: PanelStyle)
    ensures
        out@ == plain(paper, ink, family@, size),
{
    PanelStyle {
        paper_own: true,
        paper,
        ink,
        size,
        transparency: 0,
        bold: false,
        italic: false,
        underline: false,
        random: 0,
        family,
    }
}

pub(crate) fn make_initial(size: i32) -> (out: PanelStyle)
    ensures
        out@ == initial(size),
{
    make_plain(
        Rgb { red: 255, green: 254, blue: 250 },
        Rgb { red: 36, green: 33, blue: 30 },
        "Consolas".to_owned(),
        size,
    )
}

/// The look that a terminal begins with.
pub fn initial_style() -> (out: PanelStyle)
    ensures
        out@ == initial(15),
{
    make_initial(15)
}

/// The look of terminals that has no name of its own: the colours, the font and
/// the size that all of them are given.
pub struct TerminalSettings {
    pub paper: Rgb,
    pub ink: Rgb,
    pub family: String,
    pub size: i32,
}

/// The look of a kind: 0 is a terminal, 1 a panel of text below one, 2 a panel
/// with a shell of its own.
pub open spec fn default_for(
    defaults: Seq<StyleModel>,
    kind: int,
    settings: TerminalSettings,
) -> StyleModel {
    if 0 <= kind < defaults.len() {
        defaults[kind]
    } else {
        plain(
            settings.paper,
            settings.ink,
            settings.family@,
            if kind == 1 {
                14
            } else {
                settings.size
            },
        )
    }
}

/// [`default_for`], the look of a kind.
pub fn default_style(
    defaults: &Vec<PanelStyle>,
    kind: usize,
    settings: &TerminalSettings,
) -> (out: PanelStyle)
    ensures
        out@ == default_for(models(defaults@), kind as int, *settings),
{
    if kind < defaults.len() {
        defaults[kind].copied()
    } else {
        make_plain(
            settings.paper,
            settings.ink,
            settings.family.clone(),
            if kind == 1 {
                14
            } else {
                settings.size
            },
        )
    }
}

/// A look with a paper that was drawn by lot, and an ink to go with it; none
/// where the look draws no paper.
pub open spec fn drawn(style: StyleModel, paper: Rgb, ink: Rgb) -> Option<StyleModel> {
    if style.random == 0 {
        None
    } else {
        Some(StyleModel { paper_own: true, paper, ink, ..style })
    }
}

/// [`drawn`], of a kind's look.
pub fn random_style(
    defaults: &Vec<PanelStyle>,
    kind: usize,
    settings: &TerminalSettings,
    paper: Rgb,
    ink: Rgb,
) -> (out: Option<PanelStyle>)
    ensures
        optional(out) == drawn(
            default_for(models(defaults@), kind as int, *settings),
            paper,
            ink,
        ),
{
    let mut style = default_style(defaults, kind, settings);
    if style.random == 0 {
        return None;
    }
    style.paper = paper;
    style.ink = ink;
    style.paper_own = true;
    Some(style)
}

/// The papers that a terminal can take, from the one it asks for first.
pub struct Papers {
    /// The paper of the tab.
    pub tab: Option<Rgb>,
    /// The paper of the pane.
    pub pane: Option<Rgb>,
}

/// The look of the terminal in front: its own paper, or that of its tab, of its
/// pane, or of all terminals.
pub open spec fn front_look(own: Option<StyleModel>, base: StyleModel, papers: Papers) -> StyleModel {
    let style = match own {
        Some(style) => style,
        None => base,
    };
    StyleModel {
        paper: if own is Some && own->0.paper_own {
            style.paper
        } else {
            match papers.tab {
                Some(paper) => paper,
                None => match papers.pane {
                    Some(paper) => paper,
                    None => base.paper,
                },
            }
        },
        ..style
    }
}

/// The look of the panel below it: a tab's paper does not reach there.
pub open spec fn panel_look(own: Option<StyleModel>, base: StyleModel, pane: Option<Rgb>) -> StyleModel {
    front_look(own, base, Papers { tab: None, pane })
}

fn make_look(own: &Option<PanelStyle>, base: PanelStyle, papers: &Papers) -> (out: PanelStyle)
    ensures
        out@ == front_look(optional(*own), base@, *papers),
{
    let kept: bool = match own {
        Some(style) => style.paper_own,
        None => false,
    };
    let under: Rgb = base.paper;
    let mut out = match own {
        Some(style) => style.copied(),
        None => base,
    };
    if !kept {
        out.paper = match papers.tab {
            Some(paper) => paper,
            None => match papers.pane {
                Some(paper) => paper,
                None => under,
            },
        };
    }
    out
}

/// What is shown: the look of the terminal in front, and that of the panel below
/// it. `terminal` says that the pane shows a terminal, so that the panel is one
/// of text.
pub fn publish(
    defaults: &Vec<PanelStyle>,
    settings: &TerminalSettings,
    front: &Option<PanelStyle>,
    entry: &Option<PanelStyle>,
    terminal: bool,
    papers: &Papers,
) -> (out: (PanelStyle, PanelStyle))
    ensures
        out.0@ == front_look(
            optional(*front),
            default_for(models(defaults@), 0, *settings),
            *papers,
        ),
        out.1@ == panel_look(
            optional(*entry),
            default_for(
                models(defaults@),
                if terminal {
                    1
                } else {
                    2
                },
                *settings,
            ),
            papers.pane,
        ),
{
    let base = default_style(defaults, 0, settings);
    let one = make_look(front, base, papers);
    let base = default_style(
        defaults,
        if terminal {
            1
        } else {
            2
        },
        settings,
    );
    let two = make_look(entry, base, &Papers { tab: None, pane: papers.pane });
    (one, two)
}

/// What the drawing of a terminal is told.
#[derive(Debug)]
pub struct TerminalLook {
    pub family: String,
    pub font_size: i32,
    pub paper: Rgb,
    pub ink: Rgb,
    pub transparent: bool,
    pub bold: bool,
    pub italic: bool,
    pub underline: bool,
}

/// A number within two bounds.
pub open spec fn within(number: i32, least: i32, most: i32) -> i32 {
    if number < least {
        least
    } else if number > most {
        most
    } else {
        number
    }
}

pub(crate) fn keep_within(number: i32, least: i32, most: i32) -> (out: i32)
    ensures
        out == within(number, least, most),
{
    if number < least {
        least
    } else if number > most {
        most
    } else {
        number
    }
}

/// How a terminal is drawn. A look without a size is none yet: it is drawn as
/// all terminals are.
pub fn look(style: &PanelStyle) -> (out: Option<TerminalLook>)
    ensures
        style@.size == 0 ==> out is None,
        style@.size != 0 ==> out is Some && out->0.family@ == style@.family && out->0.font_size
            == within(style@.size, 8, 72) && out->0.paper == style@.paper && out->0.ink
            == style@.ink && out->0.transparent == (style@.transparency > 0) && out->0.bold
            == style@.bold && out->0.italic == style@.italic && out->0.underline
            == style@.underline,
{
    if style.size == 0 {
        return None;
    }
    Some(
        TerminalLook {
            family: style.family.clone(),
            font_size: keep_within(style.size, 8, 72),
            paper: style.paper,
            ink: style.ink,
            transparent: style.transparency > 0,
            bold: style.bold,
            italic: style.italic,
            underline: style.underline,
        },
    )
}

} // verus!
