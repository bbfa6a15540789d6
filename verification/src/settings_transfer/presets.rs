//! The presets, and the file that holds them.
use crate::lines;
use crate::text;
use vstd::prelude::*;

verus! {

/// A page that has presets.
#[derive(Clone, Copy, Debug, PartialEq, Eq, Structural)]
pub enum PresetKind {
    Editor,
    Terminal,
    Keys,
}

/// The number of a page.
pub open spec fn number_of(kind: PresetKind) -> int {
    match kind {
        PresetKind::Editor => 0,
        PresetKind::Terminal => 1,
        PresetKind::Keys => 2,
    }
}

/// The page with a number.
pub open spec fn numbered(number: int) -> PresetKind {
    if number == 0 {
        PresetKind::Editor
    } else if number == 1 {
        PresetKind::Terminal
    } else {
        PresetKind::Keys
    }
}

/// The word for a page in the file.
pub open spec fn word_of(kind: PresetKind) -> Seq<char> {
    match kind {
        PresetKind::Editor => "editor"@,
        PresetKind::Terminal => "terminal"@,
        PresetKind::Keys => "keys"@,
    }
}

/// The page that a word means.
pub open spec fn meant(word: Seq<char>) -> Option<PresetKind> {
    if word == "editor"@ {
        Some(PresetKind::Editor)
    } else if word == "terminal"@ {
        Some(PresetKind::Terminal)
    } else if word == "keys"@ {
        Some(PresetKind::Keys)
    } else {
        None
    }
}

impl PresetKind {
    /// The page with a number, as the screen counts them.
    pub fn from_number(number: i32) -> (out: Option<PresetKind>)
        ensures
            out == if 0 <= number < 3 {
                Some(numbered(number as int))
            } else {
                None
            },
    {
        if number == 0 {
            Some(PresetKind::Editor)
        } else if number == 1 {
            Some(PresetKind::Terminal)
        } else if number == 2 {
            Some(PresetKind::Keys)
        } else {
            None
        }
    }

    pub fn number(&self) -> (out: usize)
        ensures
            out == number_of(*self),
            out < 3,
    {
        match self {
            PresetKind::Editor => 0,
            PresetKind::Terminal => 1,
            PresetKind::Keys => 2,
        }
    }

    /// The word for the page in the file.
    pub fn written(&self) -> (out: &'static str)
        ensures
            out@ == word_of(*self),
    {
        match self {
            PresetKind::Editor => "editor",
            PresetKind::Terminal => "terminal",
            PresetKind::Keys => "keys",
        }
    }

    /// The page that a word means.
    pub fn read(said: &str) -> (out: Option<PresetKind>)
        ensures
            out == meant(said@),
    {
        if text::same_text(said, "editor") {
            Some(PresetKind::Editor)
        } else if text::same_text(said, "terminal") {
            Some(PresetKind::Terminal)
        } else if text::same_text(said, "keys") {
            Some(PresetKind::Keys)
        } else {
            None
        }
    }
}

/// The name under which the keys travel with the settings.
pub const KEYS_SETTING: &'static str = "shortcut-bindings";

/// A setting of the editor page that belongs to no sheet.
pub open spec fn is_editor_setting(name: Seq<char>) -> bool {
    ||| name == "text.shared"@
    ||| name == "layout.shared"@
    ||| name == "paper.shared"@
    ||| name == "paper.random"@
    ||| name == "ruby.marks"@
    ||| name == "list.marks"@
    ||| name == "count.ruby"@
    ||| name == "wallpaper.kind"@
    ||| name == "wallpaper.path"@
    ||| name == "wallpaper.fit"@
    ||| name == "wallpaper.strength"@
    ||| name == "background.transparency"@
}

/// The page whose presets hold a setting; none for the rest.
pub open spec fn page_of(name: Seq<char>) -> Option<PresetKind> {
    if name == KEYS_SETTING@ {
        Some(PresetKind::Keys)
    } else if "h."@.is_prefix_of(name) || "v."@.is_prefix_of(name) || is_editor_setting(name) {
        Some(PresetKind::Editor)
    } else if "terminal."@.is_prefix_of(name) {
        Some(PresetKind::Terminal)
    } else {
        None
    }
}

fn begins(name: &str, head: &str) -> (out: bool)
    ensures
        out == head@.is_prefix_of(name@),
{
    lines::strip_head(name, head).is_some()
}

/// [`page_of`], of a string.
pub fn kind_of(name: &str) -> (out: Option<PresetKind>)
    ensures
        out == page_of(name@),
{
    if text::same_text(name, KEYS_SETTING) {
        return Some(PresetKind::Keys);
    }
    if begins(name, "h.") || begins(name, "v.") || text::same_text(name, "text.shared")
        || text::same_text(name, "layout.shared") || text::same_text(name, "paper.shared")
        || text::same_text(name, "paper.random") || text::same_text(name, "ruby.marks")
        || text::same_text(name, "list.marks") || text::same_text(name, "count.ruby")
        || text::same_text(name, "wallpaper.kind") || text::same_text(name, "wallpaper.path")
        || text::same_text(name, "wallpaper.fit") || text::same_text(name, "wallpaper.strength")
        || text::same_text(name, "background.transparency") {
        return Some(PresetKind::Editor);
    }
    if begins(name, "terminal.") {
        return Some(PresetKind::Terminal);
    }
    None
}

/// The values of one page under a name.
#[derive(Clone, Debug, PartialEq, Eq)]
pub struct Preset {
    pub kind: PresetKind,
    pub name: String,
    pub values: Vec<(String, String)>,
}

/// The presets, and the one that is chosen on each page.
#[derive(Clone, Debug, PartialEq, Eq)]
pub struct PresetBook {
    pub presets: Vec<Preset>,
    /// By the number of the page.
    pub chosen: [Option<String>; 3],
}

/// A setting and its value, as characters.
pub type Value = (Seq<char>, Seq<char>);

/// [`Preset`] with its texts as characters.
pub ghost struct PresetModel {
    pub kind: PresetKind,
    pub name: Seq<char>,
    pub values: Seq<Value>,
}

/// [`PresetBook`] with its texts as characters.
pub ghost struct BookModel {
    pub presets: Seq<PresetModel>,
    pub chosen: Seq<Option<Seq<char>>>,
}

pub open spec fn value_models(values: Seq<(String, String)>) -> Seq<Value> {
    Seq::new(values.len(), |i: int| (values[i].0@, values[i].1@))
}

impl View for Preset {
    type V = PresetModel;

    open spec fn view(&self) -> PresetModel {
        PresetModel { kind: self.kind, name: self.name@, values: value_models(self.values@) }
    }
}

pub open spec fn preset_models(presets: Seq<Preset>) -> Seq<PresetModel> {
    Seq::new(presets.len(), |i: int| presets[i]@)
}

impl View for PresetBook {
    type V = BookModel;

    open spec fn view(&self) -> BookModel {
        BookModel {
            presets: preset_models(self.presets@),
            chosen: Seq::new(3, |i: int| lines::optional(self.chosen@[i])),
        }
    }
}

/// No presets, and nothing chosen.
pub open spec fn empty_book() -> BookModel {
    BookModel { presets: Seq::empty(), chosen: Seq::new(3, |i: int| None) }
}

impl Default for PresetBook {
    fn default() -> (out: PresetBook)
        ensures
            out@ == empty_book(),
    {
        let out = PresetBook { presets: Vec::new(), chosen: [None, None, None] };
        assert(preset_models(out.presets@) =~= Seq::empty());
        assert(out@.chosen =~= empty_book().chosen);
        out
    }
}

/// The place of the preset of a page with a name, among the first `n`.
pub open spec fn preset_among(
    presets: Seq<PresetModel>,
    kind: PresetKind,
    name: Seq<char>,
    n: int,
) -> Option<int>
    decreases n,
{
    if n <= 0 {
        None
    } else {
        match preset_among(presets, kind, name, n - 1) {
            Some(at) => Some(at),
            None => if presets[n - 1].kind == kind && presets[n - 1].name == name {
                Some(n - 1)
            } else {
                None
            },
        }
    }
}

/// The place of the preset of a page with a name.
pub open spec fn preset_at(
    presets: Seq<PresetModel>,
    kind: PresetKind,
    name: Seq<char>,
) -> Option<int> {
    preset_among(presets, kind, name, presets.len() as int)
}

pub proof fn preset_found(
    presets: Seq<PresetModel>,
    kind: PresetKind,
    name: Seq<char>,
    at: int,
    n: int,
)
    requires
        0 <= at < n <= presets.len(),
        preset_among(presets, kind, name, at) is None,
        presets[at].kind == kind && presets[at].name == name,
    ensures
        preset_among(presets, kind, name, n) == Some(at),
    decreases n - at,
{
    if n > at + 1 {
        preset_found(presets, kind, name, at, n - 1);
    }
}

/// A preset that is found has the page and the name, and one that is not is
/// nowhere.
pub proof fn preset_holds(presets: Seq<PresetModel>, kind: PresetKind, name: Seq<char>, n: int)
    requires
        0 <= n <= presets.len(),
    ensures
        match preset_among(presets, kind, name, n) {
            Some(at) => 0 <= at < n && presets[at].kind == kind && presets[at].name == name,
            None => forall|i: int|
                0 <= i < n ==> !((#[trigger] presets[i]).kind == kind && presets[i].name == name),
        },
    decreases n,
{
    if n > 0 {
        preset_holds(presets, kind, name, n - 1);
    }
}

/// Finds the preset of a page with a name.
pub fn find_preset(presets: &Vec<Preset>, kind: PresetKind, name: &str) -> (out: Option<usize>)
    ensures
        match out {
            Some(at) => preset_at(preset_models(presets@), kind, name@) == Some(at as int) && at
                < presets@.len(),
            None => preset_at(preset_models(presets@), kind, name@) is None,
        },
{
    let mut at: usize = 0;
    while at < presets.len()
        invariant
            at <= presets@.len(),
            preset_among(preset_models(presets@), kind, name@, at as int) is None,
        decreases presets@.len() - at,
    {
        if presets[at].kind == kind && text::same_text(presets[at].name.as_str(), name) {
            proof {
                preset_found(
                    preset_models(presets@),
                    kind,
                    name@,
                    at as int,
                    presets@.len() as int,
                );
            }
            return Some(at);
        }
        at += 1;
    }
    None
}

/// The file of the presets.
pub const PRESETS_FILE: &'static str = "presets.rfnpresets";

/// Its first line.
pub const PRESETS_MAGIC: &'static str = "RFN-EDIT-PRESETS 1";

/// The beginning of a heading: the page and the name of a preset follow, with a
/// tab between them.
pub const PRESET_KEY: &'static str = "preset: ";

/// The beginning of the line that says which preset is chosen.
pub const CHOSEN_KEY: &'static str = "chosen: ";

/// What stands between a setting and its value.
pub const VALUE_KEY: &'static str = ": ";

/// The page and the name, as a heading holds them.
pub open spec fn heading(kind: PresetKind, name: Seq<char>) -> Seq<char> {
    word_of(kind).push('\t') + lines::spaced(name)
}

/// The lines that say which presets are chosen, for the first `n` pages.
pub open spec fn chosen_lines(chosen: Seq<Option<Seq<char>>>, n: int) -> Seq<Seq<char>>
    decreases n,
{
    if n <= 0 {
        Seq::empty()
    } else {
        let before = chosen_lines(chosen, n - 1);
        match chosen[n - 1] {
            Some(name) => before.push(CHOSEN_KEY@ + heading(numbered(n - 1), name)),
            None => before,
        }
    }
}

/// The line of a setting.
pub open spec fn value_line(value: Value) -> Seq<char> {
    value.0 + VALUE_KEY@ + lines::joined(value.1)
}

/// The lines of a preset: its heading and its values.
pub open spec fn preset_lines(preset: PresetModel) -> Seq<Seq<char>> {
    seq![PRESET_KEY@ + heading(preset.kind, preset.name)] + Seq::new(
        preset.values.len(),
        |i: int| value_line(preset.values[i]),
    )
}

/// The lines of the first `n` presets.
pub open spec fn all_preset_lines(presets: Seq<PresetModel>, n: int) -> Seq<Seq<char>>
    decreases n,
{
    if n <= 0 {
        Seq::empty()
    } else {
        all_preset_lines(presets, n - 1) + preset_lines(presets[n - 1])
    }
}

/// The lines of the file.
pub open spec fn book_lines(book: BookModel) -> Seq<Seq<char>> {
    seq![PRESETS_MAGIC@] + chosen_lines(book.chosen, 3) + all_preset_lines(
        book.presets,
        book.presets.len() as int,
    )
}

fn push_line(out: &mut String, line: &str, Ghost(before): Ghost<Seq<Seq<char>>>)
    requires
        old(out)@ == lines::flat(before),
    ensures
        final(out)@ == lines::flat(before.push(line@)),
{
    text::push_text(out, line);
    out.push('\n');
    proof {
        assert(before.push(line@).drop_last() =~= before);
        assert(out@ =~= lines::flat(before.push(line@)));
    }
}

fn heading_line(key: &str, kind: PresetKind, name: &str) -> (out: String)
    ensures
        out@ == key@ + heading(kind, name@),
{
    let mut out = String::new();
    text::push_text(&mut out, key);
    text::push_text(&mut out, kind.written());
    out.push('\t');
    let plain = lines::space_breaks(name);
    text::push_text(&mut out, plain.as_str());
    assert(out@ =~= key@ + heading(kind, name@));
    out
}

fn written_value(name: &str, value: &str) -> (out: String)
    ensures
        out@ == value_line((name@, value@)),
{
    let mut out = String::new();
    text::push_text(&mut out, name);
    text::push_text(&mut out, VALUE_KEY);
    let plain = lines::drop_breaks(value);
    text::push_text(&mut out, plain.as_str());
    assert(out@ =~= value_line((name@, value@)));
    out
}

fn push_chosen(
    out: &mut String,
    chosen: &[Option<String>; 3],
    kind: PresetKind,
    Ghost(before): Ghost<Seq<Seq<char>>>,
) -> (lines_now: Ghost<Seq<Seq<char>>>)
    requires
        old(out)@ == lines::flat(before),
    ensures
        final(out)@ == lines::flat(lines_now@),
        lines_now@ == match lines::optional(chosen@[number_of(kind)]) {
            Some(name) => before.push(CHOSEN_KEY@ + heading(kind, name)),
            None => before,
        },
{
    match &chosen[kind.number()] {
        Some(name) => {
            let line = heading_line(CHOSEN_KEY, kind, name.as_str());
            push_line(out, line.as_str(), Ghost(before));
            Ghost(before.push(line@))
        },
        None => Ghost(before),
    }
}

/// Writes the presets as a file.
pub fn encode_presets(book: &PresetBook) -> (out: String)
    ensures
        out@ == lines::flat(book_lines(book@)),
{
    let mut out = String::new();
    assert(out@ =~= lines::flat(Seq::empty()));
    push_line(&mut out, PRESETS_MAGIC, Ghost(Seq::empty()));
    let ghost magic = Seq::empty().push(PRESETS_MAGIC@);
    let first = push_chosen(&mut out, &book.chosen, PresetKind::Editor, Ghost(magic));
    let second = push_chosen(&mut out, &book.chosen, PresetKind::Terminal, first);
    let third = push_chosen(&mut out, &book.chosen, PresetKind::Keys, second);
    let ghost head = third@;
    proof {
        reveal_with_fuel(chosen_lines, 4);
        assert(head =~= seq![PRESETS_MAGIC@] + chosen_lines(book@.chosen, 3));
    }
    let mut at: usize = 0;
    assert(head + all_preset_lines(book@.presets, 0) =~= head);
    while at < book.presets.len()
        invariant
            at <= book.presets@.len(),
            out@ == lines::flat(head + all_preset_lines(book@.presets, at as int)),
        decreases book.presets@.len() - at,
    {
        let preset = &book.presets[at];
        let ghost before = head + all_preset_lines(book@.presets, at as int);
        let line = heading_line(PRESET_KEY, preset.kind, preset.name.as_str());
        push_line(&mut out, line.as_str(), Ghost(before));
        let ghost headed = before.push(line@);
        let ghost whole = preset_lines(preset@);
        let mut each: usize = 0;
        assert(headed =~= before + whole.take(1));
        while each < preset.values.len()
            invariant
                each <= preset.values@.len(),
                whole == preset_lines(preset@),
                out@ == lines::flat(before + whole.take(each + 1)),
            decreases preset.values@.len() - each,
        {
            let value = written_value(
                preset.values[each].0.as_str(),
                preset.values[each].1.as_str(),
            );
            push_line(&mut out, value.as_str(), Ghost(before + whole.take(each + 1)));
            assert((before + whole.take(each + 1)).push(value@) =~= before + whole.take(each + 2));
            each += 1;
        }
        proof {
            assert(whole.take(whole.len() as int) =~= whole);
            assert(head + all_preset_lines(book@.presets, at + 1) =~= before + whole);
        }
        at += 1;
    }
    assert(head + all_preset_lines(book@.presets, book.presets@.len() as int) =~= book_lines(
        book@,
    ));
    out
}

/// The file as far as it has been read. `open` says that values belong to the
/// last preset.
pub ghost struct Reading {
    pub presets: Seq<PresetModel>,
    pub chosen: Seq<Option<Seq<char>>>,
    pub open: bool,
}

/// The page and the name of a heading, where it can be read.
pub open spec fn headed(head: Seq<char>) -> Option<(PresetKind, Seq<char>)> {
    match lines::cut(head, seq!['\t']) {
        Some(both) => match meant(both.0) {
            Some(kind) => Some((kind, lines::trim(both.1))),
            None => None,
        },
        None => None,
    }
}

/// One more line read. What cannot be read is passed over, and a heading that
/// cannot be read takes its values with it.
pub open spec fn read_line(before: Reading, line: Seq<char>) -> Reading {
    match lines::behind(line, CHOSEN_KEY@) {
        Some(head) => Reading {
            chosen: match headed(head) {
                Some(both) => before.chosen.update(number_of(both.0), Some(both.1)),
                None => before.chosen,
            },
            open: false,
            ..before
        },
        None => match lines::behind(line, PRESET_KEY@) {
            Some(head) => match headed(head) {
                Some(both) => if both.1.len() > 0 {
                    Reading {
                        presets: before.presets.push(
                            PresetModel { kind: both.0, name: both.1, values: Seq::empty() },
                        ),
                        open: true,
                        ..before
                    }
                } else {
                    Reading { open: false, ..before }
                },
                None => Reading { open: false, ..before },
            },
            None => match lines::cut(line, VALUE_KEY@) {
                Some(value) => if before.open && before.presets.len() > 0 {
                    let last = before.presets.last();
                    Reading {
                        presets: before.presets.update(
                            before.presets.len() - 1,
                            PresetModel { values: last.values.push(value), ..last },
                        ),
                        ..before
                    }
                } else {
                    before
                },
                None => before,
            },
        },
    }
}

/// The lines from the second to the `n`th read.
pub open spec fn read_to(parts: Seq<Seq<char>>, n: int) -> Reading
    decreases n,
{
    if n <= 1 {
        Reading { presets: Seq::empty(), chosen: Seq::new(3, |i: int| None), open: false }
    } else {
        read_line(read_to(parts, n - 1), lines::without_returns(parts[n - 1]))
    }
}

/// What is chosen, without the names that no preset has.
pub open spec fn still_there(
    presets: Seq<PresetModel>,
    chosen: Seq<Option<Seq<char>>>,
) -> Seq<Option<Seq<char>>> {
    Seq::new(
        3,
        |i: int|
            match chosen[i] {
                Some(name) => if preset_at(presets, numbered(i), name) is Some {
                    Some(name)
                } else {
                    None
                },
                None => None,
            },
    )
}

/// The presets of a file, where its first line is the right one.
pub open spec fn decoded(raw: Seq<char>) -> Option<BookModel> {
    let parts = lines::split(raw, '\n');
    if lines::without_returns(parts[0]) != PRESETS_MAGIC@ {
        None
    } else {
        let read = read_to(parts, parts.len() as int);
        Some(
            BookModel {
                presets: read.presets,
                chosen: still_there(read.presets, read.chosen),
            },
        )
    }
}

fn read_heading(head: &str) -> (out: Option<(PresetKind, String)>)
    ensures
        match out {
            Some(both) => headed(head@) == Some((both.0, both.1@)),
            None => headed(head@) is None,
        },
{
    proof {
        reveal_strlit("\t");
        assert("\t"@ =~= seq!['\t']);
    }
    match lines::split_once(head, "\t") {
        Some((word, name)) => match PresetKind::read(word.as_str()) {
            Some(kind) => Some((kind, lines::trim_text(name.as_str()))),
            None => None,
        },
        None => None,
    }
}

impl PresetBook {
    /// What has been read of a file.
    pub open spec fn reading(self, open: bool) -> Reading {
        Reading { presets: self@.presets, chosen: self@.chosen, open }
    }

    fn take_line(&mut self, line: &str, open: bool) -> (out: bool)
        ensures
            final(self).reading(out) == read_line(old(self).reading(open), line@),
    {
        let ghost before = self@;
        proof {
            reveal_strlit(": ");
        }
        if let Some(head) = lines::strip_head(line, CHOSEN_KEY) {
            if let Some((kind, name)) = read_heading(head.as_str()) {
                let number: usize = kind.number();
                self.chosen[number] = Some(name);
                assert(self@.chosen =~= before.chosen.update(number as int, Some(name@)));
            }
            return false;
        }
        if let Some(head) = lines::strip_head(line, PRESET_KEY) {
            if let Some((kind, name)) = read_heading(head.as_str()) {
                let length: usize = text::chars_of(name.as_str()).len();
                if length > 0 {
                    let preset = Preset { kind, name, values: Vec::new() };
                    assert(preset@.values =~= Seq::empty());
                    self.presets.push(preset);
                    assert(preset_models(self.presets@) =~= before.presets.push(preset@));
                    return true;
                }
            }
            return false;
        }
        if let Some((name, value)) = lines::split_once(line, VALUE_KEY) {
            let count: usize = self.presets.len();
            if open && count > 0 {
                let ghost last = before.presets.last();
                let ghost one = (name@, value@);
                self.presets[count - 1].values.push((name, value));
                proof {
                    assert(self.presets@[count - 1]@.values =~= last.values.push(one));
                    assert(preset_models(self.presets@) =~= before.presets.update(
                        count - 1,
                        PresetModel { values: last.values.push(one), ..last },
                    ));
                }
            }
        }
        open
    }

    fn forget_lost(&mut self, kind: PresetKind)
        ensures
            final(self)@.presets == old(self)@.presets,
            final(self)@.chosen == old(self)@.chosen.update(
                number_of(kind),
                still_there(old(self)@.presets, old(self)@.chosen)[number_of(kind)],
            ),
    {
        let ghost before = self@;
        let number: usize = kind.number();
        let lost: bool = match &self.chosen[number] {
            Some(name) => find_preset(&self.presets, kind, name.as_str()).is_none(),
            None => false,
        };
        if lost {
            self.chosen[number] = None;
        }
        assert(self@.chosen =~= before.chosen.update(
            number as int,
            still_there(before.presets, before.chosen)[number as int],
        ));
    }
}

/// Reads the presets of a file: nothing where its first line is not the right
/// one.
pub fn decode_presets(raw: &str) -> (out: Option<PresetBook>)
    ensures
        (match out {
            Some(book) => Some(book@),
            None => None,
        }) == decoded(raw@),
{
    let parts = lines::split_at(raw, '\n');
    let ghost whole = lines::split(raw@, '\n');
    assert(lines::texts(parts@) == whole);
    let first = lines::strip_returns(parts[0].as_str());
    if !text::same_text(first.as_str(), PRESETS_MAGIC) {
        return None;
    }
    let mut book = PresetBook::default();
    let mut open: bool = false;
    let mut at: usize = 1;
    while at < parts.len()
        invariant
            1 <= at <= parts@.len(),
            whole == lines::texts(parts@),
            book.reading(open) == read_to(whole, at as int),
        decreases parts@.len() - at,
    {
        let line = lines::strip_returns(parts[at].as_str());
        open = book.take_line(line.as_str(), open);
        at += 1;
    }
    let ghost read = book@;
    book.forget_lost(PresetKind::Editor);
    book.forget_lost(PresetKind::Terminal);
    book.forget_lost(PresetKind::Keys);
    assert(book@.chosen =~= still_there(read.presets, read.chosen));
    Some(book)
}

} // verus!
