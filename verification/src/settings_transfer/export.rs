//! One file with all settings.
use crate::lines;
use crate::settings_transfer::presets::{
    self, BookModel, PresetBook, Value, KEYS_SETTING, VALUE_KEY,
};
use crate::text;
use vstd::prelude::*;

verus! {

/// The first line of a file of settings.
pub const SETTINGS_MAGIC: &'static str = "RFN-EDIT-SETTINGS 1";

/// The first line of an export.
pub const EXPORT_MAGIC: &'static str = "RFN-EDIT-EXPORT 1";

/// The beginning of the line before each part. No word of a word set looks like
/// it.
pub const SECTION: &'static str = "@@RFN-EDIT-SECTION ";

/// The ending of an export's name.
pub const EXPORT_EXTENSION: &'static str = "rfnexport";

/// The name under which the settings are kept before an import replaces them.
pub fn backup_name() -> (out: &'static str)
    ensures
        out@ == "before-import.rfnexport"@,
{
    "before-import.rfnexport"
}

/// Everything that an export carries.
#[derive(Debug, PartialEq, Eq)]
pub struct Export {
    pub settings: Vec<(String, String)>,
    pub keys: Option<String>,
    pub presets: PresetBook,
    /// The file of the word sets, as it is.
    pub words: Option<String>,
}

/// [`Export`] with its texts as characters.
pub ghost struct ExportModel {
    pub settings: Seq<Value>,
    pub keys: Option<Seq<char>>,
    pub presets: BookModel,
    pub words: Option<Seq<char>>,
}

impl View for Export {
    type V = ExportModel;

    open spec fn view(&self) -> ExportModel {
        ExportModel {
            settings: presets::value_models(self.settings@),
            keys: lines::optional(self.keys),
            presets: self.presets@,
            words: lines::optional(self.words),
        }
    }
}

/// An export of nothing.
pub open spec fn empty_export() -> ExportModel {
    ExportModel {
        settings: Seq::empty(),
        keys: None,
        presets: presets::empty_book(),
        words: None,
    }
}

impl Default for Export {
    fn default() -> (out: Export)
        ensures
            out@ == empty_export(),
    {
        let out = Export {
            settings: Vec::new(),
            keys: None,
            presets: PresetBook::default(),
            words: None,
        };
        assert(presets::value_models(out.settings@) =~= Seq::empty());
        out
    }
}

/// The lines of a file of settings.
pub open spec fn settings_lines(values: Seq<Value>) -> Seq<Seq<char>> {
    seq![SETTINGS_MAGIC@] + Seq::new(values.len(), |i: int| presets::value_line(values[i]))
}

/// Writes settings as a file.
pub fn encode_settings(values: &Vec<(String, String)>) -> (out: String)
    ensures
        out@ == lines::flat(settings_lines(presets::value_models(values@))),
{
    let ghost whole = settings_lines(presets::value_models(values@));
    let mut out = String::new();
    text::push_text(&mut out, SETTINGS_MAGIC);
    out.push('\n');
    proof {
        lines::flat_of_one(SETTINGS_MAGIC@);
        assert(whole.take(1) =~= seq![SETTINGS_MAGIC@]);
        assert(out@ =~= lines::flat(whole.take(1)));
    }
    let mut at: usize = 0;
    while at < values.len()
        invariant
            at <= values@.len(),
            whole == settings_lines(presets::value_models(values@)),
            out@ == lines::flat(whole.take(at + 1)),
        decreases values@.len() - at,
    {
        text::push_text(&mut out, values[at].0.as_str());
        text::push_text(&mut out, VALUE_KEY);
        let plain = lines::drop_breaks(values[at].1.as_str());
        text::push_text(&mut out, plain.as_str());
        out.push('\n');
        proof {
            assert(whole.take(at + 2).drop_last() =~= whole.take(at + 1));
            assert(out@ =~= lines::flat(whole.take(at + 2)));
        }
        at += 1;
    }
    assert(whole.take(whole.len() as int) =~= whole);
    out
}

/// The settings in the lines from the second to the `n`th; what is no setting is
/// passed over.
pub open spec fn settings_to(parts: Seq<Seq<char>>, n: int) -> Seq<Value>
    decreases n,
{
    if n <= 1 {
        Seq::empty()
    } else {
        match lines::cut(lines::without_returns(parts[n - 1]), VALUE_KEY@) {
            Some(value) => settings_to(parts, n - 1).push(value),
            None => settings_to(parts, n - 1),
        }
    }
}

/// The settings of a file, where its first line is the right one.
pub open spec fn settings_decoded(raw: Seq<char>) -> Option<Seq<Value>> {
    let parts = lines::split(raw, '\n');
    if lines::without_returns(parts[0]) != SETTINGS_MAGIC@ {
        None
    } else {
        Some(settings_to(parts, parts.len() as int))
    }
}

/// Reads the settings of a file.
pub fn decode_settings(raw: &str) -> (out: Option<Vec<(String, String)>>)
    ensures
        (match out {
            Some(values) => Some(presets::value_models(values@)),
            None => None,
        }) == settings_decoded(raw@),
{
    let parts = lines::split_at(raw, '\n');
    let ghost whole = lines::split(raw@, '\n');
    assert(lines::texts(parts@) == whole);
    let first = lines::strip_returns(parts[0].as_str());
    if !text::same_text(first.as_str(), SETTINGS_MAGIC) {
        return None;
    }
    proof {
        reveal_strlit(": ");
    }
    let mut out: Vec<(String, String)> = Vec::new();
    let mut at: usize = 1;
    assert(presets::value_models(out@) =~= Seq::empty());
    while at < parts.len()
        invariant
            1 <= at <= parts@.len(),
            VALUE_KEY@.len() > 0,
            whole == lines::texts(parts@),
            presets::value_models(out@) == settings_to(whole, at as int),
        decreases parts@.len() - at,
    {
        let line = lines::strip_returns(parts[at].as_str());
        if let Some((name, value)) = lines::split_once(line.as_str(), VALUE_KEY) {
            let ghost before = presets::value_models(out@);
            let ghost one = (name@, value@);
            out.push((name, value));
            assert(presets::value_models(out@) =~= before.push(one));
        }
        at += 1;
    }
    Some(out)
}

/// The line before a part.
pub open spec fn section(name: Seq<char>) -> Seq<char> {
    SECTION@ + name
}

/// A text with a line break at its end.
pub open spec fn ended(text: Seq<char>) -> Seq<char> {
    if text.len() > 0 && text.last() == '\n' {
        text
    } else {
        text.push('\n')
    }
}

/// The text of an export.
pub open spec fn exported(export: ExportModel) -> Seq<char> {
    let settings = lines::flat(seq![EXPORT_MAGIC@, section("settings"@)]) + lines::flat(
        settings_lines(export.settings),
    );
    let keys = match export.keys {
        Some(keys) => lines::flat(
            seq![section("keys"@), KEYS_SETTING@ + VALUE_KEY@ + lines::joined(keys)],
        ),
        None => Seq::empty(),
    };
    let presets = lines::flat(seq![section("presets"@)]) + lines::flat(
        presets::book_lines(export.presets),
    );
    let words = match export.words {
        Some(words) => lines::flat(seq![section("words"@)]) + ended(words),
        None => Seq::empty(),
    };
    settings + keys + presets + words
}

fn push_section(out: &mut String, name: &str)
    ensures
        final(out)@ == old(out)@ + lines::flat(seq![section(name@)]),
{
    text::push_text(out, SECTION);
    text::push_text(out, name);
    out.push('\n');
    proof {
        lines::flat_of_one(section(name@));
        assert(out@ =~= old(out)@ + lines::flat(seq![section(name@)]));
    }
}

/// Writes an export.
pub fn encode_export(export: &Export) -> (out: String)
    ensures
        out@ == exported(export@),
{
    let mut out = String::new();
    text::push_text(&mut out, EXPORT_MAGIC);
    out.push('\n');
    push_section(&mut out, "settings");
    let settings = encode_settings(&export.settings);
    text::push_text(&mut out, settings.as_str());
    proof {
        let one = seq![EXPORT_MAGIC@];
        let two = seq![section("settings"@)];
        lines::flat_of_one(EXPORT_MAGIC@);
        lines::flat_adds(one, two);
        assert(one + two =~= seq![EXPORT_MAGIC@, section("settings"@)]);
        assert(out@ =~= lines::flat(seq![EXPORT_MAGIC@, section("settings"@)]) + settings@);
    }
    let ghost first = out@;
    if let Some(keys) = &export.keys {
        push_section(&mut out, "keys");
        text::push_text(&mut out, KEYS_SETTING);
        text::push_text(&mut out, VALUE_KEY);
        let plain = lines::drop_breaks(keys.as_str());
        text::push_text(&mut out, plain.as_str());
        out.push('\n');
        proof {
            let line = KEYS_SETTING@ + VALUE_KEY@ + lines::joined(keys@);
            let one = seq![section("keys"@)];
            let two = seq![line];
            lines::flat_of_one(line);
            lines::flat_adds(one, two);
            assert(one + two =~= seq![section("keys"@), line]);
            assert(out@ =~= first + lines::flat(seq![section("keys"@), line]));
        }
    } else {
        assert(out@ =~= first + Seq::<char>::empty());
    }
    let ghost second = out@;
    push_section(&mut out, "presets");
    let presets = presets::encode_presets(&export.presets);
    text::push_text(&mut out, presets.as_str());
    assert(out@ =~= second + (lines::flat(seq![section("presets"@)]) + presets@));
    let ghost third = out@;
    if let Some(words) = &export.words {
        push_section(&mut out, "words");
        text::push_text(&mut out, words.as_str());
        let chars = text::chars_of(words.as_str());
        if chars.len() == 0 || chars[chars.len() - 1] != '\n' {
            out.push('\n');
        }
        assert(out@ =~= third + (lines::flat(seq![section("words"@)]) + ended(words@)));
    } else {
        assert(out@ =~= third + Seq::<char>::empty());
    }
    out
}

/// A text with plain line breaks: no carriage return stands before one.
pub open spec fn plain_breaks(text: Seq<char>) -> Seq<char>
    decreases text.len(),
{
    if text.len() == 0 {
        text
    } else if text.len() > 1 && text[0] == '\r' && text[1] == '\n' {
        seq!['\n'] + plain_breaks(text.skip(2))
    } else {
        seq![text[0]] + plain_breaks(text.skip(1))
    }
}

/// A text without the mark at its beginning that some editors write.
pub open spec fn unmarked(text: Seq<char>) -> Seq<char> {
    if text.len() > 0 && text[0] == '\u{feff}' {
        text.skip(1)
    } else {
        text
    }
}

fn settle_breaks(source: &str) -> (out: String)
    ensures
        out@ == plain_breaks(unmarked(source@)),
{
    let chars = text::chars_of(source);
    let ghost whole = unmarked(source@);
    let mut at: usize = if chars.len() > 0 && chars[0] == '\u{feff}' {
        1
    } else {
        0
    };
    let mut out = String::new();
    proof {
        assert(chars@.skip(at as int) =~= whole);
        assert(out@ + plain_breaks(chars@.skip(at as int)) =~= plain_breaks(whole));
    }
    while at < chars.len()
        invariant
            at <= chars.len(),
            plain_breaks(whole) == out@ + plain_breaks(chars@.skip(at as int)),
        decreases chars@.len() - at,
    {
        let ghost held = out@;
        let ghost rest = chars@.skip(at as int);
        proof {
            assert(rest[0] == chars@[at as int]);
            assert(rest.skip(1) =~= chars@.skip(at + 1));
            if at + 1 < chars.len() {
                assert(rest[1] == chars@[at + 1]);
                assert(rest.skip(2) =~= chars@.skip(at + 2));
            }
        }
        if chars[at] == '\r' && chars.len() - at > 1 && chars[at + 1] == '\n' {
            out.push('\n');
            at += 2;
        } else {
            out.push(chars[at]);
            at += 1;
        }
        assert(out@ + plain_breaks(chars@.skip(at as int)) =~= held + plain_breaks(rest));
    }
    proof {
        assert(chars@.skip(at as int) =~= Seq::empty());
        assert(out@ + plain_breaks(chars@.skip(at as int)) =~= out@);
    }
    out
}

/// A part: its name and its text.
pub type Part = (Seq<char>, Seq<char>);

pub open spec fn part_models(parts: Seq<(String, String)>) -> Seq<Part> {
    Seq::new(parts.len(), |i: int| (parts[i].0@, parts[i].1@))
}

/// The parts in the lines from the second to the `n`th.
pub open spec fn parts_to(whole: Seq<Seq<char>>, n: int) -> Seq<Part>
    decreases n,
{
    if n <= 1 {
        Seq::empty()
    } else {
        let before = parts_to(whole, n - 1);
        match lines::behind(whole[n - 1], SECTION@) {
            Some(name) => before.push((lines::trim(name), Seq::empty())),
            None => if before.len() > 0 {
                before.update(
                    before.len() - 1,
                    (before.last().0, (before.last().1 + whole[n - 1]).push('\n')),
                )
            } else {
                before
            },
        }
    }
}

/// The parts of a file, where its first line is that of an export.
pub open spec fn parts_of(raw: Seq<char>) -> Option<Seq<Part>> {
    let whole = lines::split(plain_breaks(unmarked(raw)), '\n');
    if whole[0] != EXPORT_MAGIC@ {
        None
    } else {
        Some(parts_to(whole, whole.len() as int))
    }
}

/// Takes a file apart into the parts of an export.
pub fn export_sections(raw: &str) -> (out: Option<Vec<(String, String)>>)
    ensures
        (match out {
            Some(parts) => Some(part_models(parts@)),
            None => None,
        }) == parts_of(raw@),
{
    let plain = settle_breaks(raw);
    let whole = lines::split_at(plain.as_str(), '\n');
    let ghost held = lines::split(plain@, '\n');
    assert(lines::texts(whole@) == held);
    if !text::same_text(whole[0].as_str(), EXPORT_MAGIC) {
        return None;
    }
    let mut out: Vec<(String, String)> = Vec::new();
    let mut at: usize = 1;
    assert(part_models(out@) =~= Seq::empty());
    while at < whole.len()
        invariant
            1 <= at <= whole@.len(),
            held == lines::texts(whole@),
            part_models(out@) == parts_to(held, at as int),
        decreases whole@.len() - at,
    {
        let line = &whole[at];
        let ghost before = part_models(out@);
        match lines::strip_head(line.as_str(), SECTION) {
            Some(name) => {
                let body = String::new();
                let title = lines::trim_text(name.as_str());
                let ghost one = (title@, body@);
                out.push((title, body));
                proof {
                    assert(body@ =~= Seq::empty());
                    assert(part_models(out@) =~= before.push(one));
                }
            },
            None => {
                let count: usize = out.len();
                if count > 0 {
                    let mut body = out[count - 1].1.clone();
                    text::push_text(&mut body, line.as_str());
                    body.push('\n');
                    let title = out[count - 1].0.clone();
                    let ghost one = (title@, body@);
                    out.set(count - 1, (title, body));
                    proof {
                        assert(before.last() == before[count - 1]);
                        assert(part_models(out@) =~= before.update(count - 1, one));
                    }
                }
            },
        }
        at += 1;
    }
    Some(out)
}

/// The first line of a text.
pub open spec fn first_line(body: Seq<char>) -> Seq<char> {
    let first = lines::split(body, '\n')[0];
    if first.len() > 0 && first.last() == '\r' {
        first.drop_last()
    } else {
        first
    }
}

/// What one more part adds to an export. A part that cannot be read refuses the
/// whole: read as nothing, it would silently take away what it held. A part
/// that nobody knows is passed over.
pub open spec fn with_part(before: ExportModel, part: Part, words_read: bool) -> Option<ExportModel> {
    if part.0 == "settings"@ {
        match settings_decoded(part.1) {
            Some(settings) => Some(ExportModel { settings, ..before }),
            None => None,
        }
    } else if part.0 == "keys"@ {
        match lines::behind(first_line(part.1), KEYS_SETTING@ + VALUE_KEY@) {
            Some(keys) => Some(ExportModel { keys: Some(keys), ..before }),
            None => None,
        }
    } else if part.0 == "presets"@ {
        match presets::decoded(part.1) {
            Some(presets) => Some(ExportModel { presets, ..before }),
            None => None,
        }
    } else if part.0 == "words"@ {
        if words_read {
            Some(ExportModel { words: Some(part.1), ..before })
        } else {
            None
        }
    } else {
        Some(before)
    }
}

/// The export that the first `n` parts make.
pub open spec fn with_parts(parts: Seq<Part>, words_read: bool, n: int) -> Option<ExportModel>
    decreases n,
{
    if n <= 0 {
        Some(empty_export())
    } else {
        match with_parts(parts, words_read, n - 1) {
            Some(before) => with_part(before, parts[n - 1], words_read),
            None => None,
        }
    }
}

/// The export of a file. `words_read` says whether its word sets can be read.
pub open spec fn export_decoded(raw: Seq<char>, words_read: bool) -> Option<ExportModel> {
    match parts_of(raw) {
        Some(parts) => with_parts(parts, words_read, parts.len() as int),
        None => None,
    }
}

fn take_first_line(body: &str) -> (out: String)
    ensures
        out@ == first_line(body@),
{
    let parts = lines::split_at(body, '\n');
    assert(lines::texts(parts@)[0] == parts@[0]@);
    let first = text::chars_of(parts[0].as_str());
    let end: usize = if first.len() > 0 && first[first.len() - 1] == '\r' {
        first.len() - 1
    } else {
        first.len()
    };
    let out = text::string_range(&first, 0, end);
    assert(out@ =~= first_line(body@));
    out
}

fn take_part(export: Export, name: &str, body: &str, words_read: bool) -> (out: Option<Export>)
    ensures
        (match out {
            Some(held) => Some(held@),
            None => None,
        }) == with_part(export@, (name@, body@), words_read),
{
    proof {
        reveal_strlit("settings");
        reveal_strlit("keys");
        reveal_strlit("presets");
        reveal_strlit("words");
    }
    let mut export = export;
    if text::same_text(name, "settings") {
        match decode_settings(body) {
            Some(settings) => {
                export.settings = settings;
                Some(export)
            },
            None => None,
        }
    } else if text::same_text(name, "keys") {
        let line = take_first_line(body);
        let mut head = String::new();
        text::push_text(&mut head, KEYS_SETTING);
        text::push_text(&mut head, VALUE_KEY);
        assert(head@ =~= KEYS_SETTING@ + VALUE_KEY@);
        match lines::strip_head(line.as_str(), head.as_str()) {
            Some(keys) => {
                export.keys = Some(keys);
                Some(export)
            },
            None => None,
        }
    } else if text::same_text(name, "presets") {
        match presets::decode_presets(body) {
            Some(book) => {
                export.presets = book;
                Some(export)
            },
            None => None,
        }
    } else if text::same_text(name, "words") {
        if words_read {
            export.words = Some(text::string_of(&text::chars_of(body)));
            Some(export)
        } else {
            None
        }
    } else {
        Some(export)
    }
}

/// Reads an export. Where any of its parts cannot be read, nothing is.
pub fn decode_export(raw: &str, words_read: bool) -> (out: Option<Export>)
    ensures
        (match out {
            Some(held) => Some(held@),
            None => None,
        }) == export_decoded(raw@, words_read),
{
    match export_sections(raw) {
        None => None,
        Some(parts) => {
            let ghost all = part_models(parts@);
            let mut export = Export::default();
            let mut at: usize = 0;
            while at < parts.len()
                invariant
                    at <= parts@.len(),
                    all == part_models(parts@),
                    parts_of(raw@) == Some(all),
                    with_parts(all, words_read, at as int) == Some(export@),
                decreases parts@.len() - at,
            {
                assert(all[at as int] == (parts@[at as int].0@, parts@[at as int].1@));
                match take_part(export, parts[at].0.as_str(), parts[at].1.as_str(), words_read) {
                    Some(held) => {
                        export = held;
                    },
                    None => {
                        proof {
                            refused_stays(all, words_read, at + 1, all.len() as int);
                        }
                        return None;
                    },
                }
                at += 1;
            }
            Some(export)
        },
    }
}

proof fn refused_stays(parts: Seq<Part>, words_read: bool, at: int, n: int)
    requires
        at <= n,
        with_parts(parts, words_read, at) is None,
    ensures
        with_parts(parts, words_read, n) is None,
    decreases n - at,
{
    if at < n {
        refused_stays(parts, words_read, at, n - 1);
    }
}

/// The texts of the word sets in an export, for whoever can read them.
pub open spec fn words_in(parts: Seq<Part>, n: int) -> Seq<Seq<char>>
    decreases n,
{
    if n <= 0 {
        Seq::empty()
    } else if parts[n - 1].0 == "words"@ {
        words_in(parts, n - 1).push(parts[n - 1].1)
    } else {
        words_in(parts, n - 1)
    }
}

/// [`words_in`], of the parts of a file.
pub fn words_sections(parts: &Vec<(String, String)>) -> (out: Vec<String>)
    ensures
        lines::texts(out@) == words_in(part_models(parts@), parts@.len() as int),
{
    let mut out: Vec<String> = Vec::new();
    let mut at: usize = 0;
    assert(lines::texts(out@) =~= Seq::empty());
    while at < parts.len()
        invariant
            at <= parts@.len(),
            lines::texts(out@) == words_in(part_models(parts@), at as int),
        decreases parts@.len() - at,
    {
        if text::same_text(parts[at].0.as_str(), "words") {
            let ghost before = lines::texts(out@);
            out.push(parts[at].1.clone());
            assert(lines::texts(out@) =~= before.push(parts@[at as int].1@));
        }
        at += 1;
    }
    out
}

/// What an import does.
pub enum Import {
    /// The settings as they were could not be kept, so nothing is replaced.
    Refused,
    /// Everything is replaced by what the export holds.
    Replace(Export),
}

/// Imports an export, once the settings as they were have been kept.
pub fn import(export: Export, kept: bool) -> (out: Import)
    ensures
        out == if kept {
            Import::Replace(export)
        } else {
            Import::Refused
        },
{
    if kept {
        Import::Replace(export)
    } else {
        Import::Refused
    }
}

} // verus!
