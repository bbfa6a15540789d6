//! The files and folders that a search leaves out.
use crate::lines;
use crate::matching;
use crate::text;
use vstd::prelude::*;

verus! {

/// What is left out: the names that a pattern is found in, of folders alone
/// where it was written with a stroke at its end.
pub struct Exclusion {
    pub pattern: String,
    pub directory: bool,
}

impl View for Exclusion {
    type V = (Seq<char>, bool);

    open spec fn view(&self) -> (Seq<char>, bool) {
        (self.pattern@, self.directory)
    }
}

pub open spec fn models(held: Seq<Exclusion>) -> Seq<(Seq<char>, bool)> {
    Seq::new(held.len(), |i: int| held[i]@)
}

pub open spec fn is_stroke(c: char) -> bool {
    c == '/' || c == '\\'
}

/// A text without the strokes at its end.
pub open spec fn without_strokes(text: Seq<char>) -> Seq<char>
    decreases text.len(),
{
    if text.len() > 0 && is_stroke(text.last()) {
        without_strokes(text.drop_last())
    } else {
        text
    }
}

fn drop_strokes(source: &str) -> (out: String)
    ensures
        out@ == without_strokes(source@),
{
    let chars = text::chars_of(source);
    let mut to: usize = chars.len();
    assert(chars@.take(to as int) =~= source@);
    while to > 0 && (chars[to - 1] == '/' || chars[to - 1] == '\\')
        invariant
            to <= chars@.len(),
            without_strokes(chars@.take(to as int)) == without_strokes(source@),
        decreases to,
    {
        assert(chars@.take(to as int).drop_last() =~= chars@.take(to - 1));
        to -= 1;
    }
    assert(chars@.subrange(0, to as int) =~= chars@.take(to as int));
    text::string_range(&chars, 0, to)
}

/// The pattern for a name: the whole name, whatever its case. A star stands for
/// any characters, a question mark for one.
pub open spec fn name_pattern(name: Seq<char>) -> Seq<char> {
    "(?i)^"@ + lines::replaced(
        lines::replaced(matching::escaped(name), "\\*"@, ".*"@),
        "\\?"@,
        "."@,
    ) + "$"@
}

/// What one part of the list leaves out, where `regex` takes its pattern.
pub open spec fn exclusion_of(part: Seq<char>) -> Option<(Seq<char>, bool)> {
    let held = lines::trim(part);
    let pattern = name_pattern(without_strokes(held));
    if held.len() > 0 && matching::regex_takes(pattern) {
        Some((pattern, is_stroke(held.last())))
    } else {
        None
    }
}

/// What the first `n` parts leave out.
pub open spec fn exclusions_of(parts: Seq<Seq<char>>, n: int) -> Seq<(Seq<char>, bool)>
    decreases n,
{
    if n <= 0 {
        Seq::empty()
    } else {
        match exclusion_of(parts[n - 1]) {
            Some(held) => exclusions_of(parts, n - 1).push(held),
            None => exclusions_of(parts, n - 1),
        }
    }
}

fn pattern_for(name: &str) -> (out: String)
    ensures
        out@ == name_pattern(name@),
{
    proof {
        reveal_strlit("\\*");
        reveal_strlit("\\?");
    }
    let plain = regex::escape(name);
    let starred = lines::replace_all(plain.as_str(), "\\*", ".*");
    let marked = lines::replace_all(starred.as_str(), "\\?", ".");
    let mut out = String::new();
    text::push_text(&mut out, "(?i)^");
    text::push_text(&mut out, marked.as_str());
    text::push_text(&mut out, "$");
    assert(out@ =~= name_pattern(name@));
    out
}

/// What a list leaves out. The parts of the list are parted by semicolons.
pub fn exclusion_patterns(value: &str) -> (out: Vec<Exclusion>)
    ensures
        models(out@) == exclusions_of(
            lines::split(value@, ';'),
            lines::split(value@, ';').len() as int,
        ),
{
    let parts = lines::split_at(value, ';');
    let ghost all = lines::split(value@, ';');
    let mut out: Vec<Exclusion> = Vec::new();
    let mut at: usize = 0;
    assert(models(out@) =~= exclusions_of(all, 0));
    while at < parts.len()
        invariant
            at <= parts@.len(),
            lines::texts(parts@) == all,
            models(out@) == exclusions_of(all, at as int),
        decreases parts@.len() - at,
    {
        assert(lines::texts(parts@)[at as int] == parts@[at as int]@);
        let held = lines::trim_text(parts[at].as_str());
        let chars = text::chars_of(held.as_str());
        if chars.len() > 0 {
            let last = chars[chars.len() - 1];
            let name = drop_strokes(held.as_str());
            let pattern = pattern_for(name.as_str());
            if matching::takes(pattern.as_str()) {
                let ghost before = models(out@);
                let one = Exclusion { pattern, directory: last == '/' || last == '\\' };
                let ghost new = one@;
                out.push(one);
                assert(models(out@) =~= before.push(new));
            }
        }
        at += 1;
    }
    out
}

/// Whether a name is left out.
pub open spec fn leaves_out(patterns: Seq<(Seq<char>, bool)>, name: Seq<char>, folder: bool) -> bool {
    exists|i: int| #[trigger]
        leaves_out_by(patterns, i, name, folder)
}

pub open spec fn leaves_out_by(
    patterns: Seq<(Seq<char>, bool)>,
    i: int,
    name: Seq<char>,
    folder: bool,
) -> bool {
    &&& 0 <= i < patterns.len()
    &&& patterns[i].1 ==> folder
    &&& matching::regex_takes(patterns[i].0)
    &&& matching::regex_finds(patterns[i].0, name)
}

/// [`leaves_out`]: whether a file, or a folder, of this name is left out.
pub fn is_excluded(patterns: &Vec<Exclusion>, name: &str, folder: bool) -> (out: bool)
    ensures
        out == leaves_out(models(patterns@), name@, folder),
{
    let mut at: usize = 0;
    while at < patterns.len()
        invariant
            at <= patterns@.len(),
            forall|i: int|
                0 <= i < at ==> !#[trigger] leaves_out_by(models(patterns@), i, name@, folder),
        decreases patterns@.len() - at,
    {
        if (!patterns[at].directory || folder) && matching::finds(patterns[at].pattern.as_str(), name) {
            assert(leaves_out_by(models(patterns@), at as int, name@, folder));
            return true;
        }
        at += 1;
    }
    false
}

} // verus!
