//! Which settings a preset holds, and which preset a page shows.
use crate::lines;
use crate::settings_transfer::book;
use crate::settings_transfer::export::{self, Part};
use crate::settings_transfer::presets::{self, PresetKind, PresetModel, Value};
use vstd::prelude::*;

verus! {

/// The presets of a page hold the settings of that page, each as it is, and no other.
pub proof fn a_page_holds_its_settings(values: Seq<Value>, kind: PresetKind, value: Value)
    ensures
        book::of_page(values, kind).contains(value) <==> values.contains(value)
            && presets::page_of(value.0) == Some(kind),
    decreases values.len(),
{
    let after = book::of_page(values, kind);
    if values.len() > 0 {
        let rest = values.drop_last();
        let before = book::of_page(rest, kind);
        a_page_holds_its_settings(rest, kind, value);
        if rest.contains(value) {
            let k = choose|k: int| 0 <= k < rest.len() && rest[k] == value;
            assert(values[k] == value);
        }
        if values.contains(value) {
            let k = choose|k: int| 0 <= k < values.len() && values[k] == value;
            if k < rest.len() {
                assert(rest[k] == value);
            }
        }
        if before.contains(value) {
            let k = choose|k: int| 0 <= k < before.len() && before[k] == value;
            assert(after[k] == value);
        }
        if after.contains(value) {
            let k = choose|k: int| 0 <= k < after.len() && after[k] == value;
            if k < before.len() {
                assert(before[k] == value);
            }
        }
        if after.len() > before.len() {
            assert(after[before.len() as int] == values.last());
        }
        assert(values[values.len() - 1] == values.last());
    }
}

/// The sheets across and down belong to the editor, what begins with `terminal.` to the
/// terminals, and the bindings to the keys.
pub proof fn settings_have_their_page(name: Seq<char>, rest: Seq<char>)
    ensures
        name == "h."@ + rest || name == "v."@ + rest ==> presets::page_of(name) == Some(
            PresetKind::Editor,
        ),
        name == "terminal."@ + rest ==> presets::page_of(name) == Some(PresetKind::Terminal),
        name == "shortcut-bindings"@ ==> presets::page_of(name) == Some(PresetKind::Keys),
{
    reveal_strlit("h.");
    reveal_strlit("v.");
    reveal_strlit("terminal.");
    reveal_strlit("shortcut-bindings");
    reveal_strlit("text.shared");
    reveal_strlit("layout.shared");
    reveal_strlit("paper.shared");
    reveal_strlit("paper.random");
    reveal_strlit("ruby.marks");
    reveal_strlit("list.marks");
    reveal_strlit("count.ruby");
    reveal_strlit("wallpaper.kind");
    reveal_strlit("wallpaper.path");
    reveal_strlit("wallpaper.fit");
    reveal_strlit("wallpaper.strength");
    reveal_strlit("background.transparency");
    let keys = "shortcut-bindings"@;
    if name == "h."@ + rest {
        assert("h."@.is_prefix_of(name));
        assert(name[1] == '.' && keys[1] == 'h');
    }
    if name == "v."@ + rest {
        assert("v."@.is_prefix_of(name));
        assert(name[1] == '.' && keys[1] == 'h');
    }
    if name == "terminal."@ + rest {
        assert("terminal."@.is_prefix_of(name));
        assert(name[0] == 't' && name[1] == 'e' && name[2] == 'r' && keys[0] == 's');
        assert("h."@[0] == 'h' && "v."@[0] == 'v');
        assert("text.shared"@[2] == 'x');
    }
}

/// The list of a page has the name of every preset of that page, and no other.
pub proof fn a_page_lists_its_presets(
    presets: Seq<PresetModel>,
    kind: PresetKind,
    n: int,
    name: Seq<char>,
)
    requires
        0 <= n <= presets.len(),
    ensures
        book::page_names(presets, kind, n).contains(name) <==> exists|k: int|
            0 <= k < n && (#[trigger] presets[k]).kind == kind && presets[k].name == name,
    decreases n,
{
    if n > 0 {
        let before = book::page_names(presets, kind, n - 1);
        let after = book::page_names(presets, kind, n);
        a_page_lists_its_presets(presets, kind, n - 1, name);
        if before.contains(name) {
            let k = choose|k: int| 0 <= k < before.len() && before[k] == name;
            assert(after[k] == name);
        }
        if after.contains(name) {
            let k = choose|k: int| 0 <= k < after.len() && after[k] == name;
            if k < before.len() {
                assert(before[k] == name);
            } else {
                assert(presets[n - 1].kind == kind && presets[n - 1].name == name);
            }
        }
        if presets[n - 1].kind == kind && presets[n - 1].name == name {
            assert(after[before.len() as int] == name);
        }
    }
}

/// The preset that matches what is set holds just that, and is the first of its page that
/// does; none matches where none holds it.
pub proof fn the_first_that_holds_it_matches(
    presets: Seq<PresetModel>,
    kind: PresetKind,
    now: Map<Seq<char>, Seq<char>>,
    n: int,
)
    requires
        0 <= n <= presets.len(),
    ensures
        match book::matching(presets, kind, now, n) {
            Some(at) => {
                &&& 0 <= at < n
                &&& presets[at].kind == kind
                &&& book::as_map(presets[at].values) == now
                &&& forall|k: int|
                    0 <= k < at ==> (#[trigger] presets[k]).kind != kind || book::as_map(
                        presets[k].values,
                    ) != now
            },
            None => forall|k: int|
                0 <= k < n ==> (#[trigger] presets[k]).kind != kind || book::as_map(
                    presets[k].values,
                ) != now,
        },
    decreases n,
{
    if n > 0 {
        the_first_that_holds_it_matches(presets, kind, now, n - 1);
    }
}

/// A name is kept on one line.
pub proof fn a_name_is_kept_on_one_line(name: Seq<char>)
    ensures
        !book::kept_name(name).contains('\n'),
        !book::kept_name(name).contains('\r'),
        !book::kept_name(name).contains('\t'),
        book::kept_name(name).len() == lines::trim(name).len(),
        forall|i: int|
            0 <= i < book::kept_name(name).len() && lines::trim(name)[i] != '\n' && lines::trim(
                name,
            )[i] != '\r' && lines::trim(name)[i] != '\t' ==> #[trigger] book::kept_name(name)[i]
                == lines::trim(name)[i],
{
}

/// The word sets of an export are the texts of its parts of that kind.
pub proof fn word_sets_are_their_parts(parts: Seq<Part>, n: int, text: Seq<char>)
    requires
        0 <= n <= parts.len(),
    ensures
        export::words_in(parts, n).contains(text) <==> exists|k: int|
            0 <= k < n && (#[trigger] parts[k]).0 == "words"@ && parts[k].1 == text,
    decreases n,
{
    if n > 0 {
        let before = export::words_in(parts, n - 1);
        let after = export::words_in(parts, n);
        word_sets_are_their_parts(parts, n - 1, text);
        if before.contains(text) {
            let k = choose|k: int| 0 <= k < before.len() && before[k] == text;
            assert(after[k] == text);
        }
        if after.contains(text) {
            let k = choose|k: int| 0 <= k < after.len() && after[k] == text;
            if k < before.len() {
                assert(before[k] == text);
            } else {
                assert(parts[n - 1].0 == "words"@ && parts[n - 1].1 == text);
            }
        }
        if parts[n - 1].0 == "words"@ && parts[n - 1].1 == text {
            assert(after[before.len() as int] == text);
        }
    }
}

} // verus!
