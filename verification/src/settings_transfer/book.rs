//! Working with the presets: keeping, choosing, dropping and showing them.
use crate::lines;
use crate::settings_transfer::presets::{self, Preset, PresetBook, PresetKind, PresetModel, Value};
use crate::text;
use vstd::prelude::*;

verus! {

/// The values that a page's presets hold, out of all.
pub open spec fn of_page(values: Seq<Value>, kind: PresetKind) -> Seq<Value>
    decreases values.len(),
{
    if values.len() == 0 {
        values
    } else {
        let before = of_page(values.drop_last(), kind);
        if presets::page_of(values.last().0) == Some(kind) {
            before.push(values.last())
        } else {
            before
        }
    }
}

fn page_values(values: &Vec<(String, String)>, kind: PresetKind) -> (out: Vec<(String, String)>)
    ensures
        presets::value_models(out@) == of_page(presets::value_models(values@), kind),
{
    let ghost all = presets::value_models(values@);
    let mut out: Vec<(String, String)> = Vec::new();
    let mut at: usize = 0;
    assert(presets::value_models(out@) =~= of_page(all.take(0), kind));
    while at < values.len()
        invariant
            at <= values@.len(),
            all == presets::value_models(values@),
            presets::value_models(out@) == of_page(all.take(at as int), kind),
        decreases values@.len() - at,
    {
        let ghost before = presets::value_models(out@);
        proof {
            assert(all.take(at + 1).drop_last() =~= all.take(at as int));
            assert(all.take(at + 1).last() == (values@[at as int].0@, values@[at as int].1@));
        }
        let wanted: bool = match presets::kind_of(values[at].0.as_str()) {
            Some(held) => held == kind,
            None => false,
        };
        if wanted {
            out.push((values[at].0.clone(), values[at].1.clone()));
            assert(presets::value_models(out@) =~= before.push(all[at as int]));
        }
        at += 1;
    }
    assert(all.take(all.len() as int) =~= all);
    out
}

/// What a page's preset would hold now: the keys alone on the page of keys, and
/// the page's own settings on the others.
pub open spec fn held_now(values: Seq<Value>, keys: Seq<char>, kind: PresetKind) -> Seq<Value> {
    if kind == PresetKind::Keys {
        seq![(presets::KEYS_SETTING@, keys)]
    } else {
        of_page(values, kind)
    }
}

/// [`held_now`], of the settings and the keys on screen.
pub fn current_values(
    values: &Vec<(String, String)>,
    keys: &str,
    kind: PresetKind,
) -> (out: Vec<(String, String)>)
    ensures
        presets::value_models(out@) == held_now(presets::value_models(values@), keys@, kind),
{
    if kind == PresetKind::Keys {
        let mut out: Vec<(String, String)> = Vec::new();
        let name = text::string_of(&text::chars_of(presets::KEYS_SETTING));
        let value = text::string_of(&text::chars_of(keys));
        out.push((name, value));
        assert(presets::value_models(out@) =~= seq![(presets::KEYS_SETTING@, keys@)]);
        out
    } else {
        page_values(values, kind)
    }
}

/// The values by their names; of a name that stands twice, the last.
pub open spec fn as_map(values: Seq<Value>) -> Map<Seq<char>, Seq<char>>
    decreases values.len(),
{
    if values.len() == 0 {
        Map::empty()
    } else {
        as_map(values.drop_last()).insert(values.last().0, values.last().1)
    }
}

/// Looks up a name.
pub fn look_up<'a>(values: &'a Vec<(String, String)>, name: &str) -> (out: Option<&'a String>)
    ensures
        ({
            let map = as_map(presets::value_models(values@));
            match out {
                Some(value) => map.contains_key(name@) && map[name@] == value@,
                None => !map.contains_key(name@),
            }
        }),
{
    let ghost all = presets::value_models(values@);
    let mut found: Option<&'a String> = None;
    let mut at: usize = 0;
    assert(all.take(0) =~= Seq::empty());
    while at < values.len()
        invariant
            at <= values@.len(),
            all == presets::value_models(values@),
            match found {
                Some(value) => as_map(all.take(at as int)).contains_key(name@) && as_map(
                    all.take(at as int),
                )[name@] == value@,
                None => !as_map(all.take(at as int)).contains_key(name@),
            },
        decreases values@.len() - at,
    {
        proof {
            assert(all.take(at + 1).drop_last() =~= all.take(at as int));
            assert(all.take(at + 1).last() == (values@[at as int].0@, values@[at as int].1@));
        }
        if text::same_text(values[at].0.as_str(), name) {
            found = Some(&values[at].1);
        }
        at += 1;
    }
    assert(all.take(all.len() as int) =~= all);
    found
}

proof fn map_names_stand(values: Seq<Value>, name: Seq<char>)
    ensures
        as_map(values).contains_key(name) <==> exists|i: int|
            0 <= i < values.len() && (#[trigger] values[i]).0 == name,
    decreases values.len(),
{
    if values.len() > 0 {
        let less = values.drop_last();
        map_names_stand(less, name);
        if as_map(values).contains_key(name) {
            if values.last().0 == name {
                assert(values[values.len() - 1].0 == name);
            } else {
                let i = choose|i: int| 0 <= i < less.len() && (#[trigger] less[i]).0 == name;
                assert(values[i].0 == name);
            }
        }
        if exists|i: int| 0 <= i < values.len() && (#[trigger] values[i]).0 == name {
            let i = choose|i: int| 0 <= i < values.len() && (#[trigger] values[i]).0 == name;
            if i < less.len() {
                assert(less[i].0 == name);
            }
        }
    }
}

/// What one map says of a name, another says too.
pub open spec fn says(
    one: Map<Seq<char>, Seq<char>>,
    two: Map<Seq<char>, Seq<char>>,
    name: Seq<char>,
) -> bool {
    one.contains_key(name) ==> two.contains_key(name) && one[name] == two[name]
}

/// Every name of `one` has the same value in `two`.
fn within(one: &Vec<(String, String)>, two: &Vec<(String, String)>) -> (out: bool)
    ensures
        out == forall|name: Seq<char>| #[trigger]
            says(
                as_map(presets::value_models(one@)),
                as_map(presets::value_models(two@)),
                name,
            ),
{
    let ghost first = presets::value_models(one@);
    let ghost second = presets::value_models(two@);
    let mut at: usize = 0;
    while at < one.len()
        invariant
            at <= one@.len(),
            first == presets::value_models(one@),
            second == presets::value_models(two@),
            forall|i: int|
                0 <= i < at ==> says(as_map(first), as_map(second), (#[trigger] first[i]).0),
        decreases one@.len() - at,
    {
        let name = &one[at].0;
        proof {
            assert(first[at as int].0 == name@);
            map_names_stand(first, name@);
        }
        let here = look_up(one, name.as_str());
        let there = look_up(two, name.as_str());
        let same: bool = match (here, there) {
            (Some(left), Some(right)) => text::same_text(left.as_str(), right.as_str()),
            _ => false,
        };
        if !same {
            assert(!says(as_map(first), as_map(second), name@));
            return false;
        }
        at += 1;
    }
    proof {
        assert forall|name: Seq<char>| #[trigger] says(as_map(first), as_map(second), name) by {
            map_names_stand(first, name);
            if as_map(first).contains_key(name) {
                let i = choose|i: int| 0 <= i < first.len() && (#[trigger] first[i]).0 == name;
                assert(says(as_map(first), as_map(second), first[i].0));
            }
        }
    }
    true
}

/// Whether two lists say the same, whatever their order.
pub fn same_values(one: &Vec<(String, String)>, two: &Vec<(String, String)>) -> (out: bool)
    ensures
        out == (as_map(presets::value_models(one@)) == as_map(presets::value_models(two@))),
{
    let forth: bool = within(one, two);
    let back: bool = within(two, one);
    proof {
        let first = as_map(presets::value_models(one@));
        let second = as_map(presets::value_models(two@));
        if forth && back {
            assert forall|name: Seq<char>| #[trigger]
                first.dom().contains(name) == second.dom().contains(name) by {
                assert(says(first, second, name));
                assert(says(second, first, name));
            }
            assert(first.dom() =~= second.dom());
            assert forall|name: Seq<char>| #[trigger]
                first.dom().contains(name) implies first[name] == second[name] by {
                assert(says(first, second, name));
            }
            assert(first =~= second);
        }
        if first == second {
            assert(forall|name: Seq<char>| #[trigger] says(first, second, name));
            assert(forall|name: Seq<char>| #[trigger] says(second, first, name));
        }
    }
    forth && back
}

/// What a page shows of its presets.
pub struct PageView {
    pub names: Vec<String>,
    /// The preset in use; empty for none.
    pub current: String,
    /// The values have changed since.
    pub modified: bool,
}

/// The names of a page's presets, among the first `n`.
pub open spec fn page_names(presets: Seq<PresetModel>, kind: PresetKind, n: int) -> Seq<Seq<char>>
    decreases n,
{
    if n <= 0 {
        Seq::empty()
    } else if presets[n - 1].kind == kind {
        page_names(presets, kind, n - 1).push(presets[n - 1].name)
    } else {
        page_names(presets, kind, n - 1)
    }
}

/// The first preset of a page that holds these values, among the first `n`.
pub open spec fn matching(
    presets: Seq<PresetModel>,
    kind: PresetKind,
    now: Map<Seq<char>, Seq<char>>,
    n: int,
) -> Option<int>
    decreases n,
{
    if n <= 0 {
        None
    } else {
        match matching(presets, kind, now, n - 1) {
            Some(at) => Some(at),
            None => if presets[n - 1].kind == kind && as_map(presets[n - 1].values) == now {
                Some(n - 1)
            } else {
                None
            },
        }
    }
}

/// The preset that a page shows, and whether its values have changed: the one
/// that was chosen, or else the first that holds what is set now.
pub open spec fn shown(
    presets: Seq<PresetModel>,
    chosen: Option<Seq<char>>,
    kind: PresetKind,
    now: Map<Seq<char>, Seq<char>>,
) -> (Seq<char>, bool) {
    let held = match chosen {
        Some(name) => presets::preset_at(presets, kind, name),
        None => None,
    };
    match held {
        Some(at) => (presets[at].name, as_map(presets[at].values) != now),
        None => match matching(presets, kind, now, presets.len() as int) {
            Some(at) => (presets[at].name, false),
            None => (Seq::empty(), false),
        },
    }
}

/// What a page shows, where `now` is set on it.
pub fn publish(book: &PresetBook, kind: PresetKind, now: &Vec<(String, String)>) -> (out: PageView)
    ensures
        lines::texts(out.names@) == page_names(
            book@.presets,
            kind,
            book@.presets.len() as int,
        ),
        (out.current@, out.modified) == shown(
            book@.presets,
            book@.chosen[presets::number_of(kind)],
            kind,
            as_map(presets::value_models(now@)),
        ),
{
    let ghost held = book@.presets;
    let ghost map = as_map(presets::value_models(now@));
    let mut names: Vec<String> = Vec::new();
    let mut first: Option<usize> = None;
    let mut at: usize = 0;
    assert(lines::texts(names@) =~= Seq::empty());
    while at < book.presets.len()
        invariant
            at <= book.presets@.len(),
            held == book@.presets,
            map == as_map(presets::value_models(now@)),
            lines::texts(names@) == page_names(held, kind, at as int),
            match first {
                Some(place) => matching(held, kind, map, at as int) == Some(place as int) && place
                    < at,
                None => matching(held, kind, map, at as int) is None,
            },
        decreases book.presets@.len() - at,
    {
        let preset = &book.presets[at];
        if preset.kind == kind {
            let ghost before = lines::texts(names@);
            names.push(preset.name.clone());
            assert(lines::texts(names@) =~= before.push(preset@.name));
            if first.is_none() && same_values(&preset.values, now) {
                first = Some(at);
            }
        }
        at += 1;
    }
    let found: Option<usize> = match &book.chosen[kind.number()] {
        Some(name) => presets::find_preset(&book.presets, kind, name.as_str()),
        None => None,
    };
    match found {
        Some(place) => {
            let preset = &book.presets[place];
            let modified: bool = !same_values(&preset.values, now);
            PageView { names, current: preset.name.clone(), modified }
        },
        None => match first {
            Some(place) => PageView {
                names,
                current: book.presets[place].name.clone(),
                modified: false,
            },
            None => {
                let empty = String::new();
                assert(empty@ =~= Seq::empty());
                PageView { names, current: empty, modified: false }
            },
        },
    }
}

/// A name as it is kept: without white space at its ends, and with a space for
/// each break within.
pub open spec fn kept_name(name: Seq<char>) -> Seq<char> {
    lines::spaced(lines::trim(name))
}

/// The presets after values are kept under a name: in the place of the preset
/// that has it, or behind all.
pub open spec fn with_preset(
    presets: Seq<PresetModel>,
    kind: PresetKind,
    name: Seq<char>,
    values: Seq<Value>,
) -> Seq<PresetModel> {
    match presets::preset_at(presets, kind, name) {
        Some(at) => presets.update(at, PresetModel { values, ..presets[at] }),
        None => presets.push(PresetModel { kind, name, values }),
    }
}

/// Keeps values as a preset, which is then the chosen one. The answer is the
/// name it is kept under; a name of nothing keeps nothing.
pub fn save_as(
    book: &mut PresetBook,
    kind: PresetKind,
    name: &str,
    values: Vec<(String, String)>,
) -> (out: Option<String>)
    ensures
        lines::optional(out) == if kept_name(name@).len() == 0 {
            None
        } else {
            Some(kept_name(name@))
        },
        kept_name(name@).len() == 0 ==> final(book)@ == old(book)@,
        kept_name(name@).len() > 0 ==> {
            &&& final(book)@.presets == with_preset(
                old(book)@.presets,
                kind,
                kept_name(name@),
                presets::value_models(values@),
            )
            &&& final(book)@.chosen == old(book)@.chosen.update(
                presets::number_of(kind),
                Some(kept_name(name@)),
            )
        },
{
    let ghost before = book@;
    let plain = lines::trim_text(name);
    let kept = lines::space_breaks(plain.as_str());
    let length: usize = text::chars_of(kept.as_str()).len();
    if length == 0 {
        return None;
    }
    match presets::find_preset(&book.presets, kind, kept.as_str()) {
        Some(at) => {
            book.presets[at].values = values;
            assert(presets::preset_models(book.presets@) =~= before.presets.update(
                at as int,
                PresetModel {
                    values: presets::value_models(values@),
                    ..before.presets[at as int]
                },
            ));
        },
        None => {
            let preset = Preset { kind, name: kept.clone(), values };
            book.presets.push(preset);
            assert(presets::preset_models(book.presets@) =~= before.presets.push(preset@));
        },
    }
    let number: usize = kind.number();
    book.chosen[number] = Some(kept.clone());
    assert(book@.chosen =~= before.chosen.update(number as int, Some(kept@)));
    Some(kept)
}

/// Keeps values under the name of the preset in use, where there is one.
pub fn overwrite(
    book: &mut PresetBook,
    kind: PresetKind,
    current: &str,
    values: Vec<(String, String)>,
) -> (out: Option<String>)
    ensures
        lines::optional(out) == if kept_name(current@).len() == 0 {
            None
        } else {
            Some(kept_name(current@))
        },
        kept_name(current@).len() == 0 ==> final(book)@ == old(book)@,
        kept_name(current@).len() > 0 ==> {
            &&& final(book)@.presets == with_preset(
                old(book)@.presets,
                kind,
                kept_name(current@),
                presets::value_models(values@),
            )
            &&& final(book)@.chosen == old(book)@.chosen.update(
                presets::number_of(kind),
                Some(kept_name(current@)),
            )
        },
{
    save_as(book, kind, current, values)
}

/// The presets without those of a page with a name.
pub open spec fn without_preset(
    presets: Seq<PresetModel>,
    kind: PresetKind,
    name: Seq<char>,
) -> Seq<PresetModel>
    decreases presets.len(),
{
    if presets.len() == 0 {
        presets
    } else {
        let before = without_preset(presets.drop_last(), kind, name);
        if presets.last().kind == kind && presets.last().name == name {
            before
        } else {
            before.push(presets.last())
        }
    }
}

/// Drops a preset; where it was the chosen one, nothing is chosen.
pub fn delete(book: &mut PresetBook, kind: PresetKind, name: &str)
    ensures
        final(book)@.presets == without_preset(old(book)@.presets, kind, name@),
        final(book)@.chosen == if old(book)@.chosen[presets::number_of(kind)] == Some(name@) {
            old(book)@.chosen.update(presets::number_of(kind), None)
        } else {
            old(book)@.chosen
        },
{
    let ghost all = book@.presets;
    let ghost chosen = book@.chosen;
    let ghost mut seen: int = 0;
    let mut at: usize = 0;
    proof {
        assert(all.take(0) =~= Seq::empty());
        assert(without_preset(all.take(0), kind, name@) + all.skip(0) =~= all);
    }
    while at < book.presets.len()
        invariant
            0 <= seen <= all.len(),
            at <= book.presets@.len(),
            at == without_preset(all.take(seen), kind, name@).len(),
            presets::preset_models(book.presets@) == without_preset(all.take(seen), kind, name@)
                + all.skip(seen),
            book.chosen == old(book).chosen,
        decreases book.presets@.len() - at,
    {
        let ghost held = presets::preset_models(book.presets@);
        let ghost before = without_preset(all.take(seen), kind, name@);
        proof {
            assert(held[at as int] == all.skip(seen)[0]);
            assert(all.take(seen + 1).drop_last() =~= all.take(seen));
            assert(all.take(seen + 1).last() == all[seen]);
            assert(held[at as int] == book.presets@[at as int]@);
        }
        if book.presets[at].kind == kind && text::same_text(book.presets[at].name.as_str(), name) {
            book.presets.remove(at);
            proof {
                assert(presets::preset_models(book.presets@) =~= held.remove(at as int));
                assert(held.remove(at as int) =~= before + all.skip(seen + 1));
            }
        } else {
            assert(before.push(all[seen]) + all.skip(seen + 1) =~= before + all.skip(seen));
            at += 1;
        }
        proof {
            seen = seen + 1;
        }
    }
    proof {
        assert(all.skip(seen) =~= Seq::empty());
        assert(all.take(seen) =~= all);
        assert(presets::preset_models(book.presets@) =~= without_preset(all, kind, name@));
    }
    let number: usize = kind.number();
    let gone: bool = match &book.chosen[number] {
        Some(held) => text::same_text(held.as_str(), name),
        None => false,
    };
    if gone {
        book.chosen[number] = None;
        assert(book@.chosen =~= chosen.update(number as int, None));
    } else {
        assert(book@.chosen =~= chosen);
    }
}

/// Chooses a preset. The answer is the values to set: those of its own page
/// only, whatever else its file may hold.
pub fn choose_preset(book: &mut PresetBook, kind: PresetKind, name: &str) -> (out: Option<
    Vec<(String, String)>,
>)
    ensures
        final(book)@.presets == old(book)@.presets,
        match presets::preset_at(old(book)@.presets, kind, name@) {
            Some(at) => {
                &&& out is Some
                &&& presets::value_models(out->0@) == of_page(
                    old(book)@.presets[at].values,
                    kind,
                )
                &&& final(book)@.chosen == old(book)@.chosen.update(
                    presets::number_of(kind),
                    Some(name@),
                )
            },
            None => out is None && final(book)@ == old(book)@,
        },
{
    let ghost before = book@;
    match presets::find_preset(&book.presets, kind, name) {
        None => None,
        Some(at) => {
            let values = page_values(&book.presets[at].values, kind);
            let number: usize = kind.number();
            book.chosen[number] = Some(text::string_of(&text::chars_of(name)));
            assert(book@.chosen =~= before.chosen.update(number as int, Some(name@)));
            Some(values)
        },
    }
}

/// The keys that a chosen preset of the page of keys sets: its first value.
pub fn keys_of(values: &Vec<(String, String)>) -> (out: Option<String>)
    ensures
        lines::optional(out) == if values@.len() == 0 {
            None
        } else {
            Some(values@[0].1@)
        },
{
    if values.len() == 0 {
        None
    } else {
        Some(values[0].1.clone())
    }
}

} // verus!
