//! The list of keys, as the settings show it.
use crate::letters;
use crate::lines;
use crate::shortcuts::actions::{self, ACTION_COUNT, FIXED_COUNT, RESERVED};
use crate::shortcuts::bindings;
use crate::text;
use vstd::prelude::*;

verus! {

/// A row of the list: the heading of a group, or a key.
pub struct ShortcutItem {
    /// The place of the action; less one for a heading and a key that cannot be
    /// changed.
    pub id: i32,
    pub name: String,
    pub key: String,
    pub header: bool,
    pub category: i32,
    pub open: bool,
    pub fixed: bool,
    pub note: String,
    /// How many keys a heading has under it.
    pub count: usize,
}

/// [`ShortcutItem`] with its texts as characters.
pub ghost struct ItemModel {
    pub id: i32,
    pub name: Seq<char>,
    pub key: Seq<char>,
    pub header: bool,
    pub category: i32,
    pub open: bool,
    pub fixed: bool,
    pub note: Seq<char>,
    pub count: usize,
}

impl View for ShortcutItem {
    type V = ItemModel;

    open spec fn view(&self) -> ItemModel {
        ItemModel {
            id: self.id,
            name: self.name@,
            key: self.key@,
            header: self.header,
            category: self.category,
            open: self.open,
            fixed: self.fixed,
            note: self.note@,
            count: self.count,
        }
    }
}

pub open spec fn item_models(items: Seq<ShortcutItem>) -> Seq<ItemModel> {
    Seq::new(items.len(), |i: int| items[i]@)
}

/// What is searched for: a part of the name or the key in lower case, and a key.
pub open spec fn is_wanted(
    query: Seq<char>,
    key_query: Seq<char>,
    name: Seq<char>,
    key: Seq<char>,
) -> bool {
    &&& query.len() == 0 || lines::holds_part(letters::lowered(name), query) || lines::holds_part(
        letters::lowered(key),
        query,
    )
    &&& key_query.len() == 0 || key == key_query
}

fn wanted(query: &str, key_query: &str, name: &str, key: &str) -> (out: bool)
    ensures
        out == is_wanted(query@, key_query@, name@, key@),
{
    let none: bool = text::chars_of(query).len() == 0;
    let any: bool = text::chars_of(key_query).len() == 0;
    if !none {
        let low = letters::lower_case(name);
        let small = letters::lower_case(key);
        if !lines::has_part(low.as_str(), query) && !lines::has_part(small.as_str(), query) {
            return false;
        }
    }
    any || text::same_text(key, key_query)
}

/// A key of the list.
pub open spec fn item(
    id: i32,
    name: Seq<char>,
    key: Seq<char>,
    category: i32,
    fixed: bool,
) -> ItemModel {
    ItemModel {
        id,
        name,
        key,
        header: false,
        category,
        open: true,
        fixed,
        note: Seq::empty(),
        count: 0,
    }
}

/// The keys of a group that can be changed, among the first `n` actions.
pub open spec fn changeable(
    names: Seq<Seq<char>>,
    held: Seq<Seq<char>>,
    query: Seq<char>,
    key_query: Seq<char>,
    category: i32,
    n: int,
) -> Seq<ItemModel>
    decreases n,
{
    if n <= 0 {
        Seq::empty()
    } else {
        let before = changeable(names, held, query, key_query, category, n - 1);
        if n - 1 != RESERVED && actions::group_of((n - 1) as usize) == category && is_wanted(
            query,
            key_query,
            names[n - 1],
            held[n - 1],
        ) {
            before.push(item((n - 1) as i32, names[n - 1], held[n - 1], category, false))
        } else {
            before
        }
    }
}

/// The words of a key that cannot be changed.
pub open spec fn fixed_words(at: usize, english: bool) -> Seq<char> {
    if english {
        actions::fixed_key(at).2@
    } else {
        actions::fixed_key(at).1@
    }
}

/// The keys of a group that cannot be changed, among the first `n`.
pub open spec fn unchangeable(
    query: Seq<char>,
    key_query: Seq<char>,
    category: i32,
    english: bool,
    n: int,
) -> Seq<ItemModel>
    decreases n,
{
    if n <= 0 {
        Seq::empty()
    } else {
        let before = unchangeable(query, key_query, category, english, n - 1);
        let at = (n - 1) as usize;
        if actions::fixed_key(at).0 == category && is_wanted(
            query,
            key_query,
            fixed_words(at, english),
            actions::fixed_key(at).3@,
        ) {
            before.push(
                item((-1) as i32, fixed_words(at, english), actions::fixed_key(at).3@, category, true),
            )
        } else {
            before
        }
    }
}

/// What the list is made of: the names of the actions, their keys, what is
/// searched for, which groups are folded and the language.
pub ghost struct Shown {
    pub names: Seq<Seq<char>>,
    pub held: Seq<Seq<char>>,
    pub query: Seq<char>,
    pub key_query: Seq<char>,
    pub folded: u32,
    pub english: bool,
}

/// The keys of a group.
pub open spec fn group_items(shown: Shown, category: i32) -> Seq<ItemModel> {
    changeable(
        shown.names,
        shown.held,
        shown.query,
        shown.key_query,
        category,
        ACTION_COUNT as int,
    ) + unchangeable(
        shown.query,
        shown.key_query,
        category,
        shown.english,
        FIXED_COUNT as int,
    )
}

/// Whether a group is folded.
pub open spec fn is_folded(folded: u32, category: i32) -> bool {
    folded & (1u32 << (category as u32)) != 0
}

/// The heading of a group.
pub open spec fn heading(shown: Shown, category: i32, open: bool, count: usize) -> ItemModel {
    ItemModel {
        id: (-1) as i32,
        name: if shown.english {
            actions::group_words(category).1@
        } else {
            actions::group_words(category).0@
        },
        key: Seq::empty(),
        header: true,
        category,
        open,
        fixed: false,
        note: if shown.english {
            actions::group_note(category).1@
        } else {
            actions::group_note(category).0@
        },
        count,
    }
}

/// The rows of one group. While something is searched for, every group with
/// something to show is open and the others are left out.
pub open spec fn group_rows(shown: Shown, category: i32) -> Seq<ItemModel> {
    let items = group_items(shown, category);
    let searching = shown.query.len() > 0 || shown.key_query.len() > 0;
    let open = searching || !is_folded(shown.folded, category);
    if searching && items.len() == 0 {
        Seq::empty()
    } else if open {
        seq![heading(shown, category, open, items.len() as usize)] + items
    } else {
        seq![heading(shown, category, open, items.len() as usize)]
    }
}

/// The rows of the first `n` groups.
pub open spec fn rows_to(shown: Shown, n: int) -> Seq<ItemModel>
    decreases n,
{
    if n <= 0 {
        Seq::empty()
    } else {
        rows_to(shown, n - 1) + group_rows(shown, (n - 1) as i32)
    }
}

/// How many groups there are.
pub const GROUP_COUNT: i32 = 9;

fn owned(source: &str) -> (out: String)
    ensures
        out@ == source@,
{
    text::string_of(&text::chars_of(source))
}

fn plain_item(id: i32, name: String, key: String, category: i32, fixed: bool) -> (out: ShortcutItem)
    ensures
        out@ == item(id, name@, key@, category, fixed),
{
    let note = String::new();
    assert(note@ =~= Seq::empty());
    ShortcutItem { id, name, key, header: false, category, open: true, fixed, note, count: 0 }
}

fn list_group(
    names: &Vec<String>,
    held: &Vec<String>,
    query: &str,
    key_query: &str,
    category: i32,
    english: bool,
    Ghost(shown): Ghost<Shown>,
) -> (out: Vec<ShortcutItem>)
    requires
        names@.len() == ACTION_COUNT,
        held@.len() == ACTION_COUNT,
        shown.names == lines::texts(names@),
        shown.held == lines::texts(held@),
        shown.query == query@,
        shown.key_query == key_query@,
        shown.english == english,
    ensures
        item_models(out@) == group_items(shown, category),
{
    let mut out: Vec<ShortcutItem> = Vec::new();
    let mut at: usize = 0;
    assert(item_models(out@) =~= Seq::empty());
    while at < ACTION_COUNT
        invariant
            at <= ACTION_COUNT,
            names@.len() == ACTION_COUNT,
            held@.len() == ACTION_COUNT,
            item_models(out@) == changeable(
                lines::texts(names@),
                lines::texts(held@),
                query@,
                key_query@,
                category,
                at as int,
            ),
        decreases ACTION_COUNT - at,
    {
        if at != RESERVED && actions::category_at(at) == category && wanted(
            query,
            key_query,
            names[at].as_str(),
            held[at].as_str(),
        ) {
            let ghost before = item_models(out@);
            let one = plain_item(at as i32, names[at].clone(), held[at].clone(), category, false);
            out.push(one);
            assert(item_models(out@) =~= before.push(one@));
        }
        at += 1;
    }
    let ghost first = item_models(out@);
    let mut at: usize = 0;
    assert(item_models(out@) =~= first + unchangeable(query@, key_query@, category, english, 0));
    while at < FIXED_COUNT
        invariant
            at <= FIXED_COUNT,
            item_models(out@) == first + unchangeable(
                query@,
                key_query@,
                category,
                english,
                at as int,
            ),
        decreases FIXED_COUNT - at,
    {
        let fixed = actions::fixed_at(at, english);
        if fixed.0 == category && wanted(query, key_query, fixed.1, fixed.2) {
            let ghost before = item_models(out@);
            let one = plain_item(-1, owned(fixed.1), owned(fixed.2), category, true);
            out.push(one);
            assert(item_models(out@) =~= before.push(one@));
        }
        at += 1;
        assert(item_models(out@) =~= first + unchangeable(
            query@,
            key_query@,
            category,
            english,
            at as int,
        ));
    }
    out
}

/// The list of keys. `names` holds the words of every action in the language,
/// `folded` a bit for each folded group.
pub fn publish(
    raw: &str,
    names: &Vec<String>,
    query: &str,
    key_query: &str,
    folded: u32,
    english: bool,
) -> (out: Vec<ShortcutItem>)
    requires
        names@.len() == ACTION_COUNT,
    ensures
        item_models(out@) == rows_to(
            Shown {
                names: lines::texts(names@),
                held: bindings::bound(raw@),
                query: letters::small(query@),
                key_query: key_query@,
                folded,
                english,
            },
            GROUP_COUNT as int,
        ),
{
    let held = bindings::bindings(raw);
    let low = letters::to_small(query);
    let searching: bool = text::chars_of(low.as_str()).len() > 0 || text::chars_of(key_query).len()
        > 0;
    let ghost shown = Shown {
        names: lines::texts(names@),
        held: lines::texts(held@),
        query: low@,
        key_query: key_query@,
        folded,
        english,
    };
    let mut out: Vec<ShortcutItem> = Vec::new();
    let mut category: i32 = 0;
    assert(item_models(out@) =~= Seq::empty());
    while category < GROUP_COUNT
        invariant
            0 <= category <= GROUP_COUNT,
            names@.len() == ACTION_COUNT,
            held@.len() == ACTION_COUNT,
            shown.names == lines::texts(names@),
            shown.held == lines::texts(held@),
            shown.query == low@,
            shown.key_query == key_query@,
            shown.folded == folded,
            shown.english == english,
            searching == (low@.len() > 0 || key_query@.len() > 0),
            item_models(out@) == rows_to(shown, category as int),
        decreases GROUP_COUNT - category,
    {
        let ghost before = item_models(out@);
        let items = list_group(
            names,
            &held,
            low.as_str(),
            key_query,
            category,
            english,
            Ghost(shown),
        );
        let count: usize = items.len();
        if searching && count == 0 {
            assert(item_models(out@) =~= before + group_rows(shown, category));
        } else {
            let open: bool = searching || folded & (1u32 << (category as u32)) == 0;
            let words = actions::group_at(category, english);
            let key = String::new();
            let head = ShortcutItem {
                id: -1,
                name: owned(words.0),
                key,
                header: true,
                category,
                open,
                fixed: false,
                note: owned(words.1),
                count,
            };
            proof {
                assert(key@ =~= Seq::empty());
                assert(head@ == heading(shown, category, open, count));
            }
            out.push(head);
            assert(item_models(out@) =~= before.push(head@));
            if open {
                let mut rest = items;
                let ghost all = item_models(rest@);
                out.append(&mut rest);
                assert(item_models(out@) =~= before.push(head@) + all);
            }
            assert(item_models(out@) =~= before + group_rows(shown, category));
        }
        category += 1;
    }
    out
}

/// The folded groups after one is folded or opened.
pub fn fold_group(folded: u32, category: i32) -> (out: u32)
    ensures
        out == folded ^ (1u32 << (if category < 0 {
            0u32
        } else if category > 30 {
            30u32
        } else {
            category as u32
        })),
{
    let place: u32 = if category < 0 {
        0
    } else if category > 30 {
        30
    } else {
        category as u32
    };
    folded ^ (1u32 << place)
}

} // verus!
