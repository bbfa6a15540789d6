//! The tags of many documents as a tree.
use crate::letters;
use crate::lines;
use crate::tags::query;
use crate::text;
use vstd::prelude::*;

verus! {

/// One tag of the tree, with the tags below it.
#[derive(Debug)]
pub struct TagNode {
    /// Its last level.
    pub name: String,
    /// The whole name, in its first spelling.
    pub path: String,
    /// How many documents have this tag or one below it.
    pub files: usize,
    pub children: Vec<TagNode>,
}

/// What is known of one tag: how it is compared, its first spelling and the
/// documents that have it, in order.
pub struct TagEntry {
    pub key: String,
    pub path: String,
    pub files: Vec<usize>,
}

/// [`TagEntry`] with its texts as characters.
pub ghost struct EntryModel {
    pub key: Seq<char>,
    pub path: Seq<char>,
    pub files: Seq<usize>,
}

impl View for TagEntry {
    type V = EntryModel;

    open spec fn view(&self) -> EntryModel {
        EntryModel { key: self.key@, path: self.path@, files: self.files@ }
    }
}

pub open spec fn entry_models(entries: Seq<TagEntry>) -> Seq<EntryModel> {
    Seq::new(entries.len(), |i: int| entries[i]@)
}

/// The order of texts: by the first character in which they differ, a text
/// before the longer ones that begin with it.
pub open spec fn comes_before(one: Seq<char>, two: Seq<char>) -> bool
    decreases one.len(),
{
    if two.len() == 0 {
        false
    } else if one.len() == 0 {
        true
    } else if one[0] != two[0] {
        one[0] < two[0]
    } else {
        comes_before(one.skip(1), two.skip(1))
    }
}

fn is_before(one: &str, two: &str) -> (out: bool)
    ensures
        out == comes_before(one@, two@),
{
    let left = text::chars_of(one);
    let right = text::chars_of(two);
    let mut at: usize = 0;
    assert(left@.skip(0) =~= left@);
    assert(right@.skip(0) =~= right@);
    while at < left.len() && at < right.len()
        invariant
            at <= left@.len(),
            at <= right@.len(),
            left@ == one@,
            right@ == two@,
            comes_before(one@, two@) == comes_before(left@.skip(at as int), right@.skip(at as int)),
        decreases left@.len() - at,
    {
        proof {
            assert(left@.skip(at as int).skip(1) =~= left@.skip(at + 1));
            assert(right@.skip(at as int).skip(1) =~= right@.skip(at + 1));
        }
        if left[at] != right[at] {
            return left[at] < right[at];
        }
        at += 1;
    }
    right.len() > at
}

/// Where a tag stands among the entries, or would stand.
pub open spec fn place_for(entries: Seq<EntryModel>, key: Seq<char>, from: int) -> int
    decreases entries.len() - from,
{
    if from < 0 || from >= entries.len() || !comes_before(entries[from].key, key) {
        from
    } else {
        place_for(entries, key, from + 1)
    }
}

/// A document is added to those of an entry, unless it is the last already.
pub open spec fn with_file(files: Seq<usize>, file: usize) -> Seq<usize> {
    if files.len() > 0 && files.last() == file {
        files
    } else {
        files.push(file)
    }
}

/// The entries after a document is seen to have a tag.
pub open spec fn with_tag(
    entries: Seq<EntryModel>,
    path: Seq<char>,
    file: usize,
) -> Seq<EntryModel> {
    let key = letters::lowered(path);
    let at = place_for(entries, key, 0);
    if at < entries.len() && entries[at].key == key {
        entries.update(
            at,
            EntryModel { files: with_file(entries[at].files, file), ..entries[at] },
        )
    } else {
        entries.insert(at, EntryModel { key, path, files: seq![file] })
    }
}

/// A level of a name ends here: there is something in it, and a stroke or the
/// end behind it.
pub open spec fn level_ends(name: Seq<char>, end: int) -> bool {
    0 < end <= name.len() && name[end - 1] != '/' && (end == name.len() || name[end] == '/')
}

/// The entries after the first `n` characters of a name: each level of it is a
/// tag.
pub open spec fn with_levels(
    entries: Seq<EntryModel>,
    name: Seq<char>,
    file: usize,
    n: int,
) -> Seq<EntryModel>
    decreases n,
{
    if n <= 0 {
        entries
    } else {
        let before = with_levels(entries, name, file, n - 1);
        if level_ends(name, n) {
            with_tag(before, name.take(n), file)
        } else {
            before
        }
    }
}

/// The entries after the first `n` names of a document.
pub open spec fn with_names(
    entries: Seq<EntryModel>,
    names: Seq<Seq<char>>,
    file: usize,
    n: int,
) -> Seq<EntryModel>
    decreases n,
{
    if n <= 0 {
        entries
    } else {
        with_levels(
            with_names(entries, names, file, n - 1),
            names[n - 1],
            file,
            names[n - 1].len() as int,
        )
    }
}

pub open spec fn name_lists(documents: Seq<Vec<String>>) -> Seq<Seq<Seq<char>>> {
    Seq::new(documents.len(), |i: int| lines::texts(documents[i]@))
}

/// The entries of the first `n` documents.
pub open spec fn entries_to(documents: Seq<Seq<Seq<char>>>, n: int) -> Seq<EntryModel>
    decreases n,
{
    if n <= 0 {
        Seq::empty()
    } else {
        with_names(
            entries_to(documents, n - 1),
            documents[n - 1],
            (n - 1) as usize,
            documents[n - 1].len() as int,
        )
    }
}

/// The entries of all documents.
pub open spec fn all_entries(documents: Seq<Seq<Seq<char>>>) -> Seq<EntryModel> {
    entries_to(documents, documents.len() as int)
}

/// Every entry has a key.
pub open spec fn keyed(entries: Seq<EntryModel>) -> bool {
    forall|i: int| 0 <= i < entries.len() ==> (#[trigger] entries[i]).key.len() > 0
}

fn find_place(entries: &Vec<TagEntry>, key: &str) -> (out: usize)
    ensures
        out == place_for(entry_models(entries@), key@, 0),
        out <= entries@.len(),
{
    let ghost all = entry_models(entries@);
    let mut at: usize = 0;
    while at < entries.len() && is_before(entries[at].key.as_str(), key)
        invariant
            at <= entries@.len(),
            all == entry_models(entries@),
            place_for(all, key@, 0) == place_for(all, key@, at as int),
        decreases entries@.len() - at,
    {
        at += 1;
    }
    at
}

fn add_tag(entries: &mut Vec<TagEntry>, path: String, file: usize)
    requires
        path@.len() > 0,
        keyed(entry_models(old(entries)@)),
    ensures
        keyed(entry_models(final(entries)@)),
        entry_models(final(entries)@) == with_tag(entry_models(old(entries)@), path@, file),
{
    let ghost all = entry_models(entries@);
    let key = query::key(path.as_str());
    let at: usize = find_place(entries, key.as_str());
    if at < entries.len() && text::same_text(entries[at].key.as_str(), key.as_str()) {
        let count: usize = entries[at].files.len();
        if count == 0 || entries[at].files[count - 1] != file {
            entries[at].files.push(file);
        }
        proof {
            let held = all[at as int];
            assert(entries@[at as int]@ == (EntryModel {
                files: with_file(held.files, file),
                ..held
            }));
            assert(entry_models(entries@) =~= all.update(
                at as int,
                EntryModel { files: with_file(held.files, file), ..held },
            ));
        }
    } else {
        let mut files: Vec<usize> = Vec::new();
        files.push(file);
        let entry = TagEntry { key, path, files };
        entries.insert(at, entry);
        proof {
            assert(files@ =~= seq![file]);
            assert(entry_models(entries@) =~= all.insert(at as int, entry@));
        }
    }
}

fn add_levels(entries: &mut Vec<TagEntry>, name: &str, file: usize)
    requires
        keyed(entry_models(old(entries)@)),
    ensures
        keyed(entry_models(final(entries)@)),
        entry_models(final(entries)@) == with_levels(
            entry_models(old(entries)@),
            name@,
            file,
            name@.len() as int,
        ),
{
    let chars = text::chars_of(name);
    let ghost first = entry_models(entries@);
    let mut end: usize = 0;
    while end < chars.len()
        invariant
            end <= chars@.len(),
            chars@ == name@,
            keyed(entry_models(entries@)),
            entry_models(entries@) == with_levels(first, name@, file, end as int),
        decreases chars@.len() - end,
    {
        end += 1;
        if chars[end - 1] != '/' && (end == chars.len() || chars[end] == '/') {
            let path = text::string_range(&chars, 0, end);
            assert(path@ =~= name@.take(end as int));
            add_tag(entries, path, file);
        }
    }
}

fn collect(documents: &Vec<Vec<String>>) -> (out: Vec<TagEntry>)
    ensures
        entry_models(out@) == all_entries(name_lists(documents@)),
        keyed(entry_models(out@)),
{
    let ghost lists = name_lists(documents@);
    let mut out: Vec<TagEntry> = Vec::new();
    let mut at: usize = 0;
    assert(entry_models(out@) =~= Seq::empty());
    while at < documents.len()
        invariant
            at <= documents@.len(),
            lists == name_lists(documents@),
            keyed(entry_models(out@)),
            entry_models(out@) == entries_to(lists, at as int),
        decreases documents@.len() - at,
    {
        let ghost before = entry_models(out@);
        let mut each: usize = 0;
        while each < documents[at].len()
            invariant
                at < documents@.len(),
                each <= documents@[at as int]@.len(),
                lists == name_lists(documents@),
                keyed(entry_models(out@)),
                entry_models(out@) == with_names(before, lists[at as int], at, each as int),
            decreases documents@[at as int]@.len() - each,
        {
            add_levels(&mut out, documents[at][each].as_str(), at);
            each += 1;
        }
        at += 1;
    }
    out
}

/// A key without its last level.
pub open spec fn without_last(key: Seq<char>) -> Seq<char>
    decreases key.len(),
{
    if key.len() == 0 {
        key
    } else if key.last() == '/' {
        key.drop_last()
    } else {
        without_last(key.drop_last())
    }
}

/// A key is one of the entries'.
pub open spec fn is_entry(entries: Seq<EntryModel>, key: Seq<char>) -> bool {
    exists|i: int| 0 <= i < entries.len() && (#[trigger] entries[i]).key == key
}

pub proof fn without_last_is_shorter(key: Seq<char>)
    ensures
        key.len() > 0 ==> without_last(key).len() < key.len(),
        key.len() == 0 ==> without_last(key).len() == 0,
    decreases key.len(),
{
    if key.len() > 0 && key.last() != '/' {
        without_last_is_shorter(key.drop_last());
    }
}

/// The nearest level above that is an entry; nothing where there is none.
pub open spec fn nearest(entries: Seq<EntryModel>, key: Seq<char>) -> Seq<char>
    decreases key.len(),
    via nearest_goes_up
{
    if key.len() == 0 || is_entry(entries, key) {
        key
    } else {
        nearest(entries, without_last(key))
    }
}

#[via_fn]
proof fn nearest_goes_up(entries: Seq<EntryModel>, key: Seq<char>) {
    without_last_is_shorter(key);
}

/// The tag above a tag.
pub open spec fn parent_of(entries: Seq<EntryModel>, key: Seq<char>) -> Seq<char> {
    nearest(entries, without_last(key))
}

proof fn nearest_is_no_longer(entries: Seq<EntryModel>, key: Seq<char>)
    ensures
        nearest(entries, key).len() <= key.len(),
    decreases key.len(),
{
    if key.len() > 0 && !is_entry(entries, key) {
        without_last_is_shorter(key);
        nearest_is_no_longer(entries, without_last(key));
    }
}

/// A tag above is shorter.
pub proof fn parents_are_shorter(entries: Seq<EntryModel>, key: Seq<char>)
    requires
        key.len() > 0,
    ensures
        parent_of(entries, key).len() < key.len(),
{
    without_last_is_shorter(key);
    nearest_is_no_longer(entries, without_last(key));
}

/// The places of the entries right below a tag, among the first `n`.
pub open spec fn below(entries: Seq<EntryModel>, parent: Seq<char>, n: int) -> Seq<int>
    decreases n,
{
    if n <= 0 {
        Seq::empty()
    } else if parent_of(entries, entries[n - 1].key) == parent {
        below(entries, parent, n - 1).push(n - 1)
    } else {
        below(entries, parent, n - 1)
    }
}

/// The last level of a name.
pub open spec fn last_level(path: Seq<char>) -> Seq<char>
    decreases path.len(),
{
    if path.len() == 0 || path.last() == '/' {
        Seq::empty()
    } else {
        last_level(path.drop_last()).push(path.last())
    }
}

/// A node shows an entry, but for what is below it.
pub open spec fn shows(node: TagNode, entry: EntryModel) -> bool {
    node.name@ == last_level(entry.path) && node.path@ == entry.path && node.files
        == entry.files.len()
}

/// The nodes are the tags right below a tag, in order, and below each of them
/// stand its own.
pub open spec fn is_tree(nodes: Seq<TagNode>, entries: Seq<EntryModel>, parent: Seq<char>) -> bool
    decreases nodes,
{
    let here = below(entries, parent, entries.len() as int);
    &&& nodes.len() == here.len()
    &&& forall|i: int|
        0 <= i < nodes.len() ==> shows(#[trigger] nodes[i], entries[here[i]]) && is_tree(
            nodes[i].children@,
            entries,
            entries[here[i]].key,
        )
}

fn cut_last(key: &Vec<char>, end: usize) -> (out: usize)
    requires
        end <= key@.len(),
    ensures
        out <= end,
        key@.take(out as int) == without_last(key@.take(end as int)),
        end > 0 ==> out < end,
{
    let mut at: usize = end;
    while at > 0
        invariant
            at <= end <= key@.len(),
            without_last(key@.take(end as int)) == without_last(key@.take(at as int)),
        decreases at,
    {
        assert(key@.take(at as int).drop_last() =~= key@.take(at - 1));
        at -= 1;
        if key[at] == '/' {
            return at;
        }
    }
    assert(key@.take(0) =~= Seq::empty());
    0
}

fn holds_key(entries: &Vec<TagEntry>, key: &str) -> (out: bool)
    ensures
        out == is_entry(entry_models(entries@), key@),
{
    let ghost all = entry_models(entries@);
    let mut at: usize = 0;
    while at < entries.len()
        invariant
            at <= entries@.len(),
            all == entry_models(entries@),
            forall|i: int| 0 <= i < at ==> (#[trigger] all[i]).key != key@,
        decreases entries@.len() - at,
    {
        if text::same_text(entries[at].key.as_str(), key) {
            assert(all[at as int].key == key@);
            return true;
        }
        at += 1;
    }
    false
}

fn find_parent(entries: &Vec<TagEntry>, key: &str) -> (out: String)
    ensures
        out@ == parent_of(entry_models(entries@), key@),
{
    let ghost all = entry_models(entries@);
    let chars = text::chars_of(key);
    assert(chars@.take(chars@.len() as int) =~= key@);
    let mut end: usize = cut_last(&chars, chars.len());
    let mut part = text::string_range(&chars, 0, end);
    assert(part@ =~= chars@.take(end as int));
    while end > 0 && !holds_key(entries, part.as_str())
        invariant
            end <= chars@.len(),
            all == entry_models(entries@),
            part@ == chars@.take(end as int),
            parent_of(all, key@) == nearest(all, part@),
        decreases end,
    {
        end = cut_last(&chars, end);
        part = text::string_range(&chars, 0, end);
        assert(part@ =~= chars@.take(end as int));
    }
    part
}

fn name_of(path: &str) -> (out: String)
    ensures
        out@ == last_level(path@),
{
    let chars = text::chars_of(path);
    let mut start: usize = chars.len();
    proof {
        assert(chars@.take(start as int) =~= path@);
        assert(chars@.subrange(start as int, chars@.len() as int) =~= Seq::empty());
        assert(last_level(path@) =~= last_level(chars@.take(start as int)) + chars@.subrange(
            start as int,
            chars@.len() as int,
        ));
    }
    while start > 0 && chars[start - 1] != '/'
        invariant
            start <= chars@.len(),
            last_level(path@) == last_level(chars@.take(start as int)) + chars@.subrange(
                start as int,
                chars@.len() as int,
            ),
        decreases start,
    {
        proof {
            let before = chars@.take(start as int);
            assert(before.drop_last() =~= chars@.take(start - 1));
            assert(before.last() == chars@[start - 1]);
            let rest = chars@.subrange(start as int, chars@.len() as int);
            let more = chars@.subrange(start - 1, chars@.len() as int);
            assert(last_level(chars@.take(start - 1)).push(chars@[start - 1]) + rest =~= last_level(
                chars@.take(start - 1),
            ) + more);
        }
        start -= 1;
    }
    let out = text::string_range(&chars, start, chars.len());
    proof {
        assert(last_level(chars@.take(start as int)) =~= Seq::empty());
        assert(out@ =~= last_level(path@));
    }
    out
}

fn build(entries: &Vec<TagEntry>, parents: &Vec<String>, parent: &str, longest: usize) -> (out: Vec<
    TagNode,
>)
    requires
        parents@.len() == entries@.len(),
        forall|i: int|
            0 <= i < entries@.len() ==> (#[trigger] parents@[i])@ == parent_of(
                entry_models(entries@),
                entries@[i].key@,
            ),
        forall|i: int| 0 <= i < entries@.len() ==> (#[trigger] entries@[i]).key@.len() <= longest,
        keyed(entry_models(entries@)),
        parent@.len() <= longest,
    ensures
        is_tree(out@, entry_models(entries@), parent@),
    decreases longest - parent@.len(),
{
    let ghost all = entry_models(entries@);
    let ghost goal = below(all, parent@, all.len() as int);
    let mut out: Vec<TagNode> = Vec::new();
    let mut at: usize = 0;
    while at < entries.len()
        invariant
            at <= entries@.len(),
            all == entry_models(entries@),
            parents@.len() == entries@.len(),
            forall|i: int|
                0 <= i < entries@.len() ==> (#[trigger] parents@[i])@ == parent_of(
                    all,
                    entries@[i].key@,
                ),
            forall|i: int|
                0 <= i < entries@.len() ==> (#[trigger] entries@[i]).key@.len() <= longest,
            keyed(all),
            parent@.len() <= longest,
            out@.len() == below(all, parent@, at as int).len(),
            forall|i: int|
                0 <= i < out@.len() ==> shows(
                    #[trigger] out@[i],
                    all[below(all, parent@, at as int)[i]],
                ) && is_tree(
                    out@[i].children@,
                    all,
                    all[below(all, parent@, at as int)[i]].key,
                ),
        decreases entries@.len() - at,
    {
        if text::same_text(parents[at].as_str(), parent) {
            let entry = &entries[at];
            proof {
                assert(all[at as int].key.len() > 0);
                parents_are_shorter(all, entry.key@);
            }
            let children = build(entries, parents, entry.key.as_str(), longest);
            let node = TagNode {
                name: name_of(entry.path.as_str()),
                path: entry.path.clone(),
                files: entry.files.len(),
                children,
            };
            assert(shows(node, all[at as int]));
            out.push(node);
        }
        at += 1;
    }
    out
}

/// The tags of documents as a tree: by the way they are compared, each with the
/// number of documents that have it or a tag below it. `documents` holds the
/// names of each.
pub fn tree(documents: &Vec<Vec<String>>) -> (out: Vec<TagNode>)
    ensures
        is_tree(out@, all_entries(name_lists(documents@)), Seq::empty()),
{
    let entries = collect(documents);
    let ghost all = entry_models(entries@);
    let mut parents: Vec<String> = Vec::new();
    let mut longest: usize = 0;
    let mut at: usize = 0;
    while at < entries.len()
        invariant
            at <= entries@.len(),
            all == entry_models(entries@),
            parents@.len() == at,
            forall|i: int|
                0 <= i < at ==> (#[trigger] parents@[i])@ == parent_of(all, entries@[i].key@),
            forall|i: int| 0 <= i < at ==> (#[trigger] entries@[i]).key@.len() <= longest,
        decreases entries@.len() - at,
    {
        let parent = find_parent(&entries, entries[at].key.as_str());
        parents.push(parent);
        let length: usize = text::chars_of(entries[at].key.as_str()).len();
        if length > longest {
            longest = length;
        }
        at += 1;
    }
    proof {
        reveal_strlit("");
        assert(""@ =~= Seq::empty());
    }
    build(&entries, &parents, "", longest)
}

/// A row of the list of tags.
#[derive(Clone, Debug, PartialEq, Eq)]
pub struct TagRow {
    pub name: String,
    pub path: String,
    pub depth: usize,
    pub files: usize,
    /// There are tags below it.
    pub parent: bool,
    pub open: bool,
}

/// [`TagRow`] with its texts as characters.
pub ghost struct RowModel {
    pub name: Seq<char>,
    pub path: Seq<char>,
    pub depth: usize,
    pub files: usize,
    pub parent: bool,
    pub open: bool,
}

impl View for TagRow {
    type V = RowModel;

    open spec fn view(&self) -> RowModel {
        RowModel {
            name: self.name@,
            path: self.path@,
            depth: self.depth,
            files: self.files,
            parent: self.parent,
            open: self.open,
        }
    }
}

pub open spec fn row_models(rows: Seq<TagRow>) -> Seq<RowModel> {
    Seq::new(rows.len(), |i: int| rows[i]@)
}

/// A tag that is looked for: its name holds the part, or that of one below it
/// does.
pub open spec fn is_wanted(node: TagNode, filter: Seq<char>) -> bool
    decreases node,
{
    ||| filter.len() == 0
    ||| lines::holds_part(letters::lowered(node.path@), filter)
    ||| exists|i: int|
        0 <= i < node.children@.len() && is_wanted(#[trigger] node.children@[i], filter)
}

fn wanted(node: &TagNode, filter: &str) -> (out: bool)
    ensures
        out == is_wanted(*node, filter@),
    decreases *node,
{
    let length: usize = text::chars_of(filter).len();
    if length == 0 {
        return true;
    }
    let low = query::key(node.path.as_str());
    if lines::has_part(low.as_str(), filter) {
        return true;
    }
    let mut at: usize = 0;
    while at < node.children.len()
        invariant
            at <= node.children@.len(),
            filter@.len() > 0,
            !lines::holds_part(letters::lowered(node.path@), filter@),
            forall|i: int|
                0 <= i < at ==> !is_wanted(#[trigger] node.children@[i], filter@),
        decreases node.children@.len() - at,
    {
        if wanted(&node.children[at], filter) {
            return true;
        }
        at += 1;
    }
    false
}

/// One level deeper.
pub open spec fn deeper(depth: usize) -> usize {
    if depth < usize::MAX {
        (depth + 1) as usize
    } else {
        depth
    }
}

/// Whether a tag is shown open: everything is while something is looked for.
pub open spec fn is_open(node: TagNode, open: Seq<Seq<char>>, filter: Seq<char>) -> bool {
    filter.len() > 0 || open.contains(letters::lowered(node.path@))
}

/// The row of a tag.
pub open spec fn row_of(
    node: TagNode,
    depth: usize,
    open: Seq<Seq<char>>,
    filter: Seq<char>,
) -> RowModel {
    RowModel {
        name: node.name@,
        path: node.path@,
        depth,
        files: node.files,
        parent: node.children@.len() > 0,
        open: is_open(node, open, filter),
    }
}

/// The rows of the first `n` tags: each that is wanted, and below an open one
/// its own.
pub open spec fn rows_to(
    nodes: Seq<TagNode>,
    depth: usize,
    open: Seq<Seq<char>>,
    filter: Seq<char>,
    n: nat,
) -> Seq<RowModel>
    decreases nodes, n,
{
    if n == 0 || n > nodes.len() {
        Seq::empty()
    } else {
        let before = rows_to(nodes, depth, open, filter, (n - 1) as nat);
        let node = nodes[n - 1];
        if !is_wanted(node, filter) {
            before
        } else if is_open(node, open, filter) {
            before.push(row_of(node, depth, open, filter)) + rows_to(
                node.children@,
                deeper(depth),
                open,
                filter,
                node.children@.len(),
            )
        } else {
            before.push(row_of(node, depth, open, filter))
        }
    }
}

fn holds_text(texts: &Vec<String>, one: &str) -> (out: bool)
    ensures
        out == lines::texts(texts@).contains(one@),
{
    let ghost all = lines::texts(texts@);
    let mut at: usize = 0;
    while at < texts.len()
        invariant
            at <= texts@.len(),
            all == lines::texts(texts@),
            forall|i: int| 0 <= i < at ==> all[i] != one@,
        decreases texts@.len() - at,
    {
        if text::same_text(texts[at].as_str(), one) {
            assert(all[at as int] == one@);
            return true;
        }
        at += 1;
    }
    false
}

fn walk(
    nodes: &Vec<TagNode>,
    depth: usize,
    open: &Vec<String>,
    filter: &str,
    out: &mut Vec<TagRow>,
)
    ensures
        row_models(final(out)@) == row_models(old(out)@) + rows_to(
            nodes@,
            depth,
            lines::texts(open@),
            filter@,
            nodes@.len(),
        ),
    decreases nodes@,
{
    let ghost first = row_models(out@);
    let ghost opened = lines::texts(open@);
    let length: usize = text::chars_of(filter).len();
    let mut at: usize = 0;
    assert(first + rows_to(nodes@, depth, opened, filter@, 0) =~= first);
    while at < nodes.len()
        invariant
            at <= nodes@.len(),
            opened == lines::texts(open@),
            length == filter@.len(),
            row_models(out@) == first + rows_to(nodes@, depth, opened, filter@, at as nat),
        decreases nodes@.len() - at,
    {
        let node = &nodes[at];
        let ghost before = rows_to(nodes@, depth, opened, filter@, at as nat);
        let ghost held = row_models(out@);
        if wanted(node, filter) {
            let low = query::key(node.path.as_str());
            let shown: bool = length > 0 || holds_text(open, low.as_str());
            let row = TagRow {
                name: node.name.clone(),
                path: node.path.clone(),
                depth,
                files: node.files,
                parent: node.children.len() > 0,
                open: shown,
            };
            let ghost one = row@;
            out.push(row);
            proof {
                assert(one == row_of(*node, depth, opened, filter@));
                assert(row_models(out@) =~= held.push(one));
                assert(row_models(out@) =~= first + before.push(one));
            }
            if shown {
                let next: usize = depth.saturating_add(1);
                walk(&node.children, next, open, filter, out);
                proof {
                    let more = rows_to(
                        node.children@,
                        deeper(depth),
                        opened,
                        filter@,
                        node.children@.len(),
                    );
                    assert(row_models(out@) =~= first + (before.push(one) + more));
                }
            }
        }
        at += 1;
    }
}

/// The tree as rows. `open` are the open tags, as they are compared; at first
/// everything is shut. A `filter` leaves the tags whose name holds it, and
/// those above them.
pub fn rows(tree: &Vec<TagNode>, open: &Vec<String>, filter: &str) -> (out: Vec<TagRow>)
    ensures
        row_models(out@) == rows_to(
            tree@,
            0,
            lines::texts(open@),
            letters::small(lines::trim(filter@)),
            tree@.len(),
        ),
{
    let plain = lines::trim_text(filter);
    let low = letters::to_small(plain.as_str());
    let mut out: Vec<TagRow> = Vec::new();
    walk(tree, 0, open, low.as_str(), &mut out);
    proof {
        let all = rows_to(tree@, 0, lines::texts(open@), low@, tree@.len());
        assert(row_models(Seq::empty()) + all =~= all);
    }
    out
}

/// The tags with others below them, among the first `n`, as they are compared.
pub open spec fn parents_to(nodes: Seq<TagNode>, n: nat) -> Seq<Seq<char>>
    decreases nodes, n,
{
    if n == 0 || n > nodes.len() {
        Seq::empty()
    } else {
        let before = parents_to(nodes, (n - 1) as nat);
        let node = nodes[n - 1];
        if node.children@.len() > 0 {
            before.push(letters::lowered(node.path@)) + parents_to(
                node.children@,
                node.children@.len(),
            )
        } else {
            before
        }
    }
}

fn walk_parents(nodes: &Vec<TagNode>, out: &mut Vec<String>)
    ensures
        lines::texts(final(out)@) == lines::texts(old(out)@) + parents_to(nodes@, nodes@.len()),
    decreases nodes@,
{
    let ghost first = lines::texts(out@);
    let mut at: usize = 0;
    assert(first + parents_to(nodes@, 0) =~= first);
    while at < nodes.len()
        invariant
            at <= nodes@.len(),
            lines::texts(out@) == first + parents_to(nodes@, at as nat),
        decreases nodes@.len() - at,
    {
        let node = &nodes[at];
        let ghost before = parents_to(nodes@, at as nat);
        let ghost held = lines::texts(out@);
        if node.children.len() > 0 {
            let low = query::key(node.path.as_str());
            let ghost one = low@;
            out.push(low);
            proof {
                assert(lines::texts(out@) =~= held.push(one));
                assert(lines::texts(out@) =~= first + before.push(one));
            }
            walk_parents(&node.children, out);
            proof {
                let more = parents_to(node.children@, node.children@.len());
                assert(lines::texts(out@) =~= first + (before.push(one) + more));
            }
        }
        at += 1;
    }
}

/// Every tag with others below it, as they are compared: all of them open.
pub fn all_parents(tree: &Vec<TagNode>) -> (out: Vec<String>)
    ensures
        lines::texts(out@) == parents_to(tree@, tree@.len()),
{
    let mut out: Vec<String> = Vec::new();
    walk_parents(tree, &mut out);
    proof {
        let all = parents_to(tree@, tree@.len());
        assert(lines::texts(Seq::empty()) + all =~= all);
    }
    out
}

} // verus!
