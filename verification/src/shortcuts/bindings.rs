//! The keys that the actions have, and what a key that is pressed does.
use crate::lines;
use crate::shortcuts::actions::{self, ShortcutAction, ACTION_COUNT, RESERVED};
use crate::shortcuts::keys;
use crate::shortcuts::spelling::{self, Held};
use crate::numbers;
use crate::text;
use vstd::prelude::*;

verus! {

/// The keys that the actions start with.
pub open spec fn defaults() -> Seq<Seq<char>> {
    Seq::new(ACTION_COUNT as nat, |i: int| actions::first_key(i as usize)@)
}

/// The keys after one more entry: `place=key`. What is no such entry changes
/// nothing.
pub open spec fn with_entry(held: Seq<Seq<char>>, entry: Seq<char>) -> Seq<Seq<char>> {
    match lines::cut(entry, seq!['=']) {
        Some(both) => match (
            numbers::number_in(both.0, ACTION_COUNT - 1),
            spelling::normalized(both.1),
        ) {
            (Some(place), Some(key)) => held.update(place, key),
            _ => held,
        },
        None => held,
    }
}

/// The keys after the first `n` entries.
pub open spec fn with_entries(entries: Seq<Seq<char>>, n: int) -> Seq<Seq<char>>
    decreases n,
{
    if n <= 0 {
        defaults()
    } else {
        with_entry(with_entries(entries, n - 1), entries[n - 1])
    }
}

/// The first other action, among the first `n`, that hears the same key in the
/// same place.
pub open spec fn clash_among(held: Seq<Seq<char>>, i: int, key: Seq<char>, n: int) -> Option<int>
    decreases n,
{
    if n <= 0 || key.len() == 0 {
        None
    } else {
        match clash_among(held, i, key, n - 1) {
            Some(other) => Some(other),
            None => if n - 1 != i && actions::heard_in((n - 1) as usize) == actions::heard_in(
                i as usize,
            ) && held[n - 1] == key {
                Some(n - 1)
            } else {
                None
            },
        }
    }
}

/// The action that already has a key.
pub open spec fn clash(held: Seq<Seq<char>>, i: int, key: Seq<char>) -> Option<int> {
    clash_among(held, i, key, held.len() as int)
}

/// Two actions hear the same key.
pub open spec fn clashes(held: Seq<Seq<char>>) -> bool {
    exists|i: int| 0 <= i < held.len() && #[trigger] clash(held, i, held[i]) is Some
}

/// The keys as they were read.
pub open spec fn read_keys(raw: Seq<char>) -> Seq<Seq<char>> {
    let entries = lines::split(raw, ';');
    with_entries(entries, entries.len() as int).update(RESERVED as int, Seq::empty())
}

/// The keys of the actions. Keys that clash are all put back.
pub open spec fn bound(raw: Seq<char>) -> Seq<Seq<char>> {
    if clashes(read_keys(raw)) {
        defaults()
    } else {
        read_keys(raw)
    }
}

proof fn clash_early(held: Seq<Seq<char>>, i: int, key: Seq<char>, at: int, n: int)
    requires
        0 <= at < n,
        key.len() > 0,
        clash_among(held, i, key, at) is None,
        at != i && actions::heard_in(at as usize) == actions::heard_in(i as usize) && held[at]
            == key,
    ensures
        clash_among(held, i, key, n) == Some(at),
    decreases n - at,
{
    if n > at + 1 {
        clash_early(held, i, key, at, n - 1);
    }
}

/// Finds the action that already has a key.
pub fn conflict(held: &Vec<String>, i: usize, key: &str) -> (out: Option<usize>)
    ensures
        match out {
            Some(other) => clash(lines::texts(held@), i as int, key@) == Some(other as int) && other
                < held@.len(),
            None => clash(lines::texts(held@), i as int, key@) is None,
        },
{
    let ghost all = lines::texts(held@);
    let length: usize = text::chars_of(key).len();
    if length == 0 {
        return None;
    }
    let mut at: usize = 0;
    while at < held.len()
        invariant
            at <= held@.len(),
            all == lines::texts(held@),
            key@.len() > 0,
            clash_among(all, i as int, key@, at as int) is None,
        decreases held@.len() - at,
    {
        if at != i && actions::scope_at(at) == actions::scope_at(i) && text::same_text(
            held[at].as_str(),
            key,
        ) {
            proof {
                clash_early(all, i as int, key@, at as int, all.len() as int);
            }
            return Some(at);
        }
        at += 1;
    }
    None
}

fn default_keys() -> (out: Vec<String>)
    ensures
        lines::texts(out@) == defaults(),
{
    let mut out: Vec<String> = Vec::new();
    let mut at: usize = 0;
    while at < ACTION_COUNT
        invariant
            at <= ACTION_COUNT,
            lines::texts(out@) == defaults().take(at as int),
        decreases ACTION_COUNT - at,
    {
        let ghost before = lines::texts(out@);
        let key = text::string_of(&text::chars_of(actions::default_at(at)));
        out.push(key);
        at += 1;
        proof {
            assert(lines::texts(out@) =~= before.push(key@));
            assert(lines::texts(out@) =~= defaults().take(at as int));
        }
    }
    assert(defaults().take(ACTION_COUNT as int) =~= defaults());
    out
}

fn any_conflict(held: &Vec<String>) -> (out: bool)
    ensures
        out == clashes(lines::texts(held@)),
{
    let ghost all = lines::texts(held@);
    let mut at: usize = 0;
    while at < held.len()
        invariant
            at <= held@.len(),
            all == lines::texts(held@),
            forall|i: int| 0 <= i < at ==> #[trigger] clash(all, i, all[i]) is None,
        decreases held@.len() - at,
    {
        if conflict(held, at, held[at].as_str()).is_some() {
            assert(clash(all, at as int, all[at as int]) is Some);
            return true;
        }
        at += 1;
    }
    false
}

/// [`bound`].
pub fn bindings(raw: &str) -> (out: Vec<String>)
    ensures
        lines::texts(out@) == bound(raw@),
        out@.len() == ACTION_COUNT,
{
    let entries = lines::split_at(raw, ';');
    let ghost all = lines::split(raw@, ';');
    assert(lines::texts(entries@) == all);
    let mut held = default_keys();
    assert(lines::texts(held@).len() == ACTION_COUNT);
    let mut at: usize = 0;
    proof {
        reveal_strlit("=");
        assert("="@ =~= seq!['=']);
    }
    while at < entries.len()
        invariant
            at <= entries@.len(),
            all == lines::texts(entries@),
            "="@ == seq!['='],
            held@.len() == ACTION_COUNT,
            lines::texts(held@) == with_entries(all, at as int),
        decreases entries@.len() - at,
    {
        if let Some((place, value)) = lines::split_once(entries[at].as_str(), "=") {
            if let (Some(place), Some(key)) = (
                numbers::read_number(place.as_str(), ACTION_COUNT - 1),
                spelling::normalize(value.as_str()),
            ) {
                let ghost before = lines::texts(held@);
                let ghost spelt = key@;
                held.set(place, key);
                assert(lines::texts(held@) =~= before.update(place as int, spelt));
            }
        }
        at += 1;
    }
    let ghost before = lines::texts(held@);
    let empty = String::new();
    held.set(RESERVED, empty);
    proof {
        assert(empty@ =~= Seq::empty());
        assert(lines::texts(held@) =~= before.update(RESERVED as int, Seq::empty()));
    }
    if any_conflict(&held) {
        let out = default_keys();
        assert(lines::texts(out@).len() == ACTION_COUNT);
        return out;
    }
    held
}

/// The key of an action; empty for none.
pub fn label(raw: &str, id: usize) -> (out: String)
    ensures
        out@ == if id < ACTION_COUNT {
            bound(raw@)[id as int]
        } else {
            Seq::empty()
        },
{
    let held = bindings(raw);
    if id < held.len() {
        assert(lines::texts(held@)[id as int] == held@[id as int]@);
        held[id].clone()
    } else {
        let out = String::new();
        assert(out@ =~= Seq::empty());
        out
    }
}

/// The first action, from `from` on, that hears a key in a place.
pub open spec fn heard_at(held: Seq<Seq<char>>, scope: i32, key: Seq<char>, from: int) -> Option<int>
    decreases held.len() - from,
{
    if from < 0 || from >= held.len() {
        None
    } else if actions::heard_in(from as usize) == scope && held[from] == key {
        Some(from)
    } else {
        heard_at(held, scope, key, from + 1)
    }
}

fn find_heard(held: &Vec<String>, scope: i32, key: &str) -> (out: Option<usize>)
    ensures
        match out {
            Some(at) => heard_at(lines::texts(held@), scope, key@, 0) == Some(at as int) && at
                < held@.len(),
            None => heard_at(lines::texts(held@), scope, key@, 0) is None,
        },
{
    let ghost all = lines::texts(held@);
    let mut at: usize = 0;
    while at < held.len()
        invariant
            at <= held@.len(),
            all == lines::texts(held@),
            heard_at(all, scope, key@, 0) == heard_at(all, scope, key@, at as int),
        decreases held@.len() - at,
    {
        if actions::scope_at(at) == scope && text::same_text(held[at].as_str(), key) {
            return Some(at);
        }
        at += 1;
    }
    None
}

/// What a key that is pressed does: the place of its action; less one where it
/// is nobody's; less two where it is swallowed, because it is a modifier alone
/// or the key that an action started with and no longer has.
pub open spec fn resolved(raw: Seq<char>, scope: i32, text: Seq<char>, held: Held) -> int {
    if keys::is_modifier(text) {
        -2
    } else {
        match spelling::pressed(text, held) {
            None => -1,
            Some(key) => match heard_at(bound(raw), scope, key, 0) {
                Some(at) => at,
                None => if heard_at(defaults(), scope, key, 0) is Some {
                    -2
                } else {
                    -1
                },
            },
        }
    }
}

/// [`resolved`].
pub fn resolve(raw: &str, scope: i32, text: &str, control: bool, alt: bool, shift: bool) -> (out:
    i32)
    ensures
        out == resolved(raw@, scope, text@, Held { control, alt, shift }),
        -2 <= out < ACTION_COUNT,
{
    if keys::modifier_only(text) {
        return -2;
    }
    let key = match spelling::chord(text, control, alt, shift) {
        Some(key) => key,
        None => {
            return -1;
        },
    };
    let held = bindings(raw);
    if let Some(at) = find_heard(&held, scope, key.as_str()) {
        return at as i32;
    }
    let first = default_keys();
    if find_heard(&first, scope, key.as_str()).is_some() {
        -2
    } else {
        -1
    }
}

/// One entry of the keys as they are saved.
pub open spec fn entry(held: Seq<Seq<char>>, i: int) -> Seq<char> {
    text::decimal(i as nat).push('=') + held[i]
}

/// The first `n` keys as they are saved.
pub open spec fn saved(held: Seq<Seq<char>>, n: int) -> Seq<char>
    decreases n,
{
    if n <= 0 {
        Seq::empty()
    } else if n == 1 {
        entry(held, 0)
    } else {
        saved(held, n - 1).push(';') + entry(held, n - 1)
    }
}

/// The keys as they are saved.
pub fn encode_bindings(held: &Vec<String>) -> (out: String)
    ensures
        out@ == saved(lines::texts(held@), held@.len() as int),
{
    let ghost all = lines::texts(held@);
    let mut out = String::new();
    let mut at: usize = 0;
    assert(out@ =~= Seq::empty());
    while at < held.len()
        invariant
            at <= held@.len(),
            all == lines::texts(held@),
            out@ == saved(all, at as int),
        decreases held@.len() - at,
    {
        let ghost before = out@;
        if at > 0 {
            out.push(';');
        }
        text::push_decimal(&mut out, at as u64);
        out.push('=');
        text::push_text(&mut out, held[at].as_str());
        proof {
            if at == 0 {
                assert(out@ =~= entry(all, 0));
            } else {
                assert(out@ =~= before.push(';') + entry(all, at as int));
            }
        }
        at += 1;
    }
    out
}

/// What comes of giving a key to an action.
pub enum SaveKey {
    /// There is no such action.
    Nothing,
    /// It is no key that can be given.
    Refused,
    /// Another action has it.
    Taken(usize),
    /// The keys as they are now saved, and the key.
    Saved(String, String),
}

/// Gives a typed key to an action, or the one it started with.
pub fn save_key(raw: &str, id: usize, reset: bool, typed: &str) -> (out: SaveKey)
    ensures
        ({
            let wanted = if reset {
                actions::first_key(id)@
            } else {
                typed@
            };
            let held = bound(raw@);
            if id >= ACTION_COUNT {
                out is Nothing
            } else {
                match spelling::normalized(wanted) {
                    None => out is Refused,
                    Some(key) => match clash(held, id as int, key) {
                        Some(other) => out == SaveKey::Taken(other as usize),
                        None => out is Saved && out->Saved_0@ == saved(
                            held.update(id as int, key),
                            ACTION_COUNT as int,
                        ) && out->Saved_1@ == key,
                    },
                }
            }
        }),
{
    if id >= ACTION_COUNT {
        return SaveKey::Nothing;
    }
    let wanted: &str = if reset {
        actions::default_at(id)
    } else {
        typed
    };
    let key = match spelling::normalize(wanted) {
        Some(key) => key,
        None => {
            return SaveKey::Refused;
        },
    };
    let mut held = bindings(raw);
    if let Some(other) = conflict(&held, id, key.as_str()) {
        return SaveKey::Taken(other);
    }
    let ghost before = lines::texts(held@);
    held.set(id, key.clone());
    assert(lines::texts(held@) =~= before.update(id as int, key@));
    SaveKey::Saved(encode_bindings(&held), key)
}

impl SaveKey {
    /// What is told of giving a key. `name` is the name of the action that was
    /// to have it, `other` that of the action that has it.
    pub open spec fn shown(self, name: Seq<char>, other: Seq<char>, english: bool) -> Option<
        Seq<char>,
    > {
        match self {
            SaveKey::Nothing => None,
            SaveKey::Refused => Some(
                if english {
                    "Use a key with Ctrl, Alt or Shift, or one of F1–F12"@
                } else {
                    "修飾キー付き（Ctrl／Alt／Shift）かF1〜F12を指定してください"@
                },
            ),
            SaveKey::Taken(_) => Some(
                if english {
                    "Already assigned to "@ + other
                } else {
                    other + "に割り当て済みです"@
                },
            ),
            SaveKey::Saved(_, _) => Some(
                if english {
                    "Saved the key for "@ + name
                } else {
                    name + "の設定を保存しました"@
                },
            ),
        }
    }

    /// [`SaveKey::shown`].
    pub fn words(&self, name: &str, other: &str, english: bool) -> (out: Option<String>)
        ensures
            lines::optional(out) == self.shown(name@, other@, english),
    {
        match self {
            SaveKey::Nothing => None,
            SaveKey::Refused => Some(
                text::string_of(
                    &text::chars_of(
                        if english {
                            "Use a key with Ctrl, Alt or Shift, or one of F1–F12"
                        } else {
                            "修飾キー付き（Ctrl／Alt／Shift）かF1〜F12を指定してください"
                        },
                    ),
                ),
            ),
            SaveKey::Taken(_) => Some(
                if english {
                    text::followed("Already assigned to ", other)
                } else {
                    text::followed(other, "に割り当て済みです")
                },
            ),
            SaveKey::Saved(_, _) => Some(
                if english {
                    text::followed("Saved the key for ", name)
                } else {
                    text::followed(name, "の設定を保存しました")
                },
            ),
        }
    }
}

/// What is told once every key is back to the first.
pub fn reset_told(english: bool) -> (out: &'static str)
    ensures
        out@ == if english {
            "Restored all keys to their defaults"@
        } else {
            "すべてのキーを既定に戻しました"@
        },
{
    if english {
        "Restored all keys to their defaults"
    } else {
        "すべてのキーを既定に戻しました"
    }
}

/// The key to look for in the list, where a key was pressed for that: a modifier
/// alone is none.
pub fn search_key(text: &str, control: bool, alt: bool, shift: bool) -> (out: Option<String>)
    ensures
        lines::optional(out) == if keys::is_modifier(text@) {
            None
        } else {
            spelling::pressed(text@, Held { control, alt, shift })
        },
{
    if keys::modifier_only(text) {
        return None;
    }
    spelling::chord(text, control, alt, shift)
}

/// What pressing a key while one is being chosen shows.
pub enum Capture {
    /// What is shown stays: a modifier alone, or a key without a letter that
    /// cannot be given.
    Keep,
    /// The key, and whether it can be given; without one, it cannot be used.
    Show(Option<String>, bool),
}

impl Capture {
    /// What stands in the field, and what is told, after a key was pressed.
    pub open spec fn shown(self, english: bool) -> Option<(Seq<char>, Seq<char>)> {
        match self {
            Capture::Keep => None,
            Capture::Show(key, good) => Some(
                (
                    if key is Some && key->0@.len() > 0 {
                        key->0@
                    } else if english {
                        "Not available"@
                    } else {
                        "使用不可"@
                    },
                    if good {
                        if english {
                            "Key accepted. Click \"Apply and Save\" to confirm."@
                        } else {
                            "キーを受け付けました。「適用して保存」で確定します。"@
                        }
                    } else if english {
                        "Press a key with Ctrl, Alt or Shift, or one of F1–F12"@
                    } else {
                        "修飾キー付き（Ctrl／Alt／Shift）かF1〜F12を押してください"@
                    },
                ),
            ),
        }
    }

    /// [`Capture::shown`].
    pub fn words(&self, english: bool) -> (out: Option<(String, &'static str)>)
        ensures
            (match out {
                Some(held) => Some((held.0@, held.1@)),
                None => None,
            }) == self.shown(english),
    {
        match self {
            Capture::Keep => None,
            Capture::Show(key, good) => {
                let held: usize = match key {
                    Some(key) => text::chars_of(key.as_str()).len(),
                    None => 0,
                };
                let field = match key {
                    Some(key) if held > 0 => key.clone(),
                    _ => text::string_of(
                        &text::chars_of(
                            if english {
                                "Not available"
                            } else {
                                "使用不可"
                            },
                        ),
                    ),
                };
                let told: &'static str = if *good {
                    if english {
                        "Key accepted. Click \"Apply and Save\" to confirm."
                    } else {
                        "キーを受け付けました。「適用して保存」で確定します。"
                    }
                } else if english {
                    "Press a key with Ctrl, Alt or Shift, or one of F1–F12"
                } else {
                    "修飾キー付き（Ctrl／Alt／Shift）かF1〜F12を押してください"
                };
                Some((field, told))
            },
        }
    }
}

/// A text with a character of the private area, which keys without a letter
/// are reported with.
pub open spec fn is_private(text: Seq<char>) -> bool {
    exists|i: int| 0 <= i < text.len() && #[trigger] text[i] as u32 >= 0xe000
}

/// Takes a key that is pressed while one is being chosen.
pub fn capture_key(text: &str, control: bool, alt: bool, shift: bool) -> (out: Capture)
    ensures
        ({
            let key = spelling::pressed(text@, Held { control, alt, shift });
            if keys::is_modifier(text@) || (key is None && is_private(text@)) {
                out is Keep
            } else {
                &&& out is Show
                &&& lines::optional(out->Show_0) == key
                &&& out->Show_1 == (key is Some && key->0.len() > 0 && spelling::normalized(
                    key->0,
                ) is Some)
            }
        }),
{
    if keys::modifier_only(text) {
        return Capture::Keep;
    }
    match spelling::chord(text, control, alt, shift) {
        Some(key) => {
            let length: usize = text::chars_of(key.as_str()).len();
            let good: bool = length > 0 && spelling::normalize(key.as_str()).is_some();
            Capture::Show(Some(key), good)
        },
        None => {
            let chars = text::chars_of(text);
            let mut at: usize = 0;
            while at < chars.len()
                invariant
                    at <= chars@.len(),
                    chars@ == text@,
                    forall|i: int| 0 <= i < at ==> (#[trigger] text@[i] as u32) < 0xe000,
                    !keys::is_modifier(text@),
                    spelling::pressed(text@, Held { control, alt, shift }) is None,
                decreases chars@.len() - at,
            {
                if chars[at] as u32 >= 0xe000 {
                    assert(text@[at as int] as u32 >= 0xe000);
                    return Capture::Keep;
                }
                at += 1;
            }
            Capture::Show(None, false)
        },
    }
}

/// What a command does.
#[derive(Clone, Copy, Debug, PartialEq, Eq, Structural)]
pub enum KeyAct {
    Nothing,
    OpenFile,
    Save,
    SaveAs,
    CloseTab,
    Find { replace: bool },
    GoToLine,
    ReopenTab,
    Undo { redo: bool },
    QuickDraft,
    StepTab { back: bool },
    /// To the pane on the left, on the right, above or below.
    MovePane(u8),
    /// To the strip below the text.
    FocusBelow,
    ToggleBelow,
    Navigate { forward: bool },
    Delete,
    /// The caret, by so many steps of a word.
    Move { step: i8, select: bool },
    Kill(u8),
    Mark { rectangle: bool },
    LineEdit(u8),
    ToggleDirection,
    /// Between source and preview; the viewer is left first where it is on.
    TogglePreview { leave_viewer: bool },
    ToggleViewer,
    Print,
    Menu(ShortcutAction),
}

/// What a command does in a pane. `below` says that a strip is open under it,
/// `viewer` that it is being viewed, `reads_only` that it only reads.
pub open spec fn act_of(command: usize, below: bool, viewer: bool, reads_only: bool) -> KeyAct {
    match command {
        0usize => KeyAct::OpenFile,
        1usize => KeyAct::Save,
        2usize => KeyAct::SaveAs,
        3usize => KeyAct::CloseTab,
        4usize => KeyAct::Find { replace: false },
        5usize => KeyAct::Find { replace: true },
        6usize => KeyAct::GoToLine,
        7usize => KeyAct::ReopenTab,
        8usize => KeyAct::Undo { redo: false },
        9usize => KeyAct::Undo { redo: true },
        10usize => KeyAct::QuickDraft,
        11usize => KeyAct::StepTab { back: false },
        12usize => KeyAct::StepTab { back: true },
        13usize => KeyAct::MovePane(0),
        14usize => KeyAct::MovePane(1),
        15usize => KeyAct::MovePane(2),
        16usize => if below {
            KeyAct::FocusBelow
        } else {
            KeyAct::MovePane(3)
        },
        17usize => KeyAct::ToggleBelow,
        19usize => KeyAct::Navigate { forward: false },
        20usize => KeyAct::Navigate { forward: true },
        21usize => KeyAct::Delete,
        22usize => KeyAct::Move { step: 3, select: false },
        23usize => KeyAct::Move { step: (-3) as i8, select: false },
        24usize => KeyAct::Kill(0),
        25usize => KeyAct::Mark { rectangle: false },
        26usize => KeyAct::Mark { rectangle: true },
        27usize => KeyAct::Kill(1),
        28usize => KeyAct::Kill(2),
        29usize => KeyAct::Kill(3),
        30usize => KeyAct::Kill(4),
        31usize => KeyAct::Move { step: 3, select: true },
        32usize => KeyAct::Move { step: (-3) as i8, select: true },
        33usize => KeyAct::LineEdit(4),
        34usize => KeyAct::LineEdit(0),
        35usize => KeyAct::LineEdit(1),
        36usize => KeyAct::LineEdit(2),
        37usize => KeyAct::LineEdit(3),
        42usize => KeyAct::ToggleDirection,
        43usize => KeyAct::TogglePreview { leave_viewer: viewer && !reads_only },
        44usize => KeyAct::ToggleViewer,
        45usize => KeyAct::Print,
        _ => match actions::menu_action(command) {
            Some(action) => KeyAct::Menu(action),
            None => KeyAct::Nothing,
        },
    }
}

/// [`act_of`].
pub fn run_command(command: usize, below: bool, viewer: bool, reads_only: bool) -> (out: KeyAct)
    ensures
        out == act_of(command, below, viewer, reads_only),
{
    match command {
        0usize => KeyAct::OpenFile,
        1usize => KeyAct::Save,
        2usize => KeyAct::SaveAs,
        3usize => KeyAct::CloseTab,
        4usize => KeyAct::Find { replace: false },
        5usize => KeyAct::Find { replace: true },
        6usize => KeyAct::GoToLine,
        7usize => KeyAct::ReopenTab,
        8usize => KeyAct::Undo { redo: false },
        9usize => KeyAct::Undo { redo: true },
        10usize => KeyAct::QuickDraft,
        11usize => KeyAct::StepTab { back: false },
        12usize => KeyAct::StepTab { back: true },
        13usize => KeyAct::MovePane(0),
        14usize => KeyAct::MovePane(1),
        15usize => KeyAct::MovePane(2),
        16usize => if below {
            KeyAct::FocusBelow
        } else {
            KeyAct::MovePane(3)
        },
        17usize => KeyAct::ToggleBelow,
        19usize => KeyAct::Navigate { forward: false },
        20usize => KeyAct::Navigate { forward: true },
        21usize => KeyAct::Delete,
        22usize => KeyAct::Move { step: 3, select: false },
        23usize => KeyAct::Move { step: -3, select: false },
        24usize => KeyAct::Kill(0),
        25usize => KeyAct::Mark { rectangle: false },
        26usize => KeyAct::Mark { rectangle: true },
        27usize => KeyAct::Kill(1),
        28usize => KeyAct::Kill(2),
        29usize => KeyAct::Kill(3),
        30usize => KeyAct::Kill(4),
        31usize => KeyAct::Move { step: 3, select: true },
        32usize => KeyAct::Move { step: -3, select: true },
        33usize => KeyAct::LineEdit(4),
        34usize => KeyAct::LineEdit(0),
        35usize => KeyAct::LineEdit(1),
        36usize => KeyAct::LineEdit(2),
        37usize => KeyAct::LineEdit(3),
        42usize => KeyAct::ToggleDirection,
        43usize => KeyAct::TogglePreview { leave_viewer: viewer && !reads_only },
        44usize => KeyAct::ToggleViewer,
        45usize => KeyAct::Print,
        _ => match actions::menu_at(command) {
            Some(action) => KeyAct::Menu(action),
            None => KeyAct::Nothing,
        },
    }
}

/// What the text hears of a key.
#[derive(Clone, Copy, Debug, PartialEq, Eq, Structural)]
pub enum KeyAnswer {
    /// It goes on to whoever else listens.
    Unheard,
    /// Nobody else hears it, and nothing is done.
    Swallowed,
    Run(usize),
}

/// What a key that is pressed in the text does. Where the settings stand in
/// front, only what may run there runs.
pub fn hear_key(
    raw: &str,
    text: &str,
    control: bool,
    alt: bool,
    shift: bool,
    on_settings: bool,
) -> (out: KeyAnswer)
    ensures
        ({
            let command = resolved(raw@, 0, text@, Held { control, alt, shift });
            out == if command == -1 {
                KeyAnswer::Unheard
            } else if command == -2 || (on_settings && !actions::runs_on_settings(
                command as usize,
            )) {
                KeyAnswer::Swallowed
            } else {
                KeyAnswer::Run(command as usize)
            }
        }),
{
    let command: i32 = resolve(raw, 0, text, control, alt, shift);
    if command == -1 {
        return KeyAnswer::Unheard;
    }
    if command == -2 {
        return KeyAnswer::Swallowed;
    }
    if on_settings && !actions::passes_settings(command) {
        return KeyAnswer::Swallowed;
    }
    KeyAnswer::Run(command as usize)
}

} // verus!
