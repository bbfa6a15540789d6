//! Spelling keys, and reading how they are spelt.
use crate::lines;
use crate::shortcuts::keys;
use crate::numbers;
use crate::text;
use vstd::prelude::*;

verus! {

/// The spelling of one key, whatever case it is written in.
pub open spec fn key_spelt(token: Seq<char>) -> Option<Seq<char>> {
    let upper = keys::capitals(lines::trim(token));
    if upper.len() == 1 && keys::is_plain(upper[0]) {
        Some(upper)
    } else if is_function_name(upper) {
        Some(keys::function_name(numbers::number_in(upper.skip(1), 12)->0))
    } else if upper == "TAB"@ {
        Some("Tab"@)
    } else if upper == "SPACE"@ {
        Some("Space"@)
    } else if upper == "`"@ {
        Some("`"@)
    } else if upper == "LEFT"@ {
        Some("Left"@)
    } else if upper == "RIGHT"@ {
        Some("Right"@)
    } else if upper == "UP"@ {
        Some("Up"@)
    } else if upper == "DOWN"@ {
        Some("Down"@)
    } else {
        None
    }
}

/// F with a number from one to twelve.
pub open spec fn is_function_name(name: Seq<char>) -> bool {
    name.len() > 0 && name[0] == 'F' && match numbers::number_in(name.skip(1), 12) {
        Some(number) => number >= 1,
        None => false,
    }
}

fn function_in(name: &str) -> (out: Option<usize>)
    ensures
        match out {
            Some(number) => is_function_name(name@) && number == numbers::number_in(
                name@.skip(1),
                12,
            )->0,
            None => !is_function_name(name@),
        },
{
    let chars = text::chars_of(name);
    if chars.len() == 0 || chars[0] != 'F' {
        return None;
    }
    let rest = text::string_range(&chars, 1, chars.len());
    assert(rest@ =~= name@.skip(1));
    match numbers::read_number(rest.as_str(), 12) {
        Some(number) => if number >= 1 {
            Some(number)
        } else {
            None
        },
        None => None,
    }
}

/// [`is_function_name`].
pub fn is_function(name: &str) -> (out: bool)
    ensures
        out == is_function_name(name@),
{
    function_in(name).is_some()
}

fn owned(source: &str) -> (out: String)
    ensures
        out@ == source@,
{
    text::string_of(&text::chars_of(source))
}

/// [`key_spelt`].
pub fn key_token(token: &str) -> (out: Option<String>)
    ensures
        lines::optional(out) == key_spelt(token@),
{
    let plain = lines::trim_text(token);
    let upper = keys::to_capitals(plain.as_str());
    let chars = text::chars_of(upper.as_str());
    if chars.len() == 1 {
        let c = chars[0];
        if ('0' <= c && c <= '9') || ('a' <= c && c <= 'z') || ('A' <= c && c <= 'Z') {
            return Some(upper);
        }
    }
    if let Some(number) = function_in(upper.as_str()) {
        return Some(keys::spell_function(number));
    }
    if text::same_text(upper.as_str(), "TAB") {
        Some(owned("Tab"))
    } else if text::same_text(upper.as_str(), "SPACE") {
        Some(owned("Space"))
    } else if text::same_text(upper.as_str(), "`") {
        Some(owned("`"))
    } else if text::same_text(upper.as_str(), "LEFT") {
        Some(owned("Left"))
    } else if text::same_text(upper.as_str(), "RIGHT") {
        Some(owned("Right"))
    } else if text::same_text(upper.as_str(), "UP") {
        Some(owned("Up"))
    } else if text::same_text(upper.as_str(), "DOWN") {
        Some(owned("Down"))
    } else {
        None
    }
}

/// The modifiers that are held.
#[derive(Clone, Copy, Debug, PartialEq, Eq, Structural)]
pub struct Held {
    pub control: bool,
    pub alt: bool,
    pub shift: bool,
}

/// Adds the modifier that a word names; none twice.
pub open spec fn with_modifier(held: Held, word: Seq<char>) -> Option<Held> {
    if word == "CTRL"@ && !held.control {
        Some(Held { control: true, ..held })
    } else if word == "ALT"@ && !held.alt {
        Some(Held { alt: true, ..held })
    } else if word == "SHIFT"@ && !held.shift {
        Some(Held { shift: true, ..held })
    } else {
        None
    }
}

/// The modifiers that the first `n` words name.
pub open spec fn modifiers_in(words: Seq<Seq<char>>, n: int) -> Option<Held>
    decreases n,
{
    if n <= 0 {
        Some(Held { control: false, alt: false, shift: false })
    } else {
        match modifiers_in(words, n - 1) {
            Some(held) => with_modifier(held, words[n - 1]),
            None => None,
        }
    }
}

/// A key with its modifiers.
pub open spec fn spelt(held: Held, key: Seq<char>) -> Seq<char> {
    let control = if held.control {
        "Ctrl+"@
    } else {
        ""@
    };
    let alt = if held.alt {
        "Alt+"@
    } else {
        ""@
    };
    let shift = if held.shift {
        "Shift+"@
    } else {
        ""@
    };
    control + alt + shift + key
}

/// A key that may be given to an action: not a letter of the text.
pub open spec fn may_be_given(held: Held, key: Seq<char>) -> bool {
    held.control || held.alt || is_function_name(key)
}

/// A key that is spoken for: plain editing, and what the window and the search
/// take first.
pub open spec fn is_taken(written: Seq<char>) -> bool {
    ||| written == "Ctrl+C"@
    ||| written == "Ctrl+X"@
    ||| written == "Ctrl+V"@
    ||| written == "Ctrl+A"@
    ||| written == "Ctrl+Shift+C"@
    ||| written == "Alt+Tab"@
    ||| written == "Alt+Shift+Tab"@
    ||| written == "Alt+F4"@
    ||| written == "Alt+Space"@
    ||| written == "F3"@
    ||| written == "Shift+F3"@
}

/// A typed key as it is kept, where it may be given to an action. Nothing typed
/// is no key.
pub open spec fn normalized(value: Seq<char>) -> Option<Seq<char>> {
    if value.len() == 0 {
        Some(value)
    } else {
        let words = lines::split(keys::capitals(lines::trim(value)), '+');
        match (key_spelt(words.last()), modifiers_in(words, words.len() - 1)) {
            (Some(key), Some(held)) => if may_be_given(held, key) && !is_taken(spelt(held, key)) {
                Some(spelt(held, key))
            } else {
                None
            },
            _ => None,
        }
    }
}

fn spell(held: Held, key: &str) -> (out: String)
    ensures
        out@ == spelt(held, key@),
{
    let mut out = String::new();
    text::push_text(
        &mut out,
        if held.control {
            "Ctrl+"
        } else {
            ""
        },
    );
    text::push_text(
        &mut out,
        if held.alt {
            "Alt+"
        } else {
            ""
        },
    );
    text::push_text(
        &mut out,
        if held.shift {
            "Shift+"
        } else {
            ""
        },
    );
    text::push_text(&mut out, key);
    assert(out@ =~= spelt(held, key@));
    out
}

fn taken(written: &str) -> (out: bool)
    ensures
        out == is_taken(written@),
{
    text::same_text(written, "Ctrl+C") || text::same_text(written, "Ctrl+X") || text::same_text(
        written,
        "Ctrl+V",
    ) || text::same_text(written, "Ctrl+A") || text::same_text(written, "Ctrl+Shift+C")
        || text::same_text(written, "Alt+Tab") || text::same_text(written, "Alt+Shift+Tab")
        || text::same_text(written, "Alt+F4") || text::same_text(written, "Alt+Space")
        || text::same_text(written, "F3") || text::same_text(written, "Shift+F3")
}

fn add_modifier(held: Held, word: &str) -> (out: Option<Held>)
    ensures
        out == with_modifier(held, word@),
{
    if text::same_text(word, "CTRL") && !held.control {
        Some(Held { control: true, ..held })
    } else if text::same_text(word, "ALT") && !held.alt {
        Some(Held { alt: true, ..held })
    } else if text::same_text(word, "SHIFT") && !held.shift {
        Some(Held { shift: true, ..held })
    } else {
        None
    }
}

proof fn unread_stays(words: Seq<Seq<char>>, at: int, n: int)
    requires
        at <= n,
        modifiers_in(words, at) is None,
    ensures
        modifiers_in(words, n) is None,
    decreases n - at,
{
    if at < n {
        unread_stays(words, at, n - 1);
    }
}

/// [`normalized`].
pub fn normalize(value: &str) -> (out: Option<String>)
    ensures
        lines::optional(out) == normalized(value@),
{
    let length: usize = text::chars_of(value).len();
    if length == 0 {
        let empty = String::new();
        assert(empty@ =~= value@);
        return Some(empty);
    }
    let plain = lines::trim_text(value);
    let upper = keys::to_capitals(plain.as_str());
    let words = lines::split_at(upper.as_str(), '+');
    let ghost all = lines::texts(words@);
    let last: usize = words.len() - 1;
    assert(all.last() == words@[last as int]@);
    let key = match key_token(words[last].as_str()) {
        Some(key) => key,
        None => {
            return None;
        },
    };
    let mut held = Held { control: false, alt: false, shift: false };
    let mut at: usize = 0;
    while at < last
        invariant
            at <= last == words@.len() - 1,
            all == lines::texts(words@),
            value@.len() > 0,
            all == lines::split(keys::capitals(lines::trim(value@)), '+'),
            modifiers_in(all, at as int) == Some(held),
        decreases last - at,
    {
        match add_modifier(held, words[at].as_str()) {
            Some(more) => {
                held = more;
            },
            None => {
                proof {
                    unread_stays(all, at + 1, last as int);
                }
                return None;
            },
        }
        at += 1;
    }
    if !held.control && !held.alt && !is_function(key.as_str()) {
        return None;
    }
    let written = spell(held, key.as_str());
    if taken(written.as_str()) {
        None
    } else {
        Some(written)
    }
}

/// The name of the key that a text stands for.
pub open spec fn key_named(text: Seq<char>) -> Option<Seq<char>> {
    match keys::named_key(text, 9, 14) {
        Some(place) => Some(
            if place == 9 {
                "Tab"@
            } else if place == 10 {
                "Up"@
            } else if place == 11 {
                "Down"@
            } else if place == 12 {
                "Left"@
            } else {
                "Right"@
            },
        ),
        None => match keys::function_number(text) {
            Some(number) => Some(keys::function_name(number)),
            None => if text.len() != 1 {
                None
            } else if text[0] == ' ' {
                Some("Space"@)
            } else if text[0] == '`' {
                Some("`"@)
            } else if keys::is_plain(text[0]) {
                Some(seq![keys::capital(text[0])])
            } else {
                None
            },
        },
    }
}

/// The spelling of a key that was pressed, where it may be given to an action.
pub open spec fn pressed(text: Seq<char>, held: Held) -> Option<Seq<char>> {
    match key_named(text) {
        Some(key) => if may_be_given(held, key) {
            Some(spelt(held, key))
        } else {
            None
        },
        None => None,
    }
}

fn name_key(text: &str) -> (out: Option<String>)
    ensures
        lines::optional(out) == key_named(text@),
{
    if let Some(place) = keys::find_key(text, 9, 14) {
        return Some(
            if place == 9 {
                owned("Tab")
            } else if place == 10 {
                owned("Up")
            } else if place == 11 {
                owned("Down")
            } else if place == 12 {
                owned("Left")
            } else {
                owned("Right")
            },
        );
    }
    if let Some(name) = keys::function_key(text) {
        return Some(name);
    }
    let chars = text::chars_of(text);
    if chars.len() != 1 {
        return None;
    }
    let c = chars[0];
    if c == ' ' {
        Some(owned("Space"))
    } else if c == '`' {
        Some(owned("`"))
    } else if ('0' <= c && c <= '9') || ('a' <= c && c <= 'z') || ('A' <= c && c <= 'Z') {
        let mut out = String::new();
        out.push(keys::to_capital(c));
        assert(out@ =~= seq![keys::capital(c)]);
        Some(out)
    } else {
        None
    }
}

/// [`pressed`].
pub fn chord(text: &str, control: bool, alt: bool, shift: bool) -> (out: Option<String>)
    ensures
        lines::optional(out) == pressed(text@, Held { control, alt, shift }),
{
    let key = match name_key(text) {
        Some(key) => key,
        None => {
            return None;
        },
    };
    if !control && !alt && !is_function(key.as_str()) {
        return None;
    }
    Some(spell(Held { control, alt, shift }, key.as_str()))
}

} // verus!
