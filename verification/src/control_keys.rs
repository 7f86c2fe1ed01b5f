//! Key specifications of the control CLI (`ctrl+alt+Delete`, `Enter`, `a`),
//! read whole before any key is applied.

use vstd::prelude::*;
use crate::command::MouseButton;
use crate::mux::{ascii_lower, index_of, to_ascii_lower};
use crate::text::{chars_of, concat, debug_quote, debug_text, push_str, str_eq, string_from_chars};

verus! {

/// A key to inject: one the terminal names, by that name, or one character.
#[derive(Clone, Debug, PartialEq, Eq)]
pub enum InjectedKey {
    Named(String),
    Char(char),
}

pub enum KeyView {
    Named(Seq<char>),
    Char(char),
}

impl View for InjectedKey {
    type V = KeyView;

    open spec fn view(&self) -> KeyView {
        match self {
            InjectedKey::Named(n) => KeyView::Named(n@),
            InjectedKey::Char(c) => KeyView::Char(*c),
        }
    }
}

/// `s` split at every `+`.
pub open spec fn plus_parts(s: Seq<char>) -> Seq<Seq<char>>
    decreases s.len(),
{
    let i = index_of(s, '+');
    if 0 <= i < s.len() {
        seq![s.take(i)] + plus_parts(s.skip(i + 1))
    } else {
        seq![s]
    }
}

/// The key name of a specification: what follows its last `+`.
pub open spec fn key_name_of(spec: Seq<char>) -> Seq<char> {
    plus_parts(spec).last()
}

/// Which modifier a word names: 0 for Ctrl, 1 for Alt, 2 for Shift.
pub open spec fn modifier_kind(word: Seq<char>) -> Option<int> {
    let l = ascii_lower(word);
    if l == "ctrl"@ || l == "control"@ {
        Some(0)
    } else if l == "alt"@ {
        Some(1)
    } else if l == "shift"@ {
        Some(2)
    } else {
        None
    }
}

/// The modifiers `words` name, or the first word that names none.
pub open spec fn modifiers_of(words: Seq<Seq<char>>) -> Result<(bool, bool, bool), Seq<char>>
    decreases words.len(),
{
    if words.len() == 0 {
        Ok((false, false, false))
    } else {
        match modifier_kind(words[0]) {
            None => Err("unknown key modifier "@ + debug_text(words[0])),
            Some(k) => match modifiers_of(words.drop_first()) {
                Err(e) => Err(e),
                Ok((c, a, s)) => Ok((c || k == 0, a || k == 1, s || k == 2)),
            },
        }
    }
}

/// A key specification read: the key and its Ctrl, Alt and Shift. `named`
/// says whether the key name is one the terminal names.
pub open spec fn control_key_of(spec: Seq<char>, named: bool) -> Result<(KeyView, bool, bool, bool), Seq<char>> {
    let parts = plus_parts(spec);
    let name = parts.last();
    if name.len() == 0 {
        Err("invalid key specification "@ + debug_text(spec))
    } else {
        match modifiers_of(parts.drop_last()) {
            Err(e) => Err(e),
            Ok((c, a, s)) => if named {
                Ok((KeyView::Named(name), c, a, s))
            } else if name.len() == 1 {
                Ok((KeyView::Char(name[0]), c, a, s))
            } else {
                Err("unknown key "@ + debug_text(name))
            },
        }
    }
}

/// Whether `key` is what `spec` reads as.
pub open spec fn key_read(spec: Seq<char>, named: bool, key: (InjectedKey, bool, bool, bool)) -> bool {
    match control_key_of(spec, named) {
        Ok((k, c, a, s)) => key.0@ == k && key.1 == c && key.2 == a && key.3 == s,
        Err(_) => false,
    }
}

proof fn lemma_index_at(s: Seq<char>, c: char, i: int)
    requires
        0 <= i <= s.len(),
        forall|j: int| 0 <= j < i ==> s[j] != c,
        i < s.len() ==> s[i] == c,
    ensures
        index_of(s, c) == if i < s.len() {
            i
        } else {
            -1
        },
    decreases i,
{
    if i > 0 {
        let rest = s.drop_first();
        assert forall|j: int| 0 <= j < i - 1 implies rest[j] != c by {
            assert(rest[j] == s[j + 1]);
        }
        lemma_index_at(rest, c, i - 1);
    }
}

fn substring_of(chars: &Vec<char>, start: usize, end: usize) -> (s: String)
    requires
        start <= end <= chars@.len(),
    ensures
        s@ == chars@.subrange(start as int, end as int),
{
    let mut part: Vec<char> = Vec::new();
    let mut k = start;
    while k < end
        invariant
            start <= k <= end,
            end <= chars@.len(),
            part@ == chars@.subrange(start as int, k as int),
        decreases end - k,
    {
        part.push(chars[k]);
        k = k + 1;
        assert(part@ =~= chars@.subrange(start as int, k as int));
    }
    string_from_chars(&part)
}

/// `spec` split at every `+`.
fn split_plus(spec: &str) -> (parts: Vec<String>)
    ensures
        parts@.map_values(|p: String| p@) == plus_parts(spec@),
{
    let chars = chars_of(spec);
    let ghost s = spec@;
    let mut parts: Vec<String> = Vec::new();
    let mut start: usize = 0;
    let mut i: usize = 0;
    proof {
        assert(s.skip(0) =~= s);
        assert(parts@.map_values(|p: String| p@) + plus_parts(s) =~= plus_parts(s));
    }
    while i < chars.len()
        invariant
            chars@ == s,
            s == spec@,
            start <= i <= s.len(),
            forall|j: int| start <= j < i ==> s[j] != '+',
            plus_parts(s) == parts@.map_values(|p: String| p@) + plus_parts(s.skip(start as int)),
        decreases s.len() - i,
    {
        if chars[i] == '+' {
            let piece = substring_of(&chars, start, i);
            proof {
                let rest = s.skip(start as int);
                assert forall|j: int| 0 <= j < i - start implies rest[j] != '+' by {
                    assert(rest[j] == s[start + j]);
                }
                lemma_index_at(rest, '+', i - start);
                assert(rest.take(i - start) =~= piece@);
                assert(rest.skip(i - start + 1) =~= s.skip(i + 1));
            }
            let ghost before = parts@.map_values(|p: String| p@);
            parts.push(piece);
            assert(parts@.map_values(|p: String| p@) =~= before.push(piece@));
            assert(before + (seq![piece@] + plus_parts(s.skip(i + 1))) =~= before.push(piece@)
                + plus_parts(s.skip(i + 1)));
            start = i + 1;
        }
        i = i + 1;
    }
    let piece = substring_of(&chars, start, chars.len());
    proof {
        let rest = s.skip(start as int);
        assert forall|j: int| 0 <= j < rest.len() implies rest[j] != '+' by {
            assert(rest[j] == s[start + j]);
        }
        lemma_index_at(rest, '+', rest.len() as int);
        assert(piece@ =~= rest);
    }
    let ghost before = parts@.map_values(|p: String| p@);
    parts.push(piece);
    assert(parts@.map_values(|p: String| p@) =~= before.push(piece@));
    parts
}

/// The key name of a key specification: what follows its last `+`.
pub fn control_key_name(spec: &str) -> (name: String)
    ensures
        name@ == key_name_of(spec@),
{
    let mut parts = split_plus(spec);
    proof {
        lemma_plus_parts_nonempty(spec@);
    }
    match parts.pop() {
        Some(last) => last,
        None => String::new(),
    }
}

proof fn lemma_plus_parts_nonempty(s: Seq<char>)
    ensures
        plus_parts(s).len() >= 1,
    decreases s.len(),
{
    let i = index_of(s, '+');
    if 0 <= i < s.len() {
        lemma_plus_parts_nonempty(s.skip(i + 1));
    }
}

fn modifier_of(word: &str) -> (kind: Option<u8>)
    ensures
        match modifier_kind(word@) {
            Some(k) => kind == Some(k as u8),
            None => kind is None,
        },
{
    let lower = to_ascii_lower(word);
    let l = lower.as_str();
    if str_eq(l, "ctrl") || str_eq(l, "control") {
        Some(0)
    } else if str_eq(l, "alt") {
        Some(1)
    } else if str_eq(l, "shift") {
        Some(2)
    } else {
        None
    }
}

/// Reads one key specification: `+`-separated modifiers (Ctrl or Control,
/// Alt, Shift, in any case) before a key name. `named` says whether that name
/// is one the terminal names; otherwise it must be one character.
pub fn parse_control_key(spec: &str, named: bool) -> (result: Result<(InjectedKey, bool, bool, bool), String>)
    ensures
        match control_key_of(spec@, named) {
            Ok((k, c, a, s)) => result matches Ok(r) && r.0@ == k && r.1 == c && r.2 == a && r.3 == s,
            Err(m) => result matches Err(e) && e@ == m,
        },
{
    let parts = split_plus(spec);
    let ghost views = parts@.map_values(|p: String| p@);
    proof {
        lemma_plus_parts_nonempty(spec@);
    }
    let n = parts.len();
    let name = parts[n - 1].as_str();
    assert(name@ == views.last());
    if name.is_empty() {
        return Err(concat("invalid key specification ", debug_quote(spec).as_str()));
    }
    let ghost mods = views.drop_last();
    let mut ctrl = false;
    let mut alt = false;
    let mut shift = false;
    let mut i: usize = 0;
    assert(mods.skip(0) =~= mods);
    while i < n - 1
        invariant
            n == parts@.len(),
            n >= 1,
            views == parts@.map_values(|p: String| p@),
            views == plus_parts(spec@),
            name@ == views.last(),
            name@.len() > 0,
            mods == views.drop_last(),
            i <= n - 1,
            modifiers_of(mods) == match modifiers_of(mods.skip(i as int)) {
                Err(e) => Err(e),
                Ok((c, a, s)) => Ok((c || ctrl, a || alt, s || shift)),
            },
        decreases n - 1 - i,
    {
        let word = parts[i].as_str();
        assert(mods.skip(i as int)[0] == word@);
        assert(mods.skip(i as int).drop_first() =~= mods.skip(i + 1));
        match modifier_of(word) {
            None => {
                let mut m = "unknown key modifier ".to_owned();
                push_str(&mut m, debug_quote(word).as_str());
                return Err(m);
            },
            Some(kind) => {
                if kind == 0 {
                    ctrl = true;
                } else if kind == 1 {
                    alt = true;
                } else {
                    shift = true;
                }
            },
        }
        i = i + 1;
    }
    assert(mods.skip(i as int) =~= Seq::<Seq<char>>::empty());
    if named {
        return Ok((InjectedKey::Named(name.to_owned()), ctrl, alt, shift));
    }
    let chars = chars_of(name);
    if chars.len() == 1 {
        Ok((InjectedKey::Char(chars[0]), ctrl, alt, shift))
    } else {
        Err(concat("unknown key ", debug_quote(name).as_str()))
    }
}

/// Reads a whole key sequence before any of it is applied: all of it, or the
/// fault of the first bad key. `named[i]` says whether the key name of
/// `specs[i]` is one the terminal names.
pub fn parse_control_keys(specs: &[String], named: &[bool]) -> (result: Result<Vec<(InjectedKey, bool, bool, bool)>, String>)
    requires
        named@.len() == specs@.len(),
    ensures
        result matches Ok(keys) ==> keys@.len() == specs@.len() && forall|i: int|
            0 <= i < specs@.len() ==> key_read(specs@[i]@, named@[i], #[trigger] keys@[i]),
        result matches Err(e) ==> exists|i: int|
            0 <= i < specs@.len() && (forall|j: int| 0 <= j < i ==> (#[trigger] control_key_of(specs@[j]@, named@[j])) is Ok)
                && control_key_of(specs@[i]@, named@[i]) == Err::<(KeyView, bool, bool, bool), Seq<char>>(e@),
        (forall|i: int| 0 <= i < specs@.len() ==> (#[trigger] control_key_of(specs@[i]@, named@[i])) is Ok)
            ==> result is Ok,
{
    let mut keys: Vec<(InjectedKey, bool, bool, bool)> = Vec::new();
    let mut i: usize = 0;
    while i < specs.len()
        invariant
            named@.len() == specs@.len(),
            i <= specs@.len(),
            keys@.len() == i,
            forall|j: int| 0 <= j < i ==> key_read(specs@[j]@, named@[j], #[trigger] keys@[j]),
        decreases specs@.len() - i,
    {
        match parse_control_key(specs[i].as_str(), named[i]) {
            Ok(key) => keys.push(key),
            Err(e) => {
                assert forall|j: int| 0 <= j < i implies (#[trigger] control_key_of(specs@[j]@, named@[j])) is Ok by {
                    assert(key_read(specs@[j]@, named@[j], keys@[j]));
                }
                return Err(e);
            },
        }
        i = i + 1;
    }
    Ok(keys)
}

/// A mouse button to press or release.
#[derive(Clone, Copy, Debug, PartialEq, Eq, Structural)]
pub enum InjectedMouseButton {
    Left,
    Middle,
    Right,
}

/// The button a control mouse event presses; a press or release names one.
pub fn control_mouse_button(button: MouseButton) -> (result: Result<InjectedMouseButton, String>)
    ensures
        match button {
            MouseButton::Left => result == Ok::<InjectedMouseButton, String>(InjectedMouseButton::Left),
            MouseButton::Middle => result == Ok::<InjectedMouseButton, String>(InjectedMouseButton::Middle),
            MouseButton::Right => result == Ok::<InjectedMouseButton, String>(InjectedMouseButton::Right),
            MouseButton::NoButton => result matches Err(e) && e@ == "press/release requires a mouse button"@,
        },
{
    match button {
        MouseButton::Left => Ok(InjectedMouseButton::Left),
        MouseButton::Middle => Ok(InjectedMouseButton::Middle),
        MouseButton::Right => Ok(InjectedMouseButton::Right),
        MouseButton::NoButton => Err("press/release requires a mouse button".to_owned()),
    }
}

} // verus!
