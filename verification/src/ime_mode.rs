//! Latin-or-native for input methods that do not say which they are in,
//! inferred from what they do with the letters the user types: a letter that
//! starts a composition means native, a letter that arrives as plain text
//! means latin. Changing the input source forgets the inference.

use vstd::prelude::*;
use crate::command::ImeEvent;
use crate::text::{chars_of, str_eq};

verus! {

/// What the inference reads of one key event.
#[derive(Clone, Debug, PartialEq, Eq)]
pub struct KeyObservation {
    /// The key went down (not up).
    pub pressed: bool,
    /// The physical key is a letter key.
    pub letter: bool,
    pub control: bool,
    pub alt: bool,
    pub meta: bool,
    /// The text the key produced, if any.
    pub text: Option<String>,
}

pub open spec fn is_ascii_alpha(c: char) -> bool {
    ('a' <= c && c <= 'z') || ('A' <= c && c <= 'Z')
}

/// Non-empty and made of ASCII letters only.
pub open spec fn is_latin_word(s: Seq<char>) -> bool {
    s.len() > 0 && forall|i: int| 0 <= i < s.len() ==> is_ascii_alpha(#[trigger] s[i])
}

/// `c` is neither `a`..=`z` nor `A`..=`Z`.
pub open spec fn outside_ascii_letters(c: char) -> bool {
    !(('a' <= c && c <= 'z') || ('A' <= c && c <= 'Z'))
}

/// Only ASCII letters are latin evidence: a text holding any other
/// character (a digit, a space, punctuation, a CJK character) is no latin
/// word, so neither a key nor a commit that carries it moves the inferred
/// mode; and the empty text is no evidence either.
pub proof fn law_only_ascii_letters_are_latin_evidence(s: Seq<char>, i: int)
    requires
        0 <= i < s.len(),
        outside_ascii_letters(s[i]),
    ensures
        !is_latin_word(s),
        !is_latin_word(Seq::<char>::empty()),
{
}

fn latin_word(s: &str) -> (latin: bool)
    ensures
        latin == is_latin_word(s@),
{
    let chars = chars_of(s);
    if chars.len() == 0 {
        return false;
    }
    let mut i: usize = 0;
    while i < chars.len()
        invariant
            i <= chars@.len(),
            chars@ == s@,
            forall|j: int| 0 <= j < i ==> is_ascii_alpha(#[trigger] chars@[j]),
        decreases chars@.len() - i,
    {
        let c = chars[i];
        if !(('a' <= c && c <= 'z') || ('A' <= c && c <= 'Z')) {
            return false;
        }
        i = i + 1;
    }
    true
}

/// The inferred input mode of the selected input source.
pub struct ImeModeInference {
    source: String,
    native: Option<bool>,
    /// A composition was shown since the last letter key, so a commit that
    /// follows it ends a composition rather than passing latin input through.
    preedit_since_key: bool,
}

impl ImeModeInference {
    pub closed spec fn spec_source(&self) -> Seq<char> {
        self.source@
    }

    pub closed spec fn spec_native(&self) -> Option<bool> {
        self.native
    }

    pub closed spec fn spec_preedit_since_key(&self) -> bool {
        self.preedit_since_key
    }

    /// Nothing observed, for no source yet.
    pub fn new() -> (inference: Self)
        ensures
            inference.spec_source().len() == 0,
            inference.spec_native() is None,
            !inference.spec_preedit_since_key(),
    {
        ImeModeInference { source: String::new(), native: None, preedit_since_key: false }
    }

    /// The inferred mode, if a keystroke was observed since the input source
    /// last changed.
    pub fn native(&self) -> (native: Option<bool>)
        ensures
            native == self.spec_native(),
    {
        self.native
    }

    /// Forgets the inference when the selected input source changes.
    pub fn observe_source(&mut self, name: &str)
        ensures
            final(self).spec_source() == name@,
            old(self).spec_source() != name@ ==> final(self).spec_native() is None
                && !final(self).spec_preedit_since_key(),
            old(self).spec_source() == name@ ==> final(self).spec_native() == old(self).spec_native()
                && final(self).spec_preedit_since_key() == old(self).spec_preedit_since_key(),
    {
        if !str_eq(self.source.as_str(), name) {
            self.source = name.to_owned();
            self.native = None;
            self.preedit_since_key = false;
        }
    }

    fn set(&mut self, native: bool) -> (changed: bool)
        ensures
            changed == (old(self).spec_native() != Some(native)),
            final(self).spec_native() == Some(native),
            final(self).spec_source() == old(self).spec_source(),
            final(self).spec_preedit_since_key() == old(self).spec_preedit_since_key(),
    {
        let changed = match self.native {
            Some(current) => current != native,
            None => true,
        };
        self.native = Some(native);
        changed
    }

    /// A plain letter key (pressed, no Ctrl, Alt or Meta) ends any
    /// composition; one that produced its own ASCII letters means the input
    /// method passed it through: latin. Returns whether the mode changed.
    pub fn observe_key(&mut self, key: &KeyObservation) -> (changed: bool)
        ensures
            final(self).spec_source() == old(self).spec_source(),
            (key.text matches Some(t) && exists|i: int|
                0 <= i < t@.len() && outside_ascii_letters(#[trigger] t@[i])) ==> !changed
                && final(self).spec_native() == old(self).spec_native(),
            ({
                let plain = key.pressed && key.letter && !key.control && !key.alt && !key.meta;
                let latin = plain && (key.text matches Some(t) && is_latin_word(t@));
                &&& !plain ==> !changed && final(self).spec_native() == old(self).spec_native()
                    && final(self).spec_preedit_since_key() == old(self).spec_preedit_since_key()
                &&& plain ==> !final(self).spec_preedit_since_key()
                &&& latin ==> final(self).spec_native() == Some(false) && changed == (old(
                    self,
                ).spec_native() != Some(false))
                &&& plain && !latin ==> !changed && final(self).spec_native() == old(
                    self,
                ).spec_native()
            }),
    {
        let plain = key.pressed && key.letter && !key.control && !key.alt && !key.meta;
        if !plain {
            return false;
        }
        self.preedit_since_key = false;
        let latin = match &key.text {
            Some(text) => latin_word(text.as_str()),
            None => false,
        };
        if latin {
            return self.set(false);
        }
        false
    }

    /// A non-empty preedit means native; ASCII letters committed without a
    /// composition mean latin. Returns whether the mode changed.
    pub fn observe_ime(&mut self, event: &ImeEvent) -> (changed: bool)
        ensures
            final(self).spec_source() == old(self).spec_source(),
            (*event matches ImeEvent::Commit(text) && exists|i: int|
                0 <= i < text@.len() && outside_ascii_letters(#[trigger] text@[i])) ==> !changed
                && final(self).spec_native() == old(self).spec_native(),
            match *event {
                ImeEvent::Preedit { text, .. } => if text@.len() > 0 {
                    final(self).spec_preedit_since_key() && final(self).spec_native() == Some(true)
                        && changed == (old(self).spec_native() != Some(true))
                } else {
                    !changed && final(self).spec_native() == old(self).spec_native()
                        && final(self).spec_preedit_since_key() == old(self).spec_preedit_since_key()
                },
                ImeEvent::Commit(text) => if !old(self).spec_preedit_since_key() && is_latin_word(
                    text@,
                ) {
                    final(self).spec_native() == Some(false) && changed == (old(self).spec_native()
                        != Some(false)) && final(self).spec_preedit_since_key() == old(
                        self,
                    ).spec_preedit_since_key()
                } else {
                    !changed && final(self).spec_native() == old(self).spec_native()
                        && final(self).spec_preedit_since_key() == old(self).spec_preedit_since_key()
                },
                _ => !changed && final(self).spec_native() == old(self).spec_native()
                    && final(self).spec_preedit_since_key() == old(self).spec_preedit_since_key(),
            },
    {
        match event {
            ImeEvent::Preedit { text, .. } => {
                if text.as_str().is_empty() {
                    return false;
                }
                self.preedit_since_key = true;
                self.set(true)
            },
            ImeEvent::Commit(text) => {
                if !self.preedit_since_key && latin_word(text.as_str()) {
                    self.set(false)
                } else {
                    false
                }
            },
            _ => false,
        }
    }
}

impl Default for ImeModeInference {
    fn default() -> (inference: Self)
        ensures
            inference.spec_source().len() == 0,
            inference.spec_native() is None,
            !inference.spec_preedit_since_key(),
    {
        ImeModeInference::new()
    }
}

} // verus!
