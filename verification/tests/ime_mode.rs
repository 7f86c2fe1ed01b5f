use minicon::command::ImeEvent;
use minicon::ime_mode::{ImeModeInference, KeyObservation};

fn key(letter: bool, text: Option<&str>, pressed: bool) -> KeyObservation {
    KeyObservation {
        pressed,
        letter,
        control: false,
        alt: false,
        meta: false,
        text: text.map(str::to_owned),
    }
}

#[test]
fn a_composition_means_native_and_passthrough_means_latin() {
    let mut inference = ImeModeInference::default();
    inference.observe_source("微信输入法");
    assert_eq!(inference.native(), None, "nothing observed yet");

    inference.observe_key(&key(true, None, true));
    assert!(inference.observe_ime(&ImeEvent::Preedit { text: "n".into(), cursor: None }));
    assert_eq!(inference.native(), Some(true));
    assert!(!inference.observe_ime(&ImeEvent::Commit("你".into())));
    assert_eq!(inference.native(), Some(true));

    assert!(inference.observe_key(&key(true, Some("a"), true)));
    assert_eq!(inference.native(), Some(false));
}

#[test]
fn a_latin_letter_committed_without_composing_means_latin() {
    let mut inference = ImeModeInference::default();
    inference.observe_source("搜狗拼音");
    inference.observe_key(&key(true, None, true));
    assert!(inference.observe_ime(&ImeEvent::Commit("h".into())));
    assert_eq!(inference.native(), Some(false));
}

#[test]
fn a_shifted_capital_passed_through_still_means_latin() {
    let mut inference = ImeModeInference::default();
    inference.observe_source("微信输入法");
    inference.observe_ime(&ImeEvent::Preedit { text: "a".into(), cursor: None });
    assert!(inference.observe_key(&key(true, Some("A"), true)));
    assert_eq!(inference.native(), Some(false));
}

#[test]
fn changing_the_input_source_forgets_the_inference() {
    let mut inference = ImeModeInference::default();
    inference.observe_source("微信输入法");
    inference.observe_ime(&ImeEvent::Preedit { text: "a".into(), cursor: None });
    inference.observe_source("ABC");
    assert_eq!(inference.native(), None);
}

#[test]
fn keys_with_modifiers_or_releases_are_not_evidence() {
    let mut inference = ImeModeInference::default();
    let mut chord = key(true, Some("c"), true);
    chord.control = true;
    assert!(!inference.observe_key(&chord));
    assert!(!inference.observe_key(&key(true, Some("c"), false)));
    assert_eq!(inference.native(), None);
}

#[test]
fn a_commit_after_a_composition_is_not_latin() {
    let mut inference = ImeModeInference::default();
    inference.observe_ime(&ImeEvent::Preedit { text: "ni".into(), cursor: None });
    assert!(!inference.observe_ime(&ImeEvent::Commit("ni".into())));
    assert_eq!(inference.native(), Some(true));
}

#[test]
fn the_same_source_keeps_the_inference() {
    let mut inference = ImeModeInference::default();
    inference.observe_source("ABC");
    inference.observe_ime(&ImeEvent::Preedit { text: "a".into(), cursor: None });
    inference.observe_source("ABC");
    assert_eq!(inference.native(), Some(true));
}
