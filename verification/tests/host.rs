use minicon::budget::{pty_drain_budget_per_session, PTY_DRAIN_BUDGET_BYTES};
use minicon::features::{usage_text, Features, FEATURES};
use minicon::host_rules::{
    decode_child_exit_code, encode_child_exit_code, program_leaf, program_stem, session_label,
    status_strip_notice, terminal_clipboard_target_is_current, trim,
};
use minicon::tab::TabId;

#[test]
fn wake_budget_is_shared_without_multiplying_by_tab_count() {
    assert_eq!(pty_drain_budget_per_session(0), 0);
    assert_eq!(pty_drain_budget_per_session(1), PTY_DRAIN_BUDGET_BYTES);
    assert_eq!(pty_drain_budget_per_session(2), PTY_DRAIN_BUDGET_BYTES / 2);
    for count in 1..=256 {
        assert!(pty_drain_budget_per_session(count) * count <= PTY_DRAIN_BUDGET_BYTES);
    }
}

#[test]
fn more_sessions_than_bytes_still_get_a_byte_each() {
    assert_eq!(pty_drain_budget_per_session(PTY_DRAIN_BUDGET_BYTES + 1), 1);
}

#[test]
fn terminal_clipboard_completion_requires_same_active_terminal() {
    let target = TabId::new(7);
    assert!(terminal_clipboard_target_is_current(target, Some(target), false));
    assert!(!terminal_clipboard_target_is_current(target, Some(TabId::new(8)), false));
    assert!(!terminal_clipboard_target_is_current(target, None, false));
}

#[test]
fn terminal_clipboard_completion_rejects_composer_focus() {
    let target = TabId::new(7);
    assert!(!terminal_clipboard_target_is_current(target, Some(target), true));
}

#[test]
fn status_strip_prefers_the_host_notice() {
    assert_eq!(status_strip_notice(None, None), None);
    assert_eq!(status_strip_notice(None, Some("clip")), Some("clip"));
    assert_eq!(status_strip_notice(Some("tab"), None), Some("tab"));
    assert_eq!(status_strip_notice(Some("tab"), Some("clip")), Some("tab"));
}

#[test]
fn usage_lists_every_feature_so_none_is_undiscoverable() {
    let usage = usage_text();
    assert!(usage.contains("--feature"), "{usage}");
    for (name, _) in FEATURES {
        assert!(usage.contains(name), "usage omits feature {name}");
    }
}

#[test]
fn usage_starts_with_the_synopsis() {
    assert!(usage_text().starts_with("Usage: minicon [--no-activate] [--headless]"));
    assert!(usage_text().contains("  --feature conpty  Windows: host the shell"));
}

#[test]
fn a_feature_word_turns_its_feature_on_and_off() {
    let mut features = Features::default();
    features.apply("conpty").unwrap();
    assert!(features.conpty);
    features.apply("no-conpty").unwrap();
    assert!(!features.conpty);
}

#[test]
fn an_unknown_feature_word_names_the_known_set() {
    let mut features = Features::default();
    assert_eq!(
        features.apply("conpyt"),
        Err("error: unknown feature 'conpyt'; known features: conpty\n".to_owned())
    );
    assert!(features.apply("no-nope").is_err());
    assert!(!features.conpty);
}

#[test]
fn a_child_naming_itself_is_not_a_title() {
    let path = r"C:\Windows\system32\cmd.exe";
    assert_eq!(session_label(path, path, "cmd"), "cmd", "the full path");
    assert_eq!(session_label("cmd.exe", path, "cmd"), "cmd", "the file name");
    assert_eq!(
        session_label(r"C:\WINDOWS\SYSTEM32\CMD.EXE", path, "cmd"),
        "cmd",
        "Windows paths are not case sensitive and neither is this"
    );
    assert_eq!(session_label("   ", path, "cmd"), "cmd", "blank is absent");
}

#[test]
fn a_real_title_from_the_child_is_kept() {
    let path = r"C:\Windows\system32\cmd.exe";
    assert_eq!(session_label("deploy", path, "cmd"), "deploy");
    assert_eq!(session_label("  build 3  ", path, "cmd"), "build 3");
    assert_eq!(session_label("cmd.exe — release", path, "cmd"), "cmd.exe — release");
}

#[test]
fn a_program_is_known_by_its_short_name() {
    assert_eq!(program_stem(r"C:\Windows\system32\cmd.exe"), "cmd");
    assert_eq!(program_stem("/bin/bash"), "bash");
    assert_eq!(program_stem(r"bin\bash"), "bash");
    assert_eq!(program_stem("pwsh"), "pwsh");
    assert_eq!(program_stem(""), "terminal");
    assert_eq!(program_stem("/"), "terminal");
}

#[test]
fn a_leading_dot_is_not_an_extension() {
    assert_eq!(program_stem("/home/u/.profile"), ".profile");
    assert_eq!(program_stem("archive.tar.gz"), "archive.tar");
    assert_eq!(program_leaf("a/b\\c.exe"), "c.exe");
    assert_eq!(program_leaf("dir/"), "");
}

#[test]
fn trimming_removes_unicode_whitespace_at_both_ends() {
    assert_eq!(trim("\u{3000} x y \u{a0}\n"), "x y");
    assert_eq!(trim(" \t "), "");
}

#[test]
fn child_exit_code_encoding_preserves_complete_signed_domain() {
    for code in [None, Some(i32::MIN), Some(-1), Some(0), Some(1), Some(i32::MAX)] {
        assert_eq!(decode_child_exit_code(encode_child_exit_code(code)), code);
    }
}

#[test]
fn exit_code_encodings_are_bits_plus_one() {
    assert_eq!(encode_child_exit_code(None), 0);
    assert_eq!(encode_child_exit_code(Some(0)), 1);
    assert_eq!(encode_child_exit_code(Some(-1)), 1 << 32);
    assert_eq!(decode_child_exit_code((1 << 32) + 1), None);
}
