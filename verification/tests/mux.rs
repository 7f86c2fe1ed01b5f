use minicon::json::JsonValue;
use minicon::mux::{
    render_pane_format, render_window_format, resolve_target, tmux_key_base, tmux_key_to_spec,
    validate_format, window_for_index, MuxTarget, TabRow, DEFAULT_FORMAT, DEFAULT_PANE_FORMAT,
    KNOWN_FORMAT_VARS, KNOWN_PANE_FORMAT_VARS,
};
use minicon::mux_plan::{plan_mux, MuxPlan};

fn tab() -> TabRow {
    TabRow {
        id: "@1".to_owned(),
        name: "bash".to_owned(),
        active: true,
        dead: false,
        width: 80,
        height: 24,
    }
}

/// The key names the control CLI knows, for these tests.
fn named(key: &str) -> bool {
    matches!(
        tmux_key_base(key).as_deref(),
        Some("Enter" | "Tab" | "Escape" | "Up" | "Down")
    )
}

fn to_spec(key: &str) -> Result<String, String> {
    tmux_key_to_spec(key, named(key))
}

fn resolved(value: &str) -> Result<String, String> {
    match resolve_target(value)? {
        MuxTarget::Handle(handle) => Ok(handle),
        MuxTarget::Index(index) => window_for_index(value, index, &[]),
    }
}

fn mux(args: &[&str]) -> Result<MuxPlan, String> {
    let args: Vec<String> = args.iter().map(|a| (*a).to_owned()).collect();
    plan_mux(&args, None).map(|request| request.plan)
}

#[test]
fn render_window_format_default_marks_active_window() {
    assert_eq!(render_window_format(DEFAULT_FORMAT, 0, &tab()), "0: bash*");
}

#[test]
fn render_pane_format_default_matches_tmux_field_order() {
    assert_eq!(render_pane_format(DEFAULT_PANE_FORMAT, &tab()), "@1 80 24 1 0");
    let dead_tab = TabRow { active: false, dead: true, ..tab() };
    assert_eq!(render_pane_format(DEFAULT_PANE_FORMAT, &dead_tab), "@1 80 24 0 1");
}

#[test]
fn unknown_substitution_is_bounded_error() {
    let error = validate_format("#{pane_id}", &KNOWN_FORMAT_VARS).unwrap_err();
    assert!(error.contains("unknown substitution"), "{error}");
}

#[test]
fn list_panes_format_rejects_window_vars() {
    let error = validate_format("#{window_id}", &KNOWN_PANE_FORMAT_VARS).unwrap_err();
    assert!(error.contains("unknown substitution"), "{error}");
}

#[test]
fn an_at_id_target_resolves_without_reaching_the_endpoint() {
    assert_eq!(resolved("@7").unwrap(), "@7");
    assert_eq!(resolved("0:@7").unwrap(), "@7");
    assert_eq!(resolved("minicon:@7.0").unwrap(), "@7");
}

#[test]
fn a_nonzero_pane_names_the_missing_split_window() {
    let error = resolved("@7.1").unwrap_err();
    assert!(error.contains("split-window"), "{error}");
    assert!(error.contains("one pane"), "{error}");
}

#[test]
fn a_foreign_session_name_is_refused_not_ignored() {
    let error = resolved("other:@7").unwrap_err();
    assert!(error.contains("no session named"), "{error}");
}

#[test]
fn a_malformed_at_id_is_refused_before_any_connect() {
    let error = resolved("@").unwrap_err();
    assert!(error.contains("not a valid @ID"), "{error}");
    let error = resolved("@x1").unwrap_err();
    assert!(error.contains("not a valid @ID"), "{error}");
}

#[test]
fn a_window_that_is_neither_handle_nor_index_is_refused() {
    let error = resolved("name").unwrap_err();
    assert!(error.contains("neither a MiniCon @ID handle"), "{error}");
}

#[test]
fn tmux_modifier_prefixes_become_minicon_key_specs() {
    assert_eq!(to_spec("C-c").unwrap(), "ctrl+c");
    assert_eq!(to_spec("Enter").unwrap(), "Enter");
    assert_eq!(to_spec("M-x").unwrap(), "alt+x");
    assert_eq!(to_spec("C-M-a").unwrap(), "ctrl+alt+a");
    assert_eq!(to_spec("S-Tab").unwrap(), "shift+Tab");
}

#[test]
fn tmux_only_key_spellings_are_translated() {
    assert_eq!(to_spec("BSpace").unwrap(), "backspace");
    assert_eq!(to_spec("DC").unwrap(), "delete");
    assert_eq!(to_spec("NPage").unwrap(), "pagedown");
    assert_eq!(to_spec("PPage").unwrap(), "pageup");
}

#[test]
fn an_unknown_key_name_is_refused_rather_than_sent_as_text() {
    let error = to_spec("Entr").unwrap_err();
    assert!(error.contains("neither a tmux key name"), "{error}");
    assert!(error.contains("-l"), "{error}");
    let error = to_spec("C-").unwrap_err();
    assert!(error.contains("modifier and no key"), "{error}");
}

#[test]
fn unknown_verb_is_bounded_error() {
    let error = mux(&["mux", "--control", "unix:/tmp/x", "split-window"]).unwrap_err();
    assert!(error.contains("unknown verb"), "{error}");
}

#[test]
fn capture_pane_history_range_is_blocked_on_carried_debt_c1() {
    for flag in ["-S", "-E"] {
        let error =
            mux(&["mux", "--control", "unix:/nonexistent", "capture-pane", flag, "-100"])
                .unwrap_err();
        assert!(error.contains("C1"), "{flag}: {error}");
        assert!(error.contains("scrollback"), "{flag}: {error}");
    }
}

#[test]
fn new_window_refuses_to_silently_drop_a_window_name() {
    let error =
        mux(&["mux", "--control", "unix:/nonexistent", "new-window", "-n", "build"]).unwrap_err();
    assert!(error.contains("takes no window name"), "{error}");
}

#[test]
fn an_unsupported_tmux_flag_names_the_implemented_subset() {
    let error = mux(&["mux", "--control", "unix:/nonexistent", "select-window", "-a"]).unwrap_err();
    assert!(error.contains("not one of the tmux flags"), "{error}");
}

#[test]
fn select_window_requires_a_target() {
    let error = mux(&["mux", "--control", "unix:/nonexistent", "select-window"]).unwrap_err();
    assert!(error.contains("requires -t TARGET"), "{error}");
}

// Scenarios of this library.

#[test]
fn an_index_target_is_looked_up_in_the_tab_list() {
    assert_eq!(resolve_target("1"), Ok(MuxTarget::Index(1)));
    let ids = vec!["@3".to_owned(), "@5".to_owned()];
    assert_eq!(window_for_index("1", 1, &ids), Ok("@5".to_owned()));
    let error = window_for_index("2", 2, &ids).unwrap_err();
    assert!(error.contains("window index 2 is out of range; 2 window(s) are open"), "{error}");
}

#[test]
fn an_empty_window_is_refused() {
    let error = resolved("minicon:").unwrap_err();
    assert!(error.ends_with("names no window"), "{error}");
}

#[test]
fn an_unterminated_substitution_is_refused() {
    let error = validate_format("#{window_id", &KNOWN_FORMAT_VARS).unwrap_err();
    assert!(error.contains("unterminated"), "{error}");
    assert!(validate_format("plain text", &KNOWN_FORMAT_VARS).is_ok());
}

#[test]
fn a_format_repeats_and_mixes_fields_and_text() {
    let format = "[#{window_id}|#{window_index}|#{window_id}]";
    assert!(validate_format(format, &KNOWN_FORMAT_VARS).is_ok());
    assert_eq!(render_window_format(format, 12, &tab()), "[@1|12|@1]");
}

#[test]
fn repeated_modifiers_are_named_once() {
    assert_eq!(to_spec("C-C-x").unwrap(), "ctrl+x");
}

#[test]
fn the_endpoint_comes_from_the_environment_when_not_given() {
    let args: Vec<String> = ["mux", "list-windows"].iter().map(|a| (*a).to_owned()).collect();
    let request = plan_mux(&args, Some("unix:/run/x".to_owned())).expect("planned");
    assert_eq!(request.control, "unix:/run/x");
    assert!(matches!(request.plan, MuxPlan::ListWindows { ref format } if format == DEFAULT_FORMAT));
    let error = plan_mux(&args, None).unwrap_err();
    assert!(error.contains("MINICON_CONTROL"), "{error}");
}

#[test]
fn send_keys_collects_keys_and_the_literal_switch() {
    let plan = mux(&["mux", "--control", "c", "send-keys", "-t", "@2", "-l", "a", "-", "b"]).unwrap();
    match plan {
        MuxPlan::SendKeys { target, literal, keys } => {
            assert_eq!(target, Some(MuxTarget::Handle("@2".to_owned())));
            assert!(literal);
            assert_eq!(keys, vec!["a".to_owned(), "-".to_owned(), "b".to_owned()]);
        }
        _ => panic!("not send-keys"),
    }
    let error = mux(&["mux", "--control", "c", "send-keys"]).unwrap_err();
    assert!(error.contains("at least one KEY"), "{error}");
}

fn json_of(value: &serde_json::Value) -> JsonValue {
    match value {
        serde_json::Value::Null => JsonValue::Null,
        serde_json::Value::Bool(b) => JsonValue::Bool(*b),
        serde_json::Value::Number(n) => JsonValue::Number(n.as_u64()),
        serde_json::Value::String(s) => JsonValue::Str(s.clone()),
        serde_json::Value::Array(items) => JsonValue::Array(items.iter().map(json_of).collect()),
        serde_json::Value::Object(members) => JsonValue::Object(
            members.iter().map(|(key, item)| (key.clone(), json_of(item))).collect(),
        ),
    }
}

fn tabs_of(response: &str) -> Result<Vec<TabRow>, String> {
    let value: serde_json::Value = serde_json::from_str(response).expect("JSON");
    minicon::mux::parse_tabs(&json_of(&value))
}

#[test]
fn parse_tabs_reads_id_title_active() {
    let response = r#"{"tabs":[{"id":"@1","parent":null,"title":"bash","active":true,"child_alive":true,"child_exit_code":null,"cols":80,"rows":24},{"id":"@2","parent":null,"title":"vim","active":false,"child_alive":false,"child_exit_code":0,"cols":100,"rows":40}]}"#;
    let tabs = tabs_of(response).expect("valid list-tabs response");
    assert_eq!(tabs.len(), 2);
    assert_eq!(tabs[0].id, "@1");
    assert_eq!(tabs[0].name, "bash");
    assert!(tabs[0].active);
    assert!(!tabs[0].dead);
    assert_eq!((tabs[0].width, tabs[0].height), (80, 24));
    assert!(!tabs[1].active);
    assert!(tabs[1].dead);
    assert_eq!((tabs[1].width, tabs[1].height), (100, 40));
}

#[test]
fn a_tab_list_without_ids_or_tabs_is_refused() {
    assert_eq!(
        tabs_of(r#"{"windows":[]}"#).err(),
        Some("list-tabs: response missing \"tabs\" array".to_owned())
    );
    assert_eq!(
        tabs_of(r#"{"tabs":[{"id":"@1"},{"title":"x"}]}"#).err(),
        Some("list-tabs: tab missing \"id\"".to_owned())
    );
    let tabs = tabs_of(r#"{"tabs":[{"id":"@1","cols":-3}]}"#).unwrap();
    assert_eq!(tabs[0].name, "");
    assert_eq!(tabs[0].width, 0);
}
