use minicon::control_keys::{control_key_name, parse_control_key, parse_control_keys, InjectedKey};
use minicon::host_rules::validate_control_cell;
use minicon::snapshot::{check_png_dimensions, snapshot_json, CursorSnapshot, PointSnapshot, ScreenSnapshot};
use minicon::startup::{bundled_library_unavailable, preflight_after_probe, preflight_start, requires_x11, PreflightStep};
use minicon::json::JsonValue;

#[test]
fn wayland_only_does_not_stage_the_x11_bridge() {
    let x11 = requires_x11(None, Some(b"wayland-0"), None);
    assert_eq!(preflight_start(x11), PreflightStep::Done(Ok(())));
}

#[test]
fn explicit_backend_selection_wins_over_ambient_variables() {
    assert!(requires_x11(None, Some(b"wayland-0"), Some(b"x11")));
    assert!(!requires_x11(Some(b":0"), None, Some(b"wayland")));
    assert!(requires_x11(Some(b":0"), None, Some(b"X11")));
    assert!(requires_x11(Some(b":0"), Some(b""), None));
    assert!(!requires_x11(Some(b""), None, None));
}

#[test]
fn a_missing_bridge_is_staged_once_and_then_refused() {
    assert_eq!(preflight_start(true), PreflightStep::Probe);
    assert_eq!(preflight_after_probe(true, false), PreflightStep::Done(Ok(())));
    assert_eq!(preflight_after_probe(false, false), PreflightStep::StageAndRestart);
    assert_eq!(
        preflight_after_probe(false, true),
        PreflightStep::Done(Err(bundled_library_unavailable()))
    );
    assert!(bundled_library_unavailable().contains("libxkbcommon-x11.so.0"));
}

/// Key names the terminal knows, for these tests.
fn named(spec: &str) -> bool {
    matches!(control_key_name(spec).as_str(), "F1" | "Delete" | "Enter" | "Tab")
}

fn parse_all(specs: &[String]) -> Result<Vec<(InjectedKey, bool, bool, bool)>, String> {
    let flags: Vec<bool> = specs.iter().map(|spec| named(spec)).collect();
    parse_control_keys(specs, &flags)
}

#[test]
fn a_key_sequence_is_validated_before_any_key_is_applied() {
    let sequence = ["ctrl+a".to_owned(), "shift+F1".to_owned(), "ctrl+".to_owned(), "b".to_owned()];
    let mut delivered = 0usize;
    if let Ok(parsed) = parse_all(&sequence) {
        delivered += parsed.len();
    }
    assert_eq!(delivered, 0, "a malformed key anywhere must stop the whole sequence");

    let mut legacy_delivered = 0usize;
    for spec in &sequence {
        if parse_control_key(spec, named(spec)).is_err() {
            break;
        }
        legacy_delivered += 1;
    }
    assert_eq!(legacy_delivered, 2);

    let good = ["ctrl+a".to_owned(), "b".to_owned()];
    assert_eq!(parse_all(&good).map(|keys| keys.len()), Ok(2));
}

#[test]
fn a_key_sequence_with_no_bad_member_parses_entirely() {
    let sequence = ["a".to_owned(), "ctrl+alt+Delete".to_owned()];
    let parsed = parse_all(&sequence).expect("all keys are valid");
    assert_eq!(parsed.len(), sequence.len());
    assert_eq!((parsed[1].1, parsed[1].2, parsed[1].3), (true, true, false));
    assert_eq!(parsed[1].0, InjectedKey::Named("Delete".to_owned()));
    assert_eq!(parsed[0].0, InjectedKey::Char('a'));
    assert!(parse_all(&[]).expect("empty is valid").is_empty());
}

#[test]
fn key_specifications_name_their_faults() {
    assert_eq!(parse_control_key("ctrl+", false), Err("invalid key specification \"ctrl+\"".to_owned()));
    assert_eq!(parse_control_key("hyper+a", false), Err("unknown key modifier \"hyper\"".to_owned()));
    assert_eq!(parse_control_key("Entr", false), Err("unknown key \"Entr\"".to_owned()));
    assert_eq!(parse_control_key("Control+SHIFT+x", false), Ok((InjectedKey::Char('x'), true, false, true)));
}

#[test]
fn a_mouse_cell_must_lie_inside_the_terminal() {
    assert_eq!(validate_control_cell(24, 80, 23, 79), Ok(()));
    assert_eq!(
        validate_control_cell(24, 80, 24, 0),
        Err("mouse cell 24,0 is outside 24x80".to_owned())
    );
}

fn to_serde(value: &JsonValue) -> serde_json::Value {
    match value {
        JsonValue::Null => serde_json::Value::Null,
        JsonValue::Bool(b) => serde_json::Value::Bool(*b),
        JsonValue::Number(Some(n)) => serde_json::Value::from(*n),
        JsonValue::Number(None) => serde_json::Value::Null,
        JsonValue::Signed(n) => serde_json::Value::from(*n),
        JsonValue::Str(s) => serde_json::Value::String(s.clone()),
        JsonValue::Array(items) => serde_json::Value::Array(items.iter().map(to_serde).collect()),
        JsonValue::Object(members) => serde_json::Value::Object(
            members.iter().map(|(k, v)| (k.clone(), to_serde(v))).collect(),
        ),
    }
}

#[test]
fn snapshot_round_trips_with_stable_fields() {
    let snapshot = ScreenSnapshot {
        cols: 80,
        rows: 24,
        title: "agenterm-con".to_owned(),
        rows_text: vec!["hello".to_owned(), String::new()],
        cursor: CursorSnapshot { row: 0, col: 5, shape: "block", blinking: true, visible_now: true },
        scroll_offset: 0,
        max_scrollback: 120,
        selection: Some((PointSnapshot { row: 0, col: 0 }, PointSnapshot { row: 0, col: 4 })),
        ime_preedit: String::new(),
        child_alive: true,
        child_exit_code: None,
        font_size_px: 16,
    };
    let text = serde_json::to_string(&to_serde(&snapshot_json(&snapshot))).unwrap();
    let value: serde_json::Value = serde_json::from_str(&text).unwrap();
    assert_eq!(value["cols"], 80);
    assert_eq!(value["rows_text"][0], "hello");
    assert_eq!(value["cursor"]["shape"], "block");
    assert_eq!(value["selection"][1]["col"], 4);
    assert_eq!(value["child_alive"], true);
    assert!(value["child_exit_code"].is_null());
}

#[test]
fn a_negative_exit_code_is_written_as_is() {
    let snapshot = ScreenSnapshot {
        cols: 1,
        rows: 1,
        title: String::new(),
        rows_text: Vec::new(),
        cursor: CursorSnapshot { row: 0, col: 0, shape: "bar", blinking: false, visible_now: false },
        scroll_offset: 0,
        max_scrollback: 0,
        selection: None,
        ime_preedit: "ni".to_owned(),
        child_alive: false,
        child_exit_code: Some(-2),
        font_size_px: 12,
    };
    let value = to_serde(&snapshot_json(&snapshot));
    assert_eq!(value["child_exit_code"], -2);
    assert!(value["selection"].is_null());
    assert_eq!(value["ime_preedit"], "ni");
}

#[test]
fn write_png_rejects_invalid_dimensions_before_creating_a_file() {
    assert_eq!(check_png_dimensions(0, 0, 1), Err("PNG dimensions must be non-zero"));
    assert_eq!(check_png_dimensions(1, 2, 1), Err("PNG pixel count does not match dimensions"));
    assert_eq!(check_png_dimensions(4, 2, 2), Ok(()));
}

use minicon::a11y::Flags;
use minicon::command::MouseButton;
use minicon::control_keys::{control_mouse_button, InjectedMouseButton};
use minicon::harness::harness_system_prompt;

#[test]
fn a_press_needs_a_mouse_button() {
    assert_eq!(control_mouse_button(MouseButton::Left), Ok(InjectedMouseButton::Left));
    assert_eq!(control_mouse_button(MouseButton::Right), Ok(InjectedMouseButton::Right));
    assert_eq!(
        control_mouse_button(MouseButton::NoButton),
        Err("press/release requires a mouse button".to_owned())
    );
}

#[test]
fn the_system_prompt_names_the_task_root() {
    let prompt = harness_system_prompt("/srv/task");
    assert!(prompt.contains("relative to the task root /srv/task; paths outside it are refused"));
    assert!(prompt.starts_with("You are MiniCon's bounded harness agent."));
}

#[test]
fn node_flags_compose() {
    let button = Flags::focusable().with_click();
    assert!(button.focusable && button.clickable && !button.editable && !button.focused);
    assert_eq!(Flags::container().with_click(), Flags { focusable: false, focused: false, editable: false, clickable: true });
}
