use minicon::json::JsonValue;
use minicon::perf::{PerfStats, PresentStats};

fn field_names(document: &JsonValue) -> Vec<String> {
    match document {
        JsonValue::Object(members) => members.iter().map(|(name, _)| name.clone()).collect(),
        _ => Vec::new(),
    }
}

fn field(document: &JsonValue, name: &str) -> Option<u64> {
    match document.get(name) {
        Some(JsonValue::Number(n)) => *n,
        _ => None,
    }
}

#[test]
fn raster_candidate_fields_serialize_and_reset() {
    let mut stats = PerfStats::default();
    stats.record_frame(7);
    stats.record_raster_candidate(true, 0, 10, 20);
    stats.record_frame(3);
    stats.record_raster_candidate(false, 12, 10, 20);
    let names = field_names(&stats.json());
    for field in [
        "observed_frames",
        "full_candidate_frames",
        "partial_candidate_frames",
        "dirty_pixels",
        "frame_pixels",
        "host_direct_frames",
        "host_copy_frames",
        "host_copy_pixels",
        "discarded_capture_frames",
        "control_requests",
        "control_budget_yields",
    ] {
        assert!(names.iter().any(|name| name == field), "missing {field}: {names:?}");
    }
    assert_eq!(stats.observed_frames, 2);
    assert_eq!(stats.dirty_pixels, 212);
    assert_eq!(stats.frame_pixels, 400);
    assert_eq!(field(&stats.json(), "render_average_us"), Some(5));
    stats.reset(PresentStats::default());
    assert_eq!(stats.observed_frames, 0);
    assert_eq!(stats.full_candidate_frames, 0);
    assert_eq!(stats.partial_candidate_frames, 0);
    assert_eq!(stats.dirty_pixels, 0);
    assert_eq!(stats.frame_pixels, 0);
    assert_eq!(stats.host_direct_frames, 0);
    assert_eq!(stats.host_copy_frames, 0);
    assert_eq!(stats.host_copy_pixels, 0);
}

#[test]
fn host_copy_stats_count_actual_pixels_and_saturate() {
    let mut stats = PerfStats::default();
    stats.record_host_direct_frame();
    stats.record_host_copy_frame(10, 20);
    assert_eq!(stats.host_direct_frames, 1);
    assert_eq!(stats.host_copy_frames, 1);
    assert_eq!(stats.host_copy_pixels, 200);

    stats.host_copy_pixels = u64::MAX - 1;
    stats.record_host_copy_frame(u32::MAX, u32::MAX);
    assert_eq!(stats.host_copy_pixels, u64::MAX);
}

#[test]
fn platform_present_baseline_delta_json_and_reset_semantics() {
    let baseline = PresentStats {
        sequence: 4,
        count: 4,
        success_count: 3,
        failure_count: 1,
        last_ns: 8,
        total_ns: 30,
        max_ns: 8,
        full_pixels: 100,
        partial_pixels: 50,
        requested_full_pixels: 120,
        requested_partial_pixels: 60,
    };
    let current = PresentStats {
        sequence: 6,
        count: 6,
        success_count: 4,
        failure_count: 2,
        last_ns: 5,
        total_ns: 43,
        max_ns: 8,
        full_pixels: 140,
        partial_pixels: 65,
        requested_full_pixels: 170,
        requested_partial_pixels: 80,
    };

    let mut stats = PerfStats::default();
    stats.reset(baseline);
    assert_eq!(stats.present_delta(), PresentStats::default());

    stats.sync_present_stats(current);
    let delta = stats.present_delta();
    assert_eq!(delta.count, 2);
    assert_eq!(delta.success_count, 1);
    assert_eq!(delta.failure_count, 1);
    assert_eq!(delta.last_ns, 5);
    assert_eq!(delta.total_ns, 13);
    assert_eq!(delta.max_ns, 5);
    assert_eq!(delta.full_pixels, 40);
    assert_eq!(delta.partial_pixels, 15);
    assert_eq!(delta.requested_full_pixels, 50);
    assert_eq!(delta.requested_partial_pixels, 20);

    let names = field_names(&stats.json());
    for field in [
        "present_count",
        "present_success",
        "present_failure",
        "last_ns",
        "total_ns",
        "max_ns",
        "full_pixels",
        "partial_pixels",
        "requested_full_pixels",
        "requested_partial_pixels",
    ] {
        assert!(names.iter().any(|name| name == field), "missing {field}: {names:?}");
    }

    stats.reset(current);
    let after_reset = stats.present_delta();
    assert_eq!(after_reset.count, 0);
    assert_eq!(after_reset.last_ns, 0);
    assert_eq!(after_reset.max_ns, 0);
}

#[test]
fn an_old_present_sequence_only_replaces_the_ledger() {
    let mut stats = PerfStats::default();
    let mut sample = PresentStats::default();
    sample.sequence = 2;
    sample.last_ns = 9;
    stats.sync_present_stats(sample);
    sample.sequence = 1;
    sample.last_ns = 50;
    stats.sync_present_stats(sample);
    assert_eq!(stats.present_last_ns, 9);
    assert_eq!(stats.present_max_ns, 9);
    assert_eq!(stats.platform_present.sequence, 1);
}

#[test]
fn frame_times_track_the_last_and_the_largest() {
    let mut stats = PerfStats::default();
    stats.record_frame(30);
    stats.record_frame(10);
    assert_eq!(stats.render_last_us, 10);
    assert_eq!(stats.render_max_us, 30);
    assert_eq!(stats.render_average_us(), 20);
    stats.record_frame(u128::MAX);
    assert_eq!(stats.render_last_us, u64::MAX);
}

use minicon::outcomes::{
    exit_code_json, mouse_outcome_json, single_field_json, tab_exit_json, tab_id_json,
    wheel_outcome_json, MouseOutcome, WheelOutcome,
};
use minicon::tab::TabId;

#[test]
fn control_answers_have_stable_fields() {
    assert_eq!(tab_id_json(Some(TabId::new(12))), JsonValue::Str("@12".to_owned()));
    assert_eq!(tab_id_json(None), JsonValue::Null);
    assert_eq!(exit_code_json(Some(-1)), JsonValue::Signed(-1));
    assert_eq!(exit_code_json(None), JsonValue::Null);
    assert_eq!(
        tab_exit_json(TabId::new(3), Some(0)),
        JsonValue::Object(vec![
            ("id".to_owned(), JsonValue::Str("@3".to_owned())),
            ("child_alive".to_owned(), JsonValue::Bool(false)),
            ("child_exit_code".to_owned(), JsonValue::Signed(0)),
        ])
    );
    assert_eq!(
        mouse_outcome_json(MouseOutcome { route: "terminal", changed: true }),
        JsonValue::Object(vec![
            ("delivered".to_owned(), JsonValue::Bool(true)),
            ("route".to_owned(), JsonValue::Str("terminal".to_owned())),
            ("changed".to_owned(), JsonValue::Bool(true)),
        ])
    );
    assert_eq!(field_names(&wheel_outcome_json(WheelOutcome { route: "scrollback", delivered_notches: -2, changed: false })), vec!["delivered_notches", "route", "changed"]);
    assert_eq!(field_names(&single_field_json("ok", JsonValue::Bool(true))), vec!["ok"]);
}
