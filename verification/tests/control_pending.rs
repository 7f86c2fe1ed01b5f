use minicon::clock::millis_from_elapsed;
use minicon::control_pending::{
    PendingControl, WaitKind, WaitProbe, MAX_WAITS, MAX_WAIT_TIMEOUT_MS,
};
use minicon::tab::TabId;

type Pending = PendingControl<u32, String, u32>;

#[test]
fn wait_capacity_fails_without_stealing_the_extra_reply() {
    let mut pending = Pending::default();
    for index in 0..MAX_WAITS {
        let mut sender = Some(index as u32);
        pending
            .enqueue_wait(TabId::new(1), WaitKind::TabExit, 1000, &mut sender, "capacity")
            .expect("within capacity");
        assert!(sender.is_none());
    }
    let mut sender = Some(99);
    assert_eq!(
        pending.enqueue_wait(TabId::new(1), WaitKind::TabExit, 1000, &mut sender, "capacity"),
        Err("capacity".to_owned())
    );
    assert!(sender.is_some());
}

#[test]
fn oversized_wait_timeout_fails_without_stealing_the_reply() {
    let mut pending = Pending::default();
    let mut sender = Some(1);
    assert_eq!(
        pending.enqueue_wait(
            TabId::new(1),
            WaitKind::Text("ready".to_owned()),
            u64::MAX,
            &mut sender,
            "capacity",
        ),
        Err(format!("wait timeout exceeds the {MAX_WAIT_TIMEOUT_MS} ms limit"))
    );
    assert!(sender.is_some());
    assert_eq!(pending.wait_count(), 0);
}

#[test]
fn screenshot_busy_rejection_preserves_the_callers_reply() {
    let mut pending = Pending::default();
    let mut accepted = Some(1);
    pending
        .enqueue_screenshot(TabId::new(1), "first.png".to_owned(), &mut accepted)
        .expect("first screenshot");
    assert!(accepted.is_none());

    let mut rejected = Some(2);
    assert_eq!(
        pending.enqueue_screenshot(TabId::new(2), "second.png".to_owned(), &mut rejected),
        Err("a screenshot is already pending".to_owned())
    );
    assert!(rejected.is_some());
}

#[test]
fn cancellation_completes_each_owned_reply_once() {
    let mut pending = Pending::default();
    let mut sender = Some(7);
    pending
        .enqueue_wait(
            TabId::new(7),
            WaitKind::Text("ready".to_owned()),
            1000,
            &mut sender,
            "capacity",
        )
        .expect("enqueue");
    let cancelled = pending.cancel_for_tab(TabId::new(7));
    assert_eq!(cancelled.replies, vec![7]);
    let again = pending.cancel_all();
    assert!(again.replies.is_empty(), "no reply is failed twice");
}

#[test]
fn poll_reports_completion_and_nearest_deadline() {
    let mut pending = Pending::default();
    let mut done_sender = Some(1);
    let mut wait_sender = Some(2);
    pending
        .enqueue_wait_at(TabId::new(1), WaitKind::TabExit, 0, &mut done_sender, "capacity", 100)
        .expect("enqueue done");
    pending
        .enqueue_wait_at(TabId::new(2), WaitKind::TabExit, 1000, &mut wait_sender, "capacity", 100)
        .expect("enqueue pending");
    let now = 100;
    let probes = pending
        .wait_targets()
        .into_iter()
        .map(|(target, _)| {
            if target == TabId::new(1) {
                WaitProbe::Completed("done")
            } else {
                WaitProbe::Pending
            }
        })
        .collect();
    let (next, finished) = pending.poll_waits(now, probes);
    assert_eq!(finished.len(), 1);
    assert_eq!(finished[0].0, 1);
    assert_eq!(finished[0].1, Ok("done"));
    assert!(next.is_some_and(|deadline| deadline > now));
    assert_eq!(pending.wait_count(), 1);
}

#[test]
fn a_pending_wait_past_its_deadline_times_out_with_its_target() {
    let mut pending = Pending::default();
    let mut text = Some(1);
    let mut exit = Some(2);
    pending
        .enqueue_wait_at(TabId::new(3), WaitKind::Text("ok".to_owned()), 10, &mut text, "c", 0)
        .unwrap();
    pending
        .enqueue_wait_at(TabId::new(4), WaitKind::TabExit, 10, &mut exit, "c", 0)
        .unwrap();
    let (next, finished) =
        pending.poll_waits::<()>(10, vec![WaitProbe::Pending, WaitProbe::Pending]);
    assert_eq!(next, None);
    assert_eq!(
        finished,
        vec![
            (1, Err("wait-text timed out waiting for \"ok\"".to_owned())),
            (2, Err("wait-tab-exit timed out waiting for @4".to_owned())),
        ]
    );
    assert_eq!(pending.wait_count(), 0);
}

#[test]
fn a_missing_target_fails_its_wait_with_the_probe_message() {
    let mut pending = Pending::default();
    let mut reply = Some(5);
    pending
        .enqueue_wait_at(TabId::new(3), WaitKind::TabExit, 10, &mut reply, "c", 0)
        .unwrap();
    let (_, finished) = pending.poll_waits::<()>(0, vec![WaitProbe::Missing("gone".to_owned())]);
    assert_eq!(finished, vec![(5, Err("gone".to_owned()))]);
}

#[test]
fn cancelling_a_tab_keeps_the_other_tabs_waits() {
    let mut pending = Pending::default();
    for (tab, reply) in [(1, 10), (2, 20), (1, 11)] {
        let mut r = Some(reply);
        pending
            .enqueue_wait_at(TabId::new(tab), WaitKind::TabExit, 10, &mut r, "c", 0)
            .unwrap();
    }
    let mut shot = Some(12);
    pending
        .enqueue_screenshot(TabId::new(1), "shot.png".to_owned(), &mut shot)
        .unwrap();
    let cancelled = pending.cancel_for_tab(TabId::new(1));
    assert_eq!(cancelled.replies, vec![10, 11, 12]);
    assert_eq!(pending.wait_count(), 1);
    assert!(!pending.has_pending_screenshot());
}

#[test]
fn a_running_capture_is_handed_back_on_cancellation() {
    let mut pending = Pending::default();
    pending.start_screenshot(TabId::new(3), 77);
    assert_eq!(pending.screenshot_count(), 1);
    let other = pending.cancel_for_tab(TabId::new(4));
    assert_eq!(other.inflight, None);
    let cancelled = pending.cancel_for_tab(TabId::new(3));
    assert_eq!(cancelled.inflight, Some(77));
    assert_eq!(pending.screenshot_count(), 0);
}

#[test]
fn preparing_a_screenshot_remembers_the_tab_to_return_to() {
    let mut pending = Pending::default();
    assert_eq!(pending.prepare_screenshot(Some(TabId::new(1))), None);
    let mut reply = Some(1);
    pending
        .enqueue_screenshot(TabId::new(2), "p.png".to_owned(), &mut reply)
        .unwrap();
    assert_eq!(pending.prepare_screenshot(Some(TabId::new(1))), Some(TabId::new(2)));
    let work = pending.take_screenshot().expect("queued");
    assert_eq!(work.restore_active, Some(TabId::new(1)));
    assert_eq!(work.path, "p.png");
    assert!(!pending.has_pending_screenshot());
}

#[test]
fn a_finished_capture_is_reaped() {
    let mut pending = Pending::default();
    pending.start_screenshot(TabId::new(1), 5);
    pending.reap_finished_screenshot(false);
    assert_eq!(pending.inflight_handle(), Some(&5));
    pending.reap_finished_screenshot(true);
    assert_eq!(pending.inflight_handle(), None);
}

#[test]
fn clock_reading_is_held_at_the_largest_u64() {
    assert_eq!(millis_from_elapsed(0), 0);
    assert_eq!(millis_from_elapsed(1500), 1500);
    assert_eq!(millis_from_elapsed(u64::MAX as u128), u64::MAX);
    assert_eq!(millis_from_elapsed(u64::MAX as u128 + 7), u64::MAX);
}
