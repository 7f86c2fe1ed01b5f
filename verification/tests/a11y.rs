use minicon::a11y::{
    offscreen_field_rect, saturating_i32, session_rect, A11yAction, ActionInbox, ActionInboxStats,
    ActionPush, Layout, Rect, Request, ACTION_DRAIN_BUDGET, ACTION_QUEUE_CAPACITY,
    ACTION_QUEUE_MAX_BYTES, OFFSCREEN_FIELD_GAP, OFFSCREEN_FIELD_HEIGHT,
};
use minicon::composer::PASTE_LIMIT_BYTES;

const NODE_COMMAND: u32 = 2;

/// A 960 by 600 window with a 220-pixel sidebar and the composer from y 540.
fn layout() -> Layout {
    Layout {
        sidebar: Rect { x: 0, y: 0, width: 220, height: 600 },
        composer: Rect { x: 220, y: 540, width: 740, height: 60 },
    }
}

#[test]
fn saturating_i32_clamps_instead_of_wrapping() {
    assert_eq!(saturating_i32(0), 0);
    assert_eq!(saturating_i32(1), 1);
    assert_eq!(saturating_i32(i32::MAX as u32), i32::MAX, "the boundary");
    assert_eq!(
        saturating_i32(i32::MAX as u32 + 1),
        i32::MAX,
        "one past the boundary clamps rather than going negative"
    );
    assert_eq!(saturating_i32(u32::MAX), i32::MAX);
    assert!(saturating_i32(u32::MAX) > 0);
}

#[test]
fn session_rect_is_inset_by_the_sidebar_and_capped_at_the_composer() {
    let layout = layout();
    let session = session_rect(layout, 960, 600);
    assert_eq!(session.x, layout.sidebar.width, "the tab column is excluded");
    assert_eq!(session.y, 0);
    assert_eq!(session.width, 960 - layout.sidebar.width);
    assert_eq!(session.height, layout.composer.y, "the box stops where the composer starts");

    let short = session_rect(layout, 960, 10);
    assert_eq!(short.height, 10, "the frame height caps the box");

    let narrow = session_rect(layout, 10, 600);
    assert_eq!(narrow.width, 0, "width saturates rather than underflowing");
}

#[test]
fn the_offscreen_field_sits_below_the_session_and_keeps_a_pixel_of_width() {
    let session = session_rect(layout(), 960, 600);
    let field = offscreen_field_rect(session);
    assert_eq!(field.x, session.x, "it aligns with the session's left edge");
    assert_eq!(field.y, session.y + session.height + OFFSCREEN_FIELD_GAP);
    assert_eq!(field.width, session.width);
    assert_eq!(field.height, OFFSCREEN_FIELD_HEIGHT);

    let empty = Rect { x: 0, y: 0, width: 0, height: 0 };
    let from_empty = offscreen_field_rect(empty);
    assert_eq!(from_empty.width, 1, "a zero-width session still gets a node");
    assert_eq!(from_empty.y, OFFSCREEN_FIELD_GAP);

    let huge = Rect { x: 0, y: 0, width: 10, height: u32::MAX };
    let from_huge = offscreen_field_rect(huge);
    assert_eq!(from_huge.y, u32::MAX, "the offset saturates");
    assert!(from_huge.y > 0);
}

#[test]
fn action_inbox_is_fifo_bounded_and_budgeted() {
    let mut inbox = ActionInbox::default();
    for node in 0..ACTION_QUEUE_CAPACITY {
        let outcome = inbox.push(Request { node: node as u32, action: A11yAction::Focus });
        assert!(outcome.accepted);
        assert_eq!(outcome.should_wake, node == 0);
    }
    assert_eq!(
        inbox.push(Request { node: u32::MAX, action: A11yAction::Click }),
        ActionPush::default()
    );
    assert_eq!(
        inbox.stats(),
        ActionInboxStats { pending: ACTION_QUEUE_CAPACITY, pending_bytes: 0, dropped: 1 }
    );

    let (first, backlog) = inbox.pop_batch(ACTION_DRAIN_BUDGET);
    assert!(backlog);
    assert_eq!(first.len(), ACTION_DRAIN_BUDGET);
    assert_eq!(first.first().map(|request| request.node), Some(0));
    assert_eq!(first.last().map(|request| request.node), Some(ACTION_DRAIN_BUDGET as u32 - 1));
    let (second, backlog) = inbox.pop_batch(usize::MAX);
    assert!(!backlog);
    assert_eq!(second.len(), ACTION_QUEUE_CAPACITY - ACTION_DRAIN_BUDGET);
    assert_eq!(inbox.stats().pending, 0);

    let first_after_drain = inbox.push(Request { node: 7, action: A11yAction::Focus });
    assert_eq!(first_after_drain, ActionPush { accepted: true, should_wake: true });
    assert!(!inbox.push(Request { node: 8, action: A11yAction::Focus }).should_wake);

    let (nothing, backlog) = inbox.pop_batch(0);
    assert!(nothing.is_empty());
    assert!(backlog, "the queue is still non-empty");
    assert_eq!(inbox.stats().pending, 2);
}

#[test]
fn action_inbox_bounds_payload_bytes_and_returns_drained_capacity() {
    let mut inbox = ActionInbox::default();
    let chunk = "x".repeat(PASTE_LIMIT_BYTES);
    for _ in 0..ACTION_QUEUE_MAX_BYTES / chunk.len() {
        assert!(
            inbox
                .push(Request { node: NODE_COMMAND, action: A11yAction::SetText(chunk.clone()) })
                .accepted
        );
    }
    assert!(
        !inbox
            .push(Request {
                node: NODE_COMMAND,
                action: A11yAction::SetText("overflow".into()),
            })
            .accepted
    );
    assert_eq!(inbox.stats().pending_bytes, ACTION_QUEUE_MAX_BYTES);

    let (drained, _) = inbox.pop_batch(1);
    assert_eq!(drained.len(), 1);
    assert_eq!(inbox.stats().pending_bytes, ACTION_QUEUE_MAX_BYTES - PASTE_LIMIT_BYTES);
    assert!(
        !inbox
            .push(Request {
                node: NODE_COMMAND,
                action: A11yAction::SetText("y".repeat(PASTE_LIMIT_BYTES + 1)),
            })
            .accepted
    );
}

#[test]
fn draining_a_mixed_batch_returns_the_byte_budget_to_zero() {
    let mut inbox = ActionInbox::default();
    let set_text = |bytes: usize| A11yAction::SetText("t".repeat(bytes));
    let key = |event: &str| A11yAction::Key(event.to_owned());
    let pushes = [set_text(10), A11yAction::Click, key("Ctrl+C"), A11yAction::Focus, set_text(5)];
    for action in pushes.clone() {
        assert!(inbox.push(Request { node: NODE_COMMAND, action }).accepted);
    }
    let expected_bytes = (10 + "Ctrl+C".len()) + 5;
    assert_eq!(inbox.stats().pending_bytes, expected_bytes);

    let (batch, backlog) = inbox.pop_batch(usize::MAX);
    assert!(!backlog);
    assert_eq!(batch.len(), pushes.len());
    assert_eq!(inbox.stats().pending_bytes, 0);
    assert_eq!(inbox.stats().pending, 0);

    assert!(
        inbox
            .push(Request { node: NODE_COMMAND, action: set_text(PASTE_LIMIT_BYTES) })
            .accepted
    );
}

#[test]
fn payload_bytes_counts_text_and_keys_but_not_clicks() {
    let at = |action: A11yAction| Request { node: NODE_COMMAND, action }.payload_bytes();
    assert_eq!(at(A11yAction::SetText(String::new())), 0);
    assert_eq!(at(A11yAction::SetText("abc".to_owned())), 3);
    assert_eq!(at(A11yAction::SetText("\u{4e2d}\u{6587}\u{5b57}".to_owned())), 9);
    assert_eq!(at(A11yAction::Key("Ctrl+Shift+P".to_owned())), "Ctrl+Shift+P".len());
    assert_eq!(at(A11yAction::Click), 0);
    assert_eq!(at(A11yAction::Focus), 0);
}

#[test]
fn the_single_action_bound_accepts_exactly_the_paste_limit() {
    let mut inbox = ActionInbox::default();
    let set = |bytes: usize| Request {
        node: NODE_COMMAND,
        action: A11yAction::SetText("x".repeat(bytes)),
    };
    assert!(inbox.push(set(PASTE_LIMIT_BYTES)).accepted);
    assert!(!inbox.push(set(PASTE_LIMIT_BYTES + 1)).accepted);
    assert_eq!(inbox.stats().dropped, 1, "a refusal is counted");
    assert_eq!(inbox.stats().pending_bytes, PASTE_LIMIT_BYTES);
}

#[test]
fn the_byte_budget_counts_utf8_bytes_not_characters() {
    let mut inbox = ActionInbox::default();
    let limit = PASTE_LIMIT_BYTES;
    let cjk_chars = limit / 3;
    let fits = cjk_chars * 3;
    assert!(
        inbox
            .push(Request {
                node: NODE_COMMAND,
                action: A11yAction::SetText("\u{4e2d}".repeat(cjk_chars)),
            })
            .accepted
    );
    assert_eq!(inbox.stats().pending_bytes, fits);
    assert!(
        !inbox
            .push(Request {
                node: NODE_COMMAND,
                action: A11yAction::SetText("\u{4e2d}".repeat(cjk_chars + 1)),
            })
            .accepted
    );
}

#[test]
fn zero_byte_actions_are_bounded_by_capacity_not_bytes() {
    let mut inbox = ActionInbox::default();
    for _ in 0..ACTION_QUEUE_CAPACITY {
        assert!(inbox.push(Request { node: 1, action: A11yAction::Click }).accepted);
    }
    assert!(!inbox.push(Request { node: 1, action: A11yAction::Click }).accepted);
    assert_eq!(inbox.stats().pending_bytes, 0);
}
