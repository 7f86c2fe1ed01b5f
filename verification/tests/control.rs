use minicon::cli::{parse_cli, parse_u64_decimal, CliRequest, Cursor};
use minicon::command::{CliCommand, ImeEvent, MouseAction, MouseButton, MAX_IME_TEXT_BYTES};
use minicon::control_queue::{
    IncomingRequest, ReplayClaim, RequestQueue, RequestQueueReject, ResponseReplayCache,
    REQUEST_QUEUE_CAPACITY, RESPONSE_REPLAY_CACHE_CAPACITY,
};
use minicon::tab::TabId;
use minicon::wire::{
    decode_request, decode_response, decode_wire_request, encode_request, encode_response,
    encode_wire_request, ReplyValue, RequestId,
};

fn args(values: &[&str]) -> Vec<String> {
    values.iter().map(|value| (*value).to_owned()).collect()
}

fn request(command: CliCommand) -> IncomingRequest<()> {
    IncomingRequest { command, reply: () }
}

#[test]
fn closed_request_queue_rejects_and_releases_a_waiter() {
    let mut queue = RequestQueue::new();
    queue.close();
    assert_eq!(
        queue.push(request(CliCommand::ListTabs)),
        Err(RequestQueueReject::Closed)
    );
}

#[test]
fn request_queue_rejects_work_beyond_its_fixed_capacity() {
    let mut queue = RequestQueue::new();
    for _ in 0..REQUEST_QUEUE_CAPACITY {
        assert!(queue.push(request(CliCommand::ListTabs)).is_ok());
    }
    assert_eq!(
        queue.push(request(CliCommand::ListTabs)),
        Err(RequestQueueReject::Full)
    );
}

#[test]
fn request_queue_coalesces_wakes_and_reports_batched_backlog() {
    let mut queue = RequestQueue::new();
    for index in 0..4 {
        let should_wake = match queue.push(request(CliCommand::ListTabs)) {
            Ok(should_wake) => should_wake,
            Err(_) => panic!("queue has capacity"),
        };
        assert_eq!(should_wake, index == 0);
    }
    let (first, backlog) = queue.pop_batch(2);
    assert_eq!(first.len(), 2);
    assert!(backlog);
    let (second, backlog) = queue.pop_batch(2);
    assert_eq!(second.len(), 2);
    assert!(!backlog);
}

#[test]
fn request_queue_extends_only_a_contiguous_resize_run() {
    let mut queue = RequestQueue::new();
    for command in [
        CliCommand::ResizeWindow { width: 800, height: 500 },
        CliCommand::ResizeWindow { width: 900, height: 600 },
        CliCommand::ResizeWindow { width: 1000, height: 700 },
        CliCommand::ListTabs,
        CliCommand::ResizeWindow { width: 1100, height: 800 },
    ] {
        queue.push(request(command)).unwrap();
    }
    let (resize_run, backlog) = queue.pop_batch(2);
    assert_eq!(resize_run.len(), 3);
    assert!(resize_run
        .iter()
        .all(|request| matches!(&request.command, CliCommand::ResizeWindow { .. })));
    assert!(backlog);
    let (remaining, backlog) = queue.pop_batch(2);
    assert!(matches!(&remaining[0].command, CliCommand::ListTabs));
    assert!(matches!(&remaining[1].command, CliCommand::ResizeWindow { .. }));
    assert!(!backlog);
}

#[test]
fn a_batch_that_starts_with_another_command_takes_no_extra_resize() {
    let mut queue = RequestQueue::new();
    for command in [
        CliCommand::ListTabs,
        CliCommand::ResizeWindow { width: 1, height: 1 },
        CliCommand::ResizeWindow { width: 2, height: 2 },
    ] {
        queue.push(request(command)).unwrap();
    }
    let (batch, backlog) = queue.pop_batch(1);
    assert_eq!(batch.len(), 1);
    assert!(backlog);
}

#[test]
fn reject_messages_name_the_reason() {
    assert_eq!(RequestQueueReject::Full.message(), "control server is busy");
    assert_eq!(RequestQueueReject::Closed.message(), "terminal window is closing");
}

#[test]
fn request_id_round_trip_preserves_a_mutation_for_safe_reply_replay() {
    let id = RequestId(0x1234_5678_9abc_def0_1357_2468_ace0_bdf1);
    let bytes = encode_wire_request(
        id,
        CliCommand::SendText { target: None, text: "once".to_owned() },
    )
    .unwrap();
    let decoded = decode_wire_request(&bytes).unwrap();
    assert_eq!(decoded.id, Some(id));
    assert_eq!(
        decoded.command,
        CliCommand::SendText { target: None, text: "once".to_owned() }
    );
}

#[test]
fn response_replay_cache_is_bounded_and_never_replaces_an_id() {
    let mut cache = ResponseReplayCache::new();
    let first = RequestId(1);
    assert!(matches!(cache.claim(first), ReplayClaim::Owner));
    assert!(matches!(cache.claim(first), ReplayClaim::Pending));
    cache.complete(first, vec![1]);
    cache.complete(first, vec![2]);
    assert!(matches!(
        cache.claim(first),
        ReplayClaim::Replay(payload) if payload == vec![1]
    ));

    for value in 2..=RESPONSE_REPLAY_CACHE_CAPACITY as u128 {
        let id = RequestId(value);
        assert!(matches!(cache.claim(id), ReplayClaim::Owner));
        cache.complete(id, vec![value as u8]);
    }
    assert!(matches!(
        cache.claim(RequestId(RESPONSE_REPLAY_CACHE_CAPACITY as u128 + 1)),
        ReplayClaim::Full
    ));
    assert!(matches!(
        cache.claim(first),
        ReplayClaim::Replay(payload) if payload == vec![1]
    ));
}

#[test]
fn finished_entries_expire_but_running_ones_do_not() {
    let mut cache = ResponseReplayCache::new();
    assert!(matches!(cache.claim_at(RequestId(1), 0), ReplayClaim::Owner));
    assert!(matches!(cache.claim_at(RequestId(2), 0), ReplayClaim::Owner));
    cache.complete_at(RequestId(1), vec![9], 0);
    assert!(matches!(cache.claim_at(RequestId(1), 599_999), ReplayClaim::Replay(p) if p == vec![9]));
    assert!(matches!(cache.claim_at(RequestId(1), 600_000), ReplayClaim::Owner));
    assert!(matches!(cache.claim_at(RequestId(2), 10_000_000), ReplayClaim::Pending));
}

#[test]
fn a_response_past_the_byte_budget_leaves_a_tombstone() {
    let mut cache = ResponseReplayCache::new();
    assert!(matches!(cache.claim_at(RequestId(1), 0), ReplayClaim::Owner));
    cache.complete_at(RequestId(1), vec![0; 8 * 1024 * 1024 + 1], 0);
    assert!(matches!(cache.claim_at(RequestId(1), 1), ReplayClaim::Tombstone));
}

#[test]
fn capture_pane_uses_stable_target_and_bounded_output() {
    assert_eq!(
        parse_cli(&args(&[
            "cli",
            "--control",
            "local-control",
            "capture-pane",
            "--target",
            "@7",
            "--max-bytes",
            "4096",
        ])),
        Ok(CliRequest {
            control: "local-control".to_owned(),
            command: CliCommand::CapturePane { target: Some(TabId::new(7)), max_bytes: 4096 },
        })
    );
}

#[test]
fn send_mouse_rejects_ambiguous_move_button_state() {
    let error = parse_cli(&args(&[
        "cli",
        "--control",
        "local-control",
        "send-mouse",
        "--action",
        "move",
        "--button",
        "left",
        "--column",
        "3",
        "--row",
        "4",
    ]))
    .unwrap_err();
    assert!(error.contains("move requires --button none"));
}

#[test]
fn script_is_not_a_cli_command() {
    let error = parse_cli(&args(&["cli", "--control", "local-control", "script"])).unwrap_err();
    assert!(error.contains("unknown minicon cli command"));
}

#[test]
fn lifecycle_and_wheel_commands_keep_stable_tab_ids() {
    assert_eq!(
        parse_cli(&args(&[
            "cli",
            "--control",
            "pipe:test",
            "wait-tab-exit",
            "--target",
            "@9",
            "--timeout-ms",
            "250",
        ])),
        Ok(CliRequest {
            control: "pipe:test".to_owned(),
            command: CliCommand::WaitTabExit { target: TabId::new(9), timeout_ms: 250 },
        })
    );
    assert_eq!(
        parse_cli(&args(&["cli", "--control", "pipe:test", "new-tab", "--parent", "@9"])),
        Ok(CliRequest {
            control: "pipe:test".to_owned(),
            command: CliCommand::NewTab { parent: Some(TabId::new(9)) },
        })
    );
    assert_eq!(
        parse_cli(&args(&[
            "cli",
            "--control",
            "pipe:test",
            "send-wheel",
            "--target",
            "@9",
            "--column",
            "3",
            "--row",
            "4",
            "--notches",
            "-2",
            "--ctrl",
        ])),
        Ok(CliRequest {
            control: "pipe:test".to_owned(),
            command: CliCommand::SendWheel {
                target: Some(TabId::new(9)),
                column: 3,
                row: 4,
                notches: -2,
                ctrl: true,
            },
        })
    );
}

#[test]
fn parse_u64_decimal_covers_unsigned_cli_edges() {
    assert_eq!(parse_u64_decimal("0"), Some(0));
    assert_eq!(parse_u64_decimal("00042"), Some(42));
    assert_eq!(parse_u64_decimal("+1"), Some(1));
    assert_eq!(parse_u64_decimal("18446744073709551615"), Some(u64::MAX));
    assert_eq!(parse_u64_decimal("18446744073709551616"), None);
    assert_eq!(parse_u64_decimal("-0"), None);
    assert_eq!(parse_u64_decimal(""), None);
    assert_eq!(parse_u64_decimal("+"), None);
    assert_eq!(parse_u64_decimal("12x"), None);
    assert_eq!(parse_u64_decimal("\u{FF11}"), None);
}

#[test]
fn numeric_cursor_preserves_u16_usize_and_target_bounds() {
    let u16_max_args = vec!["--row".to_owned(), u16::MAX.to_string()];
    let mut u16_max_cursor = Cursor::new(&u16_max_args);
    assert_eq!(u16_max_cursor.required_u16("--row"), Ok(u16::MAX));

    let u16_overflow_args = vec!["--row".to_owned(), "65536".to_owned()];
    let mut u16_overflow_cursor = Cursor::new(&u16_overflow_args);
    assert_eq!(
        u16_overflow_cursor.required_u16("--row"),
        Err("--row must be an unsigned 16-bit integer".to_owned())
    );

    let usize_max_args = vec!["--max-bytes".to_owned(), usize::MAX.to_string()];
    let mut usize_max_cursor = Cursor::new(&usize_max_args);
    assert_eq!(usize_max_cursor.optional_usize("--max-bytes"), Ok(Some(usize::MAX)));

    let mut usize_overflow = usize::MAX.to_string();
    usize_overflow.push('0');
    let usize_overflow_args = vec!["--max-bytes".to_owned(), usize_overflow];
    let mut usize_overflow_cursor = Cursor::new(&usize_overflow_args);
    assert_eq!(
        usize_overflow_cursor.optional_usize("--max-bytes"),
        Err("--max-bytes must be an unsigned integer".to_owned())
    );

    let target_args = vec!["--target".to_owned(), "@+1".to_owned()];
    let mut target_cursor = Cursor::new(&target_args);
    assert_eq!(target_cursor.optional_target(), Ok(Some(TabId::new(1))));
}

#[test]
fn ime_cli_rejects_empty_commit_bad_cursor_and_oversized_text() {
    let parse = |tail: &[&str]| {
        let mut args = vec!["cli", "--control", "pipe:test", "send-ui-ime"];
        args.extend_from_slice(tail);
        parse_cli(&args.into_iter().map(str::to_owned).collect::<Vec<_>>())
    };
    assert_eq!(parse(&["commit", ""]), Err("IME commit text must not be empty".to_owned()));
    assert_eq!(
        parse(&["preedit", "你好", "--cursor", "3"]),
        Err("IME preedit cursor is outside its text".to_owned())
    );
    let oversized = "x".repeat(MAX_IME_TEXT_BYTES + 1);
    assert_eq!(
        parse(&["preedit", &oversized]),
        Err(format!("IME text exceeds the {MAX_IME_TEXT_BYTES}-byte limit"))
    );
}

#[test]
fn every_control_command_survives_wire_round_trip() {
    let commands = [
        CliCommand::ListTabs,
        CliCommand::UiSnapshot,
        CliCommand::PerfStats,
        CliCommand::ResetPerfStats,
        CliCommand::CancelPointer,
        CliCommand::CloseWindow,
        CliCommand::ResizeWindow { width: 960, height: 600 },
        CliCommand::NewTab { parent: Some(TabId::new(1)) },
        CliCommand::SelectTab { target: TabId::new(2) },
        CliCommand::CloseTab { target: TabId::new(3) },
        CliCommand::CapturePane { target: Some(TabId::new(4)), max_bytes: 4096 },
        CliCommand::ScreenshotPane { target: None, output: "pane.png".to_owned() },
        CliCommand::SendText { target: None, text: "hello".to_owned() },
        CliCommand::SendPaste { target: Some(TabId::new(4)), text: "pasted\ntext".to_owned() },
        CliCommand::SendKeys { target: None, keys: vec!["Ctrl+C".to_owned()] },
        CliCommand::SendUiKeys { keys: vec!["Space".to_owned(), "Ctrl+A".to_owned()] },
        CliCommand::SendUiIme {
            event: ImeEvent::Preedit { text: "nihao".to_owned(), cursor: Some((5, 5)) },
        },
        CliCommand::SendMouse {
            target: None,
            action: MouseAction::Click,
            button: MouseButton::Left,
            column: 1,
            row: 2,
        },
        CliCommand::SendWheel { target: None, column: 1, row: 2, notches: 1, ctrl: false },
        CliCommand::WaitText { target: None, text: "ready".to_owned(), timeout_ms: 250 },
        CliCommand::WaitTabExit { target: TabId::new(5), timeout_ms: 250 },
    ];
    for command in commands {
        let bytes = encode_request(command.clone()).expect("wire command encodes");
        let decoded = decode_request(&bytes).expect("wire command decodes");
        assert_eq!(decoded, command);
    }
}

#[test]
fn typed_wire_rejects_trailing_and_invalid_fields() {
    let mut trailing = encode_request(CliCommand::ListTabs).unwrap();
    trailing.push(0);
    assert!(decode_request(&trailing).is_err());

    assert!(decode_request(&[10, 0, 3, 0, 0, 0, 0, 0]).is_err());
    assert!(decode_request(&[14, 0, 0, 1, 0]).is_err());
    assert!(decode_response(&[9]).is_err());
}

#[test]
fn responses_round_trip_their_text_and_errors() {
    assert_eq!(
        decode_response(&encode_response(Ok(ReplyValue::Text("hi".to_owned())))),
        Ok("hi".to_owned())
    );
    assert_eq!(
        decode_response(&encode_response(Err("nope".to_owned()))),
        Err("nope".to_owned())
    );
}

#[test]
fn an_unknown_verb_is_named_in_the_refusal() {
    let error = parse_cli(&args(&["cli", "--control", "x", "frobnicate"])).unwrap_err();
    assert!(error.contains("frobnicate"));
}

use minicon::reply_slot::ReplySlot;
use minicon::search::{contains_bytes, contains_utf8};

#[test]
fn byte_search_matches_slice_oracle_and_utf8_boundaries() {
    assert!(contains_utf8("", ""));
    assert!(contains_utf8("中文 terminal 😀", "terminal"));
    assert!(contains_utf8("中文 terminal 😀", "文 t"));
    assert!(contains_utf8("中文 terminal 😀", "😀"));
    assert!(!contains_utf8("中文 terminal 😀", "终端"));

    for haystack_len in 0..32 {
        let haystack = (0..haystack_len)
            .map(|index| ((index * 17 + haystack_len * 3) % 11) as u8)
            .collect::<Vec<_>>();
        for needle_len in 0..12 {
            let needle = (0..needle_len)
                .map(|index| ((index * 7 + needle_len * 5) % 11) as u8)
                .collect::<Vec<_>>();
            let expected = needle.is_empty()
                || (needle.len() <= haystack.len()
                    && haystack.windows(needle.len()).any(|window| window == needle));
            assert_eq!(contains_bytes(&haystack, &needle), expected);
        }
    }
}

#[test]
fn a_reply_slot_delivers_once() {
    let mut slot: ReplySlot<u8> = ReplySlot::default();
    assert!(slot.waiting());
    assert_eq!(slot.send(1), Ok(()));
    assert_eq!(slot.send(2), Err(2));
    assert!(!slot.waiting());
    assert_eq!(slot.take(), Some(1));
    slot.sender_dropped();
    assert!(!slot.waiting(), "a receiver stops waiting once the sender is gone");
}

use minicon::control_queue::{replay_answer, ConnectionQueue, NextConnection, CONNECTION_QUEUE_CAPACITY};

#[test]
fn a_claimed_id_is_answered_without_running_it_again() {
    assert_eq!(replay_answer(ReplayClaim::Replay(vec![2, 104, 105])), Some(vec![2, 104, 105]));
    assert_eq!(replay_answer(ReplayClaim::Owner), None);
    let pending = replay_answer(ReplayClaim::Pending).unwrap();
    assert_eq!(
        decode_response(&pending),
        Err("control request is still pending; retry only with the same request id".to_owned())
    );
    let full = replay_answer(ReplayClaim::Full).unwrap();
    assert_eq!(
        decode_response(&full),
        Err("control replay cache is full; request was not executed".to_owned())
    );
    assert!(decode_response(&replay_answer(ReplayClaim::Tombstone).unwrap())
        .unwrap_err()
        .contains("not executed again"));
}

#[test]
fn connections_queue_in_order_until_closed() {
    let mut queue: ConnectionQueue<u32> = ConnectionQueue::new();
    for stream in 0..CONNECTION_QUEUE_CAPACITY as u32 {
        assert_eq!(queue.push(stream), Ok(()));
    }
    assert_eq!(queue.push(99), Err(99), "a full queue turns the connection away");
    assert!(matches!(queue.next(), NextConnection::Ready(0)));
    assert!(matches!(queue.next(), NextConnection::Ready(1)));
    queue.close();
    assert_eq!(queue.push(5), Err(5));
    assert!(matches!(queue.next(), NextConnection::Closed));
    let mut idle: ConnectionQueue<u32> = ConnectionQueue::new();
    assert!(matches!(idle.next(), NextConnection::Wait));
}

#[test]
fn decode_names_an_unknown_opcode_and_trailing_bytes() {
    assert_eq!(decode_request(&[21]), Err("unknown control command opcode".to_owned()));
    let mut trailing = encode_request(CliCommand::SelectTab { target: TabId::new(3) }).unwrap();
    trailing.extend_from_slice(&[7, 7]);
    assert_eq!(decode_request(&trailing), Err("trailing bytes in control request".to_owned()));
    assert_eq!(decode_request(&[]), Err("control request is empty or oversized".to_owned()));
}

#[test]
fn detach_and_attach_gui_parse_and_cross_the_wire() {
    let detach = parse_cli(&args(&["cli", "--control", "pipe:test", "detach-gui"])).unwrap();
    assert_eq!(detach.control, "pipe:test");
    assert_eq!(detach.command, CliCommand::SetWindowAttached { attached: false });
    let attach = parse_cli(&args(&["cli", "--control", "pipe:test", "attach-gui"])).unwrap();
    assert_eq!(attach.command, CliCommand::SetWindowAttached { attached: true });
    assert!(parse_cli(&args(&["cli", "--control", "pipe:test", "attach-gui", "now"])).is_err());
    let catalog = minicon::frame::cli_command_catalog();
    assert!(catalog.lines().any(|line| line == "detach-gui"));
    assert!(catalog.lines().any(|line| line == "attach-gui"));

    for attached in [false, true] {
        let command = CliCommand::SetWindowAttached { attached };
        let bytes = encode_request(command.clone()).unwrap();
        assert_eq!(bytes, vec![22, attached as u8]);
        assert_eq!(decode_request(&bytes), Ok(command));
    }
    assert_eq!(
        decode_request(&[22, 2]),
        Err("invalid control boolean tag".to_owned())
    );
    assert_eq!(
        decode_request(&[21]),
        Err("unknown control command opcode".to_owned())
    );
}

#[test]
fn each_field_level_refusal_names_its_rule() {
    let refused = |bytes: &[u8]| decode_request(bytes).unwrap_err();
    assert_eq!(refused(&[10, 0, 2, 1, 0, 0, 0, 0]), "invalid control mouse action/button pair");
    assert_eq!(refused(&[11, 0, 1, 0, 2, 0, 0, 0, 0]), "control wheel notches must not be zero");
    assert_eq!(refused(&[6, 0, 0, 0, 0, 0, 0, 0, 0, 0]), "capture size is outside its allowed range");
    assert_eq!(refused(&[4, 0, 0, 0, 0, 0, 0, 0, 0]), "control tab id must not be zero");
    assert_eq!(
        refused(&[18, 1, 0, 0, 0, 0, 0, 0, 0, 0, 0, 0, 0, 0, 0, 0, 0]),
        "control wait timeout is outside its allowed range"
    );
    assert_eq!(refused(&[17, 0, 0, 0, 0]), "control key count is invalid");
    assert_eq!(refused(&[20, 2, 0, 0, 0, 0]), "IME commit text must not be empty");
    assert_eq!(refused(&[14, 0, 0, 1, 0]), "window width and height must be between 1 and 16384");
    assert_eq!(refused(&[10, 0, 4, 1, 0, 0, 0, 0]), "invalid control mouse action");
    assert_eq!(refused(&[10, 0, 0, 9, 0, 0, 0, 0]), "invalid control mouse button");
    assert_eq!(refused(&[20, 7]), "invalid control IME action");
    assert_eq!(refused(&[3, 2]), "invalid control boolean tag");
    assert_eq!(refused(&[4, 1, 0]), "truncated control request");
    assert_eq!(refused(&[18, 1, 0, 0, 0, 0, 0, 0, 0, 5]), "truncated control request");
    assert_eq!(refused(&[8, 0, 5, 0, 0, 0, b'a']), "truncated control request");
    assert_eq!(refused(&[8, 0, 1, 0, 0, 0, 0xff]), "control string is not valid UTF-8");
    assert_eq!(refused(&[20, 2, 1, 0, 0, 0, 0xff]), "control string is not valid UTF-8");
    assert_eq!(refused(&[17, 5, 0, 0, 0, 0, 0, 0, 0]), "control key count is invalid");
    assert_eq!(refused(&[10, 5, 0, 0, 0, 0, 0, 0]), "invalid control boolean tag");
}
