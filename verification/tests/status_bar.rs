use minicon::a11y::Rect;
use minicon::status_bar::{centered_label_origin, length_of, readout, ClipboardLength};

#[test]
fn the_readout_keeps_one_width() {
    let widths: Vec<usize> = [0_usize, 7, 42, 1234, 999_999, 5_000_000]
        .iter()
        .filter_map(|&chars| readout(ClipboardLength::Chars(chars), false))
        .chain(readout(ClipboardLength::Over, false))
        .map(|text| text.chars().count())
        .collect();
    assert!(widths.windows(2).all(|pair| pair[0] == pair[1]), "{widths:?}");
    assert_eq!(readout(ClipboardLength::NoText, true), None);
    assert_eq!(readout(ClipboardLength::Chars(12), true).as_deref(), Some("剪贴板      12"));
}

#[test]
fn readouts_spell_their_limits() {
    assert_eq!(readout(ClipboardLength::Over, false).as_deref(), Some("Clip    >8MB"));
    assert_eq!(readout(ClipboardLength::Chars(1_000_000), false).as_deref(), Some("Clip >999999"));
    assert_eq!(readout(ClipboardLength::Chars(999_999), false).as_deref(), Some("Clip  999999"));
}

#[test]
fn length_counts_characters() {
    assert_eq!(length_of(Ok("中文ab".to_owned())), ClipboardLength::Chars(4));
    assert_eq!(length_of(Ok(String::new())), ClipboardLength::NoText);
    assert_eq!(length_of(Err("clipboard_too_large".to_owned())), ClipboardLength::Over);
    assert_eq!(length_of(Err("clipboard_busy".to_owned())), ClipboardLength::NoText);
}

#[test]
fn a_label_is_centred_when_it_fits_and_pinned_when_it_does_not() {
    let button = Rect { x: 40, y: 12, width: 100, height: 24 };
    assert_eq!(centered_label_origin(button, 60, 10), (40 + 20, 12 + 7));
    assert_eq!(centered_label_origin(button, 100, 24), (40, 12));
    assert_eq!(centered_label_origin(button, 500, 500), (40, 12));
    assert_eq!(centered_label_origin(button, 99, 23), (40, 12));
    assert_eq!(centered_label_origin(button, 98, 22), (40 + 1, 12 + 1));
}

#[test]
fn a_label_origin_saturates_at_the_far_edge() {
    let button = Rect { x: u32::MAX - 1, y: 0, width: 10, height: 0 };
    assert_eq!(centered_label_origin(button, 0, 0), (u32::MAX, 0));
}

use minicon::status_bar::{ClipboardObservation, ClipboardPoll, ClipboardStatus};

fn seen(own: u64, chars: Option<usize>, change: Option<u64>, read: Option<ClipboardLength>) -> ClipboardObservation {
    ClipboardObservation {
        own_write_generation: own,
        own_write_chars: chars,
        change_count: change,
        read_result: read,
    }
}

#[test]
fn an_own_write_is_shown_without_reading_the_clipboard() {
    let mut status: ClipboardStatus<u32> = ClipboardStatus::new(0);
    let first = status.poll(&seen(0, None, Some(5), None));
    assert!(first.start_read, "the first poll reads");
    status.read_started(Some(1));
    let outcome = status.poll(&seen(1, Some(11), Some(6), None));
    assert_eq!(outcome, ClipboardPoll { changed: true, start_read: false });
    assert_eq!(status.length(), ClipboardLength::Chars(11));
    assert!(!status.has_pending_read(), "an own write cancels the read");
    assert_eq!(status.poll(&seen(1, Some(11), Some(6), None)), ClipboardPoll { changed: false, start_read: false });
}

#[test]
fn a_moved_counter_starts_one_read_and_its_result_is_shown() {
    let mut status: ClipboardStatus<u32> = ClipboardStatus::new(0);
    status.poll(&seen(0, None, Some(1), None));
    status.read_started(None);
    assert!(!status.poll(&seen(0, None, Some(1), None)).start_read, "nothing moved");
    assert!(status.poll(&seen(0, None, Some(2), None)).start_read);
    status.read_started(Some(7));
    assert_eq!(status.poll(&seen(0, None, Some(3), None)), ClipboardPoll { changed: false, start_read: false });
    let done = status.poll(&seen(0, None, Some(3), Some(ClipboardLength::Over)));
    assert!(done.changed);
    assert_eq!(status.length(), ClipboardLength::Over);
}

#[test]
fn a_refresh_reads_on_hosts_without_a_counter() {
    let mut status: ClipboardStatus<u32> = ClipboardStatus::new(0);
    assert!(status.poll(&seen(0, None, None, None)).start_read);
    status.read_started(None);
    assert!(!status.poll(&seen(0, None, None, None)).start_read);
    status.request_refresh();
    assert!(status.poll(&seen(0, None, None, None)).start_read);
}
