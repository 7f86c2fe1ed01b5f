use minicon::composer::{
    backspace, cells, cut, insert, paste, replace_text, select_all, selected_text, visible_window,
    ComposerState, VisibleWindow, COMPOSER_LIMIT_BYTES,
};

#[test]
fn a_line_wider_than_the_box_shows_its_end_not_its_beginning() {
    let text = "0123456789abcdefghij";
    let window = visible_window(text, "", 1, 10);
    assert!(window.truncated);
    assert_eq!(&text[window.text..], "cdefghij");
    assert_eq!(cells(&text[window.text..]), 8);
}

#[test]
fn a_line_that_fits_is_shown_whole_and_unmarked() {
    let window = visible_window("echo ok", "", 1, 40);
    assert_eq!(window, VisibleWindow::default());
    assert!(!window.truncated);
}

#[test]
fn double_width_characters_are_charged_two_cells() {
    let text = "中文中文中";
    assert_eq!(cells(text), 10);
    let window = visible_window(text, "", 1, 8);
    assert!(window.truncated);
    assert_eq!(&text[window.text..], "文中文中".get(3..).unwrap_or_default());
    assert_eq!(cells(&text[window.text..]), 6);
    assert!(text.is_char_boundary(window.text));
}

#[test]
fn a_preedit_filling_the_box_hides_the_committed_text_completely() {
    let text = "committed";
    let preedit = "中文中文中文";
    let window = visible_window(text, preedit, 1, 6);
    assert_eq!(window.text, text.len(), "no committed text remains visible");
    assert!(window.preedit > 0, "the preedit itself is windowed");
    assert!(preedit.is_char_boundary(window.preedit));
    assert!(cells(&preedit[window.preedit..]) <= 4);
}

#[test]
fn a_box_with_no_room_yields_valid_empty_offsets() {
    let text = "text";
    let preedit = "pre";
    for width in 0..3 {
        let window = visible_window(text, preedit, 1, width);
        assert!(text.is_char_boundary(window.text));
        assert!(preedit.is_char_boundary(window.preedit));
        assert!(window.text <= text.len());
        assert!(window.preedit <= preedit.len());
    }
}

#[test]
fn the_visible_span_always_fits_the_box_it_was_measured_for() {
    let text = "a".repeat(500);
    let preedit = "中".repeat(20);
    for width in 3..40 {
        let window = visible_window(&text, &preedit, 1, width);
        let painted = usize::from(window.truncated)
            + cells(&text[window.text..])
            + cells(&preedit[window.preedit..])
            + 1;
        assert!(
            painted <= width,
            "width {width} painted {painted} cells: the box would clip again"
        );
    }
}

#[test]
fn selected_input_replaces_the_whole_buffer() {
    let mut buffer = "old".to_owned();
    let mut selected = true;
    insert(&mut buffer, &mut selected, "new");
    assert_eq!(buffer, "new");
    assert!(!selected);
}

#[test]
fn all_insert_paths_bound_total_bytes_at_a_utf8_boundary() {
    let mut buffer = "a".repeat(COMPOSER_LIMIT_BYTES - 2);
    let mut selected = false;
    insert(&mut buffer, &mut selected, "中文");
    assert_eq!(buffer.len(), COMPOSER_LIMIT_BYTES - 2);

    insert(&mut buffer, &mut selected, "bcdef");
    assert_eq!(buffer.len(), COMPOSER_LIMIT_BYTES);
    assert!(buffer.ends_with("bc"));

    paste(&mut buffer, &mut selected, "ignored");
    assert_eq!(buffer.len(), COMPOSER_LIMIT_BYTES);

    selected = true;
    insert(&mut buffer, &mut selected, &"中".repeat(COMPOSER_LIMIT_BYTES));
    assert!(buffer.len() <= COMPOSER_LIMIT_BYTES);
    assert_eq!(buffer.len() % '中'.len_utf8(), 0);
}

#[test]
fn backspace_deletes_selection_or_last_character() {
    let mut buffer = "中文A".to_owned();
    let mut selected = false;
    backspace(&mut buffer, &mut selected);
    assert_eq!(buffer, "中文");
    select_all(&buffer, &mut selected);
    backspace(&mut buffer, &mut selected);
    assert!(buffer.is_empty());
}

#[test]
fn copy_and_cut_require_a_selection() {
    let mut buffer = "copy me".to_owned();
    let mut selected = false;
    assert_eq!(selected_text(&buffer, &selected), None);
    select_all(&buffer, &mut selected);
    assert_eq!(selected_text(&buffer, &selected), Some("copy me"));
    assert_eq!(cut(&mut buffer, &mut selected), Some("copy me".to_owned()));
    assert!(buffer.is_empty());
}

#[test]
fn paste_is_single_line_bounded_and_filters_controls() {
    let mut buffer = "replace".to_owned();
    let mut selected = true;
    paste(&mut buffer, &mut selected, "a\r\nb\t\u{1b}c");
    assert_eq!(buffer, "a b c");
    assert!(!selected);
}

#[test]
fn replace_text_is_single_line_and_clears_selection() {
    let mut buffer = "old".to_owned();
    let mut selected = true;
    replace_text(&mut buffer, &mut selected, "cu33o\nmarker");
    assert_eq!(buffer, "cu33o marker");
    assert!(!selected);
}

#[test]
fn cancel_and_submit_clear_transient_state_atomically() {
    let mut state = ComposerState {
        text: "echo ok".to_owned(),
        preedit: "中".to_owned(),
        focused: true,
        select_all: true,
        submit_error: Some("old failure".to_owned()),
    };
    assert_eq!(state.take_submission().as_deref(), Some("echo ok\r"));
    assert_eq!(state.text, "");
    assert_eq!(state.preedit, "");
    assert!(!state.select_all);
    assert_eq!(state.submit_error, None);
    assert!(state.focused);

    state.restore_failed_submission("retry\r".to_owned(), "PTY is closed".to_owned());
    assert_eq!(state.text, "retry");
    assert_eq!(state.submit_error.as_deref(), Some("PTY is closed"));
    assert!(state.focused);

    state.preedit = "文".to_owned();
    state.select_all = true;
    state.cancel_focus();
    assert!(!state.focused);
    assert_eq!(state.preedit, "");
    assert!(!state.select_all);
    assert_eq!(state.submit_error, None);
}

// Scenarios and laws of this library, on concrete values.

#[test]
fn a_restored_submission_gives_the_line_back() {
    let mut state = ComposerState::default();
    state.text = "make test".to_owned();
    let sent = state.take_submission().expect("a non-empty line is sent");
    assert_eq!(sent, "make test\r");
    state.restore_failed_submission(sent, "closed".to_owned());
    assert_eq!(state.text, "make test");
}

#[test]
fn an_empty_line_submits_nothing() {
    let mut state = ComposerState::default();
    assert_eq!(state.take_submission(), None);
}

#[test]
fn pasting_collapses_runs_of_spaces_and_drops_controls() {
    let mut buffer = String::new();
    let mut selected = false;
    paste(&mut buffer, &mut selected, "a  \t\n b\u{7f}\u{85}c");
    assert_eq!(buffer, "a bc");
}

#[test]
fn a_paste_of_only_controls_leaves_the_selection_alone() {
    let mut buffer = "keep".to_owned();
    let mut selected = true;
    paste(&mut buffer, &mut selected, "\u{1b}\u{7}");
    assert_eq!(buffer, "keep");
    assert!(selected);
}

#[test]
fn backspace_on_an_empty_buffer_is_a_no_op() {
    let mut buffer = String::new();
    let mut selected = false;
    backspace(&mut buffer, &mut selected);
    assert_eq!(buffer, "");
}

#[test]
fn cut_without_a_selection_keeps_the_buffer() {
    let mut buffer = "stay".to_owned();
    let mut selected = false;
    assert_eq!(cut(&mut buffer, &mut selected), None);
    assert_eq!(buffer, "stay");
}

#[test]
fn select_all_of_nothing_selects_nothing() {
    let mut selected = true;
    select_all("", &mut selected);
    assert!(!selected);
}

#[test]
fn cells_of_mixed_text_counts_wide_characters_twice() {
    assert_eq!(cells(""), 0);
    assert_eq!(cells("ab中"), 4);
}

#[test]
fn a_zero_width_box_with_nothing_reserved_shows_nothing() {
    let window = visible_window("abc", "", 0, 0);
    assert_eq!(window.text, 3);
    assert!(window.truncated);
}

#[test]
fn replacing_with_the_normalized_text_changes_nothing() {
    let mut buffer = String::new();
    let mut selected = true;
    replace_text(&mut buffer, &mut selected, "a\r\n\tb  \u{7}c ");
    assert_eq!(buffer, "a b c ");
    assert!(!selected);
    let again = buffer.clone();
    replace_text(&mut buffer, &mut selected, &again);
    assert_eq!(buffer, again);
}

#[test]
fn printable_ascii_owns_one_cell_and_wide_characters_two() {
    assert_eq!(minicon::composer::character_cells('a'), 1);
    assert_eq!(minicon::composer::character_cells('~'), 1);
    assert_eq!(minicon::composer::character_cells('中'), 2);
}
