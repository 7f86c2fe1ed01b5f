//! The typed binary wire format that carries a control command from the CLI
//! to the window, and the one-byte-tagged response format that carries the
//! answer back.

use vstd::prelude::*;
use vstd::utf8::*;

use crate::bytes::{le_bytes, le_value, push_le, read_le, pow256, lemma_le_roundtrip, lemma_le_value_bound, lemma_le_bytes_of_value, lemma_le_bytes_len};
use crate::command::{CliCommand, CommandView, ImeEvent, MouseAction, MouseButton, ime_event_error, ime_view_error, utf8_len, window_size_error, window_size_valid, validate_ime_event, validate_window_size};
use crate::tab::TabId;
use crate::text::{byte_len, utf8_to_string};

verus! {

broadcast use vstd::utf8::encode_utf8_valid_utf8, vstd::utf8::encode_utf8_decode_utf8;

/// Largest encoded request the window accepts.
pub const REQUEST_MAX_BYTES: usize = 1048576;

/// Largest `capture-pane` result a request may ask for.
pub const MAX_CAPTURE_BYTES: usize = 1048576;

/// Most keys one `send-keys` or `send-ui-keys` request may carry.
pub const MAX_WIRE_KEYS: usize = 16384;

/// Marks a request carried inside an envelope with a request id.
pub const ENVELOPE_TAG: u8 = 21;

// ---------------------------------------------------------------------------
// The encoding, as a function on values
// ---------------------------------------------------------------------------

pub open spec fn enc_bool(b: bool) -> Seq<u8> {
    seq![if b { 1u8 } else { 0u8 }]
}

pub open spec fn enc_u16(v: u16) -> Seq<u8> {
    le_bytes(v as nat, 2)
}

pub open spec fn enc_i16(v: i16) -> Seq<u8> {
    le_bytes((v as u16) as nat, 2)
}

pub open spec fn enc_u32(v: nat) -> Seq<u8> {
    le_bytes(v, 4)
}

pub open spec fn enc_u64(v: nat) -> Seq<u8> {
    le_bytes(v, 8)
}

pub open spec fn enc_tab(t: TabId) -> Seq<u8> {
    enc_u64(t.0 as nat)
}

pub open spec fn enc_opt_tab(t: Option<TabId>) -> Seq<u8> {
    match t {
        None => seq![0u8],
        Some(t) => seq![1u8] + enc_tab(t),
    }
}

/// A string: its UTF-8 byte length as four bytes, then the bytes.
pub open spec fn enc_string(s: Seq<char>) -> Seq<u8> {
    enc_u32(utf8_len(s)) + encode_utf8(s)
}

pub open spec fn enc_strings(keys: Seq<Seq<char>>) -> Seq<u8>
    decreases keys.len(),
{
    if keys.len() == 0 {
        Seq::empty()
    } else {
        enc_strings(keys.drop_last()) + enc_string(keys.last())
    }
}

pub open spec fn string_views(v: Seq<String>) -> Seq<Seq<char>> {
    v.map_values(|s: String| s@)
}

/// A key list: its count as four bytes, then each key as a string.
pub open spec fn enc_key_list(keys: Seq<Seq<char>>) -> Seq<u8> {
    enc_u32(keys.len()) + enc_strings(keys)
}

pub open spec fn enc_ime(event: ImeEvent) -> Seq<u8> {
    match event {
        ImeEvent::Enabled => seq![0u8],
        ImeEvent::Preedit { text, cursor } => seq![1u8] + enc_string(text@) + match cursor {
            None => seq![0u8],
            Some((start, end)) => seq![1u8] + enc_u64(start as nat) + enc_u64(end as nat),
        },
        ImeEvent::Commit(text) => seq![2u8] + enc_string(text@),
        ImeEvent::Disabled => seq![3u8],
    }
}

/// The opcode that starts the encoding of `command`.
pub open spec fn opcode(command: CliCommand) -> u8 {
    match command {
        CliCommand::ListTabs => 0,
        CliCommand::UiSnapshot => 16,
        CliCommand::PerfStats => 1,
        CliCommand::ResetPerfStats => 2,
        CliCommand::CancelPointer => 19,
        CliCommand::CloseWindow => 15,
        CliCommand::ResizeWindow { .. } => 14,
        CliCommand::NewTab { .. } => 3,
        CliCommand::SelectTab { .. } => 4,
        CliCommand::CloseTab { .. } => 5,
        CliCommand::CapturePane { .. } => 6,
        CliCommand::ScreenshotPane { .. } => 7,
        CliCommand::SendText { .. } => 8,
        CliCommand::SendPaste { .. } => 13,
        CliCommand::SendKeys { .. } => 9,
        CliCommand::SendUiKeys { .. } => 17,
        CliCommand::SendUiIme { .. } => 20,
        CliCommand::SendMouse { .. } => 10,
        CliCommand::SendWheel { .. } => 11,
        CliCommand::WaitText { .. } => 12,
        CliCommand::WaitTabExit { .. } => 18,
        CliCommand::SetWindowAttached { .. } => 22,
    }
}

/// The fields of `command`, in the order they follow the opcode.
pub open spec fn encode_fields(command: CliCommand) -> Seq<u8> {
    match command {
        CliCommand::ResizeWindow { width, height } => enc_u16(width) + enc_u16(height),
        CliCommand::NewTab { parent } => enc_opt_tab(parent),
        CliCommand::SelectTab { target } => enc_tab(target),
        CliCommand::CloseTab { target } => enc_tab(target),
        CliCommand::CapturePane { target, max_bytes } => enc_opt_tab(target) + enc_u64(
            max_bytes as nat,
        ),
        CliCommand::ScreenshotPane { target, output } => enc_opt_tab(target) + enc_string(
            output@,
        ),
        CliCommand::SendText { target, text } => enc_opt_tab(target) + enc_string(text@),
        CliCommand::SendPaste { target, text } => enc_opt_tab(target) + enc_string(text@),
        CliCommand::SendKeys { target, keys } => enc_opt_tab(target) + enc_key_list(
            string_views(keys@),
        ),
        CliCommand::SendUiKeys { keys } => enc_key_list(string_views(keys@)),
        CliCommand::SendUiIme { event } => enc_ime(event),
        CliCommand::SendMouse { target, action, button, column, row } => enc_opt_tab(target)
            + seq![action.spec_wire_tag(), button.spec_wire_tag()] + enc_u16(column) + enc_u16(
            row,
        ),
        CliCommand::SendWheel { target, column, row, notches, ctrl } => enc_opt_tab(target)
            + enc_u16(column) + enc_u16(row) + enc_i16(notches) + enc_bool(ctrl),
        CliCommand::WaitText { target, text, timeout_ms } => enc_opt_tab(target) + enc_string(
            text@,
        ) + enc_u64(timeout_ms as nat),
        CliCommand::WaitTabExit { target, timeout_ms } => enc_tab(target) + enc_u64(
            timeout_ms as nat,
        ),
        CliCommand::SetWindowAttached { attached } => enc_bool(attached),
        _ => Seq::empty(),
    }
}

/// The bytes that carry `command`: its opcode, then its fields in order.
pub open spec fn encode_command(command: CliCommand) -> Seq<u8> {
    seq![opcode(command)] + encode_fields(command)
}

pub open spec fn tab_valid(t: TabId) -> bool {
    t.0 != 0
}

pub open spec fn opt_tab_valid(t: Option<TabId>) -> bool {
    match t {
        None => true,
        Some(t) => tab_valid(t),
    }
}

pub open spec fn timeout_valid(timeout_ms: u64) -> bool {
    1 <= timeout_ms <= 120000
}

/// The field-level rules a command must satisfy to be carried: every tab id
/// is non-zero, every bound named in the protocol holds, and the IME event
/// is valid.
pub open spec fn command_valid(command: CliCommand) -> bool {
    match command {
        CliCommand::ResizeWindow { width, height } => window_size_valid(width, height),
        CliCommand::NewTab { parent } => opt_tab_valid(parent),
        CliCommand::SelectTab { target } => tab_valid(target),
        CliCommand::CloseTab { target } => tab_valid(target),
        CliCommand::CapturePane { target, max_bytes } => opt_tab_valid(target) && 1 <= max_bytes
            <= MAX_CAPTURE_BYTES,
        CliCommand::ScreenshotPane { target, .. } => opt_tab_valid(target),
        CliCommand::SendText { target, .. } => opt_tab_valid(target),
        CliCommand::SendPaste { target, .. } => opt_tab_valid(target),
        CliCommand::SendKeys { target, keys } => opt_tab_valid(target) && 1 <= keys@.len()
            <= MAX_WIRE_KEYS,
        CliCommand::SendUiKeys { keys } => 1 <= keys@.len() <= MAX_WIRE_KEYS,
        CliCommand::SendUiIme { event } => ime_event_error(event) is None,
        CliCommand::SendMouse { target, action, button, .. } => opt_tab_valid(target) && ((action
            == MouseAction::Move) == (button == MouseButton::NoButton)),
        CliCommand::SendWheel { target, notches, .. } => opt_tab_valid(target) && notches != 0,
        CliCommand::WaitText { target, timeout_ms, .. } => opt_tab_valid(target) && timeout_valid(
            timeout_ms,
        ),
        CliCommand::WaitTabExit { target, timeout_ms } => tab_valid(target) && timeout_valid(
            timeout_ms,
        ),
        _ => true,
    }
}

pub open spec fn tab_zero_error() -> Seq<char> {
    "control tab id must not be zero"@
}

pub open spec fn capture_range_error() -> Seq<char> {
    "capture size is outside its allowed range"@
}

pub open spec fn key_count_error() -> Seq<char> {
    "control key count is invalid"@
}

pub open spec fn mouse_pair_error() -> Seq<char> {
    "invalid control mouse action/button pair"@
}

pub open spec fn wheel_zero_error() -> Seq<char> {
    "control wheel notches must not be zero"@
}

pub open spec fn wait_timeout_error() -> Seq<char> {
    "control wait timeout is outside its allowed range"@
}

pub open spec fn utf8_error() -> Seq<char> {
    "control string is not valid UTF-8"@
}

/// A key count of `n` with `after` bytes behind it is refused: none, more
/// than the protocol allows, or more than those bytes could hold at four
/// bytes a key.
pub open spec fn key_count_refused(n: nat, after: nat) -> bool {
    n == 0 || n > MAX_WIRE_KEYS || n > after / 4
}

/// `n` string bytes `raw` that are not UTF-8.
pub open spec fn bad_string(n: nat, raw: Seq<u8>) -> bool {
    n <= u32::MAX && raw.len() == n && !valid_utf8(raw)
}

/// The opcodes whose first field after the tab id is a string.
pub open spec fn string_led(op: u8) -> bool {
    op == 7 || op == 8 || op == 13 || op == 12
}

pub open spec fn bool_tag_error() -> Seq<char> {
    "invalid control boolean tag"@
}

/// The opcodes whose first field is a boolean tag: an optional tab id's
/// presence, or the window's attachment.
pub open spec fn bool_led(op: u8) -> bool {
    op == 3 || op == 6 || op == 7 || op == 8 || op == 13 || op == 9 || op == 10 || op == 11 || op
        == 12 || op == 22
}

pub open spec fn mouse_action_error() -> Seq<char> {
    "invalid control mouse action"@
}

pub open spec fn mouse_button_error() -> Seq<char> {
    "invalid control mouse button"@
}

pub open spec fn ime_action_error() -> Seq<char> {
    "invalid control IME action"@
}

/// The refusal for mouse fields that hold a valid tab field and then
/// `tags`: an action tag past the four actions, or else a button tag past
/// the four buttons.
pub open spec fn mouse_tag_error(tags: Seq<u8>) -> Option<Seq<char>> {
    if tags.len() > 0 && tags[0] > 3 {
        Some(mouse_action_error())
    } else if tags.len() > 1 && tags[1] > 3 {
        Some(mouse_button_error())
    } else {
        None
    }
}

/// `rest` is what is left of `full` cut short: a proper prefix of it.
pub open spec fn cut_short(full: Seq<u8>, rest: Seq<u8>) -> bool {
    rest.len() < full.len() && rest == full.take(rest.len() as int)
}

/// A cut through two fields falls in the first, or leaves the first whole
/// and cuts the second.
pub proof fn lemma_cut_split(a: Seq<u8>, b: Seq<u8>, rest: Seq<u8>)
    requires
        cut_short(a + b, rest),
    ensures
        rest.len() < a.len() ==> cut_short(a, rest),
        rest.len() >= a.len() ==> rest == a + rest.skip(a.len() as int) && cut_short(
            b,
            rest.skip(a.len() as int),
        ),
{
    if rest.len() < a.len() {
        assert(a.take(rest.len() as int) =~= (a + b).take(rest.len() as int));
    } else {
        assert(rest =~= a + rest.skip(a.len() as int));
        assert(rest.skip(a.len() as int) =~= b.take(rest.len() - a.len()));
    }
}

/// The refusal for a tab id field: only a present id of zero is refused.
pub open spec fn opt_tab_error(t: Option<TabId>) -> Option<Seq<char>> {
    if t matches Some(id) && !tab_valid(id) {
        Some(tab_zero_error())
    } else {
        None
    }
}

/// `first`, or else the refusal `message` where `holds` fails.
pub open spec fn then_check(first: Option<Seq<char>>, holds: bool, message: Seq<char>) -> Option<Seq<char>> {
    if first is Some {
        first
    } else if !holds {
        Some(message)
    } else {
        None
    }
}

/// The first field-level rule `command` breaks, in the order a reader meets
/// its fields, with the refusal a decoder gives for it; `None` for a valid
/// command.
pub open spec fn field_error(command: CommandView) -> Option<Seq<char>> {
    match command {
        CommandView::ResizeWindow { width, height } => then_check(
            None,
            window_size_valid(width, height),
            window_size_error(),
        ),
        CommandView::NewTab { parent } => opt_tab_error(parent),
        CommandView::SelectTab { target } => opt_tab_error(Some(target)),
        CommandView::CloseTab { target } => opt_tab_error(Some(target)),
        CommandView::CapturePane { target, max_bytes } => then_check(
            opt_tab_error(target),
            1 <= max_bytes <= MAX_CAPTURE_BYTES,
            capture_range_error(),
        ),
        CommandView::ScreenshotPane { target, .. } => opt_tab_error(target),
        CommandView::SendText { target, .. } => opt_tab_error(target),
        CommandView::SendPaste { target, .. } => opt_tab_error(target),
        CommandView::SendKeys { target, keys } => then_check(
            opt_tab_error(target),
            1 <= keys.len() <= MAX_WIRE_KEYS,
            key_count_error(),
        ),
        CommandView::SendUiKeys { keys } => then_check(None, 1 <= keys.len() <= MAX_WIRE_KEYS, key_count_error()),
        CommandView::SendUiIme { event } => ime_view_error(event),
        CommandView::SendMouse { target, action, button, .. } => then_check(
            opt_tab_error(target),
            (action == MouseAction::Move) == (button == MouseButton::NoButton),
            mouse_pair_error(),
        ),
        CommandView::SendWheel { target, notches, .. } => then_check(
            opt_tab_error(target),
            notches != 0,
            wheel_zero_error(),
        ),
        CommandView::WaitText { target, timeout_ms, .. } => then_check(
            opt_tab_error(target),
            timeout_valid(timeout_ms),
            wait_timeout_error(),
        ),
        CommandView::WaitTabExit { target, timeout_ms } => then_check(
            opt_tab_error(Some(target)),
            timeout_valid(timeout_ms),
            wait_timeout_error(),
        ),
        _ => None,
    }
}

/// A command is valid exactly when no field-level rule refuses it.
pub proof fn lemma_valid_iff_no_field_error(command: CliCommand)
    ensures
        command_valid(command) <==> field_error(command@) is None,
{
}

/// A command whose encoding fits in one request, valid or not.
pub open spec fn command_sized(command: CliCommand) -> bool {
    encode_command(command).len() <= REQUEST_MAX_BYTES
}

/// A command the wire carries: valid, and small enough.
pub open spec fn command_carried(command: CliCommand) -> bool {
    command_valid(command) && encode_command(command).len() <= REQUEST_MAX_BYTES
}

pub open spec fn string_fits(s: Seq<char>) -> bool {
    utf8_len(s) <= u32::MAX
}

pub open spec fn strings_fit(keys: Seq<Seq<char>>) -> bool {
    forall|i: int| 0 <= i < keys.len() ==> string_fits(#[trigger] keys[i])
}

pub open spec fn string_too_long_error() -> Seq<char> {
    "control string exceeds u32"@
}

pub open spec fn too_many_keys_error() -> Seq<char> {
    "too many control keys"@
}

pub open spec fn oversized_error() -> Seq<char> {
    "control request is oversized"@
}

/// Why `command` cannot be encoded, checked in the order encoding meets it.
pub open spec fn encode_error(command: CliCommand) -> Option<Seq<char>> {
    let field_error = match command {
        CliCommand::ScreenshotPane { output, .. } => if !string_fits(output@) {
            Some(string_too_long_error())
        } else {
            None
        },
        CliCommand::SendText { text, .. } => if !string_fits(text@) {
            Some(string_too_long_error())
        } else {
            None
        },
        CliCommand::SendPaste { text, .. } => if !string_fits(text@) {
            Some(string_too_long_error())
        } else {
            None
        },
        CliCommand::WaitText { text, .. } => if !string_fits(text@) {
            Some(string_too_long_error())
        } else {
            None
        },
        CliCommand::SendKeys { keys, .. } => if keys@.len() > u32::MAX {
            Some(too_many_keys_error())
        } else if !strings_fit(string_views(keys@)) {
            Some(string_too_long_error())
        } else {
            None
        },
        CliCommand::SendUiKeys { keys } => if keys@.len() > u32::MAX {
            Some(too_many_keys_error())
        } else if !strings_fit(string_views(keys@)) {
            Some(string_too_long_error())
        } else {
            None
        },
        CliCommand::SendUiIme { event } => ime_event_error(event),
        _ => None,
    };
    match field_error {
        Some(e) => Some(e),
        None => if encode_command(command).len() > REQUEST_MAX_BYTES {
            Some(oversized_error())
        } else {
            None
        },
    }
}

// ---------------------------------------------------------------------------
// Writer
// ---------------------------------------------------------------------------

pub struct WireWriter {
    pub bytes: Vec<u8>,
}

impl WireWriter {
    pub fn new() -> (w: WireWriter)
        ensures
            w.bytes@ == Seq::<u8>::empty(),
    {
        WireWriter { bytes: Vec::new() }
    }

    pub fn byte(&mut self, value: u8)
        ensures
            final(self).bytes@ == old(self).bytes@.push(value),
    {
        self.bytes.push(value);
    }

    pub fn boolean(&mut self, value: bool)
        ensures
            final(self).bytes@ == old(self).bytes@ + enc_bool(value),
    {
        self.byte(if value { 1 } else { 0 });
        assert(final(self).bytes@ =~= old(self).bytes@ + enc_bool(value));
    }

    pub fn u16(&mut self, value: u16)
        ensures
            final(self).bytes@ == old(self).bytes@ + enc_u16(value),
    {
        push_le(&mut self.bytes, value as u128, 2);
    }

    pub fn i16(&mut self, value: i16)
        ensures
            final(self).bytes@ == old(self).bytes@ + enc_i16(value),
    {
        push_le(&mut self.bytes, (value as u16) as u128, 2);
    }

    pub fn u32(&mut self, value: u32)
        ensures
            final(self).bytes@ == old(self).bytes@ + enc_u32(value as nat),
    {
        push_le(&mut self.bytes, value as u128, 4);
    }

    pub fn u64(&mut self, value: u64)
        ensures
            final(self).bytes@ == old(self).bytes@ + enc_u64(value as nat),
    {
        push_le(&mut self.bytes, value as u128, 8);
    }

    pub fn tab(&mut self, value: TabId)
        ensures
            final(self).bytes@ == old(self).bytes@ + enc_tab(value),
    {
        self.u64(value.get());
    }

    pub fn optional_tab(&mut self, value: Option<TabId>)
        ensures
            final(self).bytes@ == old(self).bytes@ + enc_opt_tab(value),
    {
        let ghost start = self.bytes@;
        self.boolean(value.is_some());
        if let Some(value) = value {
            self.tab(value);
            assert(self.bytes@ =~= start + enc_opt_tab(Some(value)));
        } else {
            assert(self.bytes@ =~= start + enc_opt_tab(None));
        }
    }

    pub fn string(&mut self, value: &str) -> (result: Result<(), String>)
        ensures
            string_fits(value@) ==> result is Ok && final(self).bytes@ == old(self).bytes@
                + enc_string(value@),
            !string_fits(value@) ==> (result matches Err(e) && e@ == string_too_long_error()
                && final(self).bytes@ == old(self).bytes@),
    {
        let length = byte_len(value);
        if length > 4294967295 {
            return Err("control string exceeds u32".to_owned());
        }
        let ghost start = self.bytes@;
        self.u32(length as u32);
        let raw = value.as_bytes();
        let ghost mid = self.bytes@;
        let mut i: usize = 0;
        while i < raw.len()
            invariant
                i <= raw@.len(),
                raw@ == encode_utf8(value@),
                self.bytes@ == mid + raw@.subrange(0, i as int),
            decreases raw@.len() - i,
        {
            self.bytes.push(raw[i]);
            assert(self.bytes@ =~= mid + raw@.subrange(0, i + 1));
            i = i + 1;
        }
        assert(raw@.subrange(0, raw@.len() as int) =~= raw@);
        assert(self.bytes@ =~= start + enc_string(value@));
        Ok(())
    }

    /// A key list; `keys` already holds fewer than 2^32 entries.
    pub fn key_list(&mut self, keys: &Vec<String>) -> (result: Result<(), String>)
        requires
            keys@.len() <= u32::MAX,
        ensures
            strings_fit(string_views(keys@)) ==> result is Ok && final(self).bytes@ == old(self).bytes@ + enc_key_list(string_views(keys@)),
            !strings_fit(string_views(keys@)) ==> (result matches Err(e) && e@
                == string_too_long_error()),
    {
        let ghost views = string_views(keys@);
        let ghost start = self.bytes@;
        self.u32(keys.len() as u32);
        let mut i: usize = 0;
        while i < keys.len()
            invariant
                i <= keys@.len(),
                views == string_views(keys@),
                self.bytes@ == start + enc_u32(keys@.len() as nat) + enc_strings(
                    views.take(i as int),
                ),
                strings_fit(views.take(i as int)),
            decreases keys@.len() - i,
        {
            let ghost before = self.bytes@;
            match self.string(keys[i].as_str()) {
                Ok(()) => {},
                Err(e) => {
                    assert(!string_fits(views[i as int]));
                    return Err(e);
                },
            }
            assert(views.take(i + 1).drop_last() =~= views.take(i as int));
            assert(views.take(i + 1).last() == keys@[i as int]@);
            assert(self.bytes@ =~= start + enc_u32(keys@.len() as nat) + enc_strings(
                views.take(i + 1),
            ));
            assert forall|j: int| 0 <= j < i + 1 implies string_fits(
                #[trigger] views.take(i + 1)[j],
            ) by {
                if j < i {
                    assert(views.take(i + 1)[j] == views.take(i as int)[j]);
                }
            }
            i = i + 1;
        }
        assert(views.take(keys@.len() as int) =~= views);
        Ok(())
    }
}


// ---------------------------------------------------------------------------
// Encoding
// ---------------------------------------------------------------------------

/// Encodes one command as the opcode-tagged bytes the window decodes.
pub fn encode_request(command: CliCommand) -> (result: Result<Vec<u8>, String>)
    ensures
        match encode_error(command) {
            None => result matches Ok(bytes) && bytes@ == encode_command(command),
            Some(m) => result matches Err(e) && e@ == m,
        },
{
    let ghost c = command;
    let mut wire = WireWriter::new();
    match command {
        CliCommand::ListTabs => wire.byte(0),
        CliCommand::UiSnapshot => wire.byte(16),
        CliCommand::PerfStats => wire.byte(1),
        CliCommand::ResetPerfStats => wire.byte(2),
        CliCommand::CancelPointer => wire.byte(19),
        CliCommand::CloseWindow => wire.byte(15),
        CliCommand::ResizeWindow { width, height } => {
            wire.byte(14);
            wire.u16(width);
            wire.u16(height);
        },
        CliCommand::NewTab { parent } => {
            wire.byte(3);
            wire.optional_tab(parent);
        },
        CliCommand::SelectTab { target } => {
            wire.byte(4);
            wire.tab(target);
        },
        CliCommand::CloseTab { target } => {
            wire.byte(5);
            wire.tab(target);
        },
        CliCommand::CapturePane { target, max_bytes } => {
            wire.byte(6);
            wire.optional_tab(target);
            wire.u64(max_bytes as u64);
        },
        CliCommand::ScreenshotPane { target, output } => {
            wire.byte(7);
            wire.optional_tab(target);
            if let Err(e) = wire.string(output.as_str()) {
                return Err(e);
            }
        },
        CliCommand::SendText { target, text } => {
            wire.byte(8);
            wire.optional_tab(target);
            if let Err(e) = wire.string(text.as_str()) {
                return Err(e);
            }
        },
        CliCommand::SendPaste { target, text } => {
            wire.byte(13);
            wire.optional_tab(target);
            if let Err(e) = wire.string(text.as_str()) {
                return Err(e);
            }
        },
        CliCommand::SendKeys { target, keys } => {
            wire.byte(9);
            wire.optional_tab(target);
            if keys.len() > 4294967295 {
                return Err("too many control keys".to_owned());
            }
            if let Err(e) = wire.key_list(&keys) {
                return Err(e);
            }
        },
        CliCommand::SendUiKeys { keys } => {
            wire.byte(17);
            if keys.len() > 4294967295 {
                return Err("too many control keys".to_owned());
            }
            if let Err(e) = wire.key_list(&keys) {
                return Err(e);
            }
        },
        CliCommand::SendUiIme { event } => {
            wire.byte(20);
            if let Err(e) = validate_ime_event(&event) {
                return Err(e);
            }
            match event {
                ImeEvent::Enabled => wire.byte(0),
                ImeEvent::Preedit { text, cursor } => {
                    wire.byte(1);
                    if let Err(e) = wire.string(text.as_str()) {
                        return Err(e);
                    }
                    wire.boolean(cursor.is_some());
                    if let Some((start, end)) = cursor {
                        wire.u64(start as u64);
                        wire.u64(end as u64);
                    }
                },
                ImeEvent::Commit(text) => {
                    wire.byte(2);
                    if let Err(e) = wire.string(text.as_str()) {
                        return Err(e);
                    }
                },
                ImeEvent::Disabled => wire.byte(3),
            }
        },
        CliCommand::SendMouse { target, action, button, column, row } => {
            wire.byte(10);
            wire.optional_tab(target);
            wire.byte(action.wire_tag());
            wire.byte(button.wire_tag());
            wire.u16(column);
            wire.u16(row);
        },
        CliCommand::SendWheel { target, column, row, notches, ctrl } => {
            wire.byte(11);
            wire.optional_tab(target);
            wire.u16(column);
            wire.u16(row);
            wire.i16(notches);
            wire.boolean(ctrl);
        },
        CliCommand::WaitText { target, text, timeout_ms } => {
            wire.byte(12);
            wire.optional_tab(target);
            if let Err(e) = wire.string(text.as_str()) {
                return Err(e);
            }
            wire.u64(timeout_ms);
        },
        CliCommand::WaitTabExit { target, timeout_ms } => {
            wire.byte(18);
            wire.tab(target);
            wire.u64(timeout_ms);
        },
        CliCommand::SetWindowAttached { attached } => {
            wire.byte(22);
            wire.boolean(attached);
        },
    }
    assert(wire.bytes@ =~= encode_command(c));
    if wire.bytes.len() > REQUEST_MAX_BYTES {
        return Err("control request is oversized".to_owned());
    }
    Ok(wire.bytes)
}


// ---------------------------------------------------------------------------
// Reader
// ---------------------------------------------------------------------------

pub open spec fn truncated_error() -> Seq<char> {
    "truncated control request"@
}

pub proof fn lemma_split(rest: Seq<u8>, prefix: Seq<u8>, tail: Seq<u8>)
    requires
        rest == prefix + tail,
    ensures
        rest.take(prefix.len() as int) == prefix,
        rest.skip(prefix.len() as int) == tail,
{
    assert(rest.take(prefix.len() as int) =~= prefix);
    assert(rest.skip(prefix.len() as int) =~= tail);
}

pub proof fn lemma_fixed_width(v: nat, n: nat)
    requires
        n <= 8,
        v < pow256(n),
    ensures
        le_value(le_bytes(v, n)) == v,
        le_bytes(v, n).len() == n,
{
    lemma_le_roundtrip(v, n);
}

pub proof fn lemma_pow_values()
    ensures
        pow256(2) == 65536,
        pow256(4) == 4294967296,
        pow256(8) == 18446744073709551616,
{
    reveal_with_fuel(pow256, 9);
}

/// A cursor over one encoded request.
pub struct WireReader<'a> {
    pub bytes: &'a [u8],
    pub position: usize,
}

impl<'a> WireReader<'a> {
    pub open spec fn wf(&self) -> bool {
        self.position <= self.bytes@.len() && self.bytes@.len() <= REQUEST_MAX_BYTES
    }

    /// The bytes not yet read.
    pub open spec fn rest(&self) -> Seq<u8> {
        self.bytes@.subrange(self.position as int, self.bytes@.len() as int)
    }

    pub fn new(bytes: &'a [u8]) -> (r: WireReader<'a>)
        requires
            bytes@.len() <= REQUEST_MAX_BYTES,
        ensures
            r.wf(),
            r.bytes == bytes,
            r.rest() == bytes@,
    {
        let r = WireReader { bytes, position: 0 };
        assert(r.rest() =~= bytes@);
        r
    }

    pub fn remaining(&self) -> (n: usize)
        requires
            self.wf(),
        ensures
            n == self.rest().len(),
    {
        self.bytes.len() - self.position
    }

    pub fn take(&mut self, length: usize) -> (result: Result<&'a [u8], String>)
        requires
            old(self).wf(),
        ensures
            final(self).wf(),
            final(self).bytes == old(self).bytes,
            length <= old(self).rest().len() ==> (result matches Ok(s) && s@ == old(self).rest().take(
                length as int,
            ) && final(self).rest() == old(self).rest().skip(length as int)),
            length > old(self).rest().len() ==> (result matches Err(e) && e@ == truncated_error()),
    {
        if length > self.bytes.len() - self.position {
            return Err("truncated control request".to_owned());
        }
        let end = self.position + length;
        let value = &self.bytes[self.position..end];
        let ghost old_rest = self.rest();
        self.position = end;
        assert(value@ =~= old_rest.take(length as int));
        assert(self.rest() =~= old_rest.skip(length as int));
        Ok(value)
    }

    pub fn byte(&mut self) -> (result: Result<u8, String>)
        requires
            old(self).wf(),
        ensures
            final(self).wf(),
            final(self).bytes == old(self).bytes,
            result matches Ok(b) ==> old(self).rest() == seq![b] + final(self).rest(),
            old(self).rest().len() >= 1 ==> (result matches Ok(b) && b == old(self).rest()[0]
                && final(self).rest() == old(self).rest().skip(1)),
            old(self).rest().len() == 0 ==> (result matches Err(e) && e@ == truncated_error()),
    {
        let ghost old_rest = self.rest();
        let s = match self.take(1) {
            Ok(s) => s,
            Err(e) => return Err(e),
        };
        let b = s[0];
        assert(old_rest =~= seq![b] + self.rest());
        Ok(b)
    }

    pub fn boolean(&mut self) -> (result: Result<bool, String>)
        requires
            old(self).wf(),
        ensures
            final(self).wf(),
            final(self).bytes == old(self).bytes,
            result matches Ok(b) ==> old(self).rest() == enc_bool(b) + final(self).rest(),
            forall|b: bool, tail: Seq<u8>|
                old(self).rest() == #[trigger] (enc_bool(b) + tail) ==> result == Ok::<bool, String>(b)
                    && final(self).rest() == tail,
            old(self).rest().len() > 0 && old(self).rest()[0] > 1 ==> (result matches Err(e) && e@
                == bool_tag_error()),
            old(self).rest().len() == 0 ==> (result matches Err(e) && e@ == truncated_error()),
    {
        let ghost old_rest = self.rest();
        let b = match self.byte() {
            Ok(b) => b,
            Err(e) => {
                assert forall|v: bool, tail: Seq<u8>|
                    old_rest == #[trigger] (enc_bool(v) + tail) implies false by {
                    assert(old_rest.len() >= 1);
                }
                return Err(e);
            },
        };
        if b == 0 {
            assert forall|v: bool, tail: Seq<u8>|
                old_rest == #[trigger] (enc_bool(v) + tail) implies !v && self.rest() == tail by {
                assert(old_rest[0] == enc_bool(v)[0]);
                lemma_split(old_rest, enc_bool(v), tail);
            }
            assert(enc_bool(false) =~= seq![0u8]);
            Ok(false)
        } else if b == 1 {
            assert forall|v: bool, tail: Seq<u8>|
                old_rest == #[trigger] (enc_bool(v) + tail) implies v && self.rest() == tail by {
                assert(old_rest[0] == enc_bool(v)[0]);
                lemma_split(old_rest, enc_bool(v), tail);
            }
            assert(enc_bool(true) =~= seq![1u8]);
            Ok(true)
        } else {
            assert forall|v: bool, tail: Seq<u8>|
                old_rest == #[trigger] (enc_bool(v) + tail) implies false by {
                assert(old_rest[0] == enc_bool(v)[0]);
            }
            Err("invalid control boolean tag".to_owned())
        }
    }

    /// Reads an unsigned little-endian integer of `width` bytes.
    fn unsigned(&mut self, width: usize) -> (result: Result<u64, String>)
        requires
            old(self).wf(),
            width == 2 || width == 4 || width == 8,
        ensures
            final(self).wf(),
            final(self).bytes == old(self).bytes,
            result matches Ok(v) ==> v < pow256(width as nat) && old(self).rest() == le_bytes(
                v as nat,
                width as nat,
            ) + final(self).rest(),
            forall|v: nat, tail: Seq<u8>|
                v < pow256(width as nat) && old(self).rest() == #[trigger] (le_bytes(v, width as nat)
                    + tail) ==> result == Ok::<u64, String>(v as u64) && final(self).rest() == tail,
            old(self).rest().len() < width ==> (result matches Err(e) && e@ == truncated_error()),
    {
        proof {
            lemma_pow_values();
        }
        let ghost old_rest = self.rest();
        let s = match self.take(width) {
            Ok(s) => s,
            Err(e) => {
                assert forall|v: nat, tail: Seq<u8>|
                    v < pow256(width as nat) && old_rest == #[trigger] (le_bytes(v, width as nat)
                        + tail) implies false by {
                    lemma_le_bytes_len(v, width as nat);
                }
                return Err(e);
            },
        };
        let wide = read_le(s);
        proof {
            lemma_le_value_bound(s@);
            lemma_le_bytes_of_value(s@);
        }
        let v = wide as u64;
        assert(old_rest =~= le_bytes(v as nat, width as nat) + self.rest());
        assert forall|x: nat, tail: Seq<u8>|
            x < pow256(width as nat) && old_rest == #[trigger] (le_bytes(x, width as nat) + tail)
            implies v == x && self.rest() == tail by {
            lemma_le_roundtrip(x, width as nat);
            lemma_split(old_rest, le_bytes(x, width as nat), tail);
        }
        Ok(v)
    }

    pub fn u16(&mut self) -> (result: Result<u16, String>)
        requires
            old(self).wf(),
        ensures
            old(self).rest().len() < 2 ==> (result matches Err(e) && e@ == truncated_error()),
            final(self).wf(),
            final(self).bytes == old(self).bytes,
            result matches Ok(v) ==> old(self).rest() == enc_u16(v) + final(self).rest(),
            forall|v: u16, tail: Seq<u8>|
                old(self).rest() == #[trigger] (enc_u16(v) + tail) ==> result == Ok::<u16, String>(v)
                    && final(self).rest() == tail,
    {
        proof {
            lemma_pow_values();
        }
        let ghost old_rest = self.rest();
        let r = self.unsigned(2);
        assert forall|v: u16, tail: Seq<u8>|
            old_rest == #[trigger] (enc_u16(v) + tail) implies r == Ok::<u64, String>(
                v as u64,
            ) by {
            assert(old_rest == le_bytes(v as nat, 2) + tail);
        }
        match r {
            Ok(v) => Ok(v as u16),
            Err(e) => Err(e),
        }
    }

    pub fn i16(&mut self) -> (result: Result<i16, String>)
        requires
            old(self).wf(),
        ensures
            old(self).rest().len() < 2 ==> (result matches Err(e) && e@ == truncated_error()),
            final(self).wf(),
            final(self).bytes == old(self).bytes,
            result matches Ok(v) ==> old(self).rest() == enc_i16(v) + final(self).rest(),
            forall|v: i16, tail: Seq<u8>|
                old(self).rest() == #[trigger] (enc_i16(v) + tail) ==> result == Ok::<i16, String>(v)
                    && final(self).rest() == tail,
    {
        proof {
            lemma_pow_values();
        }
        let ghost old_rest = self.rest();
        let r = self.unsigned(2);
        assert forall|v: i16, tail: Seq<u8>|
            old_rest == #[trigger] (enc_i16(v) + tail) implies r == Ok::<u64, String>(
                (v as u16) as u64,
            ) by {
            assert(old_rest == le_bytes((v as u16) as nat, 2) + tail);
            assert(((v as u16) as u64) as u16 as i16 == v) by (bit_vector);
        }
        match r {
            Ok(v) => {
                let narrow = v as u16;
                assert((narrow as i16) as u16 == narrow) by (bit_vector);
                assert forall|x: i16, tail: Seq<u8>|
                    old_rest == #[trigger] (enc_i16(x) + tail) implies (narrow as i16) == x by {
                    assert(v == (x as u16) as u64);
                    assert(v == (x as u16) as u64 ==> ((v as u16) as i16) == x) by (bit_vector);
                }
                Ok(narrow as i16)
            },
            Err(e) => Err(e),
        }
    }

    pub fn u32(&mut self) -> (result: Result<u32, String>)
        requires
            old(self).wf(),
        ensures
            old(self).rest().len() < 4 ==> (result matches Err(e) && e@ == truncated_error()),
            final(self).wf(),
            final(self).bytes == old(self).bytes,
            result matches Ok(v) ==> old(self).rest() == enc_u32(v as nat) + final(self).rest(),
            forall|v: nat, tail: Seq<u8>|
                v <= u32::MAX && old(self).rest() == #[trigger] (enc_u32(v) + tail) ==> result
                    == Ok::<u32, String>(v as u32) && final(self).rest() == tail,
    {
        proof {
            lemma_pow_values();
        }
        match self.unsigned(4) {
            Ok(v) => Ok(v as u32),
            Err(e) => Err(e),
        }
    }

    pub fn u64(&mut self) -> (result: Result<u64, String>)
        requires
            old(self).wf(),
        ensures
            old(self).rest().len() < 8 ==> (result matches Err(e) && e@ == truncated_error()),
            final(self).wf(),
            final(self).bytes == old(self).bytes,
            result matches Ok(v) ==> old(self).rest() == enc_u64(v as nat) + final(self).rest(),
            forall|v: nat, tail: Seq<u8>|
                v <= u64::MAX && old(self).rest() == #[trigger] (enc_u64(v) + tail) ==> result
                    == Ok::<u64, String>(v as u64) && final(self).rest() == tail,
    {
        proof {
            lemma_pow_values();
        }
        self.unsigned(8)
    }

    pub fn tab(&mut self) -> (result: Result<TabId, String>)
        requires
            old(self).wf(),
        ensures
            old(self).rest().len() < 8 ==> (result matches Err(e) && e@ == truncated_error()),
            final(self).wf(),
            final(self).bytes == old(self).bytes,
            result matches Ok(t) ==> tab_valid(t) && old(self).rest() == enc_tab(t) + final(self).rest(),
            forall|t: TabId, tail: Seq<u8>|
                tab_valid(t) && old(self).rest() == #[trigger] (enc_tab(t) + tail) ==> result
                    == Ok::<TabId, String>(t) && final(self).rest() == tail,
            forall|t: TabId, tail: Seq<u8>|
                !tab_valid(t) && old(self).rest() == #[trigger] (enc_tab(t) + tail) ==> (result matches Err(
                    e,
                ) && e@ == tab_zero_error()),
    {
        let ghost old_rest = self.rest();
        let r = self.u64();
        assert forall|t: TabId, tail: Seq<u8>|
            old_rest == #[trigger] (enc_tab(t) + tail) implies r == Ok::<
                u64,
                String,
            >(t.0) by {
            assert(old_rest == enc_u64(t.0 as nat) + tail);
        }
        let value = match r {
            Ok(v) => v,
            Err(e) => return Err(e),
        };
        if value == 0 {
            return Err("control tab id must not be zero".to_owned());
        }
        Ok(TabId::new(value))
    }

    pub fn optional_tab(&mut self) -> (result: Result<Option<TabId>, String>)
        requires
            old(self).wf(),
        ensures
            old(self).rest().len() > 0 && old(self).rest()[0] > 1 ==> (result matches Err(e) && e@
                == bool_tag_error()),
            final(self).wf(),
            final(self).bytes == old(self).bytes,
            result matches Ok(t) ==> opt_tab_valid(t) && old(self).rest() == enc_opt_tab(t)
                + final(self).rest(),
            forall|t: Option<TabId>, tail: Seq<u8>|
                opt_tab_valid(t) && old(self).rest() == #[trigger] (enc_opt_tab(t) + tail) ==> result
                    == Ok::<Option<TabId>, String>(t) && final(self).rest() == tail,
            forall|t: Option<TabId>, tail: Seq<u8>|
                !opt_tab_valid(t) && old(self).rest() == #[trigger] (enc_opt_tab(t) + tail) ==> (result matches Err(
                    e,
                ) && e@ == tab_zero_error()),
            forall|t: Option<TabId>|
                cut_short(#[trigger] enc_opt_tab(t), old(self).rest()) ==> (result matches Err(e) && e@
                    == truncated_error()),
    {
        let ghost old_rest = self.rest();
        let present = self.boolean();
        assert forall|t: Option<TabId>|
            cut_short(#[trigger] enc_opt_tab(t), old_rest) implies old_rest.len() == 0 || (present
            == Ok::<bool, String>(true) && self.rest().len() < 8) by {
            match t {
                None => {},
                Some(id) => {
                    lemma_le_bytes_len(id.0 as nat, 8);
                    if old_rest.len() > 0 {
                        assert(old_rest[0] == enc_opt_tab(t)[0]);
                        assert(old_rest =~= enc_bool(true) + old_rest.skip(1));
                    }
                },
            }
        }
        assert forall|t: Option<TabId>, tail: Seq<u8>|
            old_rest == #[trigger] (enc_opt_tab(t) + tail) implies present
            == Ok::<bool, String>(t is Some) && (t matches Some(id) ==> self.rest() == enc_tab(id)
            + tail) && (t is None ==> self.rest() == tail) by {
            match t {
                None => {
                    assert(enc_opt_tab(t) =~= enc_bool(false));
                },
                Some(id) => {
                    assert(old_rest =~= enc_bool(true) + (enc_tab(id) + tail));
                },
            }
        }
        let ghost mid = self.rest();
        match present {
            Ok(true) => {
                match self.tab() {
                    Ok(id) => {
                        assert(old_rest =~= enc_opt_tab(Some(id)) + self.rest());
                        Ok(Some(id))
                    },
                    Err(e) => Err(e),
                }
            },
            Ok(false) => {
                assert(old_rest =~= enc_opt_tab(None) + self.rest());
                Ok(None)
            },
            Err(e) => Err(e),
        }
    }

    pub fn string(&mut self) -> (result: Result<String, String>)
        requires
            old(self).wf(),
        ensures
            final(self).wf(),
            final(self).bytes == old(self).bytes,
            result matches Ok(s) ==> old(self).rest() == enc_string(s@) + final(self).rest(),
            forall|s: Seq<char>, tail: Seq<u8>|
                old(self).rest() == #[trigger] (enc_string(s) + tail) ==> (result matches Ok(x) && x@
                    == s && final(self).rest() == tail),
            forall|n: nat, raw: Seq<u8>, more: Seq<u8>|
                bad_string(n, raw) && old(self).rest() == #[trigger] (enc_u32(n) + (raw + more)) ==> (
                result matches Err(e) && e@ == utf8_error()),
            forall|s: Seq<char>|
                string_fits(s) && cut_short(#[trigger] enc_string(s), old(self).rest()) ==> (result matches Err(
                    e,
                ) && e@ == truncated_error()),
    {
        proof {
            lemma_pow_values();
        }
        let ghost old_rest = self.rest();
        let length = self.u32();
        assert forall|s: Seq<char>, tail: Seq<u8>|
            old_rest == #[trigger] (enc_string(s) + tail) implies length == Ok::<u32, String>(
                utf8_len(s) as u32,
            ) && self.rest() == encode_utf8(s) + tail by {
            assert(old_rest.len() <= REQUEST_MAX_BYTES);
            assert(old_rest =~= enc_u32(utf8_len(s)) + (encode_utf8(s) + tail));
        }
        assert forall|s: Seq<char>|
            string_fits(s) && cut_short(#[trigger] enc_string(s), old_rest) implies old_rest.len() < 4 || (
            length == Ok::<u32, String>(utf8_len(s) as u32) && self.rest().len() < utf8_len(s)) by {
            lemma_le_bytes_len(utf8_len(s), 4);
            lemma_cut_split(enc_u32(utf8_len(s)), encode_utf8(s), old_rest);
            if old_rest.len() >= 4 {
                assert(old_rest == enc_u32(utf8_len(s)) + old_rest.skip(4));
            }
        }
        let length = match length {
            Ok(n) => n,
            Err(e) => return Err(e),
        };
        let ghost mid = self.rest();
        assert forall|n: nat, raw: Seq<u8>, more: Seq<u8>|
            bad_string(n, raw) && old_rest == #[trigger] (enc_u32(n) + (raw + more)) implies length == n
                && mid == raw + more by {
            assert(old_rest.len() <= REQUEST_MAX_BYTES);
        }
        let raw = match self.take(length as usize) {
            Ok(raw) => raw,
            Err(e) => return Err(e),
        };
        assert forall|s: Seq<char>, tail: Seq<u8>|
            old_rest == #[trigger] (enc_string(s) + tail) implies raw@ == encode_utf8(s)
            && self.rest() == tail by {
            lemma_split(mid, encode_utf8(s), tail);
        }
        assert forall|n: nat, r: Seq<u8>, more: Seq<u8>|
            bad_string(n, r) && old_rest == #[trigger] (enc_u32(n) + (r + more)) implies raw@ == r by {
            lemma_split(mid, r, more);
        }
        match utf8_to_string(raw) {
            Some(text) => {
                proof {
                    vstd::utf8::decode_utf8_encode_utf8(raw@);
                    lemma_le_bytes_of_value(old_rest.take(4));
                }
                assert(old_rest =~= enc_string(text@) + self.rest());
                Ok(text)
            },
            None => Err("control string is not valid UTF-8".to_owned()),
        }
    }

    pub fn finish(&self) -> (result: Result<(), String>)
        requires
            self.wf(),
        ensures
            result is Ok <==> self.rest().len() == 0,
            result matches Err(e) ==> e@ == trailing_error(),
    {
        if self.position == self.bytes.len() {
            Ok(())
        } else {
            Err("trailing bytes in control request".to_owned())
        }
    }
}


// ---------------------------------------------------------------------------
// Decoding
// ---------------------------------------------------------------------------

pub proof fn lemma_enc_string_len(s: Seq<char>)
    ensures
        enc_string(s).len() == 4 + utf8_len(s),
{
    lemma_le_bytes_len(utf8_len(s), 4);
}

pub proof fn lemma_enc_strings_concat(a: Seq<Seq<char>>, b: Seq<Seq<char>>)
    ensures
        enc_strings(a + b) == enc_strings(a) + enc_strings(b),
    decreases b.len(),
{
    if b.len() == 0 {
        assert(a + b =~= a);
        assert(enc_strings(b) =~= Seq::<u8>::empty());
        assert(enc_strings(a) + enc_strings(b) =~= enc_strings(a));
    } else {
        lemma_enc_strings_concat(a, b.drop_last());
        assert((a + b).drop_last() =~= a + b.drop_last());
        assert((a + b).last() == b.last());
        assert(enc_strings(a + b) =~= enc_strings(a) + enc_strings(b));
    }
}

/// Every encoded key costs at least its four length bytes and its own text.
pub proof fn lemma_enc_strings_len(ks: Seq<Seq<char>>)
    ensures
        enc_strings(ks).len() >= 4 * ks.len(),
        forall|i: int| 0 <= i < ks.len() ==> enc_strings(ks).len() >= utf8_len(#[trigger] ks[i]),
    decreases ks.len(),
{
    if ks.len() > 0 {
        lemma_enc_strings_len(ks.drop_last());
        lemma_enc_string_len(ks.last());
        assert forall|i: int| 0 <= i < ks.len() implies enc_strings(ks).len() >= utf8_len(
            #[trigger] ks[i],
        ) by {
            if i < ks.len() - 1 {
                assert(ks[i] == ks.drop_last()[i]);
            }
        }
    }
}

pub proof fn lemma_enc_strings_step(ks: Seq<Seq<char>>, i: int)
    requires
        0 <= i < ks.len(),
    ensures
        enc_strings(ks.skip(i)) == enc_string(ks[i]) + enc_strings(ks.skip(i + 1)),
{
    let one = seq![ks[i]];
    assert(ks.skip(i) =~= one + ks.skip(i + 1));
    lemma_enc_strings_concat(one, ks.skip(i + 1));
    assert(one.drop_last() =~= Seq::<Seq<char>>::empty());
    assert(enc_strings(one.drop_last()) =~= Seq::<u8>::empty());
    assert(one.last() == ks[i]);
    assert(enc_strings(one) =~= enc_string(ks[i]));
}

/// Reads `count` strings.
fn read_keys(
    wire: &mut WireReader,
    count: usize,
    Ghost(expected): Ghost<Option<(Seq<Seq<char>>, Seq<u8>)>>,
    Ghost(cut): Ghost<Option<Seq<Seq<char>>>>,
) -> (result: Result<Vec<String>, String>)
    requires
        old(wire).wf(),
        cut matches Some(ks) ==> ks.len() == count && strings_fit(ks) && cut_short(
            enc_strings(ks),
            old(wire).rest(),
        ),
        expected is None || cut is None,
        expected matches Some((ks, tail)) ==> ks.len() == count && old(wire).rest() == enc_strings(
            ks,
        ) + tail,
    ensures
        final(wire).wf(),
        final(wire).bytes == old(wire).bytes,
        result matches Ok(keys) ==> keys@.len() == count && old(wire).rest() == enc_strings(
            string_views(keys@),
        ) + final(wire).rest(),
        expected matches Some((ks, tail)) ==> (result matches Ok(keys) && string_views(keys@) == ks
            && final(wire).rest() == tail),
        cut is Some ==> (result matches Err(e) && e@ == truncated_error()),
{
    let ghost start = wire.rest();
    let mut keys: Vec<String> = Vec::new();
    let mut i: usize = 0;
    proof {
        if let Some((ks, tail)) = expected {
            assert(ks.skip(0) =~= ks);
            assert(ks.take(0) =~= Seq::<Seq<char>>::empty());
        }
        if let Some(ks) = cut {
            assert(ks.skip(0) =~= ks);
        }
        assert(string_views(keys@) =~= Seq::<Seq<char>>::empty());
        assert(start =~= enc_strings(string_views(keys@)) + wire.rest());
    }
    while i < count
        invariant
            wire.wf(),
            wire.bytes == old(wire).bytes,
            start == old(wire).rest(),
            i <= count,
            keys@.len() == i,
            start == enc_strings(string_views(keys@)) + wire.rest(),
            expected matches Some((ks, tail)) ==> ks.len() == count && string_views(keys@)
                == ks.take(i as int) && wire.rest() == enc_strings(ks.skip(i as int)) + tail,
            cut matches Some(ks) ==> ks.len() == count && strings_fit(ks) && cut_short(
                enc_strings(ks.skip(i as int)),
                wire.rest(),
            ),
        decreases count - i,
    {
        let ghost before = wire.rest();
        proof {
            if let Some((ks, tail)) = expected {
                lemma_enc_strings_step(ks, i as int);
                assert(before =~= enc_string(ks[i as int]) + (enc_strings(ks.skip(i + 1)) + tail));
            }
            if let Some(ks) = cut {
                lemma_enc_strings_step(ks, i as int);
                lemma_cut_split(enc_string(ks[i as int]), enc_strings(ks.skip(i + 1)), before);
                assert(string_fits(ks[i as int]));
            }
        }
        let key = match wire.string() {
            Ok(key) => key,
            Err(e) => return Err(e),
        };
        let ghost views = string_views(keys@);
        keys.push(key);
        proof {
            assert(string_views(keys@) =~= views.push(key@));
            assert(views.push(key@).drop_last() =~= views);
            assert(start =~= enc_strings(string_views(keys@)) + wire.rest());
            if let Some((ks, tail)) = expected {
                assert(ks.take(i + 1) =~= ks.take(i as int).push(ks[i as int]));
            }
        }
        i = i + 1;
    }
    proof {
        if let Some((ks, tail)) = expected {
            assert(ks.take(count as int) =~= ks);
            assert(ks.skip(count as int) =~= Seq::<Seq<char>>::empty());
            assert(enc_strings(ks.skip(count as int)) + tail =~= tail);
        }
        if let Some(ks) = cut {
            assert(ks.skip(count as int) =~= Seq::<Seq<char>>::empty());
        }
    }
    Ok(keys)
}

/// Reads a key count and that many keys.
fn read_key_list(
    wire: &mut WireReader,
    Ghost(expected): Ghost<Option<(Seq<Seq<char>>, Seq<u8>)>>,
    Ghost(cut): Ghost<Option<Seq<Seq<char>>>>,
) -> (result: Result<Vec<String>, String>)
    requires
        old(wire).wf(),
        cut matches Some(ks) ==> 1 <= ks.len() <= MAX_WIRE_KEYS && strings_fit(ks) && cut_short(
            enc_key_list(ks),
            old(wire).rest(),
        ),
        expected is None || cut is None,
        expected matches Some((ks, tail)) ==> old(wire).rest() == enc_key_list(ks) + tail,
    ensures
        final(wire).wf(),
        final(wire).bytes == old(wire).bytes,
        result matches Ok(keys) ==> 1 <= keys@.len() <= MAX_WIRE_KEYS && old(wire).rest()
            == enc_key_list(string_views(keys@)) + final(wire).rest(),
        expected matches Some((ks, tail)) ==> (1 <= ks.len() <= MAX_WIRE_KEYS ==> (result matches Ok(
            keys,
        ) && final(wire).rest() == tail)),
        expected matches Some((ks, tail)) ==> (!(1 <= ks.len() <= MAX_WIRE_KEYS) ==> (result matches Err(
            e,
        ) && e@ == key_count_error())),
        forall|n: nat, more: Seq<u8>|
            n <= u32::MAX && old(wire).rest() == #[trigger] (enc_u32(n) + more) && key_count_refused(
                n,
                more.len(),
            ) ==> (result matches Err(e) && e@ == key_count_error()),
        cut is Some ==> (result matches Err(e) && (e@ == truncated_error() || e@ == key_count_error())),
{
    let ghost start = wire.rest();
    proof {
        if let Some(ks) = cut {
            lemma_le_bytes_len(ks.len(), 4);
            lemma_cut_split(enc_u32(ks.len()), enc_strings(ks), start);
            if start.len() >= 4 {
                assert(start == enc_u32(ks.len()) + start.skip(4));
            }
        }
    }
    proof {
        lemma_pow_values();
        if let Some((ks, tail)) = expected {
            assert(start =~= enc_u32(ks.len()) + (enc_strings(ks) + tail));
            lemma_enc_strings_len(ks);
            lemma_le_bytes_len(ks.len(), 4);
            assert(ks.len() <= u32::MAX);
        }
    }
    let count = match wire.u32() {
        Ok(n) => n as usize,
        Err(e) => return Err(e),
    };
    proof {
        if let Some((ks, tail)) = expected {
            lemma_enc_strings_len(ks);
        }
    }
    if count == 0 || count > MAX_WIRE_KEYS || count > wire.remaining() / 4 {
        return Err("control key count is invalid".to_owned());
    }
    let ghost mid = wire.rest();
    let keys = match read_keys(wire, count, Ghost(expected), Ghost(cut)) {
        Ok(keys) => keys,
        Err(e) => return Err(e),
    };
    proof {
        lemma_le_bytes_len(count as nat, 4);
        assert(string_views(keys@).len() == keys@.len());
        assert(start =~= enc_key_list(string_views(keys@)) + wire.rest());
    }
    Ok(keys)
}


/// Reads one IME event and checks it.
#[verifier::rlimit(40)]
fn read_ime(
    wire: &mut WireReader,
    Ghost(expected): Ghost<Option<(ImeEvent, Seq<u8>)>>,
    Ghost(cut): Ghost<Option<ImeEvent>>,
) -> (result: Result<ImeEvent, String>)
    requires
        old(wire).wf(),
        cut matches Some(ev) ==> ime_event_error(ev) is None && cut_short(enc_ime(ev), old(wire).rest()),
        expected is None || cut is None,
        expected matches Some((ev, tail)) ==> old(wire).rest() == enc_ime(ev) + tail,
    ensures
        final(wire).wf(),
        final(wire).bytes == old(wire).bytes,
        result matches Ok(e) ==> ime_event_error(e) is None && old(wire).rest() == enc_ime(e)
            + final(wire).rest(),
        expected matches Some((ev, tail)) ==> (ime_event_error(ev) is None ==> result is Ok
            && final(wire).rest() == tail),
        expected matches Some((ev, tail)) ==> (ime_event_error(ev) matches Some(m) ==> (result matches Err(
            e,
        ) && e@ == m)),
        old(wire).rest().len() > 0 && old(wire).rest()[0] > 3 ==> (result matches Err(e) && e@
            == ime_action_error()),
        forall|tag: u8, n: nat, raw: Seq<u8>, more: Seq<u8>|
            (tag == 1 || tag == 2) && bad_string(n, raw) && old(wire).rest() == #[trigger] (seq![tag] + (enc_u32(n)
                + (raw + more))) ==> (result matches Err(e) && e@ == utf8_error()),
        cut is Some ==> (result matches Err(e) && e@ == truncated_error()),
{
    proof {
        lemma_pow_values();
    }
    let ghost start = wire.rest();
    let tag = match wire.byte() {
        Ok(tag) => tag,
        Err(e) => return Err(e),
    };
    assert forall|t: u8, n: nat, raw: Seq<u8>, more: Seq<u8>|
        start == #[trigger] (seq![t] + (enc_u32(n) + (raw + more))) implies tag == t && wire.rest() == enc_u32(
            n,
        ) + (raw + more) by {
        lemma_split(start, seq![t], enc_u32(n) + (raw + more));
    }
    proof {
        if let Some(ev) = cut {
            assert(start[0] == enc_ime(ev)[0]);
            assert(wire.rest() =~= start.skip(1));
            match ev {
                ImeEvent::Commit(t) => {
                    assert(enc_ime(ev) =~= seq![2u8] + enc_string(t@));
                    lemma_cut_split(seq![2u8], enc_string(t@), start);
                },
                ImeEvent::Preedit { text: t, cursor } => {
                    let cur = match cursor {
                        None => seq![0u8],
                        Some((a, b)) => seq![1u8] + enc_u64(a as nat) + enc_u64(b as nat),
                    };
                    assert(enc_ime(ev) =~= seq![1u8] + (enc_string(t@) + cur));
                    lemma_cut_split(seq![1u8], enc_string(t@) + cur, start);
                    lemma_cut_split(enc_string(t@), cur, wire.rest());
                },
                _ => {},
            }
        }
    }
    let event = match tag {
        0 => {
            proof {
                if let Some((ev, tail)) = expected {
                    assert(ev is Enabled);
                    lemma_split(start, enc_ime(ev), tail);
                }
            }
            assert(start =~= enc_ime(ImeEvent::Enabled) + wire.rest());
            ImeEvent::Enabled
        },
        1 => {
            proof {
                if let Some((ev, tail)) = expected {
                    if let ImeEvent::Preedit { text, cursor } = ev {
                        let cur = match cursor {
                            None => seq![0u8],
                            Some((a, b)) => seq![1u8] + enc_u64(a as nat) + enc_u64(b as nat),
                        };
                        assert(wire.rest() =~= enc_string(text@) + (cur + tail));
                    }
                }
            }
            let ghost after_tag = wire.rest();
            let text = match wire.string() {
                Ok(text) => text,
                Err(e) => return Err(e),
            };
            let ghost after_text = wire.rest();
            proof {
                if let Some(ImeEvent::Preedit { text: t, cursor }) = cut {
                    let s_len = enc_string(t@).len();
                    assert(after_tag == enc_string(t@) + after_tag.skip(s_len as int));
                    assert(after_text == after_tag.skip(s_len as int));
                    match cursor {
                        None => {},
                        Some((a, b)) => {
                            let c1 = enc_u64(a as nat) + enc_u64(b as nat);
                            assert(seq![1u8] + enc_u64(a as nat) + enc_u64(b as nat) =~= enc_bool(true) + c1);
                            lemma_cut_split(enc_bool(true), c1, after_text);
                            if after_text.len() > 0 {
                                assert(after_text == enc_bool(true) + after_text.skip(1));
                                lemma_le_bytes_len(a as nat, 8);
                                lemma_cut_split(enc_u64(a as nat), enc_u64(b as nat), after_text.skip(1));
                                if after_text.len() >= 9 {
                                    assert(after_text.skip(1) == enc_u64(a as nat) + after_text.skip(1).skip(8));
                                    lemma_le_bytes_len(b as nat, 8);
                                }
                            }
                        },
                    }
                }
                if let Some((ev, tail)) = expected {
                    if let ImeEvent::Preedit { text: t, cursor } = ev {
                        match cursor {
                            None => {
                                assert(after_text =~= enc_bool(false) + tail);
                            },
                            Some((a, b)) => {
                                assert(after_text =~= enc_bool(true) + (enc_u64(a as nat) + (
                                enc_u64(b as nat) + tail)));
                            },
                        }
                    }
                }
            }
            let present = match wire.boolean() {
                Ok(present) => present,
                Err(e) => return Err(e),
            };
            let cursor = if present {
                let ghost before_start = wire.rest();
                let start_pos = match wire.u64() {
                    Ok(v) => v,
                    Err(e) => return Err(e),
                };
                if start_pos > usize::MAX as u64 {
                    return Err("IME preedit cursor is outside usize".to_owned());
                }
                let end_pos = match wire.u64() {
                    Ok(v) => v,
                    Err(e) => return Err(e),
                };
                if end_pos > usize::MAX as u64 {
                    return Err("IME preedit cursor is outside usize".to_owned());
                }
                let c = Some((start_pos as usize, end_pos as usize));
                assert(after_text =~= seq![1u8] + enc_u64(start_pos as nat) + enc_u64(
                    end_pos as nat,
                ) + wire.rest());
                c
            } else {
                assert(after_text =~= seq![0u8] + wire.rest());
                None
            };
            let event = ImeEvent::Preedit { text, cursor };
            assert(start =~= enc_ime(event) + wire.rest());
            event
        },
        2 => {
            proof {
                if let Some((ev, tail)) = expected {
                    if let ImeEvent::Commit(text) = ev {
                        assert(wire.rest() =~= enc_string(text@) + tail);
                    }
                }
            }
            let text = match wire.string() {
                Ok(text) => text,
                Err(e) => return Err(e),
            };
            let event = ImeEvent::Commit(text);
            assert(start =~= enc_ime(event) + wire.rest());
            event
        },
        3 => {
            proof {
                if let Some((ev, tail)) = expected {
                    assert(ev is Disabled);
                    lemma_split(start, enc_ime(ev), tail);
                }
            }
            assert(start =~= enc_ime(ImeEvent::Disabled) + wire.rest());
            ImeEvent::Disabled
        },
        _ => {
            proof {
                if let Some((ev, tail)) = expected {
                    assert(start[0] == enc_ime(ev)[0]);
                }
            }
            return Err("invalid control IME action".to_owned());
        },
    };
    proof {
        if let Some((ev, tail)) = expected {
            assert(event@ == ev@);
            assert(wire.rest() == tail);
        }
    }
    if let Err(e) = validate_ime_event(&event) {
        return Err(e);
    }
    Ok(event)
}



/// `expected`, when present, is a command with opcode `op`, valid or not,
/// whose fields start `rest`, followed by the given tail.
pub open spec fn expects(op: u8, rest: Seq<u8>, expected: Option<(CliCommand, Seq<u8>)>) -> bool {
    expected matches Some((c, tail)) ==> opcode(c) == op && rest == encode_fields(c) + tail
}

/// `cut`, when present, is a carried command with opcode `op` whose fields
/// were cut short to `rest`.
pub open spec fn cuts(op: u8, rest: Seq<u8>, cut: Option<CliCommand>) -> bool {
    cut matches Some(c) ==> opcode(c) == op && command_carried(c) && cut_short(encode_fields(c), rest)
}

/// What a request cut short from the encoding of `c` is refused with: it is
/// truncated, unless a key count already read asks for more keys than the
/// bytes left could hold.
pub open spec fn cut_error(c: CliCommand, e: Seq<char>) -> bool {
    e == truncated_error() || ((c is SendKeys || c is SendUiKeys) && e == key_count_error())
}

pub open spec fn cut_refused(result: Result<CliCommand, String>, cut: Option<CliCommand>) -> bool {
    cut matches Some(c) ==> (result matches Err(e) && cut_error(c, e@))
}

/// A field decoder's outcome: what it returns has opcode `op`, is valid, and
/// its fields are what was read; an expected valid command is always
/// decoded, and an expected invalid one gets its field-level refusal.
pub open spec fn decoded(
    op: u8,
    old_rest: Seq<u8>,
    new_rest: Seq<u8>,
    result: Result<CliCommand, String>,
    expected: Option<(CliCommand, Seq<u8>)>,
) -> bool {
    &&& result matches Ok(d) ==> opcode(d) == op && command_valid(d) && old_rest == encode_fields(d)
        + new_rest
    &&& expected matches Some((c, tail)) ==> (field_error(c@) is None ==> result is Ok && new_rest
        == tail)
    &&& expected matches Some((c, tail)) ==> (field_error(c@) matches Some(m) ==> (result matches Err(e)
        && e@ == m))
}

fn decode_new_tab(
    wire: &mut WireReader,
    Ghost(expected): Ghost<Option<(CliCommand, Seq<u8>)>>,
    Ghost(cut): Ghost<Option<CliCommand>>,
) -> (result: Result<CliCommand, String>)
    requires
    old(wire).wf(),
    expects(3, old(wire).rest(), expected),
    cuts(3, old(wire).rest(), cut),
    expected is None || cut is None,
    ensures
    final(wire).wf(),
    final(wire).bytes == old(wire).bytes,
    decoded(3, old(wire).rest(), final(wire).rest(), result, expected),
    cut_refused(result, cut),
    old(wire).rest().len() > 0 && old(wire).rest()[0] > 1 ==> (result matches Err(e) && e@
        == bool_tag_error()),
{
    proof {
    lemma_pow_values();
    }
    let ghost start = wire.rest();
    proof {
        if let Some((CliCommand::NewTab { parent }, tail)) = expected {
            assert(start =~= enc_opt_tab(parent) + tail);
        }
    }
    let parent = match wire.optional_tab() {
        Ok(t) => t,
        Err(e) => return Err(e),
    };
    let command = CliCommand::NewTab { parent };
    assert(start =~= encode_fields(command) + wire.rest());
    Ok(command)
}

fn decode_select_tab(
    wire: &mut WireReader,
    Ghost(expected): Ghost<Option<(CliCommand, Seq<u8>)>>,
    Ghost(cut): Ghost<Option<CliCommand>>,
) -> (result: Result<CliCommand, String>)
    requires
    old(wire).wf(),
    expects(4, old(wire).rest(), expected),
    cuts(4, old(wire).rest(), cut),
    expected is None || cut is None,
    ensures
    final(wire).wf(),
    final(wire).bytes == old(wire).bytes,
    decoded(4, old(wire).rest(), final(wire).rest(), result, expected),
    cut_refused(result, cut),
{
    proof {
    lemma_pow_values();
    }
    let ghost start = wire.rest();
    proof {
        if let Some((CliCommand::SelectTab { target: t }, tail)) = expected {
            assert(start =~= enc_tab(t) + tail);
        }
    }
    proof {
        if let Some(CliCommand::SelectTab { target }) = cut {
            lemma_le_bytes_len(target.0 as nat, 8);
        }
    }
    let t = match wire.tab() {
        Ok(t) => t,
        Err(e) => return Err(e),
    };
    let command = CliCommand::SelectTab { target: t };
    assert(start =~= encode_fields(command) + wire.rest());
    Ok(command)
}

fn decode_close_tab(
    wire: &mut WireReader,
    Ghost(expected): Ghost<Option<(CliCommand, Seq<u8>)>>,
    Ghost(cut): Ghost<Option<CliCommand>>,
) -> (result: Result<CliCommand, String>)
    requires
    old(wire).wf(),
    expects(5, old(wire).rest(), expected),
    cuts(5, old(wire).rest(), cut),
    expected is None || cut is None,
    ensures
    final(wire).wf(),
    final(wire).bytes == old(wire).bytes,
    decoded(5, old(wire).rest(), final(wire).rest(), result, expected),
    cut_refused(result, cut),
{
    proof {
    lemma_pow_values();
    }
    let ghost start = wire.rest();
    proof {
        if let Some((CliCommand::CloseTab { target: t }, tail)) = expected {
            assert(start =~= enc_tab(t) + tail);
        }
    }
    proof {
        if let Some(CliCommand::CloseTab { target }) = cut {
            lemma_le_bytes_len(target.0 as nat, 8);
        }
    }
    let t = match wire.tab() {
        Ok(t) => t,
        Err(e) => return Err(e),
    };
    let command = CliCommand::CloseTab { target: t };
    assert(start =~= encode_fields(command) + wire.rest());
    Ok(command)
}

#[verifier::spinoff_prover]
#[verifier::rlimit(60)]
fn decode_capture_pane(
    wire: &mut WireReader,
    Ghost(expected): Ghost<Option<(CliCommand, Seq<u8>)>>,
    Ghost(cut): Ghost<Option<CliCommand>>,
) -> (result: Result<CliCommand, String>)
    requires
    old(wire).wf(),
    expects(6, old(wire).rest(), expected),
    cuts(6, old(wire).rest(), cut),
    expected is None || cut is None,
    ensures
    final(wire).wf(),
    final(wire).bytes == old(wire).bytes,
    decoded(6, old(wire).rest(), final(wire).rest(), result, expected),
    cut_refused(result, cut),
    old(wire).rest().len() > 0 && old(wire).rest()[0] > 1 ==> (result matches Err(e) && e@
        == bool_tag_error()),
{
    proof {
    lemma_pow_values();
    }
    let ghost start = wire.rest();
    proof {
        if let Some(CliCommand::CapturePane { target: t, max_bytes }) = cut {
            lemma_le_bytes_len(max_bytes as nat, 8);
            lemma_cut_split(enc_opt_tab(t), enc_u64(max_bytes as nat), start);
            if start.len() >= enc_opt_tab(t).len() {
                assert(start == enc_opt_tab(t) + start.skip(enc_opt_tab(t).len() as int));
            }
        }
    }
    proof {
        if let Some((CliCommand::CapturePane { target: t, max_bytes }, tail)) = expected {
            assert(start =~= enc_opt_tab(t) + (enc_u64(max_bytes as nat)
                + tail));
        }
    }
    let t = match wire.optional_tab() {
        Ok(t) => t,
        Err(e) => return Err(e),
    };
    let raw = match wire.u64() {
        Ok(v) => v,
        Err(e) => return Err(e),
    };
    if raw > usize::MAX as u64 {
        return Err("capture size is outside usize".to_owned());
    }
    let max_bytes = raw as usize;
    if max_bytes == 0 || max_bytes > MAX_CAPTURE_BYTES {
        return Err("capture size is outside its allowed range".to_owned());
    }
    let command = CliCommand::CapturePane { target: t, max_bytes };
    assert(start =~= encode_fields(command) + wire.rest());
    Ok(command)
}

fn decode_screenshot_pane(
    wire: &mut WireReader,
    Ghost(expected): Ghost<Option<(CliCommand, Seq<u8>)>>,
    Ghost(cut): Ghost<Option<CliCommand>>,
) -> (result: Result<CliCommand, String>)
    requires
    old(wire).wf(),
    expects(7, old(wire).rest(), expected),
    cuts(7, old(wire).rest(), cut),
    expected is None || cut is None,
    ensures
    final(wire).wf(),
    final(wire).bytes == old(wire).bytes,
    decoded(7, old(wire).rest(), final(wire).rest(), result, expected),
    cut_refused(result, cut),
    forall|t: Option<TabId>, n: nat, raw: Seq<u8>, more: Seq<u8>|
        opt_tab_valid(t) && bad_string(n, raw) && old(wire).rest() == #[trigger] (enc_opt_tab(t) + (enc_u32(n)
            + (raw + more))) ==> (result matches Err(e) && e@ == utf8_error()),
    old(wire).rest().len() > 0 && old(wire).rest()[0] > 1 ==> (result matches Err(e) && e@
        == bool_tag_error()),
{
    proof {
    lemma_pow_values();
    }
    let ghost start = wire.rest();
    proof {
        if let Some((CliCommand::ScreenshotPane { target: t, output }, tail)) = expected {
            assert(start =~= enc_opt_tab(t) + (enc_string(output@)
                + tail));
        }
    }
    proof {
        if let Some(CliCommand::ScreenshotPane { target, output }) = cut {
            lemma_enc_string_len(output@);
            lemma_cut_split(enc_opt_tab(target), enc_string(output@), start);
            if start.len() >= enc_opt_tab(target).len() {
                assert(start == enc_opt_tab(target) + start.skip(enc_opt_tab(target).len() as int));
            }
        }
    }
    let t = match wire.optional_tab() {
        Ok(t) => t,
        Err(e) => return Err(e),
    };
    let output = match wire.string() {
        Ok(v) => v,
        Err(e) => return Err(e),
    };
    let command = CliCommand::ScreenshotPane { target: t, output };
    assert(start =~= encode_fields(command) + wire.rest());
    Ok(command)
}

fn decode_send_text(
    wire: &mut WireReader,
    Ghost(expected): Ghost<Option<(CliCommand, Seq<u8>)>>,
    Ghost(cut): Ghost<Option<CliCommand>>,
) -> (result: Result<CliCommand, String>)
    requires
    old(wire).wf(),
    expects(8, old(wire).rest(), expected),
    cuts(8, old(wire).rest(), cut),
    expected is None || cut is None,
    ensures
    final(wire).wf(),
    final(wire).bytes == old(wire).bytes,
    decoded(8, old(wire).rest(), final(wire).rest(), result, expected),
    cut_refused(result, cut),
    forall|t: Option<TabId>, n: nat, raw: Seq<u8>, more: Seq<u8>|
        opt_tab_valid(t) && bad_string(n, raw) && old(wire).rest() == #[trigger] (enc_opt_tab(t) + (enc_u32(n)
            + (raw + more))) ==> (result matches Err(e) && e@ == utf8_error()),
    old(wire).rest().len() > 0 && old(wire).rest()[0] > 1 ==> (result matches Err(e) && e@
        == bool_tag_error()),
{
    proof {
    lemma_pow_values();
    }
    let ghost start = wire.rest();
    proof {
        if let Some((CliCommand::SendText { target: t, text }, tail)) = expected {
            assert(start =~= enc_opt_tab(t) + (enc_string(text@) + tail));
        }
    }
    proof {
        if let Some(CliCommand::SendText { target, text }) = cut {
            lemma_enc_string_len(text@);
            lemma_cut_split(enc_opt_tab(target), enc_string(text@), start);
            if start.len() >= enc_opt_tab(target).len() {
                assert(start == enc_opt_tab(target) + start.skip(enc_opt_tab(target).len() as int));
            }
        }
    }
    let t = match wire.optional_tab() {
        Ok(t) => t,
        Err(e) => return Err(e),
    };
    let text = match wire.string() {
        Ok(v) => v,
        Err(e) => return Err(e),
    };
    let command = CliCommand::SendText { target: t, text };
    assert(start =~= encode_fields(command) + wire.rest());
    Ok(command)
}

fn decode_send_paste(
    wire: &mut WireReader,
    Ghost(expected): Ghost<Option<(CliCommand, Seq<u8>)>>,
    Ghost(cut): Ghost<Option<CliCommand>>,
) -> (result: Result<CliCommand, String>)
    requires
    old(wire).wf(),
    expects(13, old(wire).rest(), expected),
    cuts(13, old(wire).rest(), cut),
    expected is None || cut is None,
    ensures
    final(wire).wf(),
    final(wire).bytes == old(wire).bytes,
    decoded(13, old(wire).rest(), final(wire).rest(), result, expected),
    cut_refused(result, cut),
    forall|t: Option<TabId>, n: nat, raw: Seq<u8>, more: Seq<u8>|
        opt_tab_valid(t) && bad_string(n, raw) && old(wire).rest() == #[trigger] (enc_opt_tab(t) + (enc_u32(n)
            + (raw + more))) ==> (result matches Err(e) && e@ == utf8_error()),
    old(wire).rest().len() > 0 && old(wire).rest()[0] > 1 ==> (result matches Err(e) && e@
        == bool_tag_error()),
{
    proof {
    lemma_pow_values();
    }
    let ghost start = wire.rest();
    proof {
        if let Some((CliCommand::SendPaste { target: t, text }, tail)) = expected {
            assert(start =~= enc_opt_tab(t) + (enc_string(text@) + tail));
        }
    }
    proof {
        if let Some(CliCommand::SendPaste { target, text }) = cut {
            lemma_enc_string_len(text@);
            lemma_cut_split(enc_opt_tab(target), enc_string(text@), start);
            if start.len() >= enc_opt_tab(target).len() {
                assert(start == enc_opt_tab(target) + start.skip(enc_opt_tab(target).len() as int));
            }
        }
    }
    let t = match wire.optional_tab() {
        Ok(t) => t,
        Err(e) => return Err(e),
    };
    let text = match wire.string() {
        Ok(v) => v,
        Err(e) => return Err(e),
    };
    let command = CliCommand::SendPaste { target: t, text };
    assert(start =~= encode_fields(command) + wire.rest());
    Ok(command)
}

#[verifier::spinoff_prover]
#[verifier::rlimit(60)]
fn decode_send_keys(
    wire: &mut WireReader,
    Ghost(expected): Ghost<Option<(CliCommand, Seq<u8>)>>,
    Ghost(cut): Ghost<Option<CliCommand>>,
) -> (result: Result<CliCommand, String>)
    requires
    old(wire).wf(),
    expects(9, old(wire).rest(), expected),
    cuts(9, old(wire).rest(), cut),
    expected is None || cut is None,
    ensures
    final(wire).wf(),
    final(wire).bytes == old(wire).bytes,
    decoded(9, old(wire).rest(), final(wire).rest(), result, expected),
    cut_refused(result, cut),
    forall|t: Option<TabId>, n: nat, more: Seq<u8>|
        opt_tab_valid(t) && n <= u32::MAX && old(wire).rest() == #[trigger] (enc_opt_tab(t) + (enc_u32(n)
            + more)) && key_count_refused(n, more.len()) ==> (result matches Err(e) && e@
            == key_count_error()),
    old(wire).rest().len() > 0 && old(wire).rest()[0] > 1 ==> (result matches Err(e) && e@
        == bool_tag_error()),
{
    proof {
    lemma_pow_values();
    }
    let ghost start = wire.rest();
    let ghost inner: Option<(Seq<Seq<char>>, Seq<u8>)> = match expected {
        Some((CliCommand::SendKeys { keys, .. }, tail)) => Some(
            (string_views(keys@), tail),
        ),
        _ => None,
    };
    proof {
        if let Some((CliCommand::SendKeys { target: t, keys }, tail)) = expected {
            assert(start =~= enc_opt_tab(t) + (enc_key_list(string_views(keys@))
                + tail));
        }
    }
    proof {
        if let Some(CliCommand::SendKeys { target, keys }) = cut {
            let v = string_views(keys@);
            lemma_cut_split(enc_opt_tab(target), enc_key_list(v), start);
            if start.len() >= enc_opt_tab(target).len() {
                assert(start == enc_opt_tab(target) + start.skip(enc_opt_tab(target).len() as int));
            }
            lemma_enc_strings_len(v);
            lemma_le_bytes_len(v.len(), 4);
        }
    }
    let t = match wire.optional_tab() {
        Ok(t) => t,
        Err(e) => return Err(e),
    };
    let ghost inner_cut: Option<Seq<Seq<char>>> = match cut {
        Some(CliCommand::SendKeys { keys, .. }) => Some(string_views(keys@)),
        _ => None,
    };
    let keys = match read_key_list(wire, Ghost(inner), Ghost(inner_cut)) {
        Ok(keys) => keys,
        Err(e) => return Err(e),
    };
    let command = CliCommand::SendKeys { target: t, keys };
    assert(start =~= encode_fields(command) + wire.rest());
    Ok(command)
}

#[verifier::spinoff_prover]
#[verifier::rlimit(60)]
fn decode_send_ui_keys(
    wire: &mut WireReader,
    Ghost(expected): Ghost<Option<(CliCommand, Seq<u8>)>>,
    Ghost(cut): Ghost<Option<CliCommand>>,
) -> (result: Result<CliCommand, String>)
    requires
    old(wire).wf(),
    expects(17, old(wire).rest(), expected),
    cuts(17, old(wire).rest(), cut),
    expected is None || cut is None,
    ensures
    final(wire).wf(),
    final(wire).bytes == old(wire).bytes,
    decoded(17, old(wire).rest(), final(wire).rest(), result, expected),
    cut_refused(result, cut),
    forall|n: nat, more: Seq<u8>|
        n <= u32::MAX && old(wire).rest() == #[trigger] (enc_u32(n) + more) && key_count_refused(
            n,
            more.len(),
        ) ==> (result matches Err(e) && e@ == key_count_error()),
{
    proof {
    lemma_pow_values();
    }
    let ghost start = wire.rest();
    let ghost inner: Option<(Seq<Seq<char>>, Seq<u8>)> = match expected {
        Some((CliCommand::SendUiKeys { keys }, tail)) => Some(
            (string_views(keys@), tail),
        ),
        _ => None,
    };
    proof {
        if let Some((CliCommand::SendUiKeys { keys }, tail)) = expected {
            assert(start =~= enc_key_list(string_views(keys@)) + tail);
        }
    }
    let ghost inner_cut: Option<Seq<Seq<char>>> = match cut {
        Some(CliCommand::SendUiKeys { keys }) => Some(string_views(keys@)),
        _ => None,
    };
    proof {
        if let Some(CliCommand::SendUiKeys { keys }) = cut {
            let v = string_views(keys@);
            lemma_enc_strings_len(v);
            lemma_le_bytes_len(v.len(), 4);
        }
    }
    let keys = match read_key_list(wire, Ghost(inner), Ghost(inner_cut)) {
        Ok(keys) => keys,
        Err(e) => return Err(e),
    };
    let command = CliCommand::SendUiKeys { keys };
    assert(start =~= encode_fields(command) + wire.rest());
    Ok(command)
}

#[verifier::spinoff_prover]
#[verifier::rlimit(60)]
fn decode_send_ui_ime(
    wire: &mut WireReader,
    Ghost(expected): Ghost<Option<(CliCommand, Seq<u8>)>>,
    Ghost(cut): Ghost<Option<CliCommand>>,
) -> (result: Result<CliCommand, String>)
    requires
    old(wire).wf(),
    expects(20, old(wire).rest(), expected),
    cuts(20, old(wire).rest(), cut),
    expected is None || cut is None,
    ensures
    final(wire).wf(),
    final(wire).bytes == old(wire).bytes,
    decoded(20, old(wire).rest(), final(wire).rest(), result, expected),
    cut_refused(result, cut),
    forall|tag: u8, n: nat, raw: Seq<u8>, more: Seq<u8>|
        (tag == 1 || tag == 2) && bad_string(n, raw) && old(wire).rest() == #[trigger] (seq![tag] + (enc_u32(n)
            + (raw + more))) ==> (result matches Err(e) && e@ == utf8_error()),
    old(wire).rest().len() > 0 && old(wire).rest()[0] > 3 ==> (result matches Err(e) && e@
        == ime_action_error()),
{
    proof {
    lemma_pow_values();
    }
    let ghost start = wire.rest();
    let ghost inner: Option<(ImeEvent, Seq<u8>)> = match expected {
        Some((CliCommand::SendUiIme { event }, tail)) => Some((event, tail)),
        _ => None,
    };
    proof {
        if let Some((CliCommand::SendUiIme { event }, tail)) = expected {
            assert(start =~= enc_ime(event) + tail);
        }
    }
    let ghost inner_cut: Option<ImeEvent> = match cut {
        Some(CliCommand::SendUiIme { event }) => Some(event),
        _ => None,
    };
    let event = match read_ime(wire, Ghost(inner), Ghost(inner_cut)) {
        Ok(event) => event,
        Err(e) => return Err(e),
    };
    let command = CliCommand::SendUiIme { event };
    assert(start =~= encode_fields(command) + wire.rest());
    Ok(command)
}

#[verifier::spinoff_prover]
#[verifier::rlimit(60)]
fn decode_send_mouse(
    wire: &mut WireReader,
    Ghost(expected): Ghost<Option<(CliCommand, Seq<u8>)>>,
    Ghost(cut): Ghost<Option<CliCommand>>,
) -> (result: Result<CliCommand, String>)
    requires
    old(wire).wf(),
    expects(10, old(wire).rest(), expected),
    cuts(10, old(wire).rest(), cut),
    expected is None || cut is None,
    ensures
    final(wire).wf(),
    final(wire).bytes == old(wire).bytes,
    decoded(10, old(wire).rest(), final(wire).rest(), result, expected),
    cut_refused(result, cut),
    old(wire).rest().len() > 0 && old(wire).rest()[0] > 1 ==> (result matches Err(e) && e@
        == bool_tag_error()),
    forall|t: Option<TabId>, tags: Seq<u8>|
        opt_tab_valid(t) && old(wire).rest() == #[trigger] (enc_opt_tab(t) + tags) && mouse_tag_error(tags)
            is Some ==> (result matches Err(e) && Some(e@) == mouse_tag_error(tags)),
{
    proof {
    lemma_pow_values();
    }
    let ghost start = wire.rest();
    proof {
        if let Some(CliCommand::SendMouse { target: t, action, button, column, row }) = cut {
            let a = enc_opt_tab(t);
            let rest = seq![action.spec_wire_tag()] + (seq![button.spec_wire_tag()] + (enc_u16(column) + enc_u16(row)));
            lemma_le_bytes_len(column as nat, 2);
            lemma_le_bytes_len(row as nat, 2);
            assert(encode_fields(cut->0) =~= a + rest);
            lemma_cut_split(a, rest, start);
            if start.len() >= a.len() {
                assert(start == a + start.skip(a.len() as int));
            }
        }
    }
    proof {
        if let Some((CliCommand::SendMouse { target: t, action, button, column, row }, tail)) =
            expected {
            assert(start =~= enc_opt_tab(t) + (seq![action.spec_wire_tag()] + (
            seq![button.spec_wire_tag()] + (enc_u16(column) + (enc_u16(row)
                + tail)))));
        }
    }
    let t = match wire.optional_tab() {
        Ok(t) => t,
        Err(e) => return Err(e),
    };
    proof {
        if let Some(CliCommand::SendMouse { action, button, column, row, .. }) = cut {
            lemma_cut_split(seq![action.spec_wire_tag()], seq![button.spec_wire_tag()] + (enc_u16(column) + enc_u16(row)), wire.rest());
        }
    }
    let action_tag = match wire.byte() {
        Ok(b) => b,
        Err(e) => return Err(e),
    };
    proof {
        if let Some((CliCommand::SendMouse { button: b, column, row, .. }, tail)) = expected {
            assert(wire.rest() =~= seq![b.spec_wire_tag()] + (enc_u16(column) + (enc_u16(row)
                + tail)));
        }
    }
    let action = match MouseAction::from_wire_tag(action_tag) {
        Some(action) => action,
        None => return Err("invalid control mouse action".to_owned()),
    };
    proof {
        if let Some(CliCommand::SendMouse { button, column, row, .. }) = cut {
            lemma_cut_split(seq![button.spec_wire_tag()], enc_u16(column) + enc_u16(row), wire.rest());
        }
    }
    let button_tag = match wire.byte() {
        Ok(b) => b,
        Err(e) => return Err(e),
    };
    proof {
        if let Some((CliCommand::SendMouse { column, row, .. }, tail)) = expected {
            assert(wire.rest() =~= enc_u16(column) + (enc_u16(row) + tail));
        }
    }
    let button = match MouseButton::from_wire_tag(button_tag) {
        Some(button) => button,
        None => return Err("invalid control mouse button".to_owned()),
    };
    let is_move = match action {
        MouseAction::Move => true,
        _ => false,
    };
    let is_none = match button {
        MouseButton::NoButton => true,
        _ => false,
    };
    if is_move != is_none {
        return Err("invalid control mouse action/button pair".to_owned());
    }
    proof {
        if let Some(CliCommand::SendMouse { column, row, .. }) = cut {
            lemma_cut_split(enc_u16(column), enc_u16(row), wire.rest());
            if wire.rest().len() >= 2 {
                assert(wire.rest() == enc_u16(column) + wire.rest().skip(2));
            }
        }
    }
    let column = match wire.u16() {
        Ok(v) => v,
        Err(e) => return Err(e),
    };
    let row = match wire.u16() {
        Ok(v) => v,
        Err(e) => return Err(e),
    };
    let command = CliCommand::SendMouse { target: t, action, button, column, row };
    assert(start =~= encode_fields(command) + wire.rest());
    Ok(command)
}

#[verifier::spinoff_prover]
#[verifier::rlimit(60)]
fn decode_send_wheel(
    wire: &mut WireReader,
    Ghost(expected): Ghost<Option<(CliCommand, Seq<u8>)>>,
    Ghost(cut): Ghost<Option<CliCommand>>,
) -> (result: Result<CliCommand, String>)
    requires
    old(wire).wf(),
    expects(11, old(wire).rest(), expected),
    cuts(11, old(wire).rest(), cut),
    expected is None || cut is None,
    ensures
    final(wire).wf(),
    final(wire).bytes == old(wire).bytes,
    decoded(11, old(wire).rest(), final(wire).rest(), result, expected),
    cut_refused(result, cut),
    old(wire).rest().len() > 0 && old(wire).rest()[0] > 1 ==> (result matches Err(e) && e@
        == bool_tag_error()),
{
    proof {
    lemma_pow_values();
    }
    let ghost start = wire.rest();
    proof {
        if let Some((CliCommand::SendWheel { target: t, column, row, notches, ctrl }, tail)) =
            expected {
            assert(start =~= enc_opt_tab(t) + (enc_u16(column) + (enc_u16(row) + (
            enc_i16(notches) + (enc_bool(ctrl) + tail)))));
        }
    }
    proof {
        if let Some(CliCommand::SendWheel { target, column, row, notches, ctrl }) = cut {
            let a = enc_opt_tab(target);
            let rest = enc_u16(column) + (enc_u16(row) + (enc_i16(notches) + enc_bool(ctrl)));
            assert(encode_fields(cut->0) =~= a + rest);
            lemma_cut_split(a, rest, start);
            if start.len() >= a.len() {
                assert(start == a + start.skip(a.len() as int));
            }
        }
    }
    let t = match wire.optional_tab() {
        Ok(t) => t,
        Err(e) => return Err(e),
    };
    proof {
        if let Some(CliCommand::SendWheel { column, row, notches, ctrl, .. }) = cut {
            lemma_le_bytes_len(column as nat, 2);
            lemma_cut_split(enc_u16(column), enc_u16(row) + (enc_i16(notches) + enc_bool(ctrl)), wire.rest());
            if wire.rest().len() >= 2 {
                assert(wire.rest() == enc_u16(column) + wire.rest().skip(2));
            }
        }
    }
    let column = match wire.u16() {
        Ok(v) => v,
        Err(e) => return Err(e),
    };
    proof {
        if let Some(CliCommand::SendWheel { row, notches, ctrl, .. }) = cut {
            lemma_le_bytes_len(row as nat, 2);
            lemma_cut_split(enc_u16(row), enc_i16(notches) + enc_bool(ctrl), wire.rest());
            if wire.rest().len() >= 2 {
                assert(wire.rest() == enc_u16(row) + wire.rest().skip(2));
            }
        }
    }
    let row = match wire.u16() {
        Ok(v) => v,
        Err(e) => return Err(e),
    };
    proof {
        if let Some(CliCommand::SendWheel { notches, ctrl, .. }) = cut {
            lemma_le_bytes_len((notches as u16) as nat, 2);
            lemma_cut_split(enc_i16(notches), enc_bool(ctrl), wire.rest());
            if wire.rest().len() >= 2 {
                assert(wire.rest() == enc_i16(notches) + wire.rest().skip(2));
            }
        }
    }
    let notches = match wire.i16() {
        Ok(v) => v,
        Err(e) => return Err(e),
    };
    if notches == 0 {
        return Err("control wheel notches must not be zero".to_owned());
    }
    let ctrl = match wire.boolean() {
        Ok(v) => v,
        Err(e) => return Err(e),
    };
    let command = CliCommand::SendWheel { target: t, column, row, notches, ctrl };
    assert(start =~= encode_fields(command) + wire.rest());
    Ok(command)
}

#[verifier::spinoff_prover]
#[verifier::rlimit(60)]
fn decode_wait_text(
    wire: &mut WireReader,
    Ghost(expected): Ghost<Option<(CliCommand, Seq<u8>)>>,
    Ghost(cut): Ghost<Option<CliCommand>>,
) -> (result: Result<CliCommand, String>)
    requires
    old(wire).wf(),
    expects(12, old(wire).rest(), expected),
    cuts(12, old(wire).rest(), cut),
    expected is None || cut is None,
    ensures
    final(wire).wf(),
    final(wire).bytes == old(wire).bytes,
    decoded(12, old(wire).rest(), final(wire).rest(), result, expected),
    cut_refused(result, cut),
    forall|t: Option<TabId>, n: nat, raw: Seq<u8>, more: Seq<u8>|
        opt_tab_valid(t) && bad_string(n, raw) && old(wire).rest() == #[trigger] (enc_opt_tab(t) + (enc_u32(n)
            + (raw + more))) ==> (result matches Err(e) && e@ == utf8_error()),
    old(wire).rest().len() > 0 && old(wire).rest()[0] > 1 ==> (result matches Err(e) && e@
        == bool_tag_error()),
{
    proof {
    lemma_pow_values();
    }
    let ghost start = wire.rest();
    proof {
        if let Some(CliCommand::WaitText { target: t, text, timeout_ms }) = cut {
            let a = enc_opt_tab(t);
            let b = enc_string(text@);
            let u = enc_u64(timeout_ms as nat);
            lemma_le_bytes_len(timeout_ms as nat, 8);
            assert(encode_fields(cut->0) =~= a + (b + u));
            lemma_cut_split(a, b + u, start);
            if start.len() >= a.len() {
                let r1 = start.skip(a.len() as int);
                assert(start == a + r1);
                lemma_cut_split(b, u, r1);
                if r1.len() >= b.len() {
                    assert(r1 == b + r1.skip(b.len() as int));
                }
            }
        }
    }
    proof {
        if let Some((CliCommand::WaitText { target: t, text, timeout_ms }, tail)) = expected {
            assert(start =~= enc_opt_tab(t) + (enc_string(text@) + (enc_u64(
                timeout_ms as nat,
            ) + tail)));
        }
    }
    proof {
        if let Some(CliCommand::WaitText { text, .. }) = cut {
            lemma_enc_string_len(text@);
        }
    }
    let t = match wire.optional_tab() {
        Ok(t) => t,
        Err(e) => return Err(e),
    };
    let text = match wire.string() {
        Ok(v) => v,
        Err(e) => return Err(e),
    };
    let timeout_ms = match wire.u64() {
        Ok(v) => v,
        Err(e) => return Err(e),
    };
    if timeout_ms == 0 || timeout_ms > 120000 {
        return Err("control wait timeout is outside its allowed range".to_owned());
    }
    let command = CliCommand::WaitText { target: t, text, timeout_ms };
    assert(start =~= encode_fields(command) + wire.rest());
    Ok(command)
}

fn decode_resize_window(
    wire: &mut WireReader,
    Ghost(expected): Ghost<Option<(CliCommand, Seq<u8>)>>,
    Ghost(cut): Ghost<Option<CliCommand>>,
) -> (result: Result<CliCommand, String>)
    requires
    old(wire).wf(),
    expects(14, old(wire).rest(), expected),
    cuts(14, old(wire).rest(), cut),
    expected is None || cut is None,
    ensures
    final(wire).wf(),
    final(wire).bytes == old(wire).bytes,
    decoded(14, old(wire).rest(), final(wire).rest(), result, expected),
    cut_refused(result, cut),
{
    proof {
    lemma_pow_values();
    }
    let ghost start = wire.rest();
    proof {
        if let Some((CliCommand::ResizeWindow { width, height }, tail)) = expected {
            assert(start =~= enc_u16(width) + (enc_u16(height) + tail));
        }
    }
    proof {
        if let Some(CliCommand::ResizeWindow { width, height }) = cut {
            lemma_le_bytes_len(width as nat, 2);
            lemma_le_bytes_len(height as nat, 2);
            lemma_cut_split(enc_u16(width), enc_u16(height), start);
            if start.len() >= 2 {
                assert(start == enc_u16(width) + start.skip(2));
            }
        }
    }
    let width = match wire.u16() {
        Ok(v) => v,
        Err(e) => return Err(e),
    };
    let height = match wire.u16() {
        Ok(v) => v,
        Err(e) => return Err(e),
    };
    if let Err(e) = validate_window_size(width, height) {
        return Err(e);
    }
    let command = CliCommand::ResizeWindow { width, height };
    assert(start =~= encode_fields(command) + wire.rest());
    Ok(command)
}

#[verifier::spinoff_prover]
#[verifier::rlimit(60)]
fn decode_wait_tab_exit(
    wire: &mut WireReader,
    Ghost(expected): Ghost<Option<(CliCommand, Seq<u8>)>>,
    Ghost(cut): Ghost<Option<CliCommand>>,
) -> (result: Result<CliCommand, String>)
    requires
    old(wire).wf(),
    expects(18, old(wire).rest(), expected),
    cuts(18, old(wire).rest(), cut),
    expected is None || cut is None,
    ensures
    final(wire).wf(),
    final(wire).bytes == old(wire).bytes,
    decoded(18, old(wire).rest(), final(wire).rest(), result, expected),
    cut_refused(result, cut),
{
    proof {
    lemma_pow_values();
    }
    let ghost start = wire.rest();
    proof {
        if let Some(CliCommand::WaitTabExit { target: t, timeout_ms }) = cut {
            lemma_le_bytes_len(t.0 as nat, 8);
            lemma_le_bytes_len(timeout_ms as nat, 8);
            lemma_cut_split(enc_tab(t), enc_u64(timeout_ms as nat), start);
            if start.len() >= 8 {
                assert(start == enc_tab(t) + start.skip(8));
            }
        }
    }
    proof {
        if let Some((CliCommand::WaitTabExit { target: t, timeout_ms }, tail)) = expected {
            assert(start =~= enc_tab(t) + (enc_u64(timeout_ms as nat)
                + tail));
        }
    }
    let t = match wire.tab() {
        Ok(t) => t,
        Err(e) => return Err(e),
    };
    let timeout_ms = match wire.u64() {
        Ok(v) => v,
        Err(e) => return Err(e),
    };
    if timeout_ms == 0 || timeout_ms > 120000 {
        return Err("control wait timeout is outside its allowed range".to_owned());
    }
    let command = CliCommand::WaitTabExit { target: t, timeout_ms };
    assert(start =~= encode_fields(command) + wire.rest());
    Ok(command)
}

fn decode_set_window_attached(
    wire: &mut WireReader,
    Ghost(expected): Ghost<Option<(CliCommand, Seq<u8>)>>,
    Ghost(cut): Ghost<Option<CliCommand>>,
) -> (result: Result<CliCommand, String>)
    requires
    old(wire).wf(),
    expects(22, old(wire).rest(), expected),
    cuts(22, old(wire).rest(), cut),
    expected is None || cut is None,
    ensures
    final(wire).wf(),
    final(wire).bytes == old(wire).bytes,
    decoded(22, old(wire).rest(), final(wire).rest(), result, expected),
    cut_refused(result, cut),
    old(wire).rest().len() > 0 && old(wire).rest()[0] > 1 ==> (result matches Err(e) && e@
        == bool_tag_error()),
{
    let ghost start = wire.rest();
    let attached = match wire.boolean() {
        Ok(b) => b,
        Err(e) => return Err(e),
    };
    let command = CliCommand::SetWindowAttached { attached };
    assert(start == encode_fields(command) + wire.rest());
    Ok(command)
}

/// The opcodes a command can start with.
pub open spec fn known_opcode(op: u8) -> bool {
    op <= 20 || op == 22
}

/// Decodes the fields that follow opcode `op`.
fn decode_body(
    wire: &mut WireReader,
    op: u8,
    Ghost(expected): Ghost<Option<(CliCommand, Seq<u8>)>>,
    Ghost(cut): Ghost<Option<CliCommand>>,
) -> (result: Result<CliCommand, String>)
    requires
        old(wire).wf(),
        expects(op, old(wire).rest(), expected),
        cuts(op, old(wire).rest(), cut),
        expected is None || cut is None,
    ensures
        final(wire).wf(),
        final(wire).bytes == old(wire).bytes,
        decoded(op, old(wire).rest(), final(wire).rest(), result, expected),
        cut_refused(result, cut),
        !known_opcode(op) ==> (result matches Err(e) && e@ == unknown_opcode_error()),
        op == 20 && old(wire).rest().len() > 0 && old(wire).rest()[0] > 3 ==> (result matches Err(e)
            && e@ == ime_action_error()),
        bool_led(op) && old(wire).rest().len() > 0 && old(wire).rest()[0] > 1 ==> (result matches Err(e)
            && e@ == bool_tag_error()),
        string_led(op) ==> forall|t: Option<TabId>, n: nat, raw: Seq<u8>, more: Seq<u8>|
            opt_tab_valid(t) && bad_string(n, raw) && old(wire).rest() == #[trigger] (enc_opt_tab(t) + (
            enc_u32(n) + (raw + more))) ==> (result matches Err(e) && e@ == utf8_error()),
        op == 20 ==> forall|tag: u8, n: nat, raw: Seq<u8>, more: Seq<u8>|
            (tag == 1 || tag == 2) && bad_string(n, raw) && old(wire).rest() == #[trigger] (seq![tag] + (
            enc_u32(n) + (raw + more))) ==> (result matches Err(e) && e@ == utf8_error()),
        op == 9 ==> forall|t: Option<TabId>, n: nat, more: Seq<u8>|
            opt_tab_valid(t) && n <= u32::MAX && old(wire).rest() == #[trigger] (enc_opt_tab(t) + (enc_u32(n)
                + more)) && key_count_refused(n, more.len()) ==> (result matches Err(e) && e@
                == key_count_error()),
        op == 17 ==> forall|n: nat, more: Seq<u8>|
            n <= u32::MAX && old(wire).rest() == #[trigger] (enc_u32(n) + more) && key_count_refused(
                n,
                more.len(),
            ) ==> (result matches Err(e) && e@ == key_count_error()),
        op == 10 ==> forall|t: Option<TabId>, tags: Seq<u8>|
            opt_tab_valid(t) && old(wire).rest() == #[trigger] (enc_opt_tab(t) + tags) && mouse_tag_error(tags)
                is Some ==> (result matches Err(e) && Some(e@) == mouse_tag_error(tags)),
{
    proof {
        if let Some((c, tail)) = expected {
            assert(encode_fields(c).len() == 0 ==> wire.rest() =~= tail);
        }
        assert(wire.rest() =~= Seq::<u8>::empty() + wire.rest());
    }
    match op {
        0 => Ok(CliCommand::ListTabs),
        16 => Ok(CliCommand::UiSnapshot),
        1 => Ok(CliCommand::PerfStats),
        2 => Ok(CliCommand::ResetPerfStats),
        15 => Ok(CliCommand::CloseWindow),
        19 => Ok(CliCommand::CancelPointer),
        3 => decode_new_tab(wire, Ghost(expected), Ghost(cut)),
        4 => decode_select_tab(wire, Ghost(expected), Ghost(cut)),
        5 => decode_close_tab(wire, Ghost(expected), Ghost(cut)),
        6 => decode_capture_pane(wire, Ghost(expected), Ghost(cut)),
        7 => decode_screenshot_pane(wire, Ghost(expected), Ghost(cut)),
        8 => decode_send_text(wire, Ghost(expected), Ghost(cut)),
        13 => decode_send_paste(wire, Ghost(expected), Ghost(cut)),
        9 => decode_send_keys(wire, Ghost(expected), Ghost(cut)),
        17 => decode_send_ui_keys(wire, Ghost(expected), Ghost(cut)),
        20 => decode_send_ui_ime(wire, Ghost(expected), Ghost(cut)),
        10 => decode_send_mouse(wire, Ghost(expected), Ghost(cut)),
        11 => decode_send_wheel(wire, Ghost(expected), Ghost(cut)),
        12 => decode_wait_text(wire, Ghost(expected), Ghost(cut)),
        14 => decode_resize_window(wire, Ghost(expected), Ghost(cut)),
        18 => decode_wait_tab_exit(wire, Ghost(expected), Ghost(cut)),
        22 => decode_set_window_attached(wire, Ghost(expected), Ghost(cut)),
        _ => Err("unknown control command opcode".to_owned()),
    }
}

pub open spec fn trailing_error() -> Seq<char> {
    "trailing bytes in control request"@
}

/// `bytes` are a carried command's encoding followed by more bytes.
pub open spec fn has_trailing_bytes(bytes: Seq<u8>) -> bool {
    exists|c: CliCommand, extra: Seq<u8>|
        command_carried(c) && extra.len() > 0 && #[trigger] (encode_command(c) + extra) == bytes
}

pub open spec fn unknown_opcode_error() -> Seq<char> {
    "unknown control command opcode"@
}

pub open spec fn request_size_error() -> Seq<char> {
    "control request is empty or oversized"@
}

/// Some carried command is encoded as exactly `bytes`.
pub open spec fn is_request_encoding(bytes: Seq<u8>) -> bool {
    exists|c: CliCommand| command_carried(c) && encode_command(c) == bytes
}

/// Some command that fits a request, but breaks a field-level rule, is
/// encoded as exactly `bytes`.
pub open spec fn is_refused_encoding(bytes: Seq<u8>) -> bool {
    exists|c: CliCommand| command_sized(c) && field_error(c@) is Some && encode_command(c) == bytes
}

/// Bytes that encode a command breaking a field-level rule encode no
/// carried command, alone or followed by more bytes, and every command they
/// encode is the same.
proof fn lemma_refused_encoding(bytes: Seq<u8>, c0: CliCommand)
    requires
        command_sized(c0),
        field_error(c0@) is Some,
        encode_command(c0) == bytes,
    ensures
        !is_request_encoding(bytes),
        !has_trailing_bytes(bytes),
        forall|c: CliCommand| #![trigger encode_command(c)]
            command_sized(c) && encode_command(c) == bytes ==> c@ == c0@,
{
    if is_request_encoding(bytes) {
        let c1 = choose|c: CliCommand| command_carried(c) && encode_command(c) == bytes;
        crate::wire_law::law_encoding_is_unambiguous(c1, c0);
        lemma_valid_iff_no_field_error(c1);
    }
    if has_trailing_bytes(bytes) {
        let c2 = choose|c: CliCommand|
            #[trigger] command_carried(c) && exists|extra: Seq<u8>|
                extra.len() > 0 && #[trigger] (encode_command(c) + extra) == bytes;
        let extra = choose|extra: Seq<u8>|
            command_carried(c2) && extra.len() > 0 && #[trigger] (encode_command(c2) + extra) == bytes;
        assert(encode_command(c0) + Seq::<u8>::empty() =~= encode_command(c0));
        crate::wire_law::law_encoding_is_prefix_free(c2, c0, extra, Seq::<u8>::empty());
    }
    assert forall|c: CliCommand| #![trigger encode_command(c)]
        command_sized(c) && encode_command(c) == bytes implies c@ == c0@ by {
        crate::wire_law::law_encoding_is_unambiguous(c, c0);
    }
}

/// `bytes` are the encoding of a carried command cut short after `k` bytes.
pub open spec fn cut_encoding(bytes: Seq<u8>, c: CliCommand, k: int) -> bool {
    command_carried(c) && 1 <= k < encode_command(c).len() && bytes == encode_command(c).take(k)
}

/// A carried command's encoding cut short encodes nothing else: no carried
/// command, alone or with bytes behind it, and no refused one; and every
/// command it was cut from starts with the same opcode.
proof fn lemma_cut_encoding(bytes: Seq<u8>, c0: CliCommand, k0: int)
    requires
        cut_encoding(bytes, c0, k0),
    ensures
        !is_request_encoding(bytes),
        !has_trailing_bytes(bytes),
        !is_refused_encoding(bytes),
        forall|c: CliCommand, k: int| #![trigger cut_encoding(bytes, c, k)]
            cut_encoding(bytes, c, k) ==> opcode(c) == opcode(c0),
{
    let full = encode_command(c0);
    let more = full.skip(k0);
    assert(bytes + more =~= full);
    assert(more.len() > 0);
    if is_request_encoding(bytes) {
        let c1 = choose|c: CliCommand| command_carried(c) && encode_command(c) == bytes;
        assert(full + Seq::<u8>::empty() =~= full);
        crate::wire_law::law_encoding_is_prefix_free(c1, c0, more, Seq::<u8>::empty());
    }
    if has_trailing_bytes(bytes) {
        let c2 = choose|c: CliCommand|
            #[trigger] command_carried(c) && exists|extra: Seq<u8>|
                extra.len() > 0 && #[trigger] (encode_command(c) + extra) == bytes;
        let extra = choose|extra: Seq<u8>|
            command_carried(c2) && extra.len() > 0 && #[trigger] (encode_command(c2) + extra) == bytes;
        assert(encode_command(c2) + (extra + more) =~= full + Seq::<u8>::empty());
        crate::wire_law::law_encoding_is_prefix_free(c2, c0, extra + more, Seq::<u8>::empty());
    }
    if is_refused_encoding(bytes) {
        let c3 = choose|c: CliCommand| command_sized(c) && field_error(c@) is Some && encode_command(c) == bytes;
        assert(full + Seq::<u8>::empty() =~= full);
        crate::wire_law::law_encoding_is_prefix_free(c3, c0, more, Seq::<u8>::empty());
    }
    assert forall|c: CliCommand, k: int| #![trigger cut_encoding(bytes, c, k)]
        cut_encoding(bytes, c, k) implies opcode(c) == opcode(c0) by {
        assert(bytes[0] == encode_command(c)[0]);
        assert(bytes[0] == full[0]);
    }
}

/// The command the decoder follows when `bytes` are a carried command's
/// encoding cut short.
proof fn lemma_cut_fields(bytes: Seq<u8>, c0: CliCommand, k0: int)
    requires
        cut_encoding(bytes, c0, k0),
    ensures
        bytes[0] == opcode(c0),
        cut_short(encode_fields(c0), bytes.skip(1)),
{
    let full = encode_command(c0);
    assert(full =~= seq![opcode(c0)] + encode_fields(c0));
    assert(bytes.skip(1) =~= encode_fields(c0).take(k0 - 1));
}

#[verifier::spinoff_prover]
#[verifier::rlimit(80)]
fn decode_command(bytes: &[u8]) -> (result: Result<CliCommand, String>)
    ensures
        forall|c: CliCommand| #![trigger encode_command(c)]
            command_sized(c) && encode_command(c) == bytes@ && field_error(c@) is Some ==> (result matches Err(
                e,
            ) && Some(e@) == field_error(c@)),
        forall|c: CliCommand, k: int| #![trigger cut_encoding(bytes@, c, k)]
            cut_encoding(bytes@, c, k) ==> (result matches Err(e) && cut_error(c, e@)),
        result matches Ok(c) ==> command_carried(c) && encode_command(c) == bytes@,
        is_request_encoding(bytes@) ==> result is Ok,
        has_trailing_bytes(bytes@) && bytes@.len() <= REQUEST_MAX_BYTES ==> (result matches Err(e)
            && e@ == trailing_error()),
        0 < bytes@.len() <= REQUEST_MAX_BYTES && !known_opcode(bytes@[0]) ==> (result matches Err(e) && e@
            == unknown_opcode_error()),
        (bytes@.len() == 0 || bytes@.len() > REQUEST_MAX_BYTES) ==> (result matches Err(e) && e@
            == request_size_error()),
        bytes@.len() <= REQUEST_MAX_BYTES && bytes@.len() > 1 && bytes@[0] == 20 && bytes@[1] > 3 ==> (
        result matches Err(e) && e@ == ime_action_error()),
        bytes@.len() <= REQUEST_MAX_BYTES && bytes@.len() > 1 && bool_led(bytes@[0]) && bytes@[1] > 1 ==> (
        result matches Err(e) && e@ == bool_tag_error()),
        forall|t: Option<TabId>, n: nat, raw: Seq<u8>, more: Seq<u8>|
            bytes@.len() <= REQUEST_MAX_BYTES && bytes@.len() > 0 && string_led(bytes@[0]) && opt_tab_valid(t)
                && bad_string(n, raw) && bytes@ == seq![bytes@[0]] + #[trigger] (enc_opt_tab(t) + (enc_u32(n)
                + (raw + more))) ==> (result matches Err(e) && e@ == utf8_error()),
        forall|tag: u8, n: nat, raw: Seq<u8>, more: Seq<u8>|
            bytes@.len() <= REQUEST_MAX_BYTES && (tag == 1 || tag == 2) && bad_string(n, raw) && bytes@
                == seq![20u8] + #[trigger] (seq![tag] + (enc_u32(n) + (raw + more))) ==> (result matches Err(e)
                && e@ == utf8_error()),
        forall|t: Option<TabId>, n: nat, more: Seq<u8>|
            bytes@.len() <= REQUEST_MAX_BYTES && opt_tab_valid(t) && n <= u32::MAX && bytes@ == seq![9u8]
                + #[trigger] (enc_opt_tab(t) + (enc_u32(n) + more)) && key_count_refused(n, more.len()) ==> (
            result matches Err(e) && e@ == key_count_error()),
        forall|n: nat, more: Seq<u8>|
            bytes@.len() <= REQUEST_MAX_BYTES && n <= u32::MAX && bytes@ == seq![17u8] + #[trigger] (enc_u32(n)
                + more) && key_count_refused(n, more.len()) ==> (result matches Err(e) && e@
                == key_count_error()),
        forall|t: Option<TabId>, tags: Seq<u8>|
            bytes@.len() <= REQUEST_MAX_BYTES && opt_tab_valid(t) && bytes@ == seq![10u8] + #[trigger] (
            enc_opt_tab(t) + tags) && mouse_tag_error(tags) is Some ==> (result matches Err(e) && Some(e@)
                == mouse_tag_error(tags)),
{
    if bytes.len() == 0 || bytes.len() > REQUEST_MAX_BYTES {
        return Err("control request is empty or oversized".to_owned());
    }
    let ghost target: Option<(CliCommand, Seq<u8>)> = if is_request_encoding(bytes@) {
        Some(
            (
                choose|c: CliCommand| command_carried(c) && encode_command(c) == bytes@,
                Seq::<u8>::empty(),
            ),
        )
    } else if has_trailing_bytes(bytes@) {
        let c = choose|c: CliCommand|
            #[trigger] command_carried(c) && exists|extra: Seq<u8>|
                extra.len() > 0 && #[trigger] (encode_command(c) + extra) == bytes@;
        let extra = choose|extra: Seq<u8>|
            command_carried(c) && extra.len() > 0 && #[trigger] (encode_command(c) + extra) == bytes@;
        Some((c, extra))
    } else if is_refused_encoding(bytes@) {
        Some(
            (
                choose|c: CliCommand| command_sized(c) && field_error(c@) is Some && encode_command(c) == bytes@,
                Seq::<u8>::empty(),
            ),
        )
    } else {
        None
    };
    proof {
        if is_refused_encoding(bytes@) {
            let c0 = choose|c: CliCommand| command_sized(c) && field_error(c@) is Some && encode_command(c) == bytes@;
            lemma_refused_encoding(bytes@, c0);
        }
    }
    let ghost cut: Option<CliCommand> = if exists|c: CliCommand, k: int| cut_encoding(bytes@, c, k) {
        let (c0, k0) = choose|c: CliCommand, k: int| cut_encoding(bytes@, c, k);
        Some(c0)
    } else {
        None
    };
    proof {
        if exists|c: CliCommand, k: int| cut_encoding(bytes@, c, k) {
            let (c0, k0) = choose|c: CliCommand, k: int| cut_encoding(bytes@, c, k);
            lemma_cut_encoding(bytes@, c0, k0);
            lemma_cut_fields(bytes@, c0, k0);
        }
    }
    proof {
        if is_request_encoding(bytes@) && has_trailing_bytes(bytes@) {
            let c1 = choose|c: CliCommand| command_carried(c) && encode_command(c) == bytes@;
            let c2 = choose|c: CliCommand|
                #[trigger] command_carried(c) && exists|extra: Seq<u8>|
                    extra.len() > 0 && #[trigger] (encode_command(c) + extra) == bytes@;
            let extra = choose|extra: Seq<u8>|
                command_carried(c2) && extra.len() > 0 && #[trigger] (encode_command(c2) + extra)
                    == bytes@;
            assert(encode_command(c1) + Seq::<u8>::empty() =~= encode_command(c1));
            crate::wire_law::law_encoding_is_prefix_free(c1, c2, Seq::<u8>::empty(), extra);
        }
        if let Some((c, tail)) = target {
            assert(encode_command(c) + tail == bytes@) by {
                if tail.len() == 0 {
                    assert(encode_command(c) + tail =~= encode_command(c));
                }
            }
        }
    }
    let mut wire = WireReader::new(bytes);
    let op = match wire.byte() {
        Ok(op) => op,
        Err(e) => return Err(e),
    };
    let ghost fields = wire.rest();
    proof {
        assert(bytes@ =~= seq![op] + fields);
        if let Some((c, tail)) = target {
            assert(encode_command(c) + tail =~= seq![opcode(c)] + (encode_fields(c) + tail));
            assert(op == opcode(c));
            lemma_split(bytes@, seq![op], encode_fields(c) + tail);
            assert(fields == encode_fields(c) + tail);
        }
        assert forall|t: Option<TabId>, tags: Seq<u8>|
            bytes@ == seq![10u8] + #[trigger] (enc_opt_tab(t) + tags) implies op == 10 && fields == enc_opt_tab(t)
                + tags by {
            lemma_split(bytes@, seq![10u8], enc_opt_tab(t) + tags);
        }
        assert forall|t: Option<TabId>, n: nat, raw: Seq<u8>, more: Seq<u8>|
            bytes@ == seq![bytes@[0]] + #[trigger] (enc_opt_tab(t) + (enc_u32(n) + (raw + more))) implies fields
                == enc_opt_tab(t) + (enc_u32(n) + (raw + more)) by {
            lemma_split(bytes@, seq![op], enc_opt_tab(t) + (enc_u32(n) + (raw + more)));
        }
        assert forall|tag: u8, n: nat, raw: Seq<u8>, more: Seq<u8>|
            bytes@ == seq![20u8] + #[trigger] (seq![tag] + (enc_u32(n) + (raw + more))) implies op == 20 && fields
                == seq![tag] + (enc_u32(n) + (raw + more)) by {
            lemma_split(bytes@, seq![20u8], seq![tag] + (enc_u32(n) + (raw + more)));
        }
        assert forall|t: Option<TabId>, n: nat, more: Seq<u8>|
            bytes@ == seq![9u8] + #[trigger] (enc_opt_tab(t) + (enc_u32(n) + more)) implies op == 9 && fields
                == enc_opt_tab(t) + (enc_u32(n) + more) by {
            lemma_split(bytes@, seq![9u8], enc_opt_tab(t) + (enc_u32(n) + more));
        }
        assert forall|n: nat, more: Seq<u8>|
            bytes@ == seq![17u8] + #[trigger] (enc_u32(n) + more) implies op == 17 && fields == enc_u32(n) + more by {
            lemma_split(bytes@, seq![17u8], enc_u32(n) + more);
        }
    }
    proof {
        assert(fields == bytes@.skip(1));
    }
    let command = match decode_body(&mut wire, op, Ghost(target), Ghost(cut)) {
        Ok(c) => c,
        Err(e) => {
            proof {
                if let Some(c0) = cut {
                    assert forall|c: CliCommand, k: int| #![trigger cut_encoding(bytes@, c, k)]
                        cut_encoding(bytes@, c, k) implies cut_error(c, e@) by {
                        assert(opcode(c) == opcode(c0));
                    }
                }
            }
            return Err(e);
        },
    };
    assert(op == opcode(command));
    assert(fields == encode_fields(command) + wire.rest());
    if let Err(e) = wire.finish() {
        return Err(e);
    }
    assert(bytes@ =~= encode_command(command));
    Ok(command)
}


/// Decodes one command. It succeeds exactly on the encodings of the
/// commands the wire carries, what it returns encodes back to `bytes`, and
/// on the encoding of a carried command it returns that command.
/// The encoding of a command that breaks a field-level rule (a zero tab id,
/// a bound, the mouse pair, zero wheel notches, an invalid IME event) is
/// refused with that rule's message, and so are a bad tag, a string that is
/// not UTF-8 and a key count the bytes cannot hold. A carried command's
/// encoding cut short is refused as truncated (or, for a key list whose
/// count was read, as a bad key count).
pub fn decode_request(bytes: &[u8]) -> (result: Result<CliCommand, String>)
    ensures
        result matches Ok(c) ==> command_carried(c) && encode_command(c) == bytes@,
        is_request_encoding(bytes@) ==> result is Ok,
        forall|sent: CliCommand|
            #![trigger command_carried(sent), encode_command(sent)]
            command_carried(sent) && encode_command(sent) == bytes@ ==> (result matches Ok(c)
                && c@ == sent@),
        (bytes@.len() == 0 || bytes@.len() > REQUEST_MAX_BYTES) ==> (result matches Err(e) && e@
            == request_size_error()),
        0 < bytes@.len() <= REQUEST_MAX_BYTES && !known_opcode(bytes@[0]) ==> (result matches Err(e) && e@
            == unknown_opcode_error()),
        has_trailing_bytes(bytes@) && bytes@.len() <= REQUEST_MAX_BYTES ==> (result matches Err(e)
            && e@ == trailing_error()),
        forall|c: CliCommand| #![trigger encode_command(c)]
            command_sized(c) && encode_command(c) == bytes@ && field_error(c@) is Some ==> (result matches Err(
                e,
            ) && Some(e@) == field_error(c@)),
        forall|c: CliCommand, k: int| #![trigger cut_encoding(bytes@, c, k)]
            cut_encoding(bytes@, c, k) ==> (result matches Err(e) && cut_error(c, e@)),
        bytes@.len() <= REQUEST_MAX_BYTES && bytes@.len() > 1 && bytes@[0] == 20 && bytes@[1] > 3 ==> (
        result matches Err(e) && e@ == ime_action_error()),
        bytes@.len() <= REQUEST_MAX_BYTES && bytes@.len() > 1 && bool_led(bytes@[0]) && bytes@[1] > 1 ==> (
        result matches Err(e) && e@ == bool_tag_error()),
        forall|t: Option<TabId>, n: nat, raw: Seq<u8>, more: Seq<u8>|
            bytes@.len() <= REQUEST_MAX_BYTES && bytes@.len() > 0 && string_led(bytes@[0]) && opt_tab_valid(t)
                && bad_string(n, raw) && bytes@ == seq![bytes@[0]] + #[trigger] (enc_opt_tab(t) + (enc_u32(n)
                + (raw + more))) ==> (result matches Err(e) && e@ == utf8_error()),
        forall|tag: u8, n: nat, raw: Seq<u8>, more: Seq<u8>|
            bytes@.len() <= REQUEST_MAX_BYTES && (tag == 1 || tag == 2) && bad_string(n, raw) && bytes@
                == seq![20u8] + #[trigger] (seq![tag] + (enc_u32(n) + (raw + more))) ==> (result matches Err(e)
                && e@ == utf8_error()),
        forall|t: Option<TabId>, n: nat, more: Seq<u8>|
            bytes@.len() <= REQUEST_MAX_BYTES && opt_tab_valid(t) && n <= u32::MAX && bytes@ == seq![9u8]
                + #[trigger] (enc_opt_tab(t) + (enc_u32(n) + more)) && key_count_refused(n, more.len()) ==> (
            result matches Err(e) && e@ == key_count_error()),
        forall|n: nat, more: Seq<u8>|
            bytes@.len() <= REQUEST_MAX_BYTES && n <= u32::MAX && bytes@ == seq![17u8] + #[trigger] (enc_u32(n)
                + more) && key_count_refused(n, more.len()) ==> (result matches Err(e) && e@
                == key_count_error()),
        forall|t: Option<TabId>, tags: Seq<u8>|
            bytes@.len() <= REQUEST_MAX_BYTES && opt_tab_valid(t) && bytes@ == seq![10u8] + #[trigger] (
            enc_opt_tab(t) + tags) && mouse_tag_error(tags) is Some ==> (result matches Err(e) && Some(e@)
                == mouse_tag_error(tags)),
{
    let result = decode_command(bytes);
    proof {
        assert forall|sent: CliCommand|
            #![trigger command_carried(sent), encode_command(sent)]
            command_carried(sent) && encode_command(sent) == bytes@ implies (result matches Ok(c)
                && c@ == sent@) by {
            assert(is_request_encoding(bytes@));
            if let Ok(c) = result {
                crate::wire_law::law_encoding_is_unambiguous(c, sent);
            }
        }
    }
    result
}

// ---------------------------------------------------------------------------
// Laws
// ---------------------------------------------------------------------------

/// Every command the wire carries can be encoded: `encode_request` succeeds
/// on it and yields exactly its encoding.
pub proof fn law_carried_commands_encode(command: CliCommand)
    requires
        command_carried(command),
    ensures
        encode_error(command) is None,
{
    lemma_le_bytes_len(0, 4);
    match command {
        CliCommand::ScreenshotPane { target, output } => {
            lemma_enc_string_len(output@);
        },
        CliCommand::SendText { target, text } => {
            lemma_enc_string_len(text@);
        },
        CliCommand::SendPaste { target, text } => {
            lemma_enc_string_len(text@);
        },
        CliCommand::WaitText { target, text, timeout_ms } => {
            lemma_enc_string_len(text@);
        },
        CliCommand::SendKeys { target, keys } => {
            lemma_enc_strings_len(string_views(keys@));
            lemma_le_bytes_len(keys@.len() as nat, 4);
        },
        CliCommand::SendUiKeys { keys } => {
            lemma_enc_strings_len(string_views(keys@));
            lemma_le_bytes_len(keys@.len() as nat, 4);
        },
        _ => {},
    }
}


// ---------------------------------------------------------------------------
// Request envelope
// ---------------------------------------------------------------------------

/// A client's identity for one request, so a retry after a lost reply can be
/// recognized instead of executed twice.
#[derive(Clone, Copy, Debug, PartialEq, Eq, Structural)]
pub struct RequestId(pub u128);

/// A decoded request: its id when it came in an envelope, and its command.
#[derive(Debug, PartialEq, Eq)]
pub struct WireRequest {
    pub id: Option<RequestId>,
    pub command: CliCommand,
}

/// The bytes of `command` inside an envelope carrying `id`.
pub open spec fn encode_envelope(id: RequestId, command: CliCommand) -> Seq<u8> {
    seq![ENVELOPE_TAG] + le_bytes(id.0 as nat, 16) + encode_command(command)
}

pub open spec fn envelope_error(command: CliCommand) -> Option<Seq<char>> {
    match encode_error(command) {
        Some(e) => Some(e),
        None => if 17 + encode_command(command).len() > REQUEST_MAX_BYTES {
            Some(oversized_error())
        } else {
            None
        },
    }
}

/// Encodes `command` inside an envelope carrying `id`.
pub fn encode_wire_request(id: RequestId, command: CliCommand) -> (result: Result<Vec<u8>, String>)
    ensures
        match envelope_error(command) {
            None => result matches Ok(bytes) && bytes@ == encode_envelope(id, command),
            Some(m) => result matches Err(e) && e@ == m,
        },
{
    let ghost c = command;
    let body = match encode_request(command) {
        Ok(body) => body,
        Err(e) => return Err(e),
    };
    let mut payload: Vec<u8> = Vec::new();
    payload.push(ENVELOPE_TAG);
    push_le(&mut payload, id.0, 16);
    let ghost head = payload@;
    let mut i: usize = 0;
    while i < body.len()
        invariant
            i <= body@.len(),
            payload@ == head + body@.take(i as int),
        decreases body@.len() - i,
    {
        payload.push(body[i]);
        assert(payload@ =~= head + body@.take(i + 1));
        i = i + 1;
    }
    proof {
        lemma_le_bytes_len(id.0 as nat, 16);
        assert(body@.take(body@.len() as int) =~= body@);
    }
    assert(payload@ =~= encode_envelope(id, c));
    if payload.len() > REQUEST_MAX_BYTES {
        return Err("control request is oversized".to_owned());
    }
    Ok(payload)
}

pub open spec fn missing_id_error() -> Seq<char> {
    "control request envelope has no request id"@
}

/// Decodes a request that may come in an envelope. Without the envelope tag
/// the bytes are a bare command; with it, sixteen bytes of request id follow
/// the tag and the command follows them.
pub fn decode_wire_request(bytes: &[u8]) -> (result: Result<WireRequest, String>)
    ensures
        (bytes@.len() == 0 || bytes@[0] != ENVELOPE_TAG) ==> {
            &&& result matches Ok(r) ==> r.id is None && command_carried(r.command)
                && encode_command(r.command) == bytes@
            &&& is_request_encoding(bytes@) ==> result is Ok
        },
        (bytes@.len() > 0 && bytes@[0] == ENVELOPE_TAG && bytes@.len() < 17) ==> (result matches Err(
            e,
        ) && e@ == missing_id_error()),
        (bytes@.len() >= 17 && bytes@[0] == ENVELOPE_TAG) ==> {
            &&& result matches Ok(r) ==> r.id == Some(RequestId(le_value(bytes@.subrange(1, 17)) as u128))
                && command_carried(r.command) && encode_command(r.command) == bytes@.skip(17)
            &&& is_request_encoding(bytes@.skip(17)) ==> result is Ok
        },
        forall|sent: CliCommand|
            #![trigger command_carried(sent), encode_command(sent)]
            command_carried(sent) && (encode_command(sent) == bytes@ || (bytes@.len() >= 17
                && bytes@[0] == ENVELOPE_TAG && encode_command(sent) == bytes@.skip(17)))
                ==> (result matches Ok(r) && r.command@ == sent@),
        forall|c: CliCommand|
            #![trigger encode_command(c)]
            command_sized(c) && field_error(c@) is Some && (encode_command(c) == bytes@ || (bytes@.len()
                >= 17 && bytes@[0] == ENVELOPE_TAG && encode_command(c) == bytes@.skip(17)))
                ==> (result matches Err(e) && Some(e@) == field_error(c@)),
{
    proof {
        assert forall|sent: CliCommand|
            #![trigger command_carried(sent), encode_command(sent)]
            command_carried(sent) && encode_command(sent) == bytes@ implies bytes@.len() > 0
                && bytes@[0] != ENVELOPE_TAG by {
            assert(encode_command(sent)[0] == opcode(sent));
        }
        assert forall|c: CliCommand|
            #![trigger encode_command(c)]
            encode_command(c) == bytes@ implies bytes@.len() > 0 && bytes@[0] != ENVELOPE_TAG by {
            assert(encode_command(c)[0] == opcode(c));
        }
    }
    if bytes.len() == 0 || bytes[0] != ENVELOPE_TAG {
        return match decode_request(bytes) {
            Ok(command) => Ok(WireRequest { id: None, command }),
            Err(e) => Err(e),
        };
    }
    if bytes.len() < 17 {
        return Err("control request envelope has no request id".to_owned());
    }
    let id_bytes = &bytes[1..17];
    let rest = &bytes[17..bytes.len()];
    let id = read_le(id_bytes);
    assert(rest@ =~= bytes@.skip(17));
    match decode_request(rest) {
        Ok(command) => Ok(WireRequest { id: Some(RequestId(id)), command }),
        Err(e) => Err(e),
    }
}

/// The round trip of an envelope keeps the id.
pub proof fn law_envelope_keeps_id(id: RequestId, command: CliCommand)
    ensures
        encode_envelope(id, command).len() >= 17,
        encode_envelope(id, command)[0] == ENVELOPE_TAG,
        le_value(encode_envelope(id, command).subrange(1, 17)) == id.0,
        encode_envelope(id, command).skip(17) == encode_command(command),
{
    let e = encode_envelope(id, command);
    lemma_le_bytes_len(id.0 as nat, 16);
    reveal_with_fuel(pow256, 17);
    assert(id.0 < pow256(16));
    lemma_le_roundtrip(id.0 as nat, 16);
    assert(e.subrange(1, 17) =~= le_bytes(id.0 as nat, 16));
    assert(e.skip(17) =~= encode_command(command));
}

// ---------------------------------------------------------------------------
// Responses
// ---------------------------------------------------------------------------

/// What the window answers a successful request with.
#[derive(Clone, Debug, PartialEq, Eq)]
pub enum ReplyValue {
    /// Nothing to print.
    Null,
    /// Plain text, printed as is.
    Text(String),
    /// A JSON document, already rendered.
    Json(String),
}

pub open spec fn encode_reply(reply: Result<ReplyValue, String>) -> Seq<u8> {
    match reply {
        Err(e) => seq![0u8] + encode_utf8(e@),
        Ok(ReplyValue::Null) => seq![1u8],
        Ok(ReplyValue::Text(t)) => seq![2u8] + encode_utf8(t@),
        Ok(ReplyValue::Json(j)) => seq![3u8] + encode_utf8(j@),
    }
}

fn push_str_bytes(out: &mut Vec<u8>, text: &str)
    ensures
        final(out)@ == old(out)@ + encode_utf8(text@),
{
    let raw = text.as_bytes();
    let ghost start = out@;
    let mut i: usize = 0;
    while i < raw.len()
        invariant
            i <= raw@.len(),
            raw@ == encode_utf8(text@),
            out@ == start + raw@.take(i as int),
        decreases raw@.len() - i,
    {
        out.push(raw[i]);
        assert(out@ =~= start + raw@.take(i + 1));
        i = i + 1;
    }
    assert(raw@.take(raw@.len() as int) =~= raw@);
}

/// Encodes the window's answer: a tag byte, then the text.
pub fn encode_response(reply: Result<ReplyValue, String>) -> (bytes: Vec<u8>)
    ensures
        bytes@ == encode_reply(reply),
{
    let ghost r = reply;
    let mut payload: Vec<u8> = Vec::new();
    match reply {
        Err(error) => {
            payload.push(0);
            push_str_bytes(&mut payload, error.as_str());
        },
        Ok(ReplyValue::Null) => payload.push(1),
        Ok(ReplyValue::Text(text)) => {
            payload.push(2);
            push_str_bytes(&mut payload, text.as_str());
        },
        Ok(ReplyValue::Json(text)) => {
            payload.push(3);
            push_str_bytes(&mut payload, text.as_str());
        },
    }
    assert(payload@ =~= encode_reply(r));
    payload
}

/// What the CLI prints for a response: the error, or the text to show.
pub open spec fn response_outcome(bytes: Seq<u8>) -> Result<Seq<char>, Seq<char>> {
    if bytes.len() == 0 {
        Err("empty control response"@)
    } else if !valid_utf8(bytes.skip(1)) {
        Err("control response is not valid UTF-8"@)
    } else {
        let text = decode_utf8(bytes.skip(1));
        if bytes[0] == 0 {
            Err(text)
        } else if bytes[0] == 1 && bytes.len() == 1 {
            Ok(Seq::empty())
        } else if bytes[0] == 2 || bytes[0] == 3 {
            Ok(text)
        } else if bytes[0] == 1 {
            Err("null control response has trailing bytes"@)
        } else {
            Err("unknown control response tag"@)
        }
    }
}

pub fn decode_response(bytes: &[u8]) -> (result: Result<String, String>)
    ensures
        match response_outcome(bytes@) {
            Ok(t) => result matches Ok(s) && s@ == t,
            Err(t) => result matches Err(s) && s@ == t,
        },
{
    if bytes.len() == 0 {
        return Err("empty control response".to_owned());
    }
    let tag = bytes[0];
    let payload = &bytes[1..bytes.len()];
    assert(payload@ =~= bytes@.skip(1));
    let text = match utf8_to_string(payload) {
        Some(text) => text,
        None => return Err("control response is not valid UTF-8".to_owned()),
    };
    if tag == 0 {
        Err(text)
    } else if tag == 1 && payload.len() == 0 {
        Ok(String::new())
    } else if tag == 2 || tag == 3 {
        Ok(text)
    } else if tag == 1 {
        Err("null control response has trailing bytes".to_owned())
    } else {
        Err("unknown control response tag".to_owned())
    }
}

/// What the window answers is what the CLI prints: an error comes back as the
/// same error, text and JSON as the same text, and nothing as empty output.
pub proof fn law_response_round_trip(reply: Result<ReplyValue, String>)
    ensures
        response_outcome(encode_reply(reply)) == match reply {
            Err(e) => Err::<Seq<char>, Seq<char>>(e@),
            Ok(ReplyValue::Null) => Ok(Seq::<char>::empty()),
            Ok(ReplyValue::Text(t)) => Ok(t@),
            Ok(ReplyValue::Json(j)) => Ok(j@),
        },
{
    let b = encode_reply(reply);
    match reply {
        Err(e) => {
            assert(b.skip(1) =~= encode_utf8(e@));
        },
        Ok(ReplyValue::Null) => {
            assert(b.skip(1) =~= Seq::<u8>::empty());
            assert(encode_utf8(Seq::<char>::empty()) =~= Seq::<u8>::empty());
            assert(decode_utf8(Seq::<u8>::empty()) =~= Seq::<char>::empty()) by {
                vstd::utf8::encode_utf8_decode_utf8(Seq::<char>::empty());
            }
        },
        Ok(ReplyValue::Text(t)) => {
            assert(b.skip(1) =~= encode_utf8(t@));
        },
        Ok(ReplyValue::Json(j)) => {
            assert(b.skip(1) =~= encode_utf8(j@));
        },
    }
}

} // verus!
