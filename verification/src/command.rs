//! The control commands a `minicon cli` invocation can carry, and the
//! validation every command must pass wherever it is built.

use vstd::prelude::*;
use vstd::utf8::*;

use crate::tab::TabId;

verus! {

/// Largest IME text, in UTF-8 bytes, a control command may carry.
pub const MAX_IME_TEXT_BYTES: usize = 65536;

/// Largest window width or height a control command may request.
pub const MAX_WINDOW_DIMENSION: u16 = 16384;

/// An input-method event injected through the control endpoint.
#[derive(Clone, Debug, PartialEq, Eq)]
pub enum ImeEvent {
    Enabled,
    Preedit { text: String, cursor: Option<(usize, usize)> },
    Commit(String),
    Disabled,
}

#[derive(Clone, Copy, Debug, PartialEq, Eq, Structural)]
pub enum MouseAction {
    Press,
    Release,
    Move,
    Click,
}

#[derive(Clone, Copy, Debug, PartialEq, Eq, Structural)]
pub enum MouseButton {
    NoButton,
    Left,
    Middle,
    Right,
}

#[derive(Clone, Debug, PartialEq, Eq)]
#[allow(inconsistent_fields)]
pub enum CliCommand {
    ListTabs,
    UiSnapshot,
    PerfStats,
    ResetPerfStats,
    CancelPointer,
    CloseWindow,
    ResizeWindow { width: u16, height: u16 },
    NewTab { parent: Option<TabId> },
    SelectTab { target: TabId },
    CloseTab { target: TabId },
    CapturePane { target: Option<TabId>, max_bytes: usize },
    ScreenshotPane { target: Option<TabId>, output: String },
    SendText { target: Option<TabId>, text: String },
    SendPaste { target: Option<TabId>, text: String },
    SendKeys { target: Option<TabId>, keys: Vec<String> },
    SendUiKeys { keys: Vec<String> },
    SendUiIme { event: ImeEvent },
    SendMouse {
        target: Option<TabId>,
        action: MouseAction,
        button: MouseButton,
        column: u16,
        row: u16,
    },
    SendWheel { target: Option<TabId>, column: u16, row: u16, notches: i16, ctrl: bool },
    WaitText { target: Option<TabId>, text: String, timeout_ms: u64 },
    WaitTabExit { target: TabId, timeout_ms: u64 },
    SetWindowAttached { attached: bool },
}

/// Number of bytes in the UTF-8 encoding of `s`.
pub open spec fn utf8_len(s: Seq<char>) -> nat {
    encode_utf8(s).len()
}

/// Why `event` may not be injected, or `None` when it may.
pub open spec fn ime_view_error(event: ImeView) -> Option<Seq<char>> {
    match event {
        ImeView::Enabled | ImeView::Disabled => None,
        ImeView::Preedit { text, cursor } => {
            if cursor matches Some((start, end)) && (start > end || end > text.len()) {
                Some("IME preedit cursor is outside its text"@)
            } else if utf8_len(text) > MAX_IME_TEXT_BYTES {
                Some("IME text exceeds the 65536-byte limit"@)
            } else {
                None
            }
        },
        ImeView::Commit(text) => {
            if text.len() == 0 {
                Some("IME commit text must not be empty"@)
            } else if utf8_len(text) > MAX_IME_TEXT_BYTES {
                Some("IME text exceeds the 65536-byte limit"@)
            } else {
                None
            }
        },
    }
}

pub open spec fn ime_event_error(event: ImeEvent) -> Option<Seq<char>> {
    ime_view_error(event@)
}

/// Checks an IME event before it is sent or applied.
pub fn validate_ime_event(event: &ImeEvent) -> (result: Result<(), String>)
    ensures
        match ime_event_error(*event) {
            None => result is Ok,
            Some(message) => result matches Err(e) && e@ == message,
        },
{
    let text = match event {
        ImeEvent::Enabled | ImeEvent::Disabled => return Ok(()),
        ImeEvent::Preedit { text, cursor } => {
            if let Some((start, end)) = cursor {
                let chars = text.as_str().unicode_len();
                if *start > *end || *end > chars {
                    return Err("IME preedit cursor is outside its text".to_owned());
                }
            }
            text
        },
        ImeEvent::Commit(text) => {
            if text.as_str().is_empty() {
                return Err("IME commit text must not be empty".to_owned());
            }
            text
        },
    };
    if crate::text::byte_len(text.as_str()) > MAX_IME_TEXT_BYTES {
        return Err("IME text exceeds the 65536-byte limit".to_owned());
    }
    Ok(())
}

/// The error for a window size outside `1..=MAX_WINDOW_DIMENSION`.
pub open spec fn window_size_error() -> Seq<char> {
    "window width and height must be between 1 and 16384"@
}

pub open spec fn window_size_valid(width: u16, height: u16) -> bool {
    1 <= width <= MAX_WINDOW_DIMENSION && 1 <= height <= MAX_WINDOW_DIMENSION
}

pub fn validate_window_size(width: u16, height: u16) -> (result: Result<(), String>)
    ensures
        window_size_valid(width, height) ==> result is Ok,
        !window_size_valid(width, height) ==> (result matches Err(e) && e@ == window_size_error()),
{
    if width == 0 || height == 0 || width > MAX_WINDOW_DIMENSION || height > MAX_WINDOW_DIMENSION {
        return Err("window width and height must be between 1 and 16384".to_owned());
    }
    Ok(())
}

impl MouseAction {
    pub open spec fn spec_wire_tag(self) -> u8 {
        match self {
            MouseAction::Press => 0,
            MouseAction::Release => 1,
            MouseAction::Move => 2,
            MouseAction::Click => 3,
        }
    }

    pub fn wire_tag(&self) -> (tag: u8)
        ensures
            tag == self.spec_wire_tag(),
    {
        match self {
            MouseAction::Press => 0,
            MouseAction::Release => 1,
            MouseAction::Move => 2,
            MouseAction::Click => 3,
        }
    }

    pub fn from_wire_tag(tag: u8) -> (action: Option<MouseAction>)
        ensures
            action matches Some(a) ==> a.spec_wire_tag() == tag,
            action is None <==> tag > 3,
    {
        match tag {
            0 => Some(MouseAction::Press),
            1 => Some(MouseAction::Release),
            2 => Some(MouseAction::Move),
            3 => Some(MouseAction::Click),
            _ => None,
        }
    }
}

impl MouseButton {
    pub open spec fn spec_wire_tag(self) -> u8 {
        match self {
            MouseButton::NoButton => 0,
            MouseButton::Left => 1,
            MouseButton::Middle => 2,
            MouseButton::Right => 3,
        }
    }

    pub fn wire_tag(&self) -> (tag: u8)
        ensures
            tag == self.spec_wire_tag(),
    {
        match self {
            MouseButton::NoButton => 0,
            MouseButton::Left => 1,
            MouseButton::Middle => 2,
            MouseButton::Right => 3,
        }
    }

    pub fn from_wire_tag(tag: u8) -> (button: Option<MouseButton>)
        ensures
            button matches Some(b) ==> b.spec_wire_tag() == tag,
            button is None <==> tag > 3,
    {
        match tag {
            0 => Some(MouseButton::NoButton),
            1 => Some(MouseButton::Left),
            2 => Some(MouseButton::Middle),
            3 => Some(MouseButton::Right),
            _ => None,
        }
    }
}

/// A wire tag names one action and one button: the tags are one-to-one.
pub proof fn law_wire_tags_are_one_to_one(a: MouseAction, b: MouseAction, x: MouseButton, y: MouseButton)
    ensures
        a.spec_wire_tag() == b.spec_wire_tag() ==> a == b,
        x.spec_wire_tag() == y.spec_wire_tag() ==> x == y,
{
}


/// An IME event as values.
pub enum ImeView {
    Enabled,
    Preedit { text: Seq<char>, cursor: Option<(usize, usize)> },
    Commit(Seq<char>),
    Disabled,
}

impl View for ImeEvent {
    type V = ImeView;

    open spec fn view(&self) -> ImeView {
        match self {
            ImeEvent::Enabled => ImeView::Enabled,
            ImeEvent::Preedit { text, cursor } => ImeView::Preedit { text: text@, cursor: *cursor },
            ImeEvent::Commit(text) => ImeView::Commit(text@),
            ImeEvent::Disabled => ImeView::Disabled,
        }
    }
}

/// A control command as values: every string by its characters.
#[allow(inconsistent_fields)]
pub enum CommandView {
    ListTabs,
    UiSnapshot,
    PerfStats,
    ResetPerfStats,
    CancelPointer,
    CloseWindow,
    ResizeWindow { width: u16, height: u16 },
    NewTab { parent: Option<TabId> },
    SelectTab { target: TabId },
    CloseTab { target: TabId },
    CapturePane { target: Option<TabId>, max_bytes: usize },
    ScreenshotPane { target: Option<TabId>, output: Seq<char> },
    SendText { target: Option<TabId>, text: Seq<char> },
    SendPaste { target: Option<TabId>, text: Seq<char> },
    SendKeys { target: Option<TabId>, keys: Seq<Seq<char>> },
    SendUiKeys { keys: Seq<Seq<char>> },
    SendUiIme { event: ImeView },
    SendMouse {
        target: Option<TabId>,
        action: MouseAction,
        button: MouseButton,
        column: u16,
        row: u16,
    },
    SendWheel { target: Option<TabId>, column: u16, row: u16, notches: i16, ctrl: bool },
    WaitText { target: Option<TabId>, text: Seq<char>, timeout_ms: u64 },
    WaitTabExit { target: TabId, timeout_ms: u64 },
    SetWindowAttached { attached: bool },
}

pub open spec fn views_of(v: Seq<String>) -> Seq<Seq<char>> {
    v.map_values(|s: String| s@)
}

impl View for CliCommand {
    type V = CommandView;

    open spec fn view(&self) -> CommandView {
        match self {
            CliCommand::ListTabs => CommandView::ListTabs,
            CliCommand::UiSnapshot => CommandView::UiSnapshot,
            CliCommand::PerfStats => CommandView::PerfStats,
            CliCommand::ResetPerfStats => CommandView::ResetPerfStats,
            CliCommand::CancelPointer => CommandView::CancelPointer,
            CliCommand::CloseWindow => CommandView::CloseWindow,
            CliCommand::ResizeWindow { width, height } => CommandView::ResizeWindow {
                width: *width,
                height: *height,
            },
            CliCommand::NewTab { parent } => CommandView::NewTab { parent: *parent },
            CliCommand::SelectTab { target } => CommandView::SelectTab { target: *target },
            CliCommand::CloseTab { target } => CommandView::CloseTab { target: *target },
            CliCommand::CapturePane { target, max_bytes } => CommandView::CapturePane {
                target: *target,
                max_bytes: *max_bytes,
            },
            CliCommand::ScreenshotPane { target, output } => CommandView::ScreenshotPane {
                target: *target,
                output: output@,
            },
            CliCommand::SendText { target, text } => CommandView::SendText {
                target: *target,
                text: text@,
            },
            CliCommand::SendPaste { target, text } => CommandView::SendPaste {
                target: *target,
                text: text@,
            },
            CliCommand::SendKeys { target, keys } => CommandView::SendKeys {
                target: *target,
                keys: views_of(keys@),
            },
            CliCommand::SendUiKeys { keys } => CommandView::SendUiKeys { keys: views_of(keys@) },
            CliCommand::SendUiIme { event } => CommandView::SendUiIme { event: event@ },
            CliCommand::SendMouse { target, action, button, column, row } => CommandView::SendMouse {
                target: *target,
                action: *action,
                button: *button,
                column: *column,
                row: *row,
            },
            CliCommand::SendWheel { target, column, row, notches, ctrl } => CommandView::SendWheel {
                target: *target,
                column: *column,
                row: *row,
                notches: *notches,
                ctrl: *ctrl,
            },
            CliCommand::WaitText { target, text, timeout_ms } => CommandView::WaitText {
                target: *target,
                text: text@,
                timeout_ms: *timeout_ms,
            },
            CliCommand::WaitTabExit { target, timeout_ms } => CommandView::WaitTabExit {
                target: *target,
                timeout_ms: *timeout_ms,
            },
            CliCommand::SetWindowAttached { attached } => CommandView::SetWindowAttached {
                attached: *attached,
            },
        }
    }
}

} // verus!
