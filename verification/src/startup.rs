//! Whether a Linux start needs the X11 keyboard bridge, and what the start
//! does next at each step of bringing it up.

use vstd::prelude::*;

verus! {

/// An ASCII letter lowered.
pub open spec fn lower_byte(b: u8) -> u8 {
    if 65 <= b <= 90 {
        (b + 32) as u8
    } else {
        b
    }
}

/// Equal ignoring ASCII case, as `eq_ignore_ascii_case` compares.
pub open spec fn same_ignoring_ascii_case(a: Seq<u8>, b: Seq<u8>) -> bool {
    a.len() == b.len() && forall|i: int| 0 <= i < a.len() ==> lower_byte(#[trigger] a[i]) == lower_byte(b[i])
}

fn eq_ignore_ascii_case(a: &[u8], b: &[u8]) -> (same: bool)
    ensures
        same == same_ignoring_ascii_case(a@, b@),
{
    if a.len() != b.len() {
        return false;
    }
    let mut i: usize = 0;
    while i < a.len()
        invariant
            a@.len() == b@.len(),
            i <= a@.len(),
            forall|j: int| 0 <= j < i ==> lower_byte(#[trigger] a@[j]) == lower_byte(b@[j]),
        decreases a@.len() - i,
    {
        let x = if 65 <= a[i] && a[i] <= 90 { a[i] + 32 } else { a[i] };
        let y = if 65 <= b[i] && b[i] <= 90 { b[i] + 32 } else { b[i] };
        if x != y {
            return false;
        }
        i = i + 1;
    }
    true
}

pub open spec fn non_empty(v: Option<Seq<u8>>) -> bool {
    v matches Some(s) && s.len() > 0
}

pub open spec fn view_of(v: Option<&[u8]>) -> Option<Seq<u8>> {
    match v {
        Some(s) => Some(s@),
        None => None,
    }
}

/// Whether the window will come up on X11: an explicit backend choice wins;
/// otherwise a display is set and no Wayland display is.
pub open spec fn x11_required(display: Option<Seq<u8>>, wayland: Option<Seq<u8>>, backend: Option<Seq<u8>>) -> bool {
    if backend matches Some(b) && same_ignoring_ascii_case(b, seq![120u8, 49u8, 49u8]) {
        true
    } else if backend matches Some(b) && same_ignoring_ascii_case(
        b,
        seq![119u8, 97u8, 121u8, 108u8, 97u8, 110u8, 100u8],
    ) {
        false
    } else {
        non_empty(display) && !non_empty(wayland)
    }
}

/// Whether the X11 keyboard bridge is needed, from `DISPLAY`,
/// `WAYLAND_DISPLAY` and `WINIT_UNIX_BACKEND` as raw bytes.
pub fn requires_x11(display: Option<&[u8]>, wayland: Option<&[u8]>, backend: Option<&[u8]>) -> (required: bool)
    ensures
        required == x11_required(view_of(display), view_of(wayland), view_of(backend)),
{
    let x11: [u8; 3] = [120, 49, 49];
    let wayland_name: [u8; 7] = [119, 97, 121, 108, 97, 110, 100];
    assert(x11@ =~= seq![120u8, 49u8, 49u8]);
    assert(wayland_name@ =~= seq![119u8, 97u8, 121u8, 108u8, 97u8, 110u8, 100u8]);
    if let Some(b) = backend {
        if eq_ignore_ascii_case(b, &x11) {
            return true;
        }
        if eq_ignore_ascii_case(b, &wayland_name) {
            return false;
        }
    }
    let has_display = match display {
        Some(d) => d.len() > 0,
        None => false,
    };
    let has_wayland = match wayland {
        Some(w) => w.len() > 0,
        None => false,
    };
    has_display && !has_wayland
}

/// What a start does next.
#[derive(Debug, PartialEq, Eq)]
pub enum PreflightStep {
    /// Start the window, or refuse with the message.
    Done(Result<(), String>),
    /// Ask whether the system can load the bridge.
    Probe,
    /// Write the bundled copies and restart with them on the library path.
    StageAndRestart,
}

/// The first step: probe only where X11 is needed.
pub fn preflight_start(x11: bool) -> (step: PreflightStep)
    ensures
        step == if x11 {
            PreflightStep::Probe
        } else {
            PreflightStep::Done(Ok(()))
        },
{
    if x11 {
        PreflightStep::Probe
    } else {
        PreflightStep::Done(Ok(()))
    }
}

pub open spec fn bridge_unavailable_text() -> Seq<char> {
    "Linux X11 runtime dependencies unavailable: libxkbcommon-x11.so.0 / libxcb-xkb.so.1. MiniCon staged its bundled copies but the dynamic loader still could not use them."@
}

/// The refusal when even the bundled copies cannot be loaded.
pub fn bundled_library_unavailable() -> (text: String)
    ensures
        text@ == bridge_unavailable_text(),
{
    "Linux X11 runtime dependencies unavailable: libxkbcommon-x11.so.0 / libxcb-xkb.so.1. MiniCon staged its bundled copies but the dynamic loader still could not use them.".to_owned()
}

/// The step after probing: the system's bridge is used when it loads; a
/// process already restarted with the bundled copies gives up rather than
/// restarting forever; otherwise the copies are staged.
pub fn preflight_after_probe(found: bool, already_staged: bool) -> (step: PreflightStep)
    ensures
        found ==> step == PreflightStep::Done(Ok(())),
        !found && already_staged ==> (step matches PreflightStep::Done(Err(e)) && e@
            == bridge_unavailable_text()),
        !found && !already_staged ==> step == PreflightStep::StageAndRestart,
{
    if found {
        PreflightStep::Done(Ok(()))
    } else if already_staged {
        PreflightStep::Done(Err(bundled_library_unavailable()))
    } else {
        PreflightStep::StageAndRestart
    }
}

} // verus!
