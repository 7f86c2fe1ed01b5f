//! The accessibility side of the host: where the published session box and
//! its off-screen text field sit, and the bounded inbox through which
//! assistive-technology requests reach the window.

use vstd::prelude::*;
use crate::composer::{utf8_bytes, PASTE_LIMIT_BYTES};
use crate::text::byte_len;

verus! {

/// Gap between the session box and the off-screen text field, in pixels.
pub const OFFSCREEN_FIELD_GAP: u32 = 2000;

/// Height of the off-screen text field, in pixels.
pub const OFFSCREEN_FIELD_HEIGHT: u32 = 24;

/// Requests the inbox holds at once.
pub const ACTION_QUEUE_CAPACITY: usize = 64;

/// Payload bytes the inbox holds at once.
pub const ACTION_QUEUE_MAX_BYTES: usize = 262144;

/// Requests one wake drains at most.
pub const ACTION_DRAIN_BUDGET: usize = 32;

/// A pixel rectangle.
#[derive(Clone, Copy, Debug, PartialEq, Eq, Structural)]
pub struct Rect {
    pub x: u32,
    pub y: u32,
    pub width: u32,
    pub height: u32,
}

/// The parts of the window layout the published boxes depend on.
#[derive(Clone, Copy, Debug, PartialEq, Eq, Structural)]
pub struct Layout {
    pub sidebar: Rect,
    pub composer: Rect,
}

/// `value` as an `i32`, held at `i32::MAX` rather than wrapping negative.
pub fn saturating_i32(value: u32) -> (clamped: i32)
    ensures
        clamped as int == if value <= i32::MAX as u32 {
            value as int
        } else {
            i32::MAX as int
        },
{
    if value <= i32::MAX as u32 {
        value as i32
    } else {
        i32::MAX
    }
}

/// The session box: the frame inset by the sidebar and cut off at the
/// composer's top edge; a frame narrower than the sidebar leaves no width.
pub fn session_rect(layout: Layout, frame_width: u32, frame_height: u32) -> (rect: Rect)
    ensures
        rect.x == layout.sidebar.width,
        rect.y == 0,
        rect.width == if frame_width >= layout.sidebar.width {
            frame_width - layout.sidebar.width
        } else {
            0
        },
        rect.height == if layout.composer.y <= frame_height {
            layout.composer.y
        } else {
            frame_height
        },
{
    let left = layout.sidebar.width;
    let bottom = layout.composer.y;
    Rect {
        x: left,
        y: 0,
        width: frame_width.saturating_sub(left),
        height: if bottom <= frame_height { bottom } else { frame_height },
    }
}

/// The off-screen text field: just below `session`, out of the visual way,
/// with at least one pixel of width; its offset saturates rather than wraps.
pub fn offscreen_field_rect(session: Rect) -> (rect: Rect)
    ensures
        rect.x == session.x,
        rect.y == if session.y + session.height + OFFSCREEN_FIELD_GAP <= u32::MAX {
            session.y + session.height + OFFSCREEN_FIELD_GAP
        } else {
            u32::MAX as int
        },
        rect.width == if session.width >= 1 {
            session.width
        } else {
            1
        },
        rect.height == OFFSCREEN_FIELD_HEIGHT,
{
    Rect {
        x: session.x,
        y: session.y.saturating_add(session.height).saturating_add(OFFSCREEN_FIELD_GAP),
        width: if session.width >= 1 { session.width } else { 1 },
        height: OFFSCREEN_FIELD_HEIGHT,
    }
}

/// What an assistive technology asks a node to do.
#[derive(Clone, Debug, PartialEq, Eq)]
pub enum A11yAction {
    /// Replace the node's text.
    SetText(String),
    /// Press a key, described by its event string.
    Key(String),
    Click,
    Focus,
}

/// One request for node `node`.
#[derive(Clone, Debug, PartialEq, Eq)]
pub struct Request {
    pub node: u32,
    pub action: A11yAction,
}

/// The bytes a request is charged against the inbox's budget: a text's or a
/// key event string's UTF-8 bytes; nothing for a click or a focus.
pub open spec fn payload_of(request: Request) -> nat {
    match request.action {
        A11yAction::SetText(text) => utf8_bytes(text@),
        A11yAction::Key(event) => utf8_bytes(event@),
        A11yAction::Click => 0,
        A11yAction::Focus => 0,
    }
}

/// The bytes `requests` are charged together.
pub open spec fn payload_total(requests: Seq<Request>) -> nat
    decreases requests.len(),
{
    if requests.len() == 0 {
        0
    } else {
        payload_of(requests[0]) + payload_total(requests.drop_first())
    }
}

proof fn lemma_payload_total_push(s: Seq<Request>, r: Request)
    ensures
        payload_total(s.push(r)) == payload_total(s) + payload_of(r),
    decreases s.len(),
{
    assert(s.push(r)[0] == if s.len() == 0 { r } else { s[0] });
    if s.len() == 0 {
        assert(s.push(r).drop_first() =~= Seq::<Request>::empty());
        assert(payload_total(Seq::<Request>::empty()) == 0);
    } else {
        lemma_payload_total_push(s.drop_first(), r);
        assert(s.push(r).drop_first() =~= s.drop_first().push(r));
    }
}

impl Request {
    /// The bytes this request is charged.
    pub fn payload_bytes(&self) -> (bytes: usize)
        ensures
            bytes == payload_of(*self),
    {
        match &self.action {
            A11yAction::SetText(text) => byte_len(text.as_str()),
            A11yAction::Key(event) => byte_len(event.as_str()),
            A11yAction::Click => 0,
            A11yAction::Focus => 0,
        }
    }
}

/// The inbox's counters.
#[derive(Clone, Copy, Debug, PartialEq, Eq, Structural)]
pub struct ActionInboxStats {
    pub pending: usize,
    pub pending_bytes: usize,
    pub dropped: u64,
}

/// What a push did: whether the request was queued, and whether the window
/// must be woken for it.
#[derive(Clone, Copy, Debug, PartialEq, Eq, Structural)]
pub struct ActionPush {
    pub accepted: bool,
    pub should_wake: bool,
}

impl Default for ActionPush {
    fn default() -> (push: ActionPush)
        ensures
            !push.accepted && !push.should_wake,
    {
        ActionPush { accepted: false, should_wake: false }
    }
}

/// Assistive-technology requests waiting for the window, oldest first,
/// bounded in count and in payload bytes.
pub struct ActionInbox {
    requests: Vec<Request>,
    pending_bytes: usize,
    dropped: u64,
}

impl ActionInbox {
    pub closed spec fn spec_requests(&self) -> Seq<Request> {
        self.requests@
    }

    pub closed spec fn spec_pending_bytes(&self) -> nat {
        self.pending_bytes as nat
    }

    pub closed spec fn spec_dropped(&self) -> nat {
        self.dropped as nat
    }

    /// The byte ledger matches what is queued, and both bounds hold.
    pub open spec fn wf(&self) -> bool {
        &&& self.spec_pending_bytes() == payload_total(self.spec_requests())
        &&& self.spec_requests().len() <= ACTION_QUEUE_CAPACITY
        &&& self.spec_pending_bytes() <= ACTION_QUEUE_MAX_BYTES
    }

    /// An empty inbox.
    pub fn new() -> (inbox: Self)
        ensures
            inbox.wf(),
            inbox.spec_requests().len() == 0,
            inbox.spec_dropped() == 0,
    {
        ActionInbox { requests: Vec::new(), pending_bytes: 0, dropped: 0 }
    }

    /// Queues `request` unless the inbox is full, the request alone carries
    /// more than a paste may, or it would pass the byte budget; a refusal is
    /// counted. The window needs waking only for the first queued request.
    pub fn push(&mut self, request: Request) -> (outcome: ActionPush)
        requires
            old(self).wf(),
        ensures
            final(self).wf(),
            ({
                let fits = old(self).spec_requests().len() < ACTION_QUEUE_CAPACITY && payload_of(
                    request,
                ) <= PASTE_LIMIT_BYTES && old(self).spec_pending_bytes() + payload_of(request)
                    <= ACTION_QUEUE_MAX_BYTES;
                &&& outcome.accepted == fits
                &&& fits ==> outcome.should_wake == (old(self).spec_requests().len() == 0)
                    && final(self).spec_requests() == old(self).spec_requests().push(request)
                    && final(self).spec_dropped() == old(self).spec_dropped()
                &&& !fits ==> !outcome.should_wake && final(self).spec_requests() == old(
                    self,
                ).spec_requests() && final(self).spec_dropped() == if old(self).spec_dropped()
                    < u64::MAX {
                    old(self).spec_dropped() + 1
                } else {
                    old(self).spec_dropped()
                }
            }),
    {
        let payload = request.payload_bytes();
        if self.requests.len() >= ACTION_QUEUE_CAPACITY || payload > PASTE_LIMIT_BYTES
            || payload > ACTION_QUEUE_MAX_BYTES - self.pending_bytes {
            self.dropped = self.dropped.saturating_add(1);
            return ActionPush::default();
        }
        let should_wake = self.requests.len() == 0;
        proof {
            lemma_payload_total_push(self.requests@, request);
        }
        self.pending_bytes = self.pending_bytes + payload;
        self.requests.push(request);
        ActionPush { accepted: true, should_wake }
    }

    /// Takes up to `limit` requests, oldest first, returning their bytes to
    /// the budget; also says whether requests remain.
    pub fn pop_batch(&mut self, limit: usize) -> (result: (Vec<Request>, bool))
        requires
            old(self).wf(),
        ensures
            final(self).wf(),
            result.0@.len() == if limit < old(self).spec_requests().len() {
                limit as int
            } else {
                old(self).spec_requests().len() as int
            },
            result.0@ + final(self).spec_requests() == old(self).spec_requests(),
            result.1 == (final(self).spec_requests().len() > 0),
            final(self).spec_dropped() == old(self).spec_dropped(),
    {
        let ghost all = self.requests@;
        let count = if limit < self.requests.len() { limit } else { self.requests.len() };
        let mut batch: Vec<Request> = Vec::new();
        while batch.len() < count
            invariant
                count <= all.len(),
                batch@.len() <= count,
                batch@ + self.requests@ == all,
                self.pending_bytes == payload_total(self.requests@),
                self.requests@.len() <= ACTION_QUEUE_CAPACITY,
                self.pending_bytes <= ACTION_QUEUE_MAX_BYTES,
                self.dropped == old(self).dropped,
            decreases count - batch@.len(),
        {
            let ghost before = batch@;
            let ghost rest = self.requests@;
            let request = self.requests.remove(0);
            proof {
                assert(rest.drop_first() =~= self.requests@);
                assert(rest[0] == request);
            }
            let bytes = request.payload_bytes();
            self.pending_bytes = self.pending_bytes - bytes;
            batch.push(request);
            assert(batch@ + self.requests@ =~= before + rest);
        }
        let backlog = self.requests.len() > 0;
        (batch, backlog)
    }

    /// The inbox's counters.
    pub fn stats(&self) -> (stats: ActionInboxStats)
        ensures
            stats.pending == self.spec_requests().len(),
            stats.pending_bytes == self.spec_pending_bytes(),
            stats.dropped == self.spec_dropped(),
    {
        ActionInboxStats {
            pending: self.requests.len(),
            pending_bytes: self.pending_bytes,
            dropped: self.dropped,
        }
    }
}

impl Default for ActionInbox {
    fn default() -> (inbox: Self)
        ensures
            inbox.wf(),
            inbox.spec_requests().len() == 0,
            inbox.spec_dropped() == 0,
    {
        ActionInbox::new()
    }
}

/// How an accessibility node may be used.
#[derive(Clone, Copy, Debug, PartialEq, Eq, Structural)]
pub struct Flags {
    pub focusable: bool,
    pub focused: bool,
    pub editable: bool,
    pub clickable: bool,
}

impl Flags {
    /// A node that only contains others.
    pub fn container() -> (flags: Flags)
        ensures
            flags == (Flags { focusable: false, focused: false, editable: false, clickable: false }),
    {
        Flags { focusable: false, focused: false, editable: false, clickable: false }
    }

    /// A node that can take focus.
    pub fn focusable() -> (flags: Flags)
        ensures
            flags == (Flags { focusable: true, focused: false, editable: false, clickable: false }),
    {
        Flags { focusable: true, focused: false, editable: false, clickable: false }
    }

    /// The same node, clickable too.
    pub fn with_click(self) -> (flags: Flags)
        ensures
            flags == (Flags { clickable: true, ..self }),
    {
        Flags { clickable: true, ..self }
    }
}

} // verus!
