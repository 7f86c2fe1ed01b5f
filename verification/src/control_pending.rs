//! Pending control requests: queue bounds, deadlines, cancellation, and the
//! hand-back of each owned reply exactly once.
//!
//! Replies are opaque values of type `R`; this module never sends one. Every
//! operation that finishes a request returns the reply together with what to
//! send through it, and the caller delivers it.

use vstd::prelude::*;
use crate::clock::Clock;
use crate::tab::TabId;
use crate::text::{concat, debug_quote, debug_text, decimal, decimal_chars};

verus! {

/// Waits that may be pending at once.
pub const MAX_WAITS: usize = 32;

/// The longest wait a request may ask for, in milliseconds.
pub const MAX_WAIT_TIMEOUT_MS: u64 = 600000;

/// What a wait is waiting for.
#[derive(Clone, Debug, PartialEq, Eq)]
pub enum WaitKind {
    Text(String),
    TabExit,
}

/// What the session said when a wait was probed.
pub enum WaitProbe<J> {
    Completed(J),
    Missing(String),
    Pending,
}

/// A wait that has not finished. Its deadline is in milliseconds on the
/// owner's clock.
pub struct PendingWait<R> {
    pub target: TabId,
    pub kind: WaitKind,
    pub deadline: u64,
    pub reply: R,
}

/// A screenshot accepted but not yet captured.
pub struct ScreenshotWork<R, P> {
    pub target: TabId,
    pub path: P,
    pub reply: R,
    pub restore_active: Option<TabId>,
}

/// A screenshot whose capture is running elsewhere; `handle` is how the
/// caller reaches its reply and its completion flag.
pub struct InflightScreenshot<H> {
    pub target: TabId,
    pub handle: H,
}

/// Owns every pending control request and its reply.
pub struct PendingControl<R, P, H> {
    waits: Vec<PendingWait<R>>,
    screenshot: Option<ScreenshotWork<R, P>>,
    inflight_screenshot: Option<InflightScreenshot<H>>,
    clock: Clock,
}

/// What a cancellation hands back: the replies to fail, in order, and the
/// running screenshot whose reply the caller must fail too.
pub struct Cancelled<R, H> {
    pub replies: Vec<R>,
    pub inflight: Option<H>,
}

impl<R, P, H> Default for PendingControl<R, P, H> {
    fn default() -> (pending: Self)
        ensures
            pending.spec_waits().len() == 0,
            pending.spec_screenshot() is None,
            pending.spec_inflight() is None,
    {
        PendingControl::new()
    }
}

/// The message a timed-out wait is failed with.
pub open spec fn timeout_message(target: TabId, kind: WaitKind) -> Seq<char> {
    match kind {
        WaitKind::Text(text) => "wait-text timed out waiting for "@ + debug_text(text@),
        WaitKind::TabExit => "wait-tab-exit timed out waiting for @"@ + decimal_chars(
            target.0 as nat,
        ),
    }
}

/// What polling does with one wait: `None` keeps it pending, else the reply it
/// is finished with.
pub open spec fn poll_result<R, J>(wait: PendingWait<R>, probe: WaitProbe<J>, now: u64) -> Option<
    Result<J, Seq<char>>,
> {
    match probe {
        WaitProbe::Completed(response) => Some(Ok(response)),
        WaitProbe::Missing(error) => Some(Err(error@)),
        WaitProbe::Pending => if now >= wait.deadline {
            Some(Err(timeout_message(wait.target, wait.kind)))
        } else {
            None
        },
    }
}

/// The waits that stay pending after a poll, in order.
pub open spec fn kept_waits<R, J>(waits: Seq<PendingWait<R>>, probes: Seq<WaitProbe<J>>, now: u64) -> Seq<
    PendingWait<R>,
>
    decreases waits.len(),
{
    if waits.len() == 0 {
        Seq::empty()
    } else {
        let rest = kept_waits(waits.drop_last(), probes.drop_last(), now);
        if poll_result(waits.last(), probes.last(), now) is None {
            rest.push(waits.last())
        } else {
            rest
        }
    }
}

/// The replies a poll finishes, each with what it is finished with, in order.
pub open spec fn finished_waits<R, J>(waits: Seq<PendingWait<R>>, probes: Seq<WaitProbe<J>>, now: u64) -> Seq<
    (R, Result<J, Seq<char>>),
>
    decreases waits.len(),
{
    if waits.len() == 0 {
        Seq::empty()
    } else {
        let rest = finished_waits(waits.drop_last(), probes.drop_last(), now);
        match poll_result(waits.last(), probes.last(), now) {
            Some(result) => rest.push((waits.last().reply, result)),
            None => rest,
        }
    }
}

/// The earliest deadline among `waits`.
pub open spec fn earliest_deadline<R>(waits: Seq<PendingWait<R>>) -> Option<u64>
    decreases waits.len(),
{
    if waits.len() == 0 {
        None
    } else {
        match earliest_deadline(waits.drop_last()) {
            Some(d) => Some(if waits.last().deadline < d { waits.last().deadline } else { d }),
            None => Some(waits.last().deadline),
        }
    }
}

/// The replies of `waits`, in order.
pub open spec fn wait_replies<R>(waits: Seq<PendingWait<R>>) -> Seq<R> {
    waits.map_values(|w: PendingWait<R>| w.reply)
}

/// The waits that do not target `id`, in order.
pub open spec fn waits_not_for<R>(waits: Seq<PendingWait<R>>, id: TabId) -> Seq<PendingWait<R>>
    decreases waits.len(),
{
    if waits.len() == 0 {
        Seq::empty()
    } else {
        let rest = waits_not_for(waits.drop_last(), id);
        if waits.last().target != id {
            rest.push(waits.last())
        } else {
            rest
        }
    }
}

/// The replies of the waits that target `id`, in order.
pub open spec fn replies_for<R>(waits: Seq<PendingWait<R>>, id: TabId) -> Seq<R>
    decreases waits.len(),
{
    if waits.len() == 0 {
        Seq::empty()
    } else {
        let rest = replies_for(waits.drop_last(), id);
        if waits.last().target == id {
            rest.push(waits.last().reply)
        } else {
            rest
        }
    }
}

/// A finished reply with its message as plain characters.
pub open spec fn delivery_view<R, J>(d: (R, Result<J, String>)) -> (R, Result<J, Seq<char>>) {
    (
        d.0,
        match d.1 {
            Ok(j) => Ok(j),
            Err(e) => Err(e@),
        },
    )
}

/// Every reply the pending requests own: the waits' in order, then the
/// queued screenshot's.
pub open spec fn owned_replies<R, P>(waits: Seq<PendingWait<R>>, screenshot: Option<ScreenshotWork<R, P>>) -> Seq<R> {
    wait_replies(waits) + match screenshot {
        Some(shot) => seq![shot.reply],
        None => Seq::empty(),
    }
}

impl<R, P, H> PendingControl<R, P, H> {
    pub closed spec fn spec_waits(&self) -> Seq<PendingWait<R>> {
        self.waits@
    }

    pub closed spec fn spec_screenshot(&self) -> Option<ScreenshotWork<R, P>> {
        self.screenshot
    }

    pub closed spec fn spec_inflight(&self) -> Option<InflightScreenshot<H>> {
        self.inflight_screenshot
    }

    /// No request pending, with a clock started now.
    pub fn new() -> (pending: Self)
        ensures
            pending.spec_waits().len() == 0,
            pending.spec_screenshot() is None,
            pending.spec_inflight() is None,
    {
        PendingControl {
            waits: Vec::new(),
            screenshot: None,
            inflight_screenshot: None,
            clock: Clock::start(),
        }
    }

    /// Milliseconds on the clock deadlines are measured with.
    pub fn now_ms(&self) -> u64 {
        self.clock.now_ms()
    }

    pub fn wait_count(&self) -> (count: usize)
        ensures
            count == self.spec_waits().len(),
    {
        self.waits.len()
    }

    pub fn screenshot_count(&self) -> (count: usize)
        ensures
            count == (if self.spec_screenshot() is Some { 1int } else { 0int }) + (
            if self.spec_inflight() is Some {
                1int
            } else {
                0int
            }),
    {
        let queued: usize = if self.screenshot.is_some() { 1 } else { 0 };
        let running: usize = if self.inflight_screenshot.is_some() { 1 } else { 0 };
        queued + running
    }

    pub fn has_pending_screenshot(&self) -> (pending: bool)
        ensures
            pending == self.spec_screenshot() is Some,
    {
        self.screenshot.is_some()
    }

    /// The targets and kinds of the pending waits, in the order a poll takes
    /// its probes.
    pub fn wait_targets(&self) -> (targets: Vec<(TabId, WaitKind)>)
        ensures
            targets@.len() == self.spec_waits().len(),
            forall|i: int| 0 <= i < targets@.len() ==> (#[trigger] targets@[i]).0 == self.spec_waits()[i].target
                && targets@[i].1 == self.spec_waits()[i].kind,
    {
        let mut targets: Vec<(TabId, WaitKind)> = Vec::new();
        let mut i: usize = 0;
        while i < self.waits.len()
            invariant
                i <= self.waits@.len(),
                targets@.len() == i,
                forall|j: int| 0 <= j < i ==> (#[trigger] targets@[j]).0 == self.waits@[j].target
                    && targets@[j].1 == self.waits@[j].kind,
            decreases self.waits@.len() - i,
        {
            let kind = match &self.waits[i].kind {
                WaitKind::Text(text) => WaitKind::Text(text.clone()),
                WaitKind::TabExit => WaitKind::TabExit,
            };
            targets.push((self.waits[i].target, kind));
            i = i + 1;
        }
        targets
    }

    /// Takes `reply` for a wait on `target` that ends `timeout_ms` after
    /// `now`. A full queue fails with `capacity_error` and an over-long
    /// timeout with its own message; either way `reply` stays with the
    /// caller.
    pub fn enqueue_wait_at(
        &mut self,
        target: TabId,
        kind: WaitKind,
        timeout_ms: u64,
        reply: &mut Option<R>,
        capacity_error: &str,
        now: u64,
    ) -> (result: Result<(), String>)
        requires
            old(self).spec_waits().len() < MAX_WAITS && timeout_ms <= MAX_WAIT_TIMEOUT_MS ==> *old(reply) is Some,
            now <= u64::MAX - MAX_WAIT_TIMEOUT_MS,
        ensures
            old(self).spec_waits().len() >= MAX_WAITS ==> (result matches Err(e) && e@
                == capacity_error@),
            old(self).spec_waits().len() < MAX_WAITS && timeout_ms > MAX_WAIT_TIMEOUT_MS
                ==> (result matches Err(e) && e@ == "wait timeout exceeds the 600000 ms limit"@),
            result is Err ==> *final(reply) == *old(reply) && final(self).spec_waits()
                == old(self).spec_waits(),
            result is Ok <==> old(self).spec_waits().len() < MAX_WAITS && timeout_ms
                <= MAX_WAIT_TIMEOUT_MS,
            result is Ok ==> *final(reply) is None && final(self).spec_waits() == old(
                self,
            ).spec_waits().push(
                PendingWait {
                    target,
                    kind,
                    deadline: (now + timeout_ms) as u64,
                    reply: (*old(reply)).unwrap(),
                },
            ),
            final(self).spec_screenshot() == old(self).spec_screenshot(),
            final(self).spec_inflight() == old(self).spec_inflight(),
    {
        if self.waits.len() >= MAX_WAITS {
            return Err(capacity_error.to_owned());
        }
        if timeout_ms > MAX_WAIT_TIMEOUT_MS {
            return Err("wait timeout exceeds the 600000 ms limit".to_owned());
        }
        let taken = reply.take();
        match taken {
            Some(r) => {
                self.waits.push(PendingWait { target, kind, deadline: now + timeout_ms, reply: r });
                Ok(())
            },
            None => Ok(()),
        }
    }

    /// `enqueue_wait_at` with the deadline counted from the current time.
    pub fn enqueue_wait(
        &mut self,
        target: TabId,
        kind: WaitKind,
        timeout_ms: u64,
        reply: &mut Option<R>,
        capacity_error: &str,
    ) -> (result: Result<(), String>)
        requires
            old(self).spec_waits().len() < MAX_WAITS && timeout_ms <= MAX_WAIT_TIMEOUT_MS ==> *old(reply) is Some,
        ensures
            old(self).spec_waits().len() >= MAX_WAITS ==> (result matches Err(e) && e@
                == capacity_error@),
            old(self).spec_waits().len() < MAX_WAITS && timeout_ms > MAX_WAIT_TIMEOUT_MS
                ==> (result matches Err(e) && e@ == "wait timeout exceeds the 600000 ms limit"@),
            result is Err ==> *final(reply) == *old(reply) && final(self).spec_waits()
                == old(self).spec_waits(),
            result is Ok <==> old(self).spec_waits().len() < MAX_WAITS && timeout_ms
                <= MAX_WAIT_TIMEOUT_MS,
            result is Ok ==> *final(reply) is None && final(self).spec_waits().len() == old(
                self,
            ).spec_waits().len() + 1 && final(self).spec_waits().drop_last() == old(
                self,
            ).spec_waits() && final(self).spec_waits().last().target == target
                && final(self).spec_waits().last().kind == kind && final(self).spec_waits().last().reply
                == (*old(reply)).unwrap(),
            final(self).spec_screenshot() == old(self).spec_screenshot(),
            final(self).spec_inflight() == old(self).spec_inflight(),
    {
        let now = self.clock.now_ms();
        let now = if now > u64::MAX - MAX_WAIT_TIMEOUT_MS {
            u64::MAX - MAX_WAIT_TIMEOUT_MS
        } else {
            now
        };
        let ghost before = self.spec_waits();
        let result = self.enqueue_wait_at(target, kind, timeout_ms, reply, capacity_error, now);
        proof {
            if result is Ok {
                assert(self.spec_waits().drop_last() =~= before);
            }
        }
        result
    }

    /// Probes every wait once, with `probes[i]` the answer for the `i`-th
    /// pending wait (see `wait_targets`). Completed and missing waits are
    /// finished with what the probe said, pending waits past their deadline
    /// with a timeout error; the rest stay, in order. Returns the nearest
    /// deadline left and the replies to deliver.
    pub fn poll_waits<J>(&mut self, now: u64, probes: Vec<WaitProbe<J>>) -> (result: (
        Option<u64>,
        Vec<(R, Result<J, String>)>,
    ))
        requires
            probes@.len() == old(self).spec_waits().len(),
        ensures
            final(self).spec_waits() == kept_waits(old(self).spec_waits(), probes@, now),
            result.1@.map_values(|d: (R, Result<J, String>)| delivery_view(d)) == finished_waits(
                old(self).spec_waits(),
                probes@,
                now,
            ),
            result.0 == earliest_deadline(final(self).spec_waits()),
            final(self).spec_screenshot() == old(self).spec_screenshot(),
            final(self).spec_inflight() == old(self).spec_inflight(),
    {
        let ghost all_waits = self.waits@;
        let ghost all_probes = probes@;
        let mut waits: Vec<PendingWait<R>> = Vec::new();
        std::mem::swap(&mut waits, &mut self.waits);
        let mut probes = probes;
        let mut kept: Vec<PendingWait<R>> = Vec::new();
        let mut finished: Vec<(R, Result<J, String>)> = Vec::new();
        let mut next: Option<u64> = None;
        let ghost mut i: int = 0;
        proof {
            assert(all_waits.skip(0) =~= all_waits);
            assert(all_probes.skip(0) =~= all_probes);
            assert(all_waits.take(0) =~= Seq::<PendingWait<R>>::empty());
            assert(all_probes.take(0) =~= Seq::<WaitProbe<J>>::empty());
            assert(finished@.map_values(|d: (R, Result<J, String>)| delivery_view(d)) =~= Seq::<
                (R, Result<J, Seq<char>>),
            >::empty());
        }
        while waits.len() > 0
            invariant
                0 <= i <= all_waits.len(),
                all_probes.len() == all_waits.len(),
                waits@ == all_waits.skip(i),
                probes@ == all_probes.skip(i),
                kept@ == kept_waits(all_waits.take(i), all_probes.take(i), now),
                finished@.map_values(|d: (R, Result<J, String>)| delivery_view(d)) == finished_waits(
                    all_waits.take(i),
                    all_probes.take(i),
                    now,
                ),
                next == earliest_deadline(kept@),
                self.screenshot == old(self).screenshot,
                self.inflight_screenshot == old(self).inflight_screenshot,
            decreases waits@.len(),
        {
            let wait = waits.remove(0);
            let probe = probes.remove(0);
            proof {
                assert(all_waits.take(i + 1).drop_last() =~= all_waits.take(i));
                assert(all_probes.take(i + 1).drop_last() =~= all_probes.take(i));
                assert(all_waits.take(i + 1).last() == wait);
                assert(all_probes.take(i + 1).last() == probe);
                assert(waits@ =~= all_waits.skip(i + 1));
                assert(probes@ =~= all_probes.skip(i + 1));
            }
            let ghost before = finished@;
            match probe {
                WaitProbe::Completed(response) => {
                    finished.push((wait.reply, Ok(response)));
                },
                WaitProbe::Missing(error) => {
                    finished.push((wait.reply, Err(error)));
                },
                WaitProbe::Pending => {
                    if now >= wait.deadline {
                        let message = match &wait.kind {
                            WaitKind::Text(text) => {
                                let quoted = debug_quote(text.as_str());
                                concat("wait-text timed out waiting for ", quoted.as_str())
                            },
                            WaitKind::TabExit => {
                                let digits = decimal(wait.target.0);
                                concat("wait-tab-exit timed out waiting for @", digits.as_str())
                            },
                        };
                        finished.push((wait.reply, Err(message)));
                    } else {
                        next = match next {
                            Some(current) => Some(
                                if wait.deadline < current {
                                    wait.deadline
                                } else {
                                    current
                                },
                            ),
                            None => Some(wait.deadline),
                        };
                        proof {
                            assert(kept@.push(wait).drop_last() =~= kept@);
                        }
                        kept.push(wait);
                    }
                },
            }
            proof {
                assert(finished@.drop_last() =~= before || finished@ =~= before);
                if finished@.len() > before.len() {
                    assert(finished@.map_values(|d: (R, Result<J, String>)| delivery_view(d))
                        =~= before.map_values(|d: (R, Result<J, String>)| delivery_view(d)).push(
                        delivery_view(finished@.last()),
                    ));
                }
                i = i + 1;
            }
        }
        proof {
            assert(all_waits.take(i) =~= all_waits);
            assert(all_probes.take(i) =~= all_probes);
        }
        self.waits = kept;
        (next, finished)
    }

    /// Queues a screenshot of `target`, taking `reply`; refused while another
    /// is queued or running, and then `reply` stays with the caller.
    pub fn enqueue_screenshot(&mut self, target: TabId, path: P, reply: &mut Option<R>) -> (result:
        Result<(), String>)
        requires
            old(self).spec_screenshot() is None && old(self).spec_inflight() is None ==> *old(
                reply,
            ) is Some,
        ensures
            result is Ok <==> old(self).spec_screenshot() is None && old(self).spec_inflight() is None,
            result matches Err(e) ==> e@ == "a screenshot is already pending"@ && *final(reply)
                == *old(reply) && final(self).spec_screenshot() == old(self).spec_screenshot(),
            result is Ok ==> *final(reply) is None && final(self).spec_screenshot() == Some(
                ScreenshotWork { target, path, reply: (*old(reply)).unwrap(), restore_active: None },
            ),
            final(self).spec_waits() == old(self).spec_waits(),
            final(self).spec_inflight() == old(self).spec_inflight(),
    {
        if self.screenshot.is_some() || self.inflight_screenshot.is_some() {
            return Err("a screenshot is already pending".to_owned());
        }
        match reply.take() {
            Some(r) => {
                self.screenshot = Some(
                    ScreenshotWork { target, path, reply: r, restore_active: None },
                );
            },
            None => {},
        }
        Ok(())
    }

    /// Records which tab to make active again after capturing the queued
    /// screenshot (none when `active` is its target), and returns its target.
    pub fn prepare_screenshot(&mut self, active: Option<TabId>) -> (target: Option<TabId>)
        ensures
            target == match old(self).spec_screenshot() {
                Some(shot) => Some(shot.target),
                None => None::<TabId>,
            },
            match old(self).spec_screenshot() {
                Some(shot) => final(self).spec_screenshot() == Some(
                    ScreenshotWork {
                        restore_active: if active == Some(shot.target) {
                            None
                        } else {
                            active
                        },
                        ..shot
                    },
                ),
                None => final(self).spec_screenshot() is None,
            },
            final(self).spec_waits() == old(self).spec_waits(),
            final(self).spec_inflight() == old(self).spec_inflight(),
    {
        match &mut self.screenshot {
            Some(shot) => {
                let same = match active {
                    Some(a) => a.0 == shot.target.0,
                    None => false,
                };
                shot.restore_active = if same { None } else { active };
                Some(shot.target)
            },
            None => None,
        }
    }

    /// Takes the queued screenshot out to capture it.
    pub fn take_screenshot(&mut self) -> (shot: Option<ScreenshotWork<R, P>>)
        ensures
            shot == old(self).spec_screenshot(),
            final(self).spec_screenshot() is None,
            final(self).spec_waits() == old(self).spec_waits(),
            final(self).spec_inflight() == old(self).spec_inflight(),
    {
        self.screenshot.take()
    }

    /// Records a capture of `target` now running, reachable through `handle`.
    pub fn start_screenshot(&mut self, target: TabId, handle: H)
        ensures
            final(self).spec_inflight() == Some(InflightScreenshot { target, handle }),
            final(self).spec_waits() == old(self).spec_waits(),
            final(self).spec_screenshot() == old(self).spec_screenshot(),
    {
        self.inflight_screenshot = Some(InflightScreenshot { target, handle });
    }

    /// The running capture's handle, so the caller can ask whether it is done.
    pub fn inflight_handle(&self) -> (handle: Option<&H>)
        ensures
            handle == match self.spec_inflight() {
                Some(shot) => Some(&shot.handle),
                None => None::<&H>,
            },
    {
        match &self.inflight_screenshot {
            Some(shot) => Some(&shot.handle),
            None => None,
        }
    }

    /// Forgets the running capture once it has `finished`.
    pub fn reap_finished_screenshot(&mut self, finished: bool)
        ensures
            final(self).spec_inflight() == if finished {
                None
            } else {
                old(self).spec_inflight()
            },
            final(self).spec_waits() == old(self).spec_waits(),
            final(self).spec_screenshot() == old(self).spec_screenshot(),
    {
        if finished && self.inflight_screenshot.is_some() {
            self.inflight_screenshot = None;
        }
    }

    /// Cancels every request for tab `id`. Returns the replies to fail, in
    /// order (the waits', then the queued screenshot's), and the handle of a
    /// running capture of `id`, whose reply the caller fails too.
    pub fn cancel_for_tab(&mut self, id: TabId) -> (cancelled: Cancelled<R, H>)
        ensures
            final(self).spec_waits() == waits_not_for(old(self).spec_waits(), id),
            cancelled.replies@ == replies_for(old(self).spec_waits(), id) + match old(
                self,
            ).spec_screenshot() {
                Some(shot) => if shot.target == id {
                    seq![shot.reply]
                } else {
                    Seq::empty()
                },
                None => Seq::empty(),
            },
            final(self).spec_screenshot() == match old(self).spec_screenshot() {
                Some(shot) => if shot.target == id {
                    None
                } else {
                    Some(shot)
                },
                None => None,
            },
            match old(self).spec_inflight() {
                Some(shot) => if shot.target == id {
                    final(self).spec_inflight() is None && cancelled.inflight == Some(shot.handle)
                } else {
                    final(self).spec_inflight() == Some(shot) && cancelled.inflight is None
                },
                None => final(self).spec_inflight() is None && cancelled.inflight is None,
            },
    {
        let ghost all = self.waits@;
        let mut waits: Vec<PendingWait<R>> = Vec::new();
        std::mem::swap(&mut waits, &mut self.waits);
        let mut retained: Vec<PendingWait<R>> = Vec::new();
        let mut replies: Vec<R> = Vec::new();
        let ghost mut i: int = 0;
        proof {
            assert(all.skip(0) =~= all);
            assert(all.take(0) =~= Seq::<PendingWait<R>>::empty());
        }
        while waits.len() > 0
            invariant
                0 <= i <= all.len(),
                waits@ == all.skip(i),
                retained@ == waits_not_for(all.take(i), id),
                replies@ == replies_for(all.take(i), id),
                self.screenshot == old(self).screenshot,
                self.inflight_screenshot == old(self).inflight_screenshot,
            decreases waits@.len(),
        {
            let wait = waits.remove(0);
            proof {
                assert(all.take(i + 1).drop_last() =~= all.take(i));
                assert(all.take(i + 1).last() == wait);
                assert(waits@ =~= all.skip(i + 1));
                i = i + 1;
            }
            if wait.target.0 == id.0 {
                replies.push(wait.reply);
            } else {
                retained.push(wait);
            }
        }
        proof {
            assert(all.take(i) =~= all);
        }
        self.waits = retained;
        let ghost wait_replies_for = replies@;
        let shot_matches = match &self.screenshot {
            Some(shot) => shot.target.0 == id.0,
            None => false,
        };
        if shot_matches {
            match self.screenshot.take() {
                Some(shot) => replies.push(shot.reply),
                None => {},
            }
        }
        proof {
            if !shot_matches {
                assert(replies@ =~= wait_replies_for + Seq::<R>::empty());
            } else {
                assert(replies@ =~= wait_replies_for + seq![replies@.last()]);
            }
        }
        let inflight_matches = match &self.inflight_screenshot {
            Some(shot) => shot.target.0 == id.0,
            None => false,
        };
        let inflight = if inflight_matches {
            match self.inflight_screenshot.take() {
                Some(shot) => Some(shot.handle),
                None => None,
            }
        } else {
            None
        };
        Cancelled { replies, inflight }
    }

    /// Cancels every pending request: the replies to fail, in order (the
    /// waits', then the queued screenshot's), and the running capture's
    /// handle.
    pub fn cancel_all(&mut self) -> (cancelled: Cancelled<R, H>)
        ensures
            cancelled.replies@ == owned_replies(old(self).spec_waits(), old(self).spec_screenshot()),
            cancelled.inflight == match old(self).spec_inflight() {
                Some(shot) => Some(shot.handle),
                None => None::<H>,
            },
            final(self).spec_waits().len() == 0,
            final(self).spec_screenshot() is None,
            final(self).spec_inflight() is None,
    {
        let ghost all = self.waits@;
        let mut waits: Vec<PendingWait<R>> = Vec::new();
        std::mem::swap(&mut waits, &mut self.waits);
        let mut replies: Vec<R> = Vec::new();
        let ghost mut i: int = 0;
        proof {
            assert(all.skip(0) =~= all);
            assert(wait_replies(all.take(0)) =~= Seq::<R>::empty());
        }
        while waits.len() > 0
            invariant
                0 <= i <= all.len(),
                waits@ == all.skip(i),
                replies@ == wait_replies(all.take(i)),
                self.waits@.len() == 0,
                self.screenshot == old(self).screenshot,
                self.inflight_screenshot == old(self).inflight_screenshot,
            decreases waits@.len(),
        {
            let wait = waits.remove(0);
            proof {
                assert(all.take(i + 1) =~= all.take(i).push(wait));
                assert(wait_replies(all.take(i + 1)) =~= wait_replies(all.take(i)).push(wait.reply));
                assert(waits@ =~= all.skip(i + 1));
                i = i + 1;
            }
            replies.push(wait.reply);
        }
        proof {
            assert(all.take(i) =~= all);
        }
        let ghost wait_part = replies@;
        match self.screenshot.take() {
            Some(shot) => replies.push(shot.reply),
            None => {},
        }
        proof {
            if old(self).screenshot is None {
                assert(replies@ =~= wait_part + Seq::<R>::empty());
            } else {
                assert(replies@ =~= wait_part + seq![replies@.last()]);
            }
        }
        let inflight = match self.inflight_screenshot.take() {
            Some(shot) => Some(shot.handle),
            None => None,
        };
        Cancelled { replies, inflight }
    }
}

/// A poll accounts for every reply once: each wait's reply is either still
/// owned by a kept wait or handed back to be delivered, never both, never
/// neither.
pub proof fn law_poll_hands_back_each_reply_once<R, J>(
    waits: Seq<PendingWait<R>>,
    probes: Seq<WaitProbe<J>>,
    now: u64,
)
    requires
        probes.len() == waits.len(),
    ensures
        wait_replies(waits).to_multiset() == wait_replies(kept_waits(waits, probes, now)).to_multiset().add(
            finished_waits(waits, probes, now).map_values(|d: (R, Result<J, Seq<char>>)| d.0).to_multiset(),
        ),
    decreases waits.len(),
{
    broadcast use vstd::seq_lib::to_multiset_build;
    broadcast use vstd::multiset::group_multiset_axioms;

    let f = |d: (R, Result<J, Seq<char>>)| d.0;
    if waits.len() == 0 {
        assert(wait_replies(waits) =~= Seq::<R>::empty());
        assert(wait_replies(kept_waits(waits, probes, now)) =~= Seq::<R>::empty());
        assert(finished_waits(waits, probes, now).map_values(f) =~= Seq::<R>::empty());
        let e = Seq::<R>::empty();
        vstd::seq_lib::lemma_multiset_commutative(e, e);
        assert(e + e =~= e);
    } else {
        let front = waits.drop_last();
        let fp = probes.drop_last();
        law_poll_hands_back_each_reply_once(front, fp, now);
        assert(wait_replies(waits) =~= wait_replies(front).push(waits.last().reply));
        let kept = kept_waits(front, fp, now);
        let done = finished_waits(front, fp, now);
        if poll_result(waits.last(), probes.last(), now) is None {
            assert(wait_replies(kept.push(waits.last())) =~= wait_replies(kept).push(
                waits.last().reply,
            ));
            assert(wait_replies(waits).to_multiset() =~= wait_replies(
                kept_waits(waits, probes, now),
            ).to_multiset().add(finished_waits(waits, probes, now).map_values(f).to_multiset()));
        } else {
            let result = poll_result(waits.last(), probes.last(), now).unwrap();
            assert(done.push((waits.last().reply, result)).map_values(f) =~= done.map_values(f).push(
                waits.last().reply,
            ));
            assert(wait_replies(waits).to_multiset() =~= wait_replies(
                kept_waits(waits, probes, now),
            ).to_multiset().add(finished_waits(waits, probes, now).map_values(f).to_multiset()));
        }
    }
}

/// Cancelling a tab accounts for every wait's reply once, and leaves no wait
/// for that tab, so no later cancellation can fail a reply twice.
pub proof fn law_cancel_hands_back_each_reply_once<R>(waits: Seq<PendingWait<R>>, id: TabId)
    ensures
        wait_replies(waits).to_multiset() == wait_replies(waits_not_for(waits, id)).to_multiset().add(
            replies_for(waits, id).to_multiset(),
        ),
        replies_for(waits_not_for(waits, id), id).len() == 0,
    decreases waits.len(),
{
    broadcast use vstd::seq_lib::to_multiset_build;
    broadcast use vstd::multiset::group_multiset_axioms;

    if waits.len() == 0 {
        assert(wait_replies(waits) =~= Seq::<R>::empty());
        let e = Seq::<R>::empty();
        vstd::seq_lib::lemma_multiset_commutative(e, e);
        assert(e + e =~= e);
        assert(waits_not_for(waits, id) =~= Seq::<PendingWait<R>>::empty());
        assert(wait_replies(waits_not_for(waits, id)) =~= e);
        assert(replies_for(waits, id) =~= e);
    } else {
        let front = waits.drop_last();
        law_cancel_hands_back_each_reply_once(front, id);
        let last = waits.last();
        let kept0 = waits_not_for(front, id);
        if last.target != id {
            let k1 = kept0.push(last);
            assert(k1.drop_last() =~= kept0);
            assert(k1.last() == last);
        }
        assert(wait_replies(waits) =~= wait_replies(front).push(waits.last().reply));
        let kept = waits_not_for(front, id);
        if waits.last().target != id {
            assert(wait_replies(kept.push(waits.last())) =~= wait_replies(kept).push(
                waits.last().reply,
            ));
        }
        assert(wait_replies(waits).to_multiset() =~= wait_replies(waits_not_for(waits, id)).to_multiset().add(
            replies_for(waits, id).to_multiset(),
        ));
    }
}

} // verus!
