//! Performance counters and their JSON projection. Every counter saturates
//! rather than wrapping.

use vstd::prelude::*;
use crate::json::JsonValue;

verus! {

/// The platform's cumulative presentation ledger.
#[derive(Clone, Copy, Debug, PartialEq, Eq, Structural)]
pub struct PresentStats {
    pub sequence: u64,
    pub count: u64,
    pub success_count: u64,
    pub failure_count: u64,
    pub last_ns: u64,
    pub total_ns: u64,
    pub max_ns: u64,
    pub full_pixels: u64,
    pub partial_pixels: u64,
    pub requested_full_pixels: u64,
    pub requested_partial_pixels: u64,
}

impl Default for PresentStats {
    fn default() -> (stats: PresentStats)
        ensures
            stats == zero_present(),
    {
        PresentStats {
            sequence: 0,
            count: 0,
            success_count: 0,
            failure_count: 0,
            last_ns: 0,
            total_ns: 0,
            max_ns: 0,
            full_pixels: 0,
            partial_pixels: 0,
            requested_full_pixels: 0,
            requested_partial_pixels: 0,
        }
    }
}

pub open spec fn zero_present() -> PresentStats {
    PresentStats {
        sequence: 0,
        count: 0,
        success_count: 0,
        failure_count: 0,
        last_ns: 0,
        total_ns: 0,
        max_ns: 0,
        full_pixels: 0,
        partial_pixels: 0,
        requested_full_pixels: 0,
        requested_partial_pixels: 0,
    }
}

pub open spec fn sat_add(a: u64, b: u64) -> u64 {
    if a + b <= u64::MAX {
        (a + b) as u64
    } else {
        u64::MAX
    }
}

pub open spec fn sat_sub(a: u64, b: u64) -> u64 {
    if a >= b {
        (a - b) as u64
    } else {
        0
    }
}

/// The window's performance counters.
#[derive(Clone, Copy, Debug, PartialEq, Eq, Structural)]
pub struct PerfStats {
    pub frames: u64,
    pub observed_frames: u64,
    pub render_total_us: u128,
    pub render_last_us: u64,
    pub render_max_us: u64,
    pub pty_drained_bytes: u64,
    pub pty_budget_yields: u64,
    pub control_requests: u64,
    pub control_budget_yields: u64,
    pub full_candidate_frames: u64,
    pub partial_candidate_frames: u64,
    pub dirty_pixels: u64,
    pub frame_pixels: u64,
    pub host_direct_frames: u64,
    pub host_copy_frames: u64,
    pub host_copy_pixels: u64,
    pub discarded_capture_frames: u64,
    pub platform_present: PresentStats,
    pub present_baseline: PresentStats,
    pub present_sequence_seen: u64,
    pub present_last_ns: u64,
    pub present_max_ns: u64,
}

pub open spec fn zero_perf() -> PerfStats {
    PerfStats {
        frames: 0,
        observed_frames: 0,
        render_total_us: 0,
        render_last_us: 0,
        render_max_us: 0,
        pty_drained_bytes: 0,
        pty_budget_yields: 0,
        control_requests: 0,
        control_budget_yields: 0,
        full_candidate_frames: 0,
        partial_candidate_frames: 0,
        dirty_pixels: 0,
        frame_pixels: 0,
        host_direct_frames: 0,
        host_copy_frames: 0,
        host_copy_pixels: 0,
        discarded_capture_frames: 0,
        platform_present: zero_present(),
        present_baseline: zero_present(),
        present_sequence_seen: 0,
        present_last_ns: 0,
        present_max_ns: 0,
    }
}

impl Default for PerfStats {
    fn default() -> (stats: PerfStats)
        ensures
            stats == zero_perf(),
    {
        PerfStats {
            frames: 0,
            observed_frames: 0,
            render_total_us: 0,
            render_last_us: 0,
            render_max_us: 0,
            pty_drained_bytes: 0,
            pty_budget_yields: 0,
            control_requests: 0,
            control_budget_yields: 0,
            full_candidate_frames: 0,
            partial_candidate_frames: 0,
            dirty_pixels: 0,
            frame_pixels: 0,
            host_direct_frames: 0,
            host_copy_frames: 0,
            host_copy_pixels: 0,
            discarded_capture_frames: 0,
            platform_present: PresentStats::default(),
            present_baseline: PresentStats::default(),
            present_sequence_seen: 0,
            present_last_ns: 0,
            present_max_ns: 0,
        }
    }
}

/// The present ledger since the baseline: each cumulative count less its
/// baseline, the latest sample as is, and the largest sample seen since.
pub open spec fn present_delta_of(stats: PerfStats) -> PresentStats {
    let c = stats.platform_present;
    let b = stats.present_baseline;
    PresentStats {
        sequence: sat_sub(c.sequence, b.sequence),
        count: sat_sub(c.count, b.count),
        success_count: sat_sub(c.success_count, b.success_count),
        failure_count: sat_sub(c.failure_count, b.failure_count),
        last_ns: stats.present_last_ns,
        total_ns: sat_sub(c.total_ns, b.total_ns),
        max_ns: stats.present_max_ns,
        full_pixels: sat_sub(c.full_pixels, b.full_pixels),
        partial_pixels: sat_sub(c.partial_pixels, b.partial_pixels),
        requested_full_pixels: sat_sub(c.requested_full_pixels, b.requested_full_pixels),
        requested_partial_pixels: sat_sub(c.requested_partial_pixels, b.requested_partial_pixels),
    }
}


/// The counters after one rendered frame of `elapsed_us` microseconds.
pub open spec fn after_frame(s: PerfStats, elapsed_us: u128) -> PerfStats {
    let micros: u64 = if elapsed_us <= u64::MAX as u128 {
        elapsed_us as u64
    } else {
        u64::MAX
    };
    PerfStats {
        frames: sat_add(s.frames, 1),
        observed_frames: sat_add(s.observed_frames, 1),
        render_total_us: if s.render_total_us + micros <= u128::MAX {
            (s.render_total_us + micros) as u128
        } else {
            u128::MAX
        },
        render_last_us: micros,
        render_max_us: if micros > s.render_max_us {
            micros
        } else {
            s.render_max_us
        },
        ..s
    }
}

/// `s` with the raster-candidate counters of `t`.
pub open spec fn with_candidate_counts(s: PerfStats, t: PerfStats) -> PerfStats {
    PerfStats {
        frame_pixels: t.frame_pixels,
        full_candidate_frames: t.full_candidate_frames,
        partial_candidate_frames: t.partial_candidate_frames,
        dirty_pixels: t.dirty_pixels,
        ..s
    }
}

pub open spec fn after_direct_frame(s: PerfStats) -> PerfStats {
    PerfStats { host_direct_frames: sat_add(s.host_direct_frames, 1), ..s }
}

pub open spec fn after_copy_frame(s: PerfStats, width: u32, height: u32) -> PerfStats {
    PerfStats {
        host_copy_frames: sat_add(s.host_copy_frames, 1),
        host_copy_pixels: sat_add(s.host_copy_pixels, (width as u64 * height as u64) as u64),
        ..s
    }
}

/// The counters after taking the platform's ledger `current`.
pub open spec fn after_sync(s: PerfStats, current: PresentStats) -> PerfStats {
    if current.sequence > s.present_sequence_seen {
        PerfStats {
            present_sequence_seen: current.sequence,
            present_last_ns: current.last_ns,
            present_max_ns: if current.last_ns > s.present_max_ns {
                current.last_ns
            } else {
                s.present_max_ns
            },
            platform_present: current,
            ..s
        }
    } else {
        PerfStats { platform_present: current, ..s }
    }
}

/// Every counter zero, with `present` as the baseline.
pub open spec fn after_reset(present: PresentStats) -> PerfStats {
    PerfStats {
        platform_present: present,
        present_baseline: present,
        present_sequence_seen: present.sequence,
        ..zero_perf()
    }
}


/// Average render time in microseconds, held at `u64::MAX`.
pub open spec fn average_of(s: PerfStats) -> u64 {
    if s.frames == 0 {
        0
    } else if s.render_total_us / (s.frames as u128) <= u64::MAX as u128 {
        (s.render_total_us / (s.frames as u128)) as u64
    } else {
        u64::MAX
    }
}

/// The names and values of the JSON projection, in order.
pub open spec fn perf_fields(s: PerfStats) -> Seq<(Seq<char>, u64)> {
    let p = present_delta_of(s);
    seq![
        ("frames"@, s.frames),
        ("observed_frames"@, s.observed_frames),
        ("render_last_us"@, s.render_last_us),
        ("render_average_us"@, average_of(s)),
        ("render_max_us"@, s.render_max_us),
        ("pty_drained_bytes"@, s.pty_drained_bytes),
        ("pty_budget_yields"@, s.pty_budget_yields),
        ("control_requests"@, s.control_requests),
        ("control_budget_yields"@, s.control_budget_yields),
        ("full_candidate_frames"@, s.full_candidate_frames),
        ("partial_candidate_frames"@, s.partial_candidate_frames),
        ("dirty_pixels"@, s.dirty_pixels),
        ("frame_pixels"@, s.frame_pixels),
        ("host_direct_frames"@, s.host_direct_frames),
        ("host_copy_frames"@, s.host_copy_frames),
        ("host_copy_pixels"@, s.host_copy_pixels),
        ("discarded_capture_frames"@, s.discarded_capture_frames),
        ("present_count"@, p.count),
        ("present_success"@, p.success_count),
        ("present_failure"@, p.failure_count),
        ("last_ns"@, p.last_ns),
        ("total_ns"@, p.total_ns),
        ("max_ns"@, p.max_ns),
        ("full_pixels"@, p.full_pixels),
        ("partial_pixels"@, p.partial_pixels),
        ("requested_full_pixels"@, p.requested_full_pixels),
        ("requested_partial_pixels"@, p.requested_partial_pixels)
    ]
}

impl PerfStats {
    /// Counts one rendered frame that took `elapsed_us` microseconds.
    pub fn record_frame(&mut self, elapsed_us: u128)
        ensures
            *final(self) == after_frame(*old(self), elapsed_us),
    {
        let micros: u64 = if elapsed_us <= u64::MAX as u128 { elapsed_us as u64 } else { u64::MAX };
        self.frames = self.frames.saturating_add(1);
        self.observed_frames = self.observed_frames.saturating_add(1);
        self.render_total_us = self.render_total_us.saturating_add(micros as u128);
        self.render_last_us = micros;
        if micros > self.render_max_us {
            self.render_max_us = micros;
        }
    }

    /// Counts one raster candidate of a `width` by `height` frame: a full
    /// candidate dirties every pixel, a partial one `dirty_pixels` of them.
    pub fn record_raster_candidate(&mut self, full: bool, dirty_pixels: u64, width: u32, height: u32)
        ensures
            ({
                let frame = (width as u64 * height as u64) as u64;
                &&& final(self).frame_pixels == sat_add(old(self).frame_pixels, frame)
                &&& full ==> final(self).full_candidate_frames == sat_add(old(self).full_candidate_frames, 1)
                    && final(self).dirty_pixels == sat_add(old(self).dirty_pixels, frame)
                    && final(self).partial_candidate_frames == old(self).partial_candidate_frames
                &&& !full ==> final(self).partial_candidate_frames == sat_add(old(self).partial_candidate_frames, 1)
                    && final(self).dirty_pixels == sat_add(old(self).dirty_pixels, dirty_pixels)
                    && final(self).full_candidate_frames == old(self).full_candidate_frames
                &&& *final(self) == with_candidate_counts(*old(self), *final(self))
            }),
    {
        assert((width as u64) * (height as u64) <= u64::MAX) by (nonlinear_arith)
            requires
                width <= u32::MAX,
                height <= u32::MAX,
        ;
        let frame_pixels = (width as u64) * (height as u64);
        self.frame_pixels = self.frame_pixels.saturating_add(frame_pixels);
        if full {
            self.full_candidate_frames = self.full_candidate_frames.saturating_add(1);
            self.dirty_pixels = self.dirty_pixels.saturating_add(frame_pixels);
        } else {
            self.partial_candidate_frames = self.partial_candidate_frames.saturating_add(1);
            self.dirty_pixels = self.dirty_pixels.saturating_add(dirty_pixels);
        }
    }

    /// Counts one frame the host presented directly.
    pub fn record_host_direct_frame(&mut self)
        ensures
            *final(self) == after_direct_frame(*old(self)),
    {
        self.host_direct_frames = self.host_direct_frames.saturating_add(1);
    }

    /// Counts one frame the host copied, of `width` by `height` pixels.
    pub fn record_host_copy_frame(&mut self, width: u32, height: u32)
        ensures
            *final(self) == after_copy_frame(*old(self), width, height),
    {
        assert((width as u64) * (height as u64) <= u64::MAX) by (nonlinear_arith)
            requires
                width <= u32::MAX,
                height <= u32::MAX,
        ;
        self.host_copy_frames = self.host_copy_frames.saturating_add(1);
        self.host_copy_pixels = self.host_copy_pixels.saturating_add((width as u64) * (height as u64));
    }

    /// Takes the platform's ledger; a newer sequence updates the latest and
    /// largest sample.
    pub fn sync_present_stats(&mut self, current: PresentStats)
        ensures
            *final(self) == after_sync(*old(self), current),
    {
        if current.sequence > self.present_sequence_seen {
            self.present_sequence_seen = current.sequence;
            self.present_last_ns = current.last_ns;
            if current.last_ns > self.present_max_ns {
                self.present_max_ns = current.last_ns;
            }
        }
        self.platform_present = current;
    }

    /// The present ledger since the last reset.
    pub fn present_delta(&self) -> (delta: PresentStats)
        ensures
            delta == present_delta_of(*self),
    {
        let c = self.platform_present;
        let b = self.present_baseline;
        PresentStats {
            sequence: c.sequence.saturating_sub(b.sequence),
            count: c.count.saturating_sub(b.count),
            success_count: c.success_count.saturating_sub(b.success_count),
            failure_count: c.failure_count.saturating_sub(b.failure_count),
            last_ns: self.present_last_ns,
            total_ns: c.total_ns.saturating_sub(b.total_ns),
            max_ns: self.present_max_ns,
            full_pixels: c.full_pixels.saturating_sub(b.full_pixels),
            partial_pixels: c.partial_pixels.saturating_sub(b.partial_pixels),
            requested_full_pixels: c.requested_full_pixels.saturating_sub(b.requested_full_pixels),
            requested_partial_pixels: c.requested_partial_pixels.saturating_sub(
                b.requested_partial_pixels,
            ),
        }
    }

    /// Zeroes every counter and takes `present` as the new baseline.
    pub fn reset(&mut self, present: PresentStats)
        ensures
            *final(self) == after_reset(present),
    {
        *self = PerfStats::default();
        self.platform_present = present;
        self.present_baseline = present;
        self.present_sequence_seen = present.sequence;
    }

    /// Average render time in microseconds, held at `u64::MAX`.
    pub fn render_average_us(&self) -> (average: u64)
        ensures
            average == average_of(*self),
    {
        if self.frames == 0 {
            0
        } else {
            let average = self.render_total_us / (self.frames as u128);
            if average <= u64::MAX as u128 { average as u64 } else { u64::MAX }
        }
    }

    /// The counters as a JSON object, in a stable order.
    pub fn json(&self) -> (document: JsonValue)
        ensures
            document matches JsonValue::Object(members) && members@.len() == perf_fields(*self).len()
                && forall|i: int|
                0 <= i < members@.len() ==> (#[trigger] members@[i]).0@ == perf_fields(*self)[i].0
                    && members@[i].1 == JsonValue::Number(Some(perf_fields(*self)[i].1)),
    {
        let present = self.present_delta();
        let mut members: Vec<(String, JsonValue)> = Vec::new();
        push_field(&mut members, "frames", self.frames);
        push_field(&mut members, "observed_frames", self.observed_frames);
        push_field(&mut members, "render_last_us", self.render_last_us);
        push_field(&mut members, "render_average_us", self.render_average_us());
        push_field(&mut members, "render_max_us", self.render_max_us);
        push_field(&mut members, "pty_drained_bytes", self.pty_drained_bytes);
        push_field(&mut members, "pty_budget_yields", self.pty_budget_yields);
        push_field(&mut members, "control_requests", self.control_requests);
        push_field(&mut members, "control_budget_yields", self.control_budget_yields);
        push_field(&mut members, "full_candidate_frames", self.full_candidate_frames);
        push_field(&mut members, "partial_candidate_frames", self.partial_candidate_frames);
        push_field(&mut members, "dirty_pixels", self.dirty_pixels);
        push_field(&mut members, "frame_pixels", self.frame_pixels);
        push_field(&mut members, "host_direct_frames", self.host_direct_frames);
        push_field(&mut members, "host_copy_frames", self.host_copy_frames);
        push_field(&mut members, "host_copy_pixels", self.host_copy_pixels);
        push_field(&mut members, "discarded_capture_frames", self.discarded_capture_frames);
        push_field(&mut members, "present_count", present.count);
        push_field(&mut members, "present_success", present.success_count);
        push_field(&mut members, "present_failure", present.failure_count);
        push_field(&mut members, "last_ns", present.last_ns);
        push_field(&mut members, "total_ns", present.total_ns);
        push_field(&mut members, "max_ns", present.max_ns);
        push_field(&mut members, "full_pixels", present.full_pixels);
        push_field(&mut members, "partial_pixels", present.partial_pixels);
        push_field(&mut members, "requested_full_pixels", present.requested_full_pixels);
        push_field(&mut members, "requested_partial_pixels", present.requested_partial_pixels);
        JsonValue::Object(members)
    }
}

fn push_field(members: &mut Vec<(String, JsonValue)>, name: &str, value: u64)
    ensures
        final(members)@.len() == old(members)@.len() + 1,
        final(members)@.drop_last() == old(members)@,
        final(members)@.last().0@ == name@,
        final(members)@.last().1 == JsonValue::Number(Some(value)),
{
    members.push((name.to_owned(), JsonValue::Number(Some(value))));
    assert(members@.drop_last() =~= old(members)@);
}

} // verus!
