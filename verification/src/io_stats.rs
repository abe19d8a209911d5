//! Transfer statistics of one direction of a link: cumulative frame and error counts, the time of
//! the latest frame, and the frames of a sliding window from which the frame rate is measured.
//! Times are nanoseconds on a monotonic clock.

use std::collections::VecDeque;

use vstd::prelude::*;

verus! {

/// The length of the window over which the frame rate is measured: four seconds.
pub const STATS_RATE_WINDOW_NANOS: u64 = 4_000_000_000;

/// Whether a frame at `frame` lies outside the window ending at `now`: at least a window's length
/// earlier (a frame after `now` is never outside).
pub open spec fn spec_outside_window(now: u64, frame: u64) -> bool {
    frame <= now && now - frame >= STATS_RATE_WINDOW_NANOS
}

/// `frames` without the leading frames that lie outside the window ending at `now`.
pub open spec fn spec_drop_outside(frames: Seq<u64>, now: u64) -> Seq<u64>
    decreases frames.len(),
{
    if frames.len() > 0 && spec_outside_window(now, frames[0]) {
        spec_drop_outside(frames.drop_first(), now)
    } else {
        frames
    }
}

/// A counter increased by one, held at its maximum.
pub open spec fn spec_saturating_inc(n: u32) -> u32 {
    if n < u32::MAX {
        (n + 1) as u32
    } else {
        u32::MAX
    }
}

/// Transfer statistics of one direction of a link.
#[derive(Debug)]
pub struct IoStats {
    /// Time of the most recent successful frame.
    pub last_time: u64,
    /// Cumulative number of successfully transferred frames.
    pub count: u32,
    /// Cumulative number of frame parsing or transport errors.
    pub errors: u32,
    /// The times of the frames within the rate window, oldest first.
    pub recent_frames: VecDeque<u64>,
}

impl IoStats {
    /// The times of the frames kept for the rate, oldest first.
    pub open spec fn view_recent(&self) -> Seq<u64> {
        self.recent_frames@
    }

    /// Creates empty statistics for a link created at `created_at`.
    pub fn new(created_at: u64) -> (s: Self)
        ensures
            s.last_time == created_at,
            s.count == 0,
            s.errors == 0,
            s.view_recent().len() == 0,
    {
        IoStats { last_time: created_at, count: 0, errors: 0, recent_frames: VecDeque::new() }
    }

    /// Drops the frames that lie outside the window ending at `now` and returns the number of
    /// frames left in it; the frame rate is that number divided by the window's length.
    pub fn update_window(&mut self, now: u64) -> (n: usize)
        ensures
            final(self).view_recent() == spec_drop_outside(old(self).view_recent(), now),
            n == final(self).view_recent().len(),
            final(self).last_time == old(self).last_time,
            final(self).count == old(self).count,
            final(self).errors == old(self).errors,
    {
        loop
            invariant
                spec_drop_outside(self.view_recent(), now) == spec_drop_outside(old(self).view_recent(), now),
                self.last_time == old(self).last_time,
                self.count == old(self).count,
                self.errors == old(self).errors,
            ensures
                self.view_recent() == spec_drop_outside(old(self).view_recent(), now),
                self.last_time == old(self).last_time,
                self.count == old(self).count,
                self.errors == old(self).errors,
            decreases self.view_recent().len(),
        {
            if self.recent_frames.len() == 0 {
                break;
            }
            let front = self.recent_frames[0];
            if !(front <= now && now - front >= STATS_RATE_WINDOW_NANOS) {
                break;
            }
            let ghost before = self.view_recent();
            self.recent_frames.pop_front();
            assert(self.view_recent() =~= before.drop_first());
        }
        self.recent_frames.len()
    }

    /// Records a frame transferred at `now`.
    pub fn record_success(&mut self, now: u64)
        ensures
            final(self).view_recent() == spec_drop_outside(old(self).view_recent().push(now), now),
            final(self).last_time == now,
            final(self).count == spec_saturating_inc(old(self).count),
            final(self).errors == old(self).errors,
    {
        self.recent_frames.push_back(now);
        self.update_window(now);
        self.last_time = now;
        self.count = if self.count < u32::MAX {
            self.count + 1
        } else {
            u32::MAX
        };
    }

    /// Records a failed frame.
    pub fn record_error(&mut self)
        ensures
            final(self).errors == spec_saturating_inc(old(self).errors),
            final(self).view_recent() == old(self).view_recent(),
            final(self).last_time == old(self).last_time,
            final(self).count == old(self).count,
    {
        self.errors = if self.errors < u32::MAX {
            self.errors + 1
        } else {
            u32::MAX
        };
    }
}

/// A frame just recorded counts toward the rate: after recording a frame at `now`, the window
/// ending at `now` holds it, last.
pub proof fn law_recorded_frame_is_in_window(frames: Seq<u64>, now: u64)
    ensures
        spec_drop_outside(frames.push(now), now).len() >= 1,
        spec_drop_outside(frames.push(now), now).last() == now,
    decreases frames.len(),
{
    if frames.len() > 0 && spec_outside_window(now, frames[0]) {
        assert(frames.push(now).drop_first() =~= frames.drop_first().push(now));
        law_recorded_frame_is_in_window(frames.drop_first(), now);
    }
}

} // verus!
