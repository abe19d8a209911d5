//! The receive-activity indicator of the status bar: one blink, lit then dark, for each batch of
//! newly received frames. Times are nanoseconds on a monotonic clock.

use vstd::prelude::*;

verus! {

/// The length of each half of a blink, in nanoseconds (an 8 Hz blink).
pub const RX_ACTIVITY_PHASE: u64 = 62_500_000;

/// The blink phase of the indicator.
#[derive(Clone, Copy, Debug, PartialEq, Eq, Structural)]
pub enum RxActivityPhase {
    /// The indicator is dark and no repaint is scheduled.
    Idle,
    /// The indicator remains lit until the stored deadline.
    Illuminated(u64),
    /// The indicator remains dark until the stored deadline, which ends the blink.
    Dark(u64),
}

/// The state of the receive-activity indicator.
#[derive(Clone, Copy, Debug, PartialEq, Eq, Structural)]
pub struct RxActivity {
    /// The time of the latest frame seen, if any.
    pub last_frame: Option<u64>,
    pub phase: RxActivityPhase,
    /// Whether a new frame is waiting to be shown by a blink.
    pub pending: bool,
}

impl Default for RxActivity {
    fn default() -> (r: Self)
        ensures
            r.last_frame is None,
            r.phase == RxActivityPhase::Idle,
            !r.pending,
    {
        RxActivity { last_frame: None, phase: RxActivityPhase::Idle, pending: false }
    }
}

/// A measure that every step of the indicator decreases.
pub open spec fn spec_rx_rank(a: RxActivity) -> nat {
    (if a.pending {
        4nat
    } else {
        0nat
    }) + match a.phase {
        RxActivityPhase::Idle => 0nat,
        RxActivityPhase::Illuminated(_) => 2nat,
        RxActivityPhase::Dark(_) => 1nat,
    }
}

/// Whether every deadline the indicator may still set from state `a` fits in a `u64`.
pub open spec fn spec_rx_fits(a: RxActivity, now: u64) -> bool {
    &&& now + 2 * RX_ACTIVITY_PHASE <= u64::MAX
    &&& (a.phase matches RxActivityPhase::Illuminated(until) ==> until + RX_ACTIVITY_PHASE <= u64::MAX)
}

/// Advances the indicator at time `now` until it must wait: the final state, whether the
/// indicator is lit, and the delay before the next transition while a blink is under way.
///
/// An idle indicator starts a blink when a frame is pending; a lit or dark phase whose deadline
/// has passed gives way to the next one.
pub open spec fn spec_rx_settle(a: RxActivity, now: u64) -> (RxActivity, bool, Option<u64>)
    decreases spec_rx_rank(a),
{
    match a.phase {
        RxActivityPhase::Idle => if a.pending {
            spec_rx_settle(
                RxActivity {
                    pending: false,
                    phase: RxActivityPhase::Illuminated((now + RX_ACTIVITY_PHASE) as u64),
                    ..a
                },
                now,
            )
        } else {
            (a, false, None)
        },
        RxActivityPhase::Illuminated(until) => if now >= until {
            spec_rx_settle(
                RxActivity { phase: RxActivityPhase::Dark((until + RX_ACTIVITY_PHASE) as u64), ..a },
                now,
            )
        } else {
            (a, true, Some((until - now) as u64))
        },
        RxActivityPhase::Dark(until) => if now >= until {
            spec_rx_settle(RxActivity { phase: RxActivityPhase::Idle, ..a }, now)
        } else {
            (a, false, Some((until - now) as u64))
        },
    }
}

/// The indicator after recording the frames reported at `now`: a frame is pending when some
/// frame was received and the latest one differs from the one seen before.
pub open spec fn spec_rx_record(a: RxActivity, count: u32, last_frame: u64) -> RxActivity {
    if count > 0 && a.last_frame != Some(last_frame) {
        RxActivity { last_frame: Some(last_frame), pending: true, ..a }
    } else {
        a
    }
}

impl RxActivity {
    /// Records newly received frames and advances the indicator.
    ///
    /// `count` is the number of frames received so far and `last_frame` the time of the latest.
    /// Returns whether the indicator is lit and, while a blink is under way, the delay in
    /// nanoseconds before the UI should repaint for the next transition.
    pub fn update(&mut self, now: u64, count: u32, last_frame: u64) -> (r: (bool, Option<u64>))
        requires
            spec_rx_fits(*old(self), now),
        ensures
            ({
                let (a, lit, delay) = spec_rx_settle(spec_rx_record(*old(self), count, last_frame), now);
                *final(self) == a && r == (lit, delay)
            }),
    {
        if count > 0 && self.last_frame != Some(last_frame) {
            self.last_frame = Some(last_frame);
            self.pending = true;
        }
        let ghost start = *self;
        loop
            invariant
                start == spec_rx_record(*old(self), count, last_frame),
                spec_rx_settle(*self, now) == spec_rx_settle(start, now),
                now + 2 * RX_ACTIVITY_PHASE <= u64::MAX,
                self.phase matches RxActivityPhase::Illuminated(until) ==> until + RX_ACTIVITY_PHASE
                    <= u64::MAX,
            decreases spec_rx_rank(*self),
        {
            match self.phase {
                RxActivityPhase::Idle => {
                    if self.pending {
                        self.pending = false;
                        self.phase = RxActivityPhase::Illuminated(now + RX_ACTIVITY_PHASE);
                    } else {
                        return (false, None);
                    }
                },
                RxActivityPhase::Illuminated(until) => {
                    if now >= until {
                        self.phase = RxActivityPhase::Dark(until + RX_ACTIVITY_PHASE);
                    } else {
                        return (true, Some(until - now));
                    }
                },
                RxActivityPhase::Dark(until) => {
                    if now >= until {
                        self.phase = RxActivityPhase::Idle;
                    } else {
                        return (false, Some(until - now));
                    }
                },
            }
        }
    }
}

/// A newly received frame starts a blink on an idle indicator: it is lit for one phase.
pub proof fn law_new_frame_lights_idle_indicator(a: RxActivity, now: u64, count: u32, last_frame: u64)
    requires
        a.phase == RxActivityPhase::Idle,
        count > 0,
        a.last_frame != Some(last_frame),
        now + 2 * RX_ACTIVITY_PHASE <= u64::MAX,
    ensures
        spec_rx_settle(spec_rx_record(a, count, last_frame), now).1,
        spec_rx_settle(spec_rx_record(a, count, last_frame), now).2 == Some(RX_ACTIVITY_PHASE),
{
    let r = spec_rx_record(a, count, last_frame);
    let lit = RxActivity {
        pending: false,
        phase: RxActivityPhase::Illuminated((now + RX_ACTIVITY_PHASE) as u64),
        ..r
    };
    assert(spec_rx_settle(r, now) == spec_rx_settle(lit, now));
    assert(spec_rx_settle(lit, now) == (lit, true, Some(RX_ACTIVITY_PHASE)));
}

/// Without a new frame, an idle indicator with nothing pending stays dark and schedules nothing.
pub proof fn law_idle_without_frames_stays_dark(a: RxActivity, now: u64, count: u32, last_frame: u64)
    requires
        a.phase == RxActivityPhase::Idle,
        !a.pending,
        count == 0 || a.last_frame == Some(last_frame),
    ensures
        spec_rx_settle(spec_rx_record(a, count, last_frame), now) == (a, false, None::<u64>),
{
}

/// A blink ends: once both of its phases have passed, the indicator is idle and dark again.
pub proof fn law_blink_ends(a: RxActivity, now: u64)
    requires
        a.phase matches RxActivityPhase::Illuminated(until) && until + RX_ACTIVITY_PHASE <= now,
        !a.pending,
    ensures
        spec_rx_settle(a, now).0.phase == RxActivityPhase::Idle,
        !spec_rx_settle(a, now).1,
        spec_rx_settle(a, now).2 is None,
{
    let until = a.phase->Illuminated_0;
    let dark = RxActivity { phase: RxActivityPhase::Dark((until + RX_ACTIVITY_PHASE) as u64), ..a };
    let idle = RxActivity { phase: RxActivityPhase::Idle, ..dark };
    assert(spec_rx_settle(a, now) == spec_rx_settle(dark, now));
    assert(spec_rx_settle(dark, now) == spec_rx_settle(idle, now));
}

} // verus!
