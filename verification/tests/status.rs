use segs::status::{RxActivity, RxActivityPhase, RX_ACTIVITY_PHASE};

#[test]
fn a_new_frame_blinks_once() {
    let mut activity = RxActivity::default();
    // A frame arrives at time 1000: the indicator lights for one phase.
    assert_eq!(activity.update(1_000, 1, 900), (true, Some(RX_ACTIVITY_PHASE)));
    assert_eq!(activity.phase, RxActivityPhase::Illuminated(1_000 + RX_ACTIVITY_PHASE));
    // Halfway through the lit phase it is still lit.
    assert_eq!(activity.update(1_000 + RX_ACTIVITY_PHASE / 2, 1, 900), (true, Some(RX_ACTIVITY_PHASE / 2)));
    // After the lit phase comes the dark one.
    assert_eq!(activity.update(1_000 + RX_ACTIVITY_PHASE, 1, 900), (false, Some(RX_ACTIVITY_PHASE)));
    // After the dark phase, with no new frame, the indicator rests.
    assert_eq!(activity.update(1_000 + 2 * RX_ACTIVITY_PHASE, 1, 900), (false, None));
    assert_eq!(activity.phase, RxActivityPhase::Idle);
}

#[test]
fn no_frames_keep_the_indicator_dark() {
    let mut activity = RxActivity::default();
    assert_eq!(activity.update(5, 0, 0), (false, None));
    assert!(activity.last_frame.is_none());
}

#[test]
fn a_frame_during_a_blink_starts_the_next_one_afterwards() {
    let mut activity = RxActivity::default();
    activity.update(0, 1, 1);
    // A second frame arrives while lit: it waits for the current blink to end.
    assert_eq!(activity.update(10, 2, 10), (true, Some(RX_ACTIVITY_PHASE - 10)));
    assert!(activity.pending);
    // Once the first blink is over, the pending frame lights the indicator again.
    assert_eq!(activity.update(2 * RX_ACTIVITY_PHASE, 2, 10), (true, Some(RX_ACTIVITY_PHASE)));
    assert!(!activity.pending);
}
