use live_poly_trans::pipeline::{apply_output_device_event, Notices, PendingOutputDevice};
use live_poly_trans::capture::{Anchor, FeedPlan, RingFeed};
use live_poly_trans::capture::{ticks_to_nanos, timebase};
use live_poly_trans::capture::{
    OutputDevice, OutputDeviceSwitchCancellation, OutputDeviceSwitchDecision,
    OutputDeviceSwitchEvent, OutputDeviceTracker, SwitchAction,
};

fn device(uid: &str) -> OutputDevice {
    OutputDevice {
        uid: uid.to_owned(),
        name: format!("Device {uid}"),
    }
}

#[test]
fn repeated_uid_is_deduplicated_but_return_to_capturing_is_reported() {
    let mut tracker = OutputDeviceTracker::new(device("a"));
    assert_eq!(tracker.observe(device("a")), None);
    assert!(matches!(
        tracker.observe(device("b")),
        Some(OutputDeviceSwitchEvent::Detected { detected, .. }) if detected.uid == "b"
    ));
    assert_eq!(tracker.observe(device("b")), None);
    assert!(matches!(
        tracker.observe(device("a")),
        Some(OutputDeviceSwitchEvent::Detected {
            capturing,
            detected,
        }) if capturing.uid == "a" && detected.uid == "a"
    ));
}

#[test]
fn stale_switch_approval_is_never_applied() {
    let mut tracker = OutputDeviceTracker::new(device("a"));
    let _ = tracker.observe(device("c"));
    assert_eq!(
        tracker.action_for(&OutputDeviceSwitchDecision::Switch {
            expected_uid: "b".to_owned(),
        }),
        SwitchAction::Cancel(OutputDeviceSwitchCancellation::StaleDecision)
    );
}

#[test]
fn rejection_and_already_capturing_do_not_rebuild() {
    let mut tracker = OutputDeviceTracker::new(device("a"));
    let _ = tracker.observe(device("b"));
    assert_eq!(
        tracker.action_for(&OutputDeviceSwitchDecision::Cancel {
            expected_uid: "b".to_owned(),
        }),
        SwitchAction::Cancel(OutputDeviceSwitchCancellation::Rejected)
    );

    let _ = tracker.observe(device("a"));
    assert_eq!(
        tracker.action_for(&OutputDeviceSwitchDecision::Switch {
            expected_uid: "a".to_owned(),
        }),
        SwitchAction::Cancel(OutputDeviceSwitchCancellation::AlreadyCapturing)
    );
}

#[test]
fn matching_approval_requests_a_rebuild() {
    let mut tracker = OutputDeviceTracker::new(device("a"));
    let _ = tracker.observe(device("b"));
    assert_eq!(
        tracker.action_for(&OutputDeviceSwitchDecision::Switch {
            expected_uid: "b".to_owned(),
        }),
        SwitchAction::Switch
    );
}

#[test]
fn after_a_switch_the_observed_device_is_the_captured_one() {
    let mut tracker = OutputDeviceTracker::new(device("a"));
    let _ = tracker.observe(device("b"));
    tracker.switched();
    assert_eq!(tracker.capturing, device("b"));
    assert_eq!(
        tracker.action_for(&OutputDeviceSwitchDecision::Switch {
            expected_uid: "b".to_owned(),
        }),
        SwitchAction::Cancel(OutputDeviceSwitchCancellation::AlreadyCapturing)
    );
    assert_eq!(tracker.observe(device("a")), Some(OutputDeviceSwitchEvent::Detected {
        capturing: device("b"),
        detected: device("a"),
    }));
}

#[test]
fn device_events_reach_the_prompt_and_the_status_line() {
    let mut pending = PendingOutputDevice::default();
    let mut notices = Notices::default();
    let fx = apply_output_device_event(
        &mut pending,
        &mut notices,
        OutputDeviceSwitchEvent::Detected { capturing: device("a"), detected: device("b") },
    );
    let shown = fx.present.expect("a new prompt").expect("shown, not dismissed");
    assert_eq!(shown.detected_name, "Device b");
    assert!(!fx.status_changed && !fx.switch_failed && fx.switched_to.is_none());
    // the same change again is no news
    let fx = apply_output_device_event(
        &mut pending,
        &mut notices,
        OutputDeviceSwitchEvent::Detected { capturing: device("a"), detected: device("b") },
    );
    assert!(fx.present.is_none());

    let fx = apply_output_device_event(
        &mut pending,
        &mut notices,
        OutputDeviceSwitchEvent::SwitchFailed {
            capturing: device("a"),
            detected: device("b"),
            error: "boom".to_string(),
        },
    );
    assert!(fx.switch_failed && fx.status_changed);
    assert!(fx.present.expect("re-prompted").is_some());
    assert_eq!(
        notices.message().as_deref(),
        Some("スピーカー録音の出力先を切り替えられませんでした")
    );

    let fx = apply_output_device_event(
        &mut pending,
        &mut notices,
        OutputDeviceSwitchEvent::Switched { previous: device("a"), current: device("b") },
    );
    assert_eq!(fx.present, Some(None));
    assert!(fx.status_changed);
    assert_eq!(fx.switched_to.as_deref(), Some("Device b"));
    assert!(pending.prompt.is_none());
    assert_eq!(notices.message(), None);

    let fx = apply_output_device_event(
        &mut pending,
        &mut notices,
        OutputDeviceSwitchEvent::Cancelled {
            capturing: device("b"),
            detected: device("c"),
            reason: OutputDeviceSwitchCancellation::StaleDecision,
        },
    );
    assert!(fx.present.is_none() && !fx.status_changed);
}

#[test]
fn a_callback_writes_whole_frames_and_stamps_where_they_start() {
    let mut feed = RingFeed::new();
    assert_eq!(
        feed.accept(1_000, 960, 2, 5),
        FeedPlan { writable: 960, anchor: Some(Anchor { frame: 0, nanos: 5 }), dropped: 0 }
    );
    assert_eq!(feed.frames, 480);
    // a nearly full ring takes whole frames only; the rest is dropped
    assert_eq!(
        feed.accept(7, 10, 2, 9),
        FeedPlan { writable: 6, anchor: Some(Anchor { frame: 480, nanos: 9 }), dropped: 4 }
    );
    assert_eq!(feed.frames, 483);
    // no room for a single frame: nothing written, no anchor
    assert_eq!(feed.accept(1, 4, 2, 11), FeedPlan { writable: 0, anchor: None, dropped: 4 });
    assert_eq!(feed.frames, 483);
}

#[test]
fn host_ticks_convert_by_the_kernel_timebase() {
    assert_eq!(timebase(0, 125, 3), (125, 3));
    assert_eq!(timebase(5, 125, 3), (1, 1));
    assert_eq!(timebase(0, 1, 0), (1, 1));
    assert_eq!(ticks_to_nanos(24, 125, 3), 1_000);
    assert_eq!(ticks_to_nanos(1_000, 1, 1), 1_000);
    // the 128-bit product is kept to its low 64 bits
    assert_eq!(ticks_to_nanos(u64::MAX, 2, 1), u64::MAX - 1);
}
