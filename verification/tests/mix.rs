use live_poly_trans::mix::Mixer;

/// How two samples mix: they add up.
fn add(a: f32, b: f32) -> f32 {
    a + b
}

#[test]
fn sums_the_lanes_sample_by_sample() {
    let mut mix = Mixer::new(2);
    mix.push_at(0, &[0.1, 0.2, 0.3], 0, add);
    mix.push_at(1, &[0.5, 0.5, 0.5], 0, add);
    assert_eq!(mix.finish(), vec![0.6, 0.7, 0.8]);
}

#[test]
fn a_lane_that_opened_late_starts_where_its_audio_was_captured() {
    // The speaker tap's first sample is not the session's first sample:
    // its capture timestamp says how much later it began.
    let mut mix = Mixer::new(2);
    mix.push_at(0, &[0.1, 0.1, 0.1, 0.1], 0, add);
    mix.push_at(1, &[0.5, 0.5], 2, add);
    assert_eq!(mix.finish(), vec![0.1, 0.1, 0.6, 0.6]);
}

#[test]
fn a_gap_in_a_lane_is_silence_the_others_still_fill() {
    // The tap runs no IO cycle while nothing plays. The mix keeps pace
    // with the mic rather than waiting for audio that never comes.
    let mut mix = Mixer::new(2);
    mix.push_at(0, &[0.1, 0.2, 0.3], 0, add);
    mix.push_at(1, &[1.0], 2, add);
    assert_eq!(mix.finish(), vec![0.1, 0.2, 1.3]);
}

#[test]
fn push_reports_the_silence_it_leaves_in_front_of_a_lane() {
    // The lane's own file has to be padded with the same silence, or it
    // ends up shorter than the mix and no longer lines up with it.
    let mut mix = Mixer::new(2);
    assert_eq!(mix.push_at(0, &[0.1, 0.2], 0, add), 0);
    assert_eq!(mix.push_at(0, &[0.3], 5, add), 3, "3 samples of dropout");
    assert_eq!(mix.push_at(1, &[0.5], 4, add), 4, "lane 1 opened 4 samples in");
}

#[test]
fn lag_holds_back_the_tail_for_audio_still_in_flight() {
    // Lane 1 has not been polled yet when the drain happens; the held-back
    // tail is what lets its audio still land in the right place.
    let mut mix = Mixer::new(2);
    mix.push_at(0, &[0.1, 0.2, 0.3, 0.4], 0, add);
    assert_eq!(mix.drain(2), vec![0.1, 0.2]);
    mix.push_at(1, &[0.5, 0.5], 2, add);
    assert_eq!(mix.finish(), vec![0.8, 0.9]);
}

#[test]
fn a_burst_after_a_quiet_stretch_does_not_stretch_the_timeline() {
    // A lane that hands over three samples in one poll and none in the
    // next stays exactly as long as the audio it carries.
    let mut mix = Mixer::new(2);
    let mut out = Vec::new();
    mix.push_at(0, &[0.1], 0, add);
    mix.push_at(1, &[0.5, 0.5, 0.5], 0, add);
    out.extend(mix.drain(2));
    mix.push_at(0, &[0.1], 1, add);
    out.extend(mix.drain(2));
    mix.push_at(0, &[0.1], 2, add);
    mix.push_at(1, &[0.5], 3, add);
    out.extend(mix.finish());
    assert_eq!(out.len(), 4, "as long as the furthest lane, no longer");
    assert_eq!(out, vec![0.6, 0.6, 0.6, 0.5]);
}

#[test]
fn audio_for_a_moment_already_written_lands_at_the_head() {
    // Later than the lag allowed for: the only alternatives are dropping
    // it or rewriting audio already on disk, so it plays a touch late.
    let mut mix = Mixer::new(2);
    mix.push_at(0, &[0.1, 0.2], 0, add);
    assert_eq!(mix.drain(0), vec![0.1, 0.2]);
    mix.push_at(1, &[0.5, 0.5], 0, add);
    assert_eq!(mix.finish(), vec![0.5, 0.5]);
}

#[test]
fn drain_emits_nothing_when_no_lane_has_advanced() {
    let mut mix = Mixer::<f32>::new(2);
    assert!(mix.drain(0).is_empty());
    assert!(mix.finish().is_empty());
    assert_eq!(mix.position(), 0);
}

#[test]
fn position_is_how_much_has_been_written_out() {
    let mut mix = Mixer::new(1);
    mix.push_at(0, &[0.1; 10], 0, add);
    mix.drain(4);
    assert_eq!(mix.position(), 6);
    mix.finish();
    assert_eq!(mix.position(), 10);
}
