use live_poly_trans::pipeline::{parse_lang_list, policy_from_settings};
use live_poly_trans::pipeline::place_chunk;
use live_poly_trans::pipeline::{trail_step, TrailStep};
use live_poly_trans::pipeline::{decode_notice, OverrunWatch, SILENT_LANE_NOTICE};
use live_poly_trans::pipeline::{on_session_poll, starts_session, Cmd, Polled, SessionCommandAction};
use live_poly_trans::capture::{OutputDevice, OutputDeviceSwitchDecision};
use live_poly_trans::language::LanguagePolicy;
use live_poly_trans::pipeline::{
    lane_name, overrun_ms, record_position_ms, record_samples, ChunkLevel, EmitGate,
    LaneTimeline, NoticeKey, Notices, PendingOutputDevice, SessionClock, SilenceEvent,
    SilenceWatch, TranslationLedger, SILENCE_GRACE_NANOS,
};
use live_poly_trans::record::RECORD_RATE;
use live_poly_trans::scheduler::{StepOutput, Utterance};
use live_poly_trans::Lane;

const SILENCE_GRACE: u64 = SILENCE_GRACE_NANOS;
const MS: u64 = 1_000_000;

fn out(committed: &str, volatile: &str) -> StepOutput {
    StepOutput {
        committed_delta: committed.into(),
        volatile: volatile.into(),
        utterance_final: None,
    }
}

fn output_device(uid: &str, name: &str) -> OutputDevice {
    OutputDevice {
        uid: uid.into(),
        name: name.into(),
    }
}

/// What a chunk of float samples amounts to for the watch.
fn level(samples: &[f32]) -> ChunkLevel {
    if samples.is_empty() {
        ChunkLevel::Empty
    } else if samples.iter().any(|s| *s != 0.0) {
        ChunkLevel::Audible
    } else {
        ChunkLevel::Silent
    }
}

fn observe(watch: &mut SilenceWatch, samples: &[f32], now: u64) -> Option<SilenceEvent> {
    watch.observe(level(samples), now)
}

/// A monotonic clock reading to start the silence tests from.
fn t0() -> u64 {
    7 * 1_000_000_000
}

#[test]
fn output_device_prompt_coalesces_duplicates_and_replaces_newer_devices() {
    let built_in = output_device("built-in", "MacBookのスピーカー");
    let headphones = output_device("headphones", "ヘッドフォン");
    let display = output_device("display", "ディスプレイ");
    let mut pending = PendingOutputDevice::default();

    assert!(pending.observe(&built_in, &headphones));
    let first_id = pending.prompt.as_ref().unwrap().id;
    assert!(!pending.observe(&built_in, &headphones));
    assert_eq!(pending.prompt.as_ref().unwrap().id, first_id);

    assert!(pending.observe(&built_in, &display));
    let latest_id = pending.prompt.as_ref().unwrap().id;
    assert_ne!(latest_id, first_id);
    assert_eq!(pending.prompt.as_ref().unwrap().detected_name, "ディスプレイ");

    assert!(pending.decide(first_id, true).is_none());
    assert!(matches!(
        pending.decide(latest_id, false),
        Some(OutputDeviceSwitchDecision::Cancel { expected_uid })
            if expected_uid == "display"
    ));
    assert!(pending.prompt.is_none());
}

#[test]
fn returning_to_the_captured_output_dismisses_the_prompt() {
    let built_in = output_device("built-in", "MacBookのスピーカー");
    let headphones = output_device("headphones", "ヘッドフォン");
    let mut pending = PendingOutputDevice::default();

    assert!(pending.observe(&built_in, &headphones));
    assert!(pending.observe(&built_in, &built_in));
    assert!(pending.prompt.is_none());
    assert!(pending.expected_uid.is_none());
}

#[test]
fn gate_drops_idle_steps_but_passes_a_volatile_clear() {
    let mut gate = EmitGate::default();
    assert!(!gate.should_emit(&out("", ""))); // nothing shown yet: idle
    assert!(gate.should_emit(&out("", "こんにち"))); // tail appears
    // agreement hid the contradicted tail: the UI must be told
    assert!(gate.should_emit(&out("", "")));
    assert!(!gate.should_emit(&out("", ""))); // already clear: idle again
}

#[test]
fn gate_tracks_the_tail_across_commits() {
    let mut gate = EmitGate::default();
    assert!(gate.should_emit(&out("", "こんにち")));
    assert!(gate.should_emit(&out("こんにちは、", "せ")));
    // a boundary flush ends with an empty tail; nothing stays on screen
    assert!(gate.should_emit(&out("世界", "")));
    assert!(!gate.should_emit(&out("", "")));
}

#[test]
fn digital_silence_for_long_enough_reports_a_withheld_permission() {
    let mut watch = SilenceWatch::default();
    let t0 = t0();
    assert_eq!(observe(&mut watch, &[0.0; 16], t0), None);
    assert_eq!(
        observe(&mut watch, &[0.0; 16], t0 + SILENCE_GRACE),
        Some(SilenceEvent::Broken)
    );
    // Said once: repeating it every poll would bury the real status.
    assert_eq!(observe(&mut watch, &[0.0; 16], t0 + SILENCE_GRACE * 2), None);
}

#[test]
fn audio_arriving_after_a_report_takes_the_notice_down() {
    let mut watch = SilenceWatch::default();
    let t0 = t0();
    assert_eq!(observe(&mut watch, &[0.0; 16], t0), None);
    assert_eq!(
        observe(&mut watch, &[0.0; 16], t0 + SILENCE_GRACE),
        Some(SilenceEvent::Broken)
    );
    assert_eq!(
        observe(&mut watch, &[0.1; 16], t0 + SILENCE_GRACE * 2),
        Some(SilenceEvent::Recovered)
    );
    // and silence must again last the grace period before a new report
    assert_eq!(observe(&mut watch, &[0.0; 16], t0 + SILENCE_GRACE * 3), None);
}

#[test]
fn one_sources_notice_does_not_erase_anothers() {
    let mut notices = Notices::default();
    assert!(notices.set(NoticeKey::Speaker, Some("speaker gone".into())));
    assert!(notices.set(NoticeKey::Overrun(Lane::Mic), Some("overrun".into())));
    assert_eq!(notices.message().as_deref(), Some("speaker gone / overrun"));
    // the overrun expiring takes down only its own line
    assert!(notices.set(NoticeKey::Overrun(Lane::Mic), None));
    assert_eq!(notices.message().as_deref(), Some("speaker gone"));
}

#[test]
fn an_unchanged_notice_is_not_worth_a_re_emit() {
    let mut notices = Notices::default();
    assert!(notices.set(NoticeKey::Recording, Some("stopped".into())));
    assert!(!notices.set(NoticeKey::Recording, Some("stopped".into())));
    // clearing a notice that was never up changes nothing either
    assert!(!notices.set(NoticeKey::Decode(Lane::Mic), None));
    assert_eq!(notices.message().as_deref(), Some("stopped"));
}

#[test]
fn no_notices_means_no_message() {
    assert_eq!(Notices::default().message(), None);
}

#[test]
fn an_idle_device_delivering_no_samples_is_not_silence() {
    let mut watch = SilenceWatch::default();
    let t0 = t0();
    assert_eq!(observe(&mut watch, &[], t0), None);
    assert_eq!(observe(&mut watch, &[], t0 + SILENCE_GRACE * 10), None);
}

#[test]
fn audible_samples_clear_a_pending_silence_run() {
    let mut watch = SilenceWatch::default();
    let t0 = t0();
    assert_eq!(observe(&mut watch, &[0.0; 16], t0), None);
    assert_eq!(observe(&mut watch, &[0.0, 0.2], t0 + SILENCE_GRACE / 2), None);
    // the clock restarts from the audible sample, not from t0
    assert_eq!(observe(&mut watch, &[0.0; 16], t0 + SILENCE_GRACE), None);
}

#[test]
fn gate_passes_an_utterance_final_even_without_text_deltas() {
    let mut gate = EmitGate::default();
    let fin = StepOutput {
        committed_delta: String::new(),
        volatile: String::new(),
        utterance_final: Some(Utterance {
            text: "こんにちは".into(),
            start_ms: 0,
            end_ms: 1_000,
            lang: Some("ja".into()),
        }),
    };
    assert!(gate.should_emit(&fin));
}

#[test]
fn the_session_clock_starts_at_the_first_moment_it_is_shown() {
    let mut clock = SessionClock::default();
    assert_eq!(clock.position(5_000 * MS), 0);
    // half a second later, in recording samples
    assert_eq!(clock.position(5_500 * MS), RECORD_RATE as usize / 2);
    // a lane whose first buffer predates the zero clamps to it rather
    // than going backwards
    assert_eq!(clock.position(4_000 * MS), 0);
}

#[test]
fn a_lane_that_never_drops_out_is_its_own_recording_clock() {
    let mut timeline = LaneTimeline::default();
    timeline.observe(0, 0);
    timeline.observe(100, 0); // same offset: no second anchor
    assert_eq!(timeline.recording_ms(0), 0);
    assert_eq!(timeline.recording_ms(2_000), 2_000);
}

#[test]
fn a_lanes_late_start_shifts_everything_it_says() {
    let mut timeline = LaneTimeline::default();
    timeline.observe(0, 300);
    assert_eq!(timeline.recording_ms(0), 300);
    assert_eq!(timeline.recording_ms(5_000), 5_300);
}

#[test]
fn offset_wobble_within_the_slack_is_not_a_dropout() {
    let mut timeline = LaneTimeline::default();
    timeline.observe(0, 100);
    timeline.observe(50, 115);
    timeline.observe(100, 92);
    assert_eq!(timeline.len(), 1);
    assert_eq!(timeline.recording_ms(200), 300);
}

#[test]
fn audio_from_before_a_dropout_keeps_its_old_offset() {
    let mut timeline = LaneTimeline::default();
    timeline.observe(0, 0);
    timeline.observe(4_000, 10_000); // 4s of audio in, 10s of silence added
    assert_eq!(timeline.recording_ms(3_000), 3_000);
    assert_eq!(timeline.recording_ms(4_500), 14_500);
    // and once the query has moved past, the spent anchor is gone
    assert_eq!(timeline.len(), 1);
}

#[test]
fn prompt_numbering_continues_across_sessions() {
    let built_in = output_device("built-in", "speakers");
    let headphones = output_device("headphones", "headphones");
    let mut first = PendingOutputDevice::default();
    assert!(first.observe(&built_in, &headphones));
    assert_eq!(first.prompt.as_ref().unwrap().id, 1);
    let mut second = PendingOutputDevice::starting_at(first.next_prompt_id());
    assert!(second.observe(&built_in, &headphones));
    assert_eq!(second.prompt.as_ref().unwrap().id, 2);
    // an answer about the device no longer expected is ignored
    assert!(second.decide(1, true).is_none());
    assert!(matches!(
        second.decide(2, true),
        Some(OutputDeviceSwitchDecision::Switch { expected_uid }) if expected_uid == "headphones"
    ));
}

#[test]
fn a_replaced_notice_keeps_its_place_in_the_line() {
    let mut notices = Notices::default();
    assert!(notices.set(NoticeKey::Speaker, Some("a".into())));
    assert!(notices.set(NoticeKey::Language, Some("b".into())));
    assert!(notices.set(NoticeKey::Speaker, Some("c".into())));
    assert_eq!(notices.message().as_deref(), Some("c / b"));
    assert!(notices.set(NoticeKey::Speaker, None));
    assert!(notices.set(NoticeKey::Speaker, Some("d".into())));
    assert_eq!(notices.message().as_deref(), Some("b / d"));
}

#[test]
fn silence_before_the_grace_is_up_is_not_reported() {
    let mut watch = SilenceWatch::default();
    let t0 = t0();
    assert_eq!(observe(&mut watch, &[0.0; 4], t0), None);
    assert_eq!(observe(&mut watch, &[0.0; 4], t0 + SILENCE_GRACE - 1), None);
    // a clock reading from before the run began counts as no time at all
    assert_eq!(observe(&mut watch, &[0.0; 4], t0 - 1), None);
    assert_eq!(observe(&mut watch, &[0.0; 4], t0 + SILENCE_GRACE), Some(SilenceEvent::Broken));
}

#[test]
fn lane_names_and_sample_conversions() {
    assert_eq!(lane_name(Lane::Mic), "mic");
    assert_eq!(lane_name(Lane::Speaker), "speaker");
    assert_eq!(record_samples(16_000, 16_000), 48_000);
    assert_eq!(record_samples(441, 44_100), 480);
    assert_eq!(record_position_ms(24_000), 500);
    // 96000 interleaved stereo samples at 48 kHz: one second
    assert_eq!(overrun_ms(96_000, 2, 48_000), 1_000);
}

#[test]
fn utterance_ids_stay_unique_across_sessions() {
    let mut policy = LanguagePolicy::default();
    policy.target = Some("ja".into());
    let mut ledger = TranslationLedger::new();
    ledger.begin_session();
    let (first, job) = ledger.number(&policy, Lane::Mic, "hello", Some("en"));
    assert_eq!(first, 1);
    let job = job.expect("English is translated into Japanese");
    assert_eq!(job.id, 1);
    assert_eq!(job.target, "ja");
    assert_eq!(job.text, "hello");
    assert_eq!(job.source.as_deref(), Some("en"));
    ledger.submitted(false);
    assert_eq!(ledger.outstanding, 1);
    // already Japanese: numbered, but nothing to translate
    let (second, job) = ledger.number(&policy, Lane::Speaker, "こんにちは", Some("ja"));
    assert_eq!(second, 2);
    assert!(job.is_none());
    ledger.settled();
    assert_eq!(ledger.outstanding, 0);
    ledger.begin_session();
    assert!(!ledger.in_session(2));
    let (third, _) = ledger.number(&policy, Lane::Mic, "again", None);
    assert_eq!(third, 3);
    assert!(ledger.in_session(3));
    // an eviction is one fewer result to wait for, not one more
    ledger.submitted(true);
    assert_eq!(ledger.outstanding, 0);
}

const RATE: u32 = 48_000;

/// An anchor queue with the given callbacks already stamped into it.
fn anchors(
    entries: &[(u64, u64)],
) -> (
    rtrb::Producer<live_poly_trans::capture::Anchor>,
    rtrb::Consumer<live_poly_trans::capture::Anchor>,
) {
    let (mut tx, rx) = rtrb::RingBuffer::new(16);
    for (frame, nanos) in entries {
        tx.push(live_poly_trans::capture::Anchor {
            frame: *frame,
            nanos: *nanos,
        })
        .expect("room for the test's anchors");
    }
    (tx, rx)
}

#[test]
fn a_frame_is_timed_from_the_anchor_it_arrived_under() {
    let (_tx, mut times) = anchors(&[(0, 1_000 * MS)]);
    let mut trail = live_poly_trans::pipeline::AnchorTrail::default();
    assert_eq!(trail.nanos_at(&mut times, 0, RATE), Some(1_000 * MS));
    // 480 frames at 48 kHz is 10ms further into the stream
    assert_eq!(trail.nanos_at(&mut times, 480, RATE), Some(1_010 * MS));
}

#[test]
fn a_dropout_between_callbacks_shows_up_as_a_jump() {
    let (_tx, mut times) = anchors(&[(0, 1_000 * MS), (480, 2_000 * MS)]);
    let mut trail = live_poly_trans::pipeline::AnchorTrail::default();
    assert_eq!(trail.nanos_at(&mut times, 0, RATE), Some(1_000 * MS));
    assert_eq!(trail.nanos_at(&mut times, 480, RATE), Some(2_000 * MS));
    assert_eq!(trail.nanos_at(&mut times, 960, RATE), Some(2_010 * MS));
}

#[test]
fn anchors_the_reader_has_passed_are_consumed() {
    let (_tx, mut times) = anchors(&[(0, 0), (480, 10 * MS), (960, 20 * MS)]);
    let mut trail = live_poly_trans::pipeline::AnchorTrail::default();
    assert_eq!(trail.nanos_at(&mut times, 960, RATE), Some(20 * MS));
    assert_eq!(times.slots(), 0, "all three were passed");
}

#[test]
fn the_trail_takes_only_anchors_already_reached() {
    let at = |frame: u64| live_poly_trans::capture::Anchor { frame, nanos: 7 * MS };
    assert_eq!(trail_step(None, 480), TrailStep::Stop);
    assert_eq!(trail_step(Some(at(480)), 480), TrailStep::Take(at(480)));
    assert_eq!(trail_step(Some(at(0)), 480), TrailStep::Take(at(0)));
    assert_eq!(trail_step(Some(at(481)), 480), TrailStep::Stop);
    // a later anchor waits in the ring while the earlier ones are taken
    let (_tx, mut times) = anchors(&[(0, 0), (480, 10 * MS), (960, 20 * MS)]);
    let mut trail = live_poly_trans::pipeline::AnchorTrail::default();
    assert_eq!(trail.nanos_at(&mut times, 500, RATE), Some(10 * MS + MS * 20 / 48));
    assert_eq!(times.slots(), 1);
}

#[test]
fn a_lane_that_has_delivered_nothing_yet_has_no_time() {
    let (_tx, mut times) = anchors(&[]);
    let mut trail = live_poly_trans::pipeline::AnchorTrail::default();
    assert_eq!(trail.nanos_at(&mut times, 0, RATE), None);
}

#[test]
fn a_second_long_hole_between_callbacks_is_a_jump() {
    let (_tx, mut times) = anchors(&[(0, 1_000 * MS), (480, 2_000 * MS)]);
    let mut trail = live_poly_trans::pipeline::AnchorTrail::default();
    assert_eq!(trail.nanos_at(&mut times, 0, RATE), Some(1_000 * MS));
    // reading up to frame 960 would run past the hole at 480
    assert_eq!(trail.jump_before(&mut times, 960, RATE), Some(480));
    // the disagreeing anchor stays pending for the next read to start from
    assert_eq!(times.slots(), 1);
}

#[test]
fn contiguous_callbacks_are_absorbed_by_the_scan() {
    let (_tx, mut times) = anchors(&[(0, 1_000 * MS), (480, 1_010 * MS)]);
    let mut trail = live_poly_trans::pipeline::AnchorTrail::default();
    assert_eq!(trail.nanos_at(&mut times, 0, RATE), Some(1_000 * MS));
    assert_eq!(trail.jump_before(&mut times, 960, RATE), None);
    assert_eq!(times.slots(), 0, "both anchors consumed");
    // an anchor at or past the limit is left for later
    let (_tx2, mut later) = anchors(&[(0, 0), (960, 20 * MS)]);
    let mut trail = live_poly_trans::pipeline::AnchorTrail::default();
    assert_eq!(trail.nanos_at(&mut later, 0, RATE), Some(0));
    assert_eq!(trail.jump_before(&mut later, 960, RATE), None);
    assert_eq!(later.slots(), 1);
    // and with no anchor yet there is no clock to disagree with
    let (_tx3, mut none) = anchors(&[(0, 0)]);
    let mut fresh = live_poly_trans::pipeline::AnchorTrail::default();
    assert_eq!(fresh.jump_before(&mut none, 960, RATE), None);
    assert_eq!(none.slots(), 1);
}

#[test]
fn language_settings_come_from_the_startup_values() {
    assert_eq!(parse_lang_list(" ja, en ,,fr "), vec!["ja", "en", "fr"]);
    assert!(parse_lang_list("").is_empty());
    assert!(parse_lang_list(" , ").is_empty());

    let default = policy_from_settings(None, None, None);
    assert_eq!(default, LanguagePolicy::default());

    let listed = policy_from_settings(Some("en,zh"), None, Some("none"));
    assert_eq!(listed.spoken, vec!["en", "zh"]);
    assert_eq!(listed.target, None);

    // a blank list keeps the default candidates; a pinned language wins
    let pinned = policy_from_settings(Some(" , "), Some("ko"), Some("en"));
    assert_eq!(pinned.spoken, vec!["ko"]);
    assert_eq!(pinned.target.as_deref(), Some("en"));
    assert_eq!(policy_from_settings(Some(","), None, Some("")).spoken, vec!["ja", "en"]);
    assert_eq!(policy_from_settings(None, None, Some("")).target, None);
}

#[test]
fn session_poll_stops_continues_and_decides() {
    let built_in = output_device("built-in", "MacBookのスピーカー");
    let headphones = output_device("headphones", "ヘッドフォン");
    let mut pending = PendingOutputDevice::default();

    assert_eq!(on_session_poll(&mut pending, Polled::Command(Cmd::Stop)), SessionCommandAction::Stop);
    assert_eq!(on_session_poll(&mut pending, Polled::Disconnected), SessionCommandAction::Stop);
    assert_eq!(on_session_poll(&mut pending, Polled::Command(Cmd::Start)), SessionCommandAction::Continue);
    assert_eq!(on_session_poll(&mut pending, Polled::Timeout), SessionCommandAction::Continue);

    assert!(pending.observe(&built_in, &headphones));
    let id = pending.prompt.as_ref().unwrap().id;
    let stale = Polled::Command(Cmd::RespondOutputDevice { prompt_id: id + 1, switch_device: true });
    assert_eq!(on_session_poll(&mut pending, stale), SessionCommandAction::ShowPrompt);
    assert!(pending.prompt.is_some());

    let answer = Polled::Command(Cmd::RespondOutputDevice { prompt_id: id, switch_device: true });
    assert_eq!(
        on_session_poll(&mut pending, answer),
        SessionCommandAction::Decide(OutputDeviceSwitchDecision::Switch {
            expected_uid: "headphones".to_string()
        })
    );
    assert!(pending.prompt.is_none());
}

#[test]
fn only_start_starts_a_session() {
    assert!(starts_session(&Cmd::Start));
    assert!(!starts_session(&Cmd::Stop));
    assert!(!starts_session(&Cmd::RespondOutputDevice { prompt_id: 1, switch_device: false }));
}

#[test]
fn overrun_notice_rises_with_drops_and_expires() {
    let mut watch = OverrunWatch::new();
    assert_eq!(watch.observe(0, 2, 48_000, 0), None);
    assert_eq!(
        watch.observe(9_600, 2, 48_000, 1_000),
        Some(Some("audio overrun: ~100ms dropped so far".to_string()))
    );
    assert_eq!(watch.until_nanos, Some(1_000 + 5_000 * MS));
    assert_eq!(watch.observe(9_600, 2, 48_000, 2_000 * MS), None);
    assert_eq!(watch.observe(9_600, 2, 48_000, 1_000 + 5_000 * MS), Some(None));
    assert_eq!(watch.until_nanos, None);
    assert_eq!(watch.observe(9_600, 2, 48_000, 9_000 * MS), None);
    assert_eq!(
        watch.observe(19_200, 2, 48_000, 9_000 * MS),
        Some(Some("audio overrun: ~200ms dropped so far".to_string()))
    );
}

#[test]
fn overrun_expiry_saturates_at_the_clock_limit() {
    let mut watch = OverrunWatch::new();
    assert!(watch.observe(1, 1, 1, u64::MAX - 1).is_some());
    assert_eq!(watch.until_nanos, Some(u64::MAX));
}

#[test]
fn decode_notice_reports_errors_and_clears_on_success() {
    assert_eq!(decode_notice(None), None);
    assert_eq!(decode_notice(Some("boom")).as_deref(), Some("decode error: boom"));
    assert!(SILENT_LANE_NOTICE.starts_with("speaker lane is receiving only silence"));
}

#[test]
fn a_time_jump_inside_one_drain_splits_the_read() {
    // Two callbacks a second apart sit in the ring together: read as one
    // run, the second of silence between them would collapse.
    let (_tx, mut times) = anchors(&[(0, 1_000 * MS), (480, 2_000 * MS)]);
    let mut trail = live_poly_trans::pipeline::AnchorTrail::default();
    assert_eq!(trail.next_run(&mut times, 0, 960, RATE), (Some(1_000 * MS), 480));
    // the hole survives: the next pass starts at the jump, placed by its anchor
    assert_eq!(trail.next_run(&mut times, 480, 480, RATE), (Some(2_000 * MS), 480));
}

#[test]
fn contiguous_callbacks_drain_as_one_chunk() {
    let (_tx, mut times) = anchors(&[(0, 1_000 * MS), (480, 1_010 * MS)]);
    let mut trail = live_poly_trans::pipeline::AnchorTrail::default();
    assert_eq!(trail.next_run(&mut times, 0, 960, RATE), (Some(1_000 * MS), 960));
    assert_eq!(times.slots(), 0, "both anchors consumed");
    // an empty ring reads nothing and asks nothing of the anchors
    assert_eq!(trail.next_run(&mut times, 960, 0, RATE), (None, 0));
}

#[test]
fn settings_keep_at_most_two_spoken_languages() {
    let p = policy_from_settings(Some("ja, en ,zh"), None, None);
    assert_eq!(p.spoken, vec!["ja", "en"]);
}

#[test]
fn a_chunk_goes_where_it_was_captured_or_where_the_lane_left_off() {
    let mut clock = SessionClock::default();
    assert_eq!(place_chunk(&mut clock, Some(5_000 * MS), 0, 480, 48_000), (0, 480));
    // no anchor: continue where the last chunk ended
    assert_eq!(place_chunk(&mut clock, None, 480, 480, 48_000), (480, 960));
    // half a second after the zero, at 16 kHz: 160 device samples are 480 recording samples
    assert_eq!(place_chunk(&mut clock, Some(5_500 * MS), 960, 160, 16_000), (24_000, 24_480));
}
