use live_poly_trans::sidecar::{after_silence_plan, flush_plan, AudioDecision, CachedPlan, SidecarAudio, INVALID_PCM16_MESSAGE};

fn buffered(decision: AudioDecision) -> (bool, bool) {
    match decision {
        AudioDecision::Buffered { transcribe, finalize } => (transcribe, finalize),
        other => panic!("not buffered: {other:?}"),
    }
}

#[test]
fn an_undecodable_payload_is_a_non_fatal_error_with_no_state() {
    let mut audio = SidecarAudio::with_defaults();
    assert_eq!(audio.on_audio("mic", None, false), AudioDecision::InvalidPayload);
    assert_eq!(audio.buffered("mic"), None);
    assert_eq!(INVALID_PCM16_MESSAGE, "invalid pcm16 audio payload");
}

#[test]
fn silence_before_any_audio_is_ignored() {
    let mut audio = SidecarAudio::with_defaults();
    assert_eq!(audio.on_audio("mic", Some(&[0; 100]), true), AudioDecision::Ignored);
    assert_eq!(audio.buffered("mic"), None);
}

#[test]
fn rolling_transcriptions_follow_new_audio_and_silence_finalizes() {
    let mut audio = SidecarAudio::with_defaults();
    // half a second of speech: one rolling step is due
    assert_eq!(buffered(audio.on_audio("mic", Some(&[1; 8_000]), false)), (true, false));
    assert_eq!(audio.buffered("mic").unwrap().len(), 8_000);
    // a quarter second more is less than a step
    assert_eq!(buffered(audio.on_audio("mic", Some(&[1; 4_000]), false)), (false, false));
    // 800 ms of silence: two steps of new audio, and time to finalize
    assert_eq!(buffered(audio.on_audio("mic", Some(&[0; 12_800]), true)), (true, true));
    // speech again resets the trailing silence
    assert_eq!(buffered(audio.on_audio("mic", Some(&[1; 10]), false)), (false, false));
}

#[test]
fn a_backlog_of_more_than_two_steps_is_skipped() {
    let mut audio = SidecarAudio::with_defaults();
    assert_eq!(buffered(audio.on_audio("speaker", Some(&[1; 30_000]), false)), (false, false));
    // the skipped audio counts as scheduled: the next step starts after it
    assert_eq!(buffered(audio.on_audio("speaker", Some(&[1; 8_000]), false)), (true, false));
}

#[test]
fn each_stream_keeps_only_its_most_recent_samples() {
    let mut audio = SidecarAudio::new(10, 5, 3);
    audio.on_audio("mic", Some(&[1, 2, 3, 4, 5, 6, 7, 8]), false);
    audio.on_audio("mic", Some(&[9, 10, 11, 12]), false);
    assert_eq!(audio.buffered("mic").unwrap(), &[3, 4, 5, 6, 7, 8, 9, 10, 11, 12]);
    audio.on_audio("speaker", Some(&[7]), false);
    assert_eq!(audio.buffered("speaker").unwrap(), &[7]);
    assert_eq!(audio.buffered("mic").unwrap().len(), 10);
}

#[test]
fn a_cached_transcript_covers_speech_until_new_audible_samples_arrive() {
    let mut audio = SidecarAudio::with_defaults();
    audio.on_audio("mic", Some(&[1; 16_000]), false);
    // transcribed everything buffered
    assert!(audio.transcript_covers_speech("mic", 16_000));
    // 500 samples of silence since: still covered
    audio.on_audio("mic", Some(&[0; 500]), true);
    assert!(audio.transcript_covers_speech("mic", 16_000));
    // audible audio after the transcript: not covered
    audio.on_audio("mic", Some(&[1; 10]), false);
    assert!(!audio.transcript_covers_speech("mic", 16_000));
    // a stream with nothing buffered is covered by anything
    assert!(audio.transcript_covers_speech("speaker", 0));
}

#[test]
fn silence_promotes_only_a_covering_transcript_and_flush_retranscribes_otherwise() {
    assert_eq!(after_silence_plan(true, true), CachedPlan::Promote);
    assert_eq!(after_silence_plan(true, false), CachedPlan::Keep);
    assert_eq!(after_silence_plan(false, true), CachedPlan::Keep);
    assert_eq!(flush_plan(true, true), CachedPlan::Promote);
    assert_eq!(flush_plan(true, false), CachedPlan::Retranscribe);
    assert_eq!(flush_plan(false, true), CachedPlan::Retranscribe);
}

#[test]
fn a_forgotten_stream_starts_afresh() {
    let mut audio = SidecarAudio::with_defaults();
    audio.on_audio("mic", Some(&[1; 8_000]), false);
    audio.on_audio("speaker", Some(&[1; 100]), false);
    audio.forget("mic");
    assert_eq!(audio.buffered("mic"), None);
    assert_eq!(audio.buffered("speaker").unwrap().len(), 100);
    // silence on the forgotten stream is ignored again
    assert_eq!(audio.on_audio("mic", Some(&[0; 10]), true), AudioDecision::Ignored);
    audio.forget("nothing");
}
