use chrono::TimeZone;
use live_poly_trans::library::{
    lex_le_exec, newest_first, normalize_title, recorded_lanes, session_duration_ms, session_of,
    started_at_ms, summarize_transcript, transcript_lines, wav_duration_ms, Line, Recording,
    TranscriptEntry, MAX_TITLE_CHARS,
};

fn recording(name: &str) -> Recording {
    Recording {
        name: name.to_string(),
        dir: format!("/base/{name}"),
        title: None,
        started_at_ms: started_at_ms(name),
        duration_ms: 0,
        lanes: vec!["mic".to_string()],
        snippet: String::new(),
        utterances: 0,
    }
}

fn utterance(id: u64, lane: Option<&str>, start_ms: u64, lang: Option<&str>, text: &str) -> TranscriptEntry {
    TranscriptEntry {
        kind: Some("utterance".to_string()),
        id,
        lane: lane.map(str::to_string),
        start_ms,
        end_ms: start_ms + 1_000,
        lang: lang.map(str::to_string),
        text: text.to_string(),
    }
}

fn translation(id: u64, text: &str) -> TranscriptEntry {
    TranscriptEntry {
        kind: Some("translation".to_string()),
        id,
        lane: None,
        start_ms: 0,
        end_ms: 0,
        lang: Some("en".to_string()),
        text: text.to_string(),
    }
}

#[test]
fn sessions_come_back_newest_first() {
    let listed = newest_first(vec![
        recording("20260819090503"),
        recording("20260817120000"),
        recording("20260819235959"),
    ]);
    let names: Vec<String> = listed.into_iter().map(|r| r.name).collect();
    assert_eq!(names, ["20260819235959", "20260819090503", "20260817120000"]);
}

#[test]
fn undated_sessions_list_after_dated_ones_by_name() {
    let listed = newest_first(vec![recording("面談"), recording("20260819090503"), recording("定例")]);
    let names: Vec<String> = listed.into_iter().map(|r| r.name).collect();
    assert_eq!(names, ["20260819090503", "面談", "定例"]);
}

#[test]
fn the_directory_name_is_read_as_the_local_time_it_started() {
    let expected = chrono::Local
        .with_ymd_and_hms(2026, 8, 19, 9, 5, 3)
        .unwrap()
        .timestamp_millis();
    assert_eq!(started_at_ms("20260819090503"), Some(expected));
}

#[test]
fn a_same_second_restart_keeps_the_start_of_the_second_it_names() {
    assert_eq!(started_at_ms("20260819090503-2"), started_at_ms("20260819090503"));
    assert!(started_at_ms("20260819090503-2").is_some());
}

#[test]
fn a_start_is_within_a_day_of_the_stamp_read_as_utc() {
    // 2024-01-02 03:04:05 as UTC
    let utc_ms: i64 = 1_704_164_645_000;
    let t = started_at_ms("20240102030405").expect("a valid stamp");
    assert!((t - utc_ms).abs() < 86_400_000);
    // a leap second reads as the second after 23:59:59
    let leap = started_at_ms("20161231235960").expect("a leap-second stamp");
    let before = started_at_ms("20161231235959").expect("the second before");
    assert_eq!(leap - before, 1_000);
    // no such month or hour
    assert_eq!(started_at_ms("20241301000000"), None);
    assert_eq!(started_at_ms("20240102250000"), None);
}

#[test]
fn a_directory_named_something_else_is_still_listed_just_undated() {
    assert_eq!(started_at_ms("面談"), None);
    assert_eq!(recording("面談").started_at_ms, None);
}

#[test]
fn the_first_thing_said_stands_in_for_the_session() {
    let entries = vec![
        utterance(1, Some("mic"), 0, None, "それでは定例を始めます"),
        translation(1, "Let's begin."),
        utterance(2, Some("speaker"), 0, None, "hello"),
    ];
    let (snippet, count) = summarize_transcript(&entries);
    assert_eq!(snippet, "それでは定例を始めます");
    // The translation is not an utterance: two people spoke, not three.
    assert_eq!(count, 2);
}

#[test]
fn an_empty_first_utterance_does_not_make_the_snippet() {
    let entries = vec![utterance(1, None, 0, None, ""), utterance(2, None, 0, None, "おはよう")];
    assert_eq!(summarize_transcript(&entries), ("おはよう".to_string(), 2));
    assert_eq!(summarize_transcript(&[]), (String::new(), 0));
}

#[test]
fn reading_a_session_puts_both_lanes_in_one_stream_in_spoken_order() {
    let entries = vec![
        utterance(2, Some("speaker"), 4_000, Some("en"), "hello"),
        utterance(1, Some("mic"), 1_200, Some("ja"), "こんにちは"),
    ];
    let lines = transcript_lines(&entries);
    assert_eq!(lines.iter().map(|l| l.id).collect::<Vec<_>>(), [1, 2]);
    assert_eq!(lines[0].lane, "mic");
    assert_eq!(lines[0].lang.as_deref(), Some("ja"));
}

#[test]
fn a_translation_rejoins_the_sentence_it_names() {
    let entries = vec![
        utterance(1, Some("mic"), 0, None, "おはよう"),
        utterance(2, Some("speaker"), 3_000, None, "good morning"),
        translation(1, "Good morning."),
        translation(99, "迷子"),
    ];
    let lines = transcript_lines(&entries);
    assert_eq!(lines[0].translation.as_deref(), Some("Good morning."));
    assert_eq!(lines[1].translation, None);
    assert_eq!(lines.len(), 2);
}

#[test]
fn equal_starts_are_ordered_by_id_and_a_missing_lane_is_the_mic() {
    let entries = vec![
        utterance(7, None, 500, None, "b"),
        utterance(3, Some("speaker"), 500, None, "a"),
        translation(7, "first"),
        translation(7, "second"),
    ];
    let lines = transcript_lines(&entries);
    assert_eq!(
        lines,
        vec![
            Line {
                id: 3,
                lane: "speaker".to_string(),
                start_ms: 500,
                end_ms: 1_500,
                lang: None,
                text: "a".to_string(),
                translation: None,
            },
            Line {
                id: 7,
                lane: "mic".to_string(),
                start_ms: 500,
                end_ms: 1_500,
                lang: None,
                text: "b".to_string(),
                translation: Some("second".to_string()),
            },
        ]
    );
}

#[test]
fn titles_are_validated_before_writing() {
    assert_eq!(normalize_title("  週次ミーティング  "), Ok("週次ミーティング".to_string()));
    assert_eq!(normalize_title("   "), Err("title must not be empty".to_string()));
    assert_eq!(
        normalize_title("line\nbreak"),
        Err("title must not contain control characters".to_string())
    );
    assert_eq!(
        normalize_title(&"長".repeat(MAX_TITLE_CHARS + 1)),
        Err("title must be at most 100 characters".to_string())
    );
    assert!(normalize_title(&"長".repeat(MAX_TITLE_CHARS)).is_ok());
}

#[test]
fn the_length_comes_from_the_recording_header() {
    assert_eq!(wav_duration_ms(48_000 * 3, 48_000), Some(3_000));
    assert_eq!(wav_duration_ms(10, 0), None);
    assert_eq!(session_duration_ms(Some(1_000), &[Some(5_000)]), 1_000);
    assert_eq!(session_duration_ms(None, &[Some(400), None, Some(900)]), 900);
    assert_eq!(session_duration_ms(None, &[]), 0);
}

#[test]
fn only_the_lanes_that_were_recorded_are_named() {
    assert_eq!(recorded_lanes(true, false), ["mic"]);
    assert_eq!(recorded_lanes(true, true), ["mic", "speaker"]);
    assert!(recorded_lanes(false, false).is_empty());
}

#[test]
fn names_order_by_code_point() {
    assert!(lex_le_exec("abc", "abd"));
    assert!(lex_le_exec("ab", "abc"));
    assert!(!lex_le_exec("b", "abc"));
    assert!(lex_le_exec("", ""));
    assert!(lex_le_exec("Z", "a"));
}

#[test]
fn a_session_carries_its_listing_and_lines() {
    let session = session_of(recording("20260819090503"), vec![]);
    assert_eq!(session.name, "20260819090503");
    assert_eq!(session.dir, "/base/20260819090503");
    assert!(session.lines.is_empty());
}

#[test]
fn transcript_lines_read_with_defaults_and_half_lines_skipped() {
    let e = live_poly_trans::library::transcript_entry(
        r#"{"type":"utterance","id":3,"lane":"mic","startMs":1200,"endMs":3400,"lang":"ja","text":"こんにちは"}"#,
    )
    .unwrap();
    assert_eq!(e.kind.as_deref(), Some("utterance"));
    assert_eq!((e.id, e.start_ms, e.end_ms), (3, 1200, 3400));
    assert_eq!(e.lane.as_deref(), Some("mic"));
    assert_eq!(e.lang.as_deref(), Some("ja"));
    assert_eq!(e.text, "こんにちは");

    let t = live_poly_trans::library::transcript_entry(r#"{"type":"translation","id":1,"lang":"en","text":"Hello."}"#)
        .unwrap();
    assert_eq!((t.id, t.start_ms, t.end_ms), (1, 0, 0));
    assert_eq!(t.lane, None);

    let odd = live_poly_trans::library::transcript_entry(r#"{"id":"x","text":5}"#).unwrap();
    assert_eq!((odd.id, odd.text.as_str(), odd.kind), (0, "", None));

    assert_eq!(live_poly_trans::library::transcript_entry(r#"{"type":"utt"#), None);
}
