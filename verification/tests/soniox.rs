use live_poly_trans::soniox::usable_api_key;
use live_poly_trans::soniox::{Reducer, Response, Token, WorkerEvent};

fn response(tokens: Vec<Token>, finished: bool) -> Response {
    Response {
        tokens,
        finished,
        error_code: None,
        error_type: None,
        error_message: None,
    }
}

fn token(text: &str, is_final: bool, start_ms: u64, end_ms: u64) -> Token {
    Token {
        text: text.into(),
        is_final,
        start_ms: Some(start_ms),
        end_ms: Some(end_ms),
        language: Some("ja".into()),
    }
}

#[test]
fn endpoint_turns_final_tokens_into_an_utterance() {
    let mut reducer = Reducer::default();
    reducer.ingest(response(
        vec![
            token("こんにちは", true, 100, 600),
            token("<end>", true, 600, 600),
        ],
        false,
    ));
    let output = reducer.next_output().expect("endpoint output");
    assert_eq!(output.committed_delta, "こんにちは");
    assert_eq!(output.utterance_final.expect("utterance").text, "こんにちは");
}

#[test]
fn non_final_tokens_replace_the_volatile_tail() {
    let mut reducer = Reducer::default();
    reducer.ingest(response(vec![token("こん", false, 0, 100)], false));
    assert_eq!(reducer.next_output().expect("first").volatile, "こん");
    reducer.ingest(response(vec![token("こんにちは", false, 0, 300)], false));
    assert_eq!(reducer.next_output().expect("revision").volatile, "こんにちは");
}

#[test]
fn an_utterance_is_stamped_from_its_first_and_last_final_tokens() {
    let mut reducer = Reducer::default();
    reducer.ingest(response(
        vec![
            token(" hello", true, 100, 400),
            token(" world ", true, 450, 900),
            token("<end>", true, 900, 900),
        ],
        false,
    ));
    let output = reducer.next_output().expect("utterance");
    assert_eq!(output.committed_delta, " hello world ");
    assert_eq!(output.volatile, "");
    let u = output.utterance_final.expect("final");
    assert_eq!(u.text, "hello world");
    assert_eq!((u.start_ms, u.end_ms), (100, 900));
    assert_eq!(u.lang.as_deref(), Some("ja"));
    // nothing moved since: no output
    assert!(reducer.next_output().is_none());
}

#[test]
fn the_end_of_the_stream_closes_the_utterance() {
    let mut reducer = Reducer::default();
    reducer.ingest(response(vec![token("bye", true, 0, 200), token("tail", false, 200, 300)], true));
    assert!(reducer.is_finished());
    let output = reducer.next_output().expect("closed by finish");
    assert_eq!(output.utterance_final.expect("final").text, "bye");
    assert!(reducer.next_output().is_none());
}

#[test]
fn an_endpoint_with_nothing_said_only_clears_the_tail() {
    let mut reducer = Reducer::default();
    reducer.ingest(response(vec![token("uh", false, 0, 100)], false));
    assert_eq!(reducer.next_output().expect("tail").volatile, "uh");
    reducer.ingest(response(vec![token("<end>", true, 100, 100)], false));
    let output = reducer.next_output().expect("tail cleared");
    assert_eq!(output.volatile, "");
    assert!(output.utterance_final.is_none());
}

#[test]
fn service_errors_become_messages() {
    let mut reducer = Reducer::default();
    let mut failed = response(vec![], false);
    failed.error_code = Some(401);
    failed.error_message = Some("bad key".into());
    assert_eq!(
        reducer.apply(WorkerEvent::Response(failed)),
        Err("Soniox 401 error: bad key".to_string())
    );
    assert_eq!(
        reducer.apply(WorkerEvent::Error("reset".into())),
        Err("Soniox connection failed: reset".to_string())
    );
    assert_eq!(reducer.apply(WorkerEvent::Response(response(vec![], false))), Ok(()));
}

#[test]
fn the_worker_stops_on_the_last_response_or_an_error() {
    let mut r = response(vec![], false);
    assert!(!r.ends_stream());
    r.finished = true;
    assert!(r.ends_stream());
    let mut e = response(vec![], false);
    e.error_code = Some(500);
    assert!(e.ends_stream());
}

#[test]
fn a_blank_api_key_is_no_key() {
    assert_eq!(usable_api_key(Some(" key ".to_string())), Some(" key ".to_string()));
    assert_eq!(usable_api_key(Some("  ".to_string())), None);
    assert_eq!(usable_api_key(None), None);
}
