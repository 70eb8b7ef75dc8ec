//! Live transcription and translation core: the decisions behind turning
//! rolling hypotheses into committed text, timing utterances against the
//! recording, queueing them for translation, and the small state machines
//! around capture, notices and output-device switching.
use vstd::prelude::*;

pub mod text;
pub mod paths;
pub mod dylib;
pub mod models;
pub mod language;
pub mod local_agreement;
pub mod scheduler;
pub mod translate;
pub mod capture;
pub mod record;
pub mod pipeline;
pub mod soniox;
pub mod translation_backend;
pub mod whisper_engine;
pub mod sorting;
pub mod library;
pub mod translate_lane;
pub mod interpreter;
pub mod sidecar;
pub mod mix;

verus! {

/// Which audio lane an event belongs to.
#[derive(Debug, Clone, Copy, PartialEq, Eq, Structural)]
pub enum Lane {
    Mic,
    Speaker,
}

/// A transcription hypothesis for a window of audio.
#[derive(Debug, Clone, PartialEq, Eq)]
pub struct Hypothesis {
    pub text: String,
    /// Milliseconds from the start of the transcribed window, not from
    /// capture start: the scheduler's slide carry-over depends on it.
    pub start_ms: u64,
    /// End of the last decoded segment, window-relative like `start_ms`.
    pub end_ms: u64,
    /// Language the engine detected (or was told) for this window.
    pub lang: Option<String>,
}

/// The content of a [`Hypothesis`], as plain values.
pub struct HypothesisView {
    pub text: Seq<char>,
    pub start_ms: nat,
    pub end_ms: nat,
    pub lang: Option<Seq<char>>,
}

impl View for Hypothesis {
    type V = HypothesisView;

    open spec fn view(&self) -> HypothesisView {
        HypothesisView {
            text: self.text@,
            start_ms: self.start_ms as nat,
            end_ms: self.end_ms as nat,
            lang: text::opt_chars(self.lang),
        }
    }
}

#[verifier::external_type_specification]
#[verifier::external_body]
pub struct ExAnyhowError(anyhow::Error);

/// `anyhow::Error::msg`: an error carrying `message`. Nothing is claimed of
/// the error beyond its existence.
#[verifier::external_body]
pub(crate) fn error_from_message(message: String) -> (e: anyhow::Error)
{
    anyhow::Error::msg(message)
}

/// Streaming-agnostic ASR engine: transcribe one window of mono audio at
/// [`scheduler::TARGET_RATE`], with samples of type `S`.
pub trait AsrEngine<S>: Send {
    fn transcribe(&mut self, samples: &[S], lang: Option<&str>) -> Result<Hypothesis, anyhow::Error>;
}

/// Voice activity detection over one window of audio: speech regions as
/// (start, end) sample offsets within `samples`, in ascending order.
pub trait SpeechDetector<S>: Send {
    fn speech_segments(&mut self, samples: &[S]) -> Result<Vec<(usize, usize)>, anyhow::Error>;
}

/// One lane's recognition, end to end: audio in, committed and volatile
/// text out. This is the seam the pipeline chooses an ASR at.
pub trait Recognizer<S> {
    /// Captured audio in order.
    fn push_audio(&mut self, samples: &[S]);

    /// Advance as far as the audio pushed so far allows. `None` means there
    /// was nothing to do yet; `lang` pins the spoken language for this step.
    fn step(&mut self, lang: Option<&str>) -> Result<Option<scheduler::StepOutput>, anyhow::Error>;

    /// Capture stopped: commit whatever is still pending, and reset for the
    /// next session.
    fn finish(&mut self, lang: Option<&str>) -> Result<Option<scheduler::StepOutput>, anyhow::Error>;
}

/// Sentence-level translator (queued, sequential; never blocks recognition).
pub trait Translator: Send {
    fn translate(&mut self, sentence: &str, source_lang: &str, target_lang: &str) -> Result<String, anyhow::Error>;
}

} // verus!
