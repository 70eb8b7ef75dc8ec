//! Drives an ASR engine over a rolling audio window and turns raw hypotheses
//! into committed/volatile text via [`LocalAgreement`].
//!
//! The window's samples and the engine stay with the caller; this state
//! machine decides, from the window's length, the voice-activity result and
//! each hypothesis, what is committed, when an utterance ends, where it sits in
//! the stream, and how far the window slides. The caller drops the samples it
//! is told to drop, so its buffer always holds exactly [`WindowScheduler::window_len`]
//! samples.
use vstd::prelude::*;

use crate::local_agreement::{
    fed_delta, fed_state, fed_volatile, flushed_state, flushed_tail, AgreementState, LocalAgreement,
};
use crate::text::{clone_opt, opt_chars, opt_str, own_opt, trim, trimmed};
use crate::{error_from_message, AsrEngine, Hypothesis, HypothesisView, SpeechDetector};

verus! {

/// Whisper's input rate.
pub const TARGET_RATE: u32 = 16_000;
/// Below this much audio a decode is wasted (whisper needs about a second).
pub const MIN_WINDOW_SAMPLES: usize = 16_000;
/// Beyond this the window slides: re-decode cost grows with window length and
/// old audio no longer changes.
pub const MAX_WINDOW_SAMPLES: usize = 240_000;
/// This much non-speech at the window tail marks an utterance boundary.
pub const TRAILING_NON_SPEECH_SAMPLES: usize = 16_000;
/// Upper bound on audio carried across a forced (max-window) slide.
pub const MAX_CARRY_SAMPLES: usize = 80_000;
/// Tail kept whenever non-speech audio is discarded: a VAD with a minimum
/// speech duration cannot see an utterance that only just began.
pub const ONSET_GUARD_SAMPLES: usize = 4_800;

/// Stream samples to milliseconds.
pub open spec fn samples_to_ms(n: nat) -> nat {
    n * 1000 / 16000
}

pub fn samples_to_ms_exec(n: usize) -> (ms: u64)
    requires
        n * 1000 <= u64::MAX,
    ensures
        ms == samples_to_ms(n as nat),
{
    (n as u64) * 1000 / 16000
}

/// An utterance that has ended, with where it sits in the audio.
#[derive(Debug, Clone, Default, PartialEq, Eq)]
pub struct Utterance {
    pub text: String,
    /// Milliseconds from the start of this scheduler's stream: all the audio
    /// ever pushed into it, not the current window.
    pub start_ms: u64,
    pub end_ms: u64,
    /// The language the window was pinned to or detected as, if any.
    pub lang: Option<String>,
}

/// One decode step's outcome.
#[derive(Debug, Clone, Default, PartialEq, Eq)]
pub struct StepOutput {
    pub committed_delta: String,
    pub volatile: String,
    /// The utterance that just ended; present only on the step that crossed
    /// an utterance boundary (trailing silence or max window).
    pub utterance_final: Option<Utterance>,
}

/// What a step asks of its caller once the voice-activity result is in.
#[derive(Debug, Clone, PartialEq, Eq)]
pub enum StepPlan {
    /// Not enough audio for a decode: nothing to do.
    Idle,
    /// No speech: drop the first `keep_from` samples of the window; nothing
    /// is decoded.
    Drop { keep_from: usize },
    /// Transcribe the whole window with this language (`None`: let the engine
    /// detect it), then hand the hypothesis to [`WindowScheduler::decoded`].
    Decode { lang: Option<String> },
}

/// The abstract state of a [`WindowScheduler`].
pub struct SchedState {
    /// Samples in the current window (audio since the last slide).
    pub window_len: nat,
    /// Where the window's first sample sits in the stream.
    pub window_start: nat,
    /// Stream position where the current utterance's speech began.
    pub utterance_start_ms: Option<nat>,
    pub agreement: AgreementState,
    /// Language detected for the current window (auto mode only).
    pub window_lang: Option<Seq<char>>,
    /// Text committed so far for the utterance in the current window.
    pub acc: Seq<char>,
}

pub open spec fn window_start_ms(s: SchedState) -> nat {
    samples_to_ms(s.window_start)
}

/// The language a decode runs with: the caller's pin, else the window's.
pub open spec fn effective_lang(lang: Option<Seq<char>>, window_lang: Option<Seq<char>>) -> Option<Seq<char>> {
    match lang {
        Some(l) => Some(l),
        None => window_lang,
    }
}

/// The utterance start after a hypothesis: the first one with text fixes it.
pub open spec fn noted_start(s: SchedState, h: HypothesisView) -> Option<nat> {
    if h.text.len() == 0 {
        s.utterance_start_ms
    } else {
        match s.utterance_start_ms {
            Some(x) => Some(x),
            None => Some(window_start_ms(s) + h.start_ms),
        }
    }
}

/// The window's language after a hypothesis: in auto mode, the first
/// hypothesis with text pins whatever language it reports.
pub open spec fn pinned_lang(s: SchedState, lang: Option<Seq<char>>, h: HypothesisView) -> Option<Seq<char>> {
    if lang is None && s.window_lang is None && h.text.len() > 0 {
        h.lang
    } else {
        s.window_lang
    }
}

/// Trailing non-speech long enough to end the utterance.
pub open spec fn at_boundary(window_len: nat, last_speech_end: nat) -> bool {
    window_len >= last_speech_end + 16000
}

/// How far a forced slide keeps the window: from where the decode reached,
/// but never carrying more than the cap, and never past the window.
pub open spec fn forced_keep_from(window_len: nat, end_ms: nat) -> nat {
    let end_sample = end_ms * 16;
    let floor: nat = if window_len >= 80000 { (window_len - 80000) as nat } else { 0 };
    let from = if end_sample >= floor { end_sample } else { floor };
    if from <= window_len { from } else { window_len }
}

/// What a no-speech or boundary slide keeps: the onset guard.
pub open spec fn guard_keep_from(window_len: nat) -> nat {
    if window_len >= 4800 { (window_len - 4800) as nat } else { 0 }
}

/// The state after discarding the window's first `from` samples: a fresh
/// agreement context and a fresh utterance.
pub open spec fn slid(s: SchedState, from: nat) -> SchedState {
    SchedState {
        window_len: (s.window_len - from) as nat,
        window_start: s.window_start + from,
        utterance_start_ms: None,
        agreement: AgreementState { prev: None, committed: 0 },
        window_lang: None,
        acc: Seq::empty(),
    }
}

/// Whether `u` is the utterance made of `text` over `[start, end)` in `lang`:
/// present exactly when the text is not empty.
pub open spec fn utterance_is(u: Option<Utterance>, text: Seq<char>, start: nat, end: nat, lang: Option<Seq<char>>) -> bool {
    match u {
        Some(u) => text.len() > 0 && u.text@ == text && u.start_ms == start && u.end_ms == end
            && opt_chars(u.lang) == lang,
        None => text.len() == 0,
    }
}


/// The state after a hypothesis has been taken in, before any slide.
pub open spec fn decoded_state(s: SchedState, lang: Option<Seq<char>>, h: HypothesisView) -> SchedState {
    SchedState {
        utterance_start_ms: noted_start(s, h),
        agreement: fed_state(s.agreement, h.text),
        window_lang: pinned_lang(s, lang, h),
        acc: s.acc + fed_delta(s.agreement, h.text),
        ..s
    }
}

/// Whether a decode ends the utterance: trailing silence, or a full window.
pub open spec fn decode_ends_utterance(s: SchedState, last_speech_end: nat) -> bool {
    at_boundary(s.window_len, last_speech_end) || s.window_len >= 240000
}

/// How far the window slides after an utterance ends.
pub open spec fn decode_keep_from(s: SchedState, last_speech_end: nat, h: HypothesisView) -> nat {
    if at_boundary(s.window_len, last_speech_end) {
        guard_keep_from(s.window_len)
    } else {
        forced_keep_from(s.window_len, h.end_ms)
    }
}

/// What a decode step yields, and the state it leaves: the hypothesis's
/// agreed prefix committed and its tail volatile; at an utterance end the
/// tail committed too, the utterance handed out and the window slid.
pub open spec fn decode_result(
    s: SchedState,
    lang: Option<Seq<char>>,
    last_speech_end: nat,
    h: HypothesisView,
    out: StepOutput,
    t: SchedState,
) -> bool {
    let m = decoded_state(s, lang, h);
    if !decode_ends_utterance(s, last_speech_end) {
        &&& out.committed_delta@ == fed_delta(s.agreement, h.text)
        &&& out.volatile@ == fed_volatile(s.agreement, h.text)
        &&& out.utterance_final is None
        &&& t == m
    } else {
        let keep = decode_keep_from(s, last_speech_end, h);
        &&& out.committed_delta@ == fed_delta(s.agreement, h.text) + flushed_tail(m.agreement)
        &&& out.volatile@ == Seq::<char>::empty()
        &&& utterance_is(
            out.utterance_final,
            trimmed(m.acc + flushed_tail(m.agreement)),
            start_or_window(m),
            window_start_ms(s) + h.end_ms,
            effective_lang(lang, m.window_lang),
        )
        &&& keep <= s.window_len
        &&& t == slid(m, keep)
    }
}

/// Where an utterance without a hypothesis-given start begins: the window.
pub open spec fn start_or_window(s: SchedState) -> nat {
    match s.utterance_start_ms {
        Some(x) => x,
        None => window_start_ms(s),
    }
}

/// The effective language of the finish-time decode, with the finish hypothesis taken in.
pub open spec fn finished_state(s: SchedState, h: Option<HypothesisView>) -> SchedState {
    match h {
        Some(h) => SchedState {
            utterance_start_ms: noted_start(s, h),
            agreement: fed_state(s.agreement, h.text),
            acc: s.acc + fed_delta(s.agreement, h.text),
            ..s
        },
        None => s,
    }
}

/// What the end of the stream yields once the finish decode (if any) is
/// in: the pending text committed as a final utterance (none when there is
/// no text), and the whole window dropped.
pub open spec fn complete_result(
    s: SchedState,
    lang: Option<Seq<char>>,
    hv: Option<HypothesisView>,
    out: Option<StepOutput>,
    t: SchedState,
) -> bool {
    let m = finished_state(s, hv);
    let delta = match hv {
        Some(h) => fed_delta(s.agreement, h.text),
        None => Seq::<char>::empty(),
    };
    let end = match hv {
        Some(h) => window_start_ms(s) + h.end_ms,
        None => window_start_ms(s) + samples_to_ms(s.window_len),
    };
    let full = trimmed(m.acc + flushed_tail(m.agreement));
    &&& t == slid(m, s.window_len)
    &&& match out {
        None => full.len() == 0,
        Some(o) => {
            &&& o.committed_delta@ == delta + flushed_tail(m.agreement)
            &&& o.volatile@ == Seq::<char>::empty()
            &&& utterance_is(o.utterance_final, full, start_or_window(m), end, effective_lang(lang, m.window_lang))
        },
    }
}

/// The end of the stream as a whole: a finish decode happens exactly when
/// there is audio left and the detector found speech in it (`found`), on
/// the window padded to a decodable length.
pub open spec fn finish_result(
    s: SchedState,
    lang: Option<Seq<char>>,
    found: bool,
    hv: Option<HypothesisView>,
    out: Option<StepOutput>,
    t: SchedState,
) -> bool {
    let decode = s.window_len > 0 && found;
    &&& decode == hv is Some
    &&& complete_result(if decode { padded(s) } else { s }, lang, hv, out, t)
}

/// Decodes run only on windows at least this long.
pub open spec fn ready(s: SchedState) -> bool {
    s.window_len >= 16000
}

/// Scheduler state: the rolling window's bookkeeping, the agreement context
/// and the utterance being built.
#[derive(Debug)]
pub struct WindowScheduler {
    window_len: usize,
    window_start: usize,
    utterance_start_ms: Option<u64>,
    agreement: LocalAgreement,
    window_lang: Option<String>,
    utterance_acc: String,
}

impl View for WindowScheduler {
    type V = SchedState;

    closed spec fn view(&self) -> SchedState {
        SchedState {
            window_len: self.window_len as nat,
            window_start: self.window_start as nat,
            utterance_start_ms: match self.utterance_start_ms {
                Some(x) => Some(x as nat),
                None => None,
            },
            agreement: self.agreement@,
            window_lang: opt_chars(self.window_lang),
            acc: self.utterance_acc@,
        }
    }
}

impl WindowScheduler {
    /// The stream positions this scheduler can represent: every millisecond
    /// figure it computes must fit a `u64`.
    pub open spec fn fits(s: SchedState) -> bool {
        &&& s.window_start + s.window_len <= usize::MAX
        &&& (s.window_start + s.window_len) * 1000 <= u64::MAX
    }

    pub fn new() -> (s: Self)
        ensures
            s@.window_len == 0,
            s@.window_start == 0,
            s@.utterance_start_ms is None,
            s@.agreement == (AgreementState { prev: None, committed: 0 }),
            s@.window_lang is None,
            s@.acc == Seq::<char>::empty(),
    {
        WindowScheduler {
            window_len: 0,
            window_start: 0,
            utterance_start_ms: None,
            agreement: LocalAgreement::new(),
            window_lang: None,
            utterance_acc: String::new(),
        }
    }

    /// Samples in the current window.
    pub fn window_len(&self) -> (n: usize)
        ensures
            n == self@.window_len,
    {
        self.window_len
    }

    /// Where the window begins, in stream samples.
    pub fn window_start(&self) -> (n: usize)
        ensures
            n == self@.window_start,
    {
        self.window_start
    }

    /// Where the window begins, in stream milliseconds.
    pub fn start_ms(&self) -> (ms: u64)
        requires
            Self::fits(self@),
        ensures
            ms == window_start_ms(self@),
    {
        samples_to_ms_exec(self.window_start)
    }

    /// The language the window is pinned to, if any.
    pub fn window_lang(&self) -> (l: Option<String>)
        ensures
            opt_chars(l) == self@.window_lang,
    {
        clone_opt(&self.window_lang)
    }

    /// `samples` more captured audio joined the window.
    pub fn push_audio(&mut self, samples: usize)
        requires
            Self::fits(SchedState { window_len: old(self)@.window_len + samples as nat, ..old(self)@ }),
        ensures
            final(self)@ == (SchedState { window_len: old(self)@.window_len + samples as nat, ..old(self)@ }),
    {
        self.window_len = self.window_len + samples;
    }

    /// Discard the window's first `from` samples and start a fresh agreement
    /// context.
    fn slide_keeping(&mut self, from: usize)
        requires
            from <= old(self)@.window_len,
            Self::fits(old(self)@),
        ensures
            final(self)@ == slid(old(self)@, from as nat),
    {
        self.window_len = self.window_len - from;
        self.window_start = self.window_start + from;
        self.agreement.reset();
        self.window_lang = None;
        self.utterance_acc = String::new();
        self.utterance_start_ms = None;
    }

    fn window_start_ms(&self) -> (ms: u64)
        requires
            Self::fits(self@),
        ensures
            ms == window_start_ms(self@),
    {
        samples_to_ms_exec(self.window_start)
    }

    fn note_utterance_start(&mut self, hypothesis: &Hypothesis)
        requires
            Self::fits(old(self)@),
            window_start_ms(old(self)@) + hypothesis.start_ms <= u64::MAX,
        ensures
            final(self)@ == (SchedState { utterance_start_ms: noted_start(old(self)@, hypothesis@), ..old(self)@ }),
    {
        if hypothesis.text.as_str().is_empty() {
            return;
        }
        if self.utterance_start_ms.is_none() {
            let start = self.window_start_ms() + hypothesis.start_ms;
            self.utterance_start_ms = Some(start);
        }
    }

    /// Commit the agreement's pending tail and take the finished utterance,
    /// which ended at `end_ms` (stream time).
    fn finalize_utterance(&mut self, end_ms: u64, lang: Option<String>) -> (r: (String, Option<Utterance>))
        requires
            Self::fits(old(self)@),
        ensures
            r.0@ == flushed_tail(old(self)@.agreement),
            utterance_is(
                r.1,
                trimmed(old(self)@.acc + flushed_tail(old(self)@.agreement)),
                match old(self)@.utterance_start_ms {
                    Some(x) => x,
                    None => window_start_ms(old(self)@),
                },
                end_ms as nat,
                opt_chars(lang),
            ),
            final(self)@ == (SchedState {
                utterance_start_ms: None,
                agreement: flushed_state(old(self)@.agreement),
                acc: Seq::empty(),
                ..old(self)@
            }),
    {
        let tail = self.agreement.flush();
        let mut acc = self.utterance_acc.clone();
        acc.append(tail.as_str());
        self.utterance_acc = String::new();
        let full = trim(acc.as_str());
        let start_ms = match self.utterance_start_ms {
            Some(x) => x,
            None => self.window_start_ms(),
        };
        self.utterance_start_ms = None;
        let utterance = if full.as_str().is_empty() {
            None
        } else {
            Some(Utterance { text: full, start_ms, end_ms, lang })
        };
        (tail, utterance)
    }

    /// First half of a step, once the caller knows where the last speech in
    /// the window ends (`None`: the voice-activity detector found none). A
    /// window below [`MIN_WINDOW_SAMPLES`] is left alone; a window without
    /// speech is dropped except for the onset guard; otherwise the window is
    /// to be transcribed with the returned language.
    pub fn plan(&mut self, last_speech_end: Option<usize>, lang: Option<&str>) -> (p: StepPlan)
        requires
            Self::fits(old(self)@),
        ensures
            !ready(old(self)@) ==> p == StepPlan::Idle && final(self)@ == old(self)@,
            ready(old(self)@) && last_speech_end is None ==> p == (StepPlan::Drop {
                keep_from: guard_keep_from(old(self)@.window_len) as usize,
            }) && final(self)@ == slid(old(self)@, guard_keep_from(old(self)@.window_len)),
            ready(old(self)@) && last_speech_end is Some ==> final(self)@ == old(self)@ && match p {
                StepPlan::Decode { lang: l } => opt_chars(l) == effective_lang(opt_str(lang), old(self)@.window_lang),
                _ => false,
            },
    {
        if self.window_len < MIN_WINDOW_SAMPLES {
            return StepPlan::Idle;
        }
        match last_speech_end {
            None => {
                let keep_from = if self.window_len >= ONSET_GUARD_SAMPLES {
                    self.window_len - ONSET_GUARD_SAMPLES
                } else {
                    0
                };
                self.slide_keeping(keep_from);
                StepPlan::Drop { keep_from }
            },
            Some(_) => {
                let l = match lang {
                    Some(l) => Some(String::from_str(l)),
                    None => clone_opt(&self.window_lang),
                };
                StepPlan::Decode { lang: l }
            },
        }
    }

    /// Second half of a step: take in the hypothesis for the whole window.
    /// Its agreed prefix is committed; at an utterance boundary (trailing
    /// non-speech of [`TRAILING_NON_SPEECH_SAMPLES`] after
    /// `last_speech_end`) or a full window, the pending tail is committed
    /// too, the whole utterance is handed back, and the window slides: the
    /// returned count is how many leading samples the caller drops.
    pub fn decoded(&mut self, lang: Option<&str>, last_speech_end: usize, hypothesis: &Hypothesis) -> (r: (StepOutput, Option<usize>))
        requires
            Self::fits(old(self)@),
            ready(old(self)@),
            window_start_ms(old(self)@) + hypothesis.start_ms <= u64::MAX,
            window_start_ms(old(self)@) + hypothesis.end_ms <= u64::MAX,
        ensures
            decode_result(old(self)@, opt_str(lang), last_speech_end as nat, hypothesis@, r.0, final(self)@),
            r.1 == (if decode_ends_utterance(old(self)@, last_speech_end as nat) {
                Some(decode_keep_from(old(self)@, last_speech_end as nat, hypothesis@) as usize)
            } else {
                None
            }),
    {
        self.note_utterance_start(hypothesis);
        if lang.is_none() && self.window_lang.is_none() && !hypothesis.text.as_str().is_empty() {
            self.window_lang = clone_opt(&hypothesis.lang);
        }
        let agreement = self.agreement.feed(hypothesis.text.as_str());
        let mut committed_delta = agreement.committed_delta;
        let volatile = agreement.volatile;
        self.utterance_acc.append(committed_delta.as_str());
        let window_len = self.window_len;
        let at_boundary = window_len > last_speech_end
            && window_len - last_speech_end >= TRAILING_NON_SPEECH_SAMPLES;
        if !(at_boundary || window_len >= MAX_WINDOW_SAMPLES) {
            return (StepOutput { committed_delta, volatile, utterance_final: None }, None);
        }
        let end_ms = self.window_start_ms() + hypothesis.end_ms;
        let utterance_lang = match lang {
            Some(l) => Some(String::from_str(l)),
            None => clone_opt(&self.window_lang),
        };
        let (tail, utterance_final) = self.finalize_utterance(end_ms, utterance_lang);
        committed_delta.append(tail.as_str());
        let keep_from = if at_boundary {
            if window_len >= ONSET_GUARD_SAMPLES {
                window_len - ONSET_GUARD_SAMPLES
            } else {
                0
            }
        } else {
            let end_sample: u128 = (hypothesis.end_ms as u128) * 16;
            let floor: usize = if window_len >= MAX_CARRY_SAMPLES {
                window_len - MAX_CARRY_SAMPLES
            } else {
                0
            };
            if end_sample >= window_len as u128 {
                window_len
            } else if end_sample as usize >= floor {
                end_sample as usize
            } else {
                floor
            }
        };
        self.slide_keeping(keep_from);
        (StepOutput { committed_delta, volatile: String::new(), utterance_final }, Some(keep_from))
    }

    /// First half of the end of the stream (capture stopped): audio the steps
    /// never reached is decoded only when there is some and the detector found
    /// speech in it (`speech_found`). A window shorter than
    /// [`MIN_WINDOW_SAMPLES`] is then padded with silence up to it — the
    /// caller pads its buffer to [`WindowScheduler::window_len`] and decodes it.
    pub fn finish_prepare(&mut self, speech_found: bool) -> (decode: bool)
        requires
            Self::fits(old(self)@),
            old(self)@.window_len > 0 && speech_found ==> Self::fits(padded(old(self)@)),
        ensures
            decode == (old(self)@.window_len > 0 && speech_found),
            decode ==> final(self)@ == (SchedState {
                window_len: if old(self)@.window_len >= 16000 { old(self)@.window_len } else { 16000 },
                ..old(self)@
            }),
            !decode ==> final(self)@ == old(self)@,
            Self::fits(final(self)@),
    {
        if self.window_len > 0 && speech_found {
            if self.window_len < MIN_WINDOW_SAMPLES {
                self.window_len = MIN_WINDOW_SAMPLES;
            }
            true
        } else {
            false
        }
    }

    /// Second half of the end of the stream: take in the finish decode's
    /// hypothesis (if one was made), commit all pending text as a final
    /// utterance, and drop the whole window so the scheduler is ready for a
    /// fresh session. `None` when nothing was pending. The returned count is
    /// how many samples the caller drops (all of them).
    pub fn finish_complete(&mut self, lang: Option<&str>, hypothesis: Option<&Hypothesis>) -> (r: (Option<StepOutput>, usize))
        requires
            Self::fits(old(self)@),
            hypothesis matches Some(h) ==> window_start_ms(old(self)@) + h.start_ms <= u64::MAX
                && window_start_ms(old(self)@) + h.end_ms <= u64::MAX,
        ensures
            complete_result(
                old(self)@,
                opt_str(lang),
                match hypothesis {
                    Some(h) => Some(h@),
                    None => None,
                },
                r.0,
                final(self)@,
            ),
            r.1 == old(self)@.window_len,
    {
        let mut committed_delta = String::new();
        let end_ms = match hypothesis {
            Some(h) => {
                self.note_utterance_start(h);
                let agreement = self.agreement.feed(h.text.as_str());
                self.utterance_acc.append(agreement.committed_delta.as_str());
                committed_delta = agreement.committed_delta;
                self.window_start_ms() + h.end_ms
            },
            None => self.window_start_ms() + samples_to_ms_exec(self.window_len),
        };
        let utterance_lang = match lang {
            Some(l) => Some(String::from_str(l)),
            None => clone_opt(&self.window_lang),
        };
        let (tail, utterance_final) = self.finalize_utterance(end_ms, utterance_lang);
        committed_delta.append(tail.as_str());
        let all = self.window_len;
        self.slide_keeping(all);
        if utterance_final.is_none() {
            return (None, all);
        }
        (Some(StepOutput { committed_delta, volatile: String::new(), utterance_final }), all)
    }
}

/// The window after padding a short remainder for the finish decode.
pub open spec fn padded(s: SchedState) -> SchedState {
    SchedState { window_len: if s.window_len >= 16000 { s.window_len } else { 16000 }, ..s }
}

/// Where the last detected speech region ends, if there is one.
pub open spec fn last_speech_end(segments: Seq<(usize, usize)>) -> Option<usize> {
    if segments.len() == 0 {
        None
    } else {
        Some(segments.last().1)
    }
}

/// Drives an [`AsrEngine`] over a rolling window of audio and turns its
/// hypotheses into committed and volatile text (see [`WindowScheduler`] for
/// the decisions). Holds the window's samples.
pub struct StreamScheduler<S> {
    buffer: Vec<S>,
    window: WindowScheduler,
    /// What the latest step or finish handed to the detector and engine.
    handed: Ghost<Handed<S>>,
}

/// What one step or finish handed out: the samples the speech detector was
/// asked about, and the samples and language the recogniser was asked to
/// transcribe (`None`: it was not asked).
pub struct Handed<S> {
    pub detector: Option<Seq<S>>,
    pub engine: Option<(Seq<S>, Option<Seq<char>>)>,
}

/// A call that handed out nothing.
pub open spec fn handed_nothing<S>() -> Handed<S> {
    Handed { detector: None, engine: None }
}

/// `samples` padded to a decodable window: followed, when shorter than
/// 16000, by silence (the sample type's default value) up to that length.
pub open spec fn padded_window<S: Default>(samples: Seq<S>, sent: Seq<S>) -> bool {
    &&& sent.len() == (if samples.len() >= 16000 { samples.len() } else { 16000 })
    &&& sent.subrange(0, samples.len() as int) == samples
    &&& forall|i: int| samples.len() <= i < sent.len() ==> call_ensures(S::default, (), #[trigger] sent[i])
}

impl<S: Copy + Default> StreamScheduler<S> {
    /// The samples in the current window.
    pub closed spec fn samples(&self) -> Seq<S> {
        self.buffer@
    }

    /// The decisions' state.
    pub closed spec fn state(&self) -> SchedState {
        self.window@
    }

    /// What the latest step or finish handed to the detector and engine.
    pub closed spec fn handed(&self) -> Handed<S> {
        self.handed@
    }

    /// The window holds exactly the samples the state counts, and the
    /// stream positions stay representable.
    pub open spec fn wf(&self) -> bool {
        &&& self.samples().len() == self.state().window_len
        &&& WindowScheduler::fits(self.state())
    }

    /// Whether a state can take `n` more samples and keep its positions
    /// representable.
    pub open spec fn room_for(s: SchedState, n: nat) -> bool {
        WindowScheduler::fits(SchedState { window_len: s.window_len + n, ..s })
    }

    pub fn new() -> (s: Self)
        ensures
            s.wf(),
            s.samples() == Seq::<S>::empty(),
            s.state().window_len == 0,
            s.state().window_start == 0,
            s.state().utterance_start_ms is None,
            s.state().agreement == (AgreementState { prev: None, committed: 0 }),
            s.state().window_lang is None,
            s.state().acc == Seq::<char>::empty(),
    {
        StreamScheduler { buffer: Vec::new(), window: WindowScheduler::new(), handed: Ghost(handed_nothing()) }
    }

    /// Captured audio joins the window.
    pub fn push_audio(&mut self, samples: &[S])
        requires
            old(self).wf(),
            Self::room_for(old(self).state(), samples@.len()),
        ensures
            final(self).wf(),
            final(self).samples() == old(self).samples() + samples@,
            final(self).state() == (SchedState {
                window_len: old(self).state().window_len + samples@.len(),
                ..old(self).state()
            }),
    {
        let ghost before = self.buffer@;
        let ghost w = self.window@;
        let mut i: usize = 0;
        while i < samples.len()
            invariant
                i <= samples@.len(),
                self.buffer@ == before + samples@.take(i as int),
                self.window@ == w,
                before.len() == w.window_len,
                Self::room_for(w, samples@.len()),
            decreases samples@.len() - i,
        {
            self.buffer.push(samples[i]);
            proof {
                assert(self.buffer@ =~= before + samples@.take(i + 1));
            }
            i = i + 1;
        }
        proof {
            assert(samples@.take(i as int) =~= samples@);
        }
        self.window.push_audio(samples.len());
    }

    /// Drop the window's first `from` samples.
    fn drop_front(&mut self, from: usize)
        requires
            from <= old(self).buffer@.len(),
        ensures
            final(self).buffer@ == old(self).buffer@.skip(from as int),
            final(self).window == old(self).window,
            final(self).handed == old(self).handed,
    {
        let tail = self.buffer.split_off(from);
        self.buffer = tail;
        proof {
            assert(self.buffer@ =~= old(self).buffer@.skip(from as int));
        }
    }

    /// One decode step: detect speech in the window, transcribe it, and
    /// take the hypothesis in (see [`decode_result`]). `Ok(None)`: too
    /// little audio yet, or no speech, in which case the window is dropped
    /// but for the onset guard. Detector and engine failures are handed
    /// back with the state untouched, as is a hypothesis whose timestamps
    /// put it beyond any representable stream position.
    pub fn step<E: AsrEngine<S>, V: SpeechDetector<S>>(&mut self, engine: &mut E, vad: &mut V, lang: Option<&str>) -> (r: Result<Option<StepOutput>, anyhow::Error>)
        requires
            old(self).wf(),
        ensures
            final(self).wf(),
            final(self).samples() == old(self).samples().skip(
                old(self).state().window_len - final(self).state().window_len,
            ),
            !ready(old(self).state()) ==> (r matches Ok(None) && final(self).state() == old(self).state()
                && final(self).handed() == handed_nothing::<S>()),
            ready(old(self).state()) ==> match r {
                Err(_) => final(self).state() == old(self).state(),
                Ok(None) => final(self).state() == slid(old(self).state(), guard_keep_from(old(self).state().window_len))
                    && final(self).handed().engine is None,
                Ok(Some(out)) => final(self).handed().engine is Some && exists|end: usize, h: HypothesisView|
                    #[trigger] decode_result(old(self).state(), opt_str(lang), end as nat, h, out, final(self).state()),
            },
            ready(old(self).state()) ==> final(self).handed().detector == Some(old(self).samples()),
            final(self).handed().engine matches Some(req) ==> req.0 == old(self).samples() && req.1 == effective_lang(
                opt_str(lang),
                old(self).state().window_lang,
            ),
    {
        self.handed = Ghost(handed_nothing());
        if self.window.window_len() < MIN_WINDOW_SAMPLES {
            let ghost s = self.buffer@;
            proof {
                assert(s.skip(0) =~= s);
            }
            return Ok(None);
        }
        self.handed = Ghost(Handed { detector: Some(self.buffer@), engine: None });
        let speech = match vad.speech_segments(self.buffer.as_slice()) {
            Ok(v) => v,
            Err(e) => {
                proof {
                    assert(self.buffer@.skip(0) =~= self.buffer@);
                }
                return Err(e);
            },
        };
        let last_end: Option<usize> = if speech.len() == 0 {
            None
        } else {
            Some(speech[speech.len() - 1].1)
        };
        let ghost before = self.window@;
        let plan = self.window.plan(last_end, lang);
        match plan {
            StepPlan::Idle => {
                proof {
                    assert(self.buffer@.skip(0) =~= self.buffer@);
                }
                Ok(None)
            },
            StepPlan::Drop { keep_from } => {
                self.drop_front(keep_from);
                Ok(None)
            },
            StepPlan::Decode { lang: effective } => {
                let end = match last_end {
                    Some(e) => e,
                    None => 0,
                };
                self.handed = Ghost(Handed { detector: Some(self.buffer@), engine: Some((self.buffer@, opt_chars(effective))) });
                let hypothesis = match engine.transcribe(self.buffer.as_slice(), crate::text::opt_as_str(&effective)) {
                    Ok(h) => h,
                    Err(e) => {
                        proof {
                            assert(self.buffer@.skip(0) =~= self.buffer@);
                        }
                        return Err(e);
                    },
                };
                let start_ms = self.window.start_ms();
                if hypothesis.start_ms > u64::MAX - start_ms || hypothesis.end_ms > u64::MAX - start_ms {
                    proof {
                        assert(self.buffer@.skip(0) =~= self.buffer@);
                    }
                    return Err(error_from_message(String::from_str("hypothesis timestamps out of range")));
                }
                let (out, keep) = self.window.decoded(lang, end, &hypothesis);
                match keep {
                    Some(k) => self.drop_front(k),
                    None => {
                        proof {
                            assert(self.buffer@.skip(0) =~= self.buffer@);
                        }
                    },
                }
                proof {
                    assert(decode_result(before, opt_str(lang), end as nat, hypothesis@, out, self.window@));
                }
                Ok(Some(out))
            },
        }
    }

    /// End the stream (capture stopped): decode whatever audio the steps
    /// never reached when the detector finds speech in it (padding a short
    /// remainder with silence up to a decodable window), commit all pending
    /// text, and reset for a fresh session. `Ok(None)` when nothing was
    /// pending.
    pub fn finish<E: AsrEngine<S>, V: SpeechDetector<S>>(&mut self, engine: &mut E, vad: &mut V, lang: Option<&str>) -> (r: Result<Option<StepOutput>, anyhow::Error>)
        requires
            old(self).wf(),
        ensures
            final(self).wf(),
            match r {
                Ok(o) => {
                    &&& final(self).samples() == Seq::<S>::empty()
                    &&& exists|found: bool, h: Option<HypothesisView>|
                        #[trigger] finish_result(old(self).state(), opt_str(lang), found, h, o, final(self).state())
                            && (h is Some <==> final(self).handed().engine is Some)
                },
                Err(_) => final(self).state() == old(self).state() || final(self).state() == padded(old(self).state()),
            },
            old(self).samples().len() == 0 ==> r is Ok && final(self).handed() == handed_nothing::<S>(),
            old(self).samples().len() > 0 ==> final(self).handed().detector == Some(old(self).samples()),
            final(self).handed().engine matches Some(req) ==> padded_window(old(self).samples(), req.0)
                && req.1 == effective_lang(opt_str(lang), old(self).state().window_lang),
    {
        self.handed = Ghost(handed_nothing());
        if self.buffer.len() > 0 {
            self.handed = Ghost(Handed { detector: Some(self.buffer@), engine: None });
        }
        let speech_found = if self.buffer.len() == 0 {
            false
        } else {
            match vad.speech_segments(self.buffer.as_slice()) {
                Ok(v) => v.len() > 0,
                Err(e) => return Err(e),
            }
        };
        let ghost before = self.window@;
        if speech_found && self.buffer.len() < MIN_WINDOW_SAMPLES {
            let ws = self.window.window_start();
            if ws > usize::MAX - MIN_WINDOW_SAMPLES || (ws as u128 + 16000) * 1000 > u64::MAX as u128 {
                return Err(error_from_message(String::from_str("stream position out of range")));
            }
        }
        let decode = self.window.finish_prepare(speech_found);
        let hypothesis = if decode {
            let ghost original = self.buffer@;
            let ghost old_window = self.window;
            let ghost old_handed = self.handed;
            proof {
                assert(self.buffer@.subrange(0, original.len() as int) =~= original);
            }
            let fill = S::default();
            assert(call_ensures(S::default, (), fill));
            while self.buffer.len() < MIN_WINDOW_SAMPLES
                invariant
                    self.buffer@.len() <= (if original.len() >= 16000 { original.len() } else { 16000 }),
                    self.buffer@.len() >= original.len(),
                    self.buffer@.subrange(0, original.len() as int) == original,
                    forall|i: int| original.len() <= i < self.buffer@.len() ==> #[trigger] self.buffer@[i] == fill,
                    self.window == old_window,
                    self.handed == old_handed,
                decreases MIN_WINDOW_SAMPLES - self.buffer@.len(),
            {
                let ghost prev = self.buffer@;
                self.buffer.push(fill);
                proof {
                    assert(self.buffer@.subrange(0, original.len() as int) =~= prev.subrange(0, original.len() as int));
                }
            }
            let effective = match lang {
                Some(l) => Some(String::from_str(l)),
                None => self.window.window_lang(),
            };
            proof {
                assert(padded_window(original, self.buffer@));
                assert(opt_chars(effective) == effective_lang(opt_str(lang), before.window_lang));
            }
            self.handed = Ghost(Handed { detector: Some(original), engine: Some((self.buffer@, opt_chars(effective))) });
            match engine.transcribe(self.buffer.as_slice(), crate::text::opt_as_str(&effective)) {
                Ok(h) => {
                    let start_ms = self.window.start_ms();
                    if h.start_ms > u64::MAX - start_ms || h.end_ms > u64::MAX - start_ms {
                        return Err(error_from_message(String::from_str("hypothesis timestamps out of range")));
                    }
                    Some(h)
                },
                Err(e) => return Err(e),
            }
        } else {
            None
        };
        let ghost prepared = self.window@;
        let (out, all) = self.window.finish_complete(lang, hypothesis.as_ref());
        self.drop_front(all);
        proof {
            assert(self.buffer@ =~= Seq::<S>::empty());
            let hv = match hypothesis {
                Some(h) => Some(h@),
                None => None,
            };
            assert(finish_result(before, opt_str(lang), speech_found, hv, out, self.window@));
        }
        Ok(out)
    }
}

/// The state after taking in a run of hypotheses, each with the language
/// its step was called with, with no slide between them.
pub open spec fn decode_run(s: SchedState, steps: Seq<(Option<Seq<char>>, HypothesisView)>) -> SchedState
    decreases steps.len(),
{
    if steps.len() == 0 {
        s
    } else {
        decoded_state(decode_run(s, steps.drop_last()), steps.last().0, steps.last().1)
    }
}

/// The language detected over a run of hypotheses: that of the first one
/// with text, taken in by a step called without a language, that reports a
/// language; `None` until there is one.
pub open spec fn detected_lang(steps: Seq<(Option<Seq<char>>, HypothesisView)>) -> Option<Seq<char>>
    decreases steps.len(),
{
    if steps.len() == 0 {
        None
    } else {
        let prev = detected_lang(steps.drop_last());
        if prev is None && steps.last().0 is None && steps.last().1.text.len() > 0 {
            steps.last().1.lang
        } else {
            prev
        }
    }
}

/// Auto mode pins the detected language for the window: from a fresh
/// window (no language yet), after any run of hypotheses the window's
/// language is the first one detected, and every later request goes out in
/// the caller's language or else that one.
pub proof fn lemma_window_language_is_first_detected(
    s: SchedState,
    steps: Seq<(Option<Seq<char>>, HypothesisView)>,
    lang: Option<Seq<char>>,
)
    requires
        s.window_lang is None,
    ensures
        decode_run(s, steps).window_lang == detected_lang(steps),
        effective_lang(lang, decode_run(s, steps).window_lang) == (match lang {
            Some(l) => Some(l),
            None => detected_lang(steps),
        }),
    decreases steps.len(),
{
    if steps.len() > 0 {
        lemma_window_language_is_first_detected(s, steps.drop_last(), lang);
    }
}

/// Positions keep counting across a slide: the window moves forward by what
/// it drops, so the end of the audio seen stays where it was.
pub proof fn lemma_slide_keeps_stream_end(s: SchedState, from: nat)
    requires
        from <= s.window_len,
    ensures
        slid(s, from).window_start + slid(s, from).window_len == s.window_start + s.window_len,
        slid(s, from).window_start >= s.window_start,
{
}

/// An utterance is handed out whole: its text is everything committed for
/// it, in earlier steps and in the step that ended it, trimmed.
pub proof fn lemma_utterance_is_all_committed_text(
    s: SchedState,
    lang: Option<Seq<char>>,
    last_speech_end: nat,
    h: HypothesisView,
    out: StepOutput,
    t: SchedState,
)
    requires
        decode_result(s, lang, last_speech_end, h, out, t),
        out.utterance_final is Some,
    ensures
        decode_ends_utterance(s, last_speech_end),
        out.utterance_final->0.text@ == trimmed(s.acc + out.committed_delta@),
        out.utterance_final->0.end_ms == window_start_ms(s) + h.end_ms,
        t.acc == Seq::<char>::empty(),
        t.utterance_start_ms is None,
        t.window_start + t.window_len == s.window_start + s.window_len,
{
    let m = decoded_state(s, lang, h);
    assert(m.acc + flushed_tail(m.agreement) =~= s.acc + out.committed_delta@);
}

/// A step that does not end the utterance hands nothing out and keeps the
/// window; what it commits joins the utterance being built.
pub proof fn lemma_step_within_an_utterance(
    s: SchedState,
    lang: Option<Seq<char>>,
    last_speech_end: nat,
    h: HypothesisView,
    out: StepOutput,
    t: SchedState,
)
    requires
        decode_result(s, lang, last_speech_end, h, out, t),
        !decode_ends_utterance(s, last_speech_end),
    ensures
        out.utterance_final is None,
        t.window_len == s.window_len,
        t.window_start == s.window_start,
        t.acc == s.acc + out.committed_delta@,
{
}

/// One event of a run inside a window: audio joining it, or a step that
/// did nothing (`h` is `None`, no output), or a step that took the
/// hypothesis `h` in without ending the utterance.
pub open spec fn within_window(
    s: SchedState,
    lang: Option<Seq<char>>,
    h: Option<HypothesisView>,
    end: nat,
    out: Option<StepOutput>,
    t: SchedState,
) -> bool {
    match h {
        None => out is None && t == (SchedState { window_len: t.window_len, ..s }),
        Some(h) => out matches Some(o) && !decode_ends_utterance(s, end) && decode_result(s, lang, end, h, o, t),
    }
}

/// Everything a run of steps committed, in order.
pub open spec fn committed_over(outs: Seq<Option<StepOutput>>) -> Seq<char>
    decreases outs.len(),
{
    if outs.len() == 0 {
        Seq::empty()
    } else {
        committed_over(outs.drop_last()) + match outs.last() {
            Some(o) => o.committed_delta@,
            None => Seq::<char>::empty(),
        }
    }
}

/// The language a run of steps detected: that of its first hypothesis with
/// text, taken in by a step called without a language, that reports one;
/// `None` until there is one.
pub open spec fn run_lang(langs: Seq<Option<Seq<char>>>, hs: Seq<Option<HypothesisView>>) -> Option<Seq<char>>
    decreases langs.len(),
{
    if langs.len() == 0 || hs.len() == 0 {
        None
    } else {
        let prev = run_lang(langs.drop_last(), hs.drop_last());
        match hs.last() {
            Some(h) => if prev is None && langs.last() is None && h.text.len() > 0 {
                h.lang
            } else {
                prev
            },
            None => prev,
        }
    }
}

/// Whether `states` is a run of window events: `states[i + 1]` follows
/// from `states[i]` by the `i`-th of the steps described by `langs`, `hs`,
/// `ends` and `outs`.
pub open spec fn window_run(
    states: Seq<SchedState>,
    langs: Seq<Option<Seq<char>>>,
    hs: Seq<Option<HypothesisView>>,
    ends: Seq<nat>,
    outs: Seq<Option<StepOutput>>,
) -> bool {
    &&& states.len() == langs.len() + 1
    &&& hs.len() == langs.len()
    &&& ends.len() == langs.len()
    &&& outs.len() == langs.len()
    &&& forall|i: int|
        0 <= i < langs.len() ==> #[trigger] within_window(states[i], langs[i], hs[i], ends[i], outs[i], states[i + 1])
}

proof fn lemma_run_prefix(
    states: Seq<SchedState>,
    langs: Seq<Option<Seq<char>>>,
    hs: Seq<Option<HypothesisView>>,
    ends: Seq<nat>,
    outs: Seq<Option<StepOutput>>,
    k: int,
)
    requires
        window_run(states, langs, hs, ends, outs),
        states[0].window_lang is None,
        0 <= k <= langs.len(),
    ensures
        states[k].window_lang == run_lang(langs.take(k), hs.take(k)),
        states[k].acc == states[0].acc + committed_over(outs.take(k)),
        states[k].window_start == states[0].window_start,
    decreases k,
{
    if k == 0 {
        assert(states[0].acc + committed_over(outs.take(0)) =~= states[0].acc);
    } else {
        lemma_run_prefix(states, langs, hs, ends, outs, k - 1);
        assert(langs.take(k).drop_last() =~= langs.take(k - 1));
        assert(hs.take(k).drop_last() =~= hs.take(k - 1));
        assert(outs.take(k).drop_last() =~= outs.take(k - 1));
        let i = k - 1;
        assert(within_window(states[i], langs[i], hs[i], ends[i], outs[i], states[i + 1]));
        assert(i + 1 == k);
        let prior = states[0].acc + committed_over(outs.take(k - 1));
        match outs[k - 1] {
            Some(o) => {
                assert(states[0].acc + committed_over(outs.take(k)) =~= prior + o.committed_delta@);
            },
            None => {
                assert(states[0].acc + committed_over(outs.take(k)) =~= prior);
            },
        }
    }
}

/// Auto mode pins the detected language for the window, over any run of
/// steps (and audio joining) inside it, starting from a window with no
/// language yet (a fresh scheduler, or one that just slid): the window's
/// language is always the first one detected since, and each step hands
/// the recogniser its caller's language or else that one. What the steps
/// committed is, in order, what the utterance being built holds.
pub proof fn lemma_window_run(
    states: Seq<SchedState>,
    langs: Seq<Option<Seq<char>>>,
    hs: Seq<Option<HypothesisView>>,
    ends: Seq<nat>,
    outs: Seq<Option<StepOutput>>,
)
    requires
        window_run(states, langs, hs, ends, outs),
        states[0].window_lang is None,
    ensures
        forall|k: int|
            0 <= k <= langs.len() ==> (#[trigger] states[k]).window_lang == run_lang(langs.take(k), hs.take(k)),
        forall|k: int|
            0 <= k < langs.len() ==> effective_lang(langs[k], (#[trigger] states[k]).window_lang) == (match langs[k] {
                Some(l) => Some(l),
                None => run_lang(langs.take(k), hs.take(k)),
            }),
        forall|k: int|
            0 <= k <= langs.len() ==> (#[trigger] states[k]).acc == states[0].acc + committed_over(outs.take(k)),
{
    assert forall|k: int| 0 <= k <= langs.len() implies (#[trigger] states[k]).window_lang == run_lang(
        langs.take(k),
        hs.take(k),
    ) && states[k].acc == states[0].acc + committed_over(outs.take(k)) by {
        lemma_run_prefix(states, langs, hs, ends, outs, k);
    }
}

/// An utterance is everything committed since the window last slid: after
/// a run of steps inside a fresh window, the step that ends the utterance
/// hands out the trimmed text of all their commits and its own, in the
/// language the caller gave or else the one the window detected (its own
/// hypothesis included), and leaves a fresh window behind.
pub proof fn lemma_utterance_since_slide(
    states: Seq<SchedState>,
    langs: Seq<Option<Seq<char>>>,
    hs: Seq<Option<HypothesisView>>,
    ends: Seq<nat>,
    outs: Seq<Option<StepOutput>>,
    lang: Option<Seq<char>>,
    end: nat,
    h: HypothesisView,
    out: StepOutput,
    t: SchedState,
)
    requires
        window_run(states, langs, hs, ends, outs),
        states[0].window_lang is None,
        states[0].acc == Seq::<char>::empty(),
        decode_result(states.last(), lang, end, h, out, t),
        out.utterance_final is Some,
    ensures
        out.utterance_final->0.text@ == trimmed(committed_over(outs) + out.committed_delta@),
        opt_chars(out.utterance_final->0.lang) == effective_lang(lang, run_lang(langs.push(lang), hs.push(Some(h)))),
        out.utterance_final->0.end_ms == window_start_ms(states.last()) + h.end_ms,
        t.window_lang is None,
        t.acc == Seq::<char>::empty(),
{
    let n = langs.len() as int;
    lemma_run_prefix(states, langs, hs, ends, outs, n);
    assert(langs.take(n) =~= langs);
    assert(hs.take(n) =~= hs);
    assert(outs.take(n) =~= outs);
    assert(Seq::<char>::empty() + committed_over(outs) =~= committed_over(outs));
    lemma_utterance_is_all_committed_text(states.last(), lang, end, h, out, t);
    assert(langs.push(lang).drop_last() =~= langs);
    assert(hs.push(Some(h)).drop_last() =~= hs);
}

} // verus!
