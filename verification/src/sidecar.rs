//! The whisper sidecar's per-stream audio decisions: which audio chunks are
//! taken in, how much of each stream is buffered, how long it has been
//! silent, and when a rolling transcription or a finalisation after silence
//! is due. Decoding the payload, measuring its level and running the
//! recogniser belong to the sidecar process.
use vstd::prelude::*;

use crate::text::str_eq;
use crate::whisper_engine::{RollingTranscriptionDecision, RollingTranscriptionScheduler};

verus! {

/// Audio kept per stream: thirty seconds at 16 kHz.
pub const DEFAULT_RING_BUFFER_SAMPLES: usize = 480_000;
/// New audio between rolling transcriptions: half a second.
pub const DEFAULT_ROLLING_STEP_SAMPLES: usize = 8_000;
/// Steps of new audio beyond which a rolling transcription is skipped.
pub const DEFAULT_MAX_ROLLING_BACKLOG_STEPS: usize = 2;
/// Trailing silence after which the latest transcript is final: 800 ms.
pub const DEFAULT_FINALIZE_SILENCE_SAMPLES: usize = 12_800;

/// The non-fatal error an undecodable audio payload is answered with.
pub const INVALID_PCM16_MESSAGE: &'static str = "invalid pcm16 audio payload";

/// One stream's audio state, as the decisions see it.
pub struct StreamView {
    pub name: Seq<char>,
    /// The buffered samples: the most recent ones, up to the capacity.
    pub samples: Seq<i16>,
    /// Samples of silence since the last audible chunk.
    pub trailing_silence: nat,
    /// The buffered total at the last rolling scheduling.
    pub last_total: nat,
}

/// What the sidecar does with one audio chunk.
#[derive(Debug, Clone, Copy, PartialEq, Eq, Structural)]
pub enum AudioDecision {
    /// The payload did not decode: answer with a non-fatal error and keep
    /// no state for it.
    InvalidPayload,
    /// Silence on a stream with nothing buffered: nothing to do.
    Ignored,
    /// The chunk was buffered. `transcribe`: a rolling transcription is
    /// due; `finalize`: the stream has been silent long enough for its
    /// latest transcript to be made final.
    Buffered { transcribe: bool, finalize: bool },
}

struct StreamAudio {
    name: String,
    samples: Vec<i16>,
    trailing_silence: usize,
    scheduler: RollingTranscriptionScheduler,
}

/// The audio side of the sidecar: one buffer, silence count and rolling
/// schedule per stream, streams in the order they first sent audio.
pub struct SidecarAudio {
    capacity: usize,
    step_samples: usize,
    finalize_silence: usize,
    streams: Vec<StreamAudio>,
}

/// `i` is the first stream named `name`.
pub open spec fn stream_at(v: Seq<StreamView>, name: Seq<char>, i: int) -> bool {
    &&& 0 <= i < v.len()
    &&& v[i].name == name
    &&& forall|j: int| 0 <= j < i ==> v[j].name != name
}

pub open spec fn has_stream(v: Seq<StreamView>, name: Seq<char>) -> bool {
    exists|i: int| stream_at(v, name, i)
}

pub open spec fn stream_index(v: Seq<StreamView>, name: Seq<char>) -> int {
    choose|i: int| stream_at(v, name, i)
}

/// A stream that has sent nothing yet.
pub open spec fn fresh_stream(name: Seq<char>) -> StreamView {
    StreamView { name, samples: Seq::empty(), trailing_silence: 0, last_total: 0 }
}

/// The most recent `capacity` samples of `s`.
pub open spec fn ring_keep(s: Seq<i16>, capacity: nat) -> Seq<i16> {
    if s.len() > capacity {
        s.skip(s.len() - capacity)
    } else {
        s
    }
}

/// `n` more samples of silence on top of `t`, saturating at the machine
/// limit.
pub open spec fn more_silence(t: nat, n: nat) -> nat {
    if t + n <= usize::MAX {
        t + n
    } else {
        usize::MAX as nat
    }
}

/// The stream after taking in a chunk, and the decision, given the stream
/// before (`e`).
pub open spec fn took_in(
    e: StreamView,
    chunk: Seq<i16>,
    silent: bool,
    capacity: nat,
    step: nat,
    finalize_silence: nat,
    t: StreamView,
    d: AudioDecision,
) -> bool {
    let samples = ring_keep(e.samples + chunk, capacity);
    let total = samples.len();
    let new_samples: int = if total >= e.last_total { total - e.last_total } else { 0 };
    let trailing = if silent { more_silence(e.trailing_silence, chunk.len()) } else { 0 };
    let due = new_samples >= step;
    &&& t.name == e.name
    &&& t.samples == samples
    &&& t.trailing_silence == trailing
    &&& t.last_total == (if due { total } else { e.last_total })
    &&& d == AudioDecision::Buffered {
        transcribe: due && new_samples / (step as int) <= DEFAULT_MAX_ROLLING_BACKLOG_STEPS,
        finalize: trailing >= finalize_silence,
    }
}

proof fn lemma_stream_at_is_index(v: Seq<StreamView>, name: Seq<char>, i: int)
    requires
        stream_at(v, name, i),
    ensures
        has_stream(v, name),
        stream_index(v, name) == i,
{
    let k = stream_index(v, name);
    if k < i {
        assert(v[k].name == name);
    } else if k > i {
        assert(v[i].name == name);
    }
}

proof fn lemma_no_stream(v: Seq<StreamView>, name: Seq<char>)
    requires
        forall|j: int| 0 <= j < v.len() ==> v[j].name != name,
    ensures
        !has_stream(v, name),
{
    if has_stream(v, name) {
        let k = stream_index(v, name);
        assert(v[k].name == name);
    }
}

impl StreamAudio {
    spec fn view(&self) -> StreamView {
        StreamView {
            name: self.name@,
            samples: self.samples@,
            trailing_silence: self.trailing_silence as nat,
            last_total: self.scheduler.last_total(),
        }
    }
}

impl SidecarAudio {
    /// The streams, in the order they first sent audio.
    pub closed spec fn streams(&self) -> Seq<StreamView> {
        self.streams@.map_values(|s: StreamAudio| s.view())
    }

    pub closed spec fn spec_capacity(&self) -> nat {
        self.capacity as nat
    }

    pub closed spec fn spec_step(&self) -> nat {
        self.step_samples as nat
    }

    pub closed spec fn spec_finalize_silence(&self) -> nat {
        self.finalize_silence as nat
    }

    /// Every stream's schedule steps by the configured amount, which is not
    /// zero, and no buffer is over capacity.
    pub closed spec fn wf(&self) -> bool {
        &&& self.step_samples > 0
        &&& forall|i: int| 0 <= i < self.streams@.len() ==> {
            &&& (#[trigger] self.streams@[i]).scheduler.step() == self.step_samples
            &&& self.streams@[i].samples@.len() <= self.capacity
        }
    }

    /// No streams yet; buffers keep `capacity` samples, a rolling
    /// transcription comes every `step_samples` of new audio, and
    /// `finalize_silence` samples of trailing silence finalise.
    pub fn new(capacity: usize, step_samples: usize, finalize_silence: usize) -> (a: Self)
        requires
            step_samples > 0,
        ensures
            a.wf(),
            a.streams() == Seq::<StreamView>::empty(),
            a.spec_capacity() == capacity,
            a.spec_step() == step_samples,
            a.spec_finalize_silence() == finalize_silence,
    {
        let a = SidecarAudio { capacity, step_samples, finalize_silence, streams: Vec::new() };
        assert(a.streams() =~= Seq::<StreamView>::empty());
        a
    }

    /// The sidecar's defaults: thirty seconds of buffer, a rolling step of
    /// half a second, finalisation after 800 ms of silence.
    pub fn with_defaults() -> (a: Self)
        ensures
            a.wf(),
            a.streams() == Seq::<StreamView>::empty(),
            a.spec_capacity() == DEFAULT_RING_BUFFER_SAMPLES,
            a.spec_step() == DEFAULT_ROLLING_STEP_SAMPLES,
            a.spec_finalize_silence() == DEFAULT_FINALIZE_SILENCE_SAMPLES,
    {
        SidecarAudio::new(DEFAULT_RING_BUFFER_SAMPLES, DEFAULT_ROLLING_STEP_SAMPLES, DEFAULT_FINALIZE_SILENCE_SAMPLES)
    }

    /// The buffered samples of `stream`, if it has sent audio.
    pub fn buffered(&self, stream: &str) -> (r: Option<&[i16]>)
        ensures
            has_stream(self.streams(), stream@) ==> (r matches Some(b) && b@ == self.streams()[stream_index(
                self.streams(),
                stream@,
            )].samples),
            !has_stream(self.streams(), stream@) ==> r is None,
    {
        let mut i: usize = 0;
        while i < self.streams.len()
            invariant
                i <= self.streams@.len(),
                forall|j: int| 0 <= j < i ==> #[trigger] self.streams()[j].name != stream@,
            decreases self.streams@.len() - i,
        {
            assert(self.streams()[i as int] == self.streams@[i as int].view());
            if str_eq(self.streams[i].name.as_str(), stream) {
                proof {
                    lemma_stream_at_is_index(self.streams(), stream@, i as int);
                }
                return Some(self.streams[i].samples.as_slice());
            }
            i = i + 1;
        }
        proof {
            lemma_no_stream(self.streams(), stream@);
        }
        None
    }

    /// One audio chunk arrived on `stream`: `decoded` is its samples, or
    /// `None` when the payload did not decode, and `silent` says whether it
    /// is silence. Silence on a stream with nothing buffered is ignored;
    /// otherwise the chunk joins the stream's buffer (a new stream goes
    /// last), the trailing silence grows or resets, and the decision says
    /// whether a rolling transcription and a finalisation are due.
    pub fn on_audio(&mut self, stream: &str, decoded: Option<&[i16]>, silent: bool) -> (d: AudioDecision)
        requires
            old(self).wf(),
        ensures
            final(self).wf(),
            final(self).spec_capacity() == old(self).spec_capacity(),
            final(self).spec_step() == old(self).spec_step(),
            final(self).spec_finalize_silence() == old(self).spec_finalize_silence(),
            ({
                let v = old(self).streams();
                let w = final(self).streams();
                match decoded {
                    None => d == AudioDecision::InvalidPayload && w == v,
                    Some(chunk) => if silent && !has_stream(v, stream@) {
                        d == AudioDecision::Ignored && w == v
                    } else if has_stream(v, stream@) {
                        let i = stream_index(v, stream@);
                        &&& w.len() == v.len()
                        &&& took_in(
                            v[i],
                            chunk@,
                            silent,
                            old(self).spec_capacity(),
                            old(self).spec_step(),
                            old(self).spec_finalize_silence(),
                            w[i],
                            d,
                        )
                        &&& forall|j: int| 0 <= j < v.len() && j != i ==> w[j] == v[j]
                    } else {
                        &&& w.len() == v.len() + 1
                        &&& w.take(v.len() as int) == v
                        &&& took_in(
                            fresh_stream(stream@),
                            chunk@,
                            silent,
                            old(self).spec_capacity(),
                            old(self).spec_step(),
                            old(self).spec_finalize_silence(),
                            w[v.len() as int],
                            d,
                        )
                    },
                }
            }),
    {
        let chunk = match decoded {
            None => return AudioDecision::InvalidPayload,
            Some(c) => c,
        };
        let ghost v = self.streams();
        let mut i: usize = 0;
        while i < self.streams.len()
            invariant
                i <= self.streams@.len(),
                v == self.streams(),
                forall|j: int| 0 <= j < i ==> #[trigger] v[j].name != stream@,
            ensures
                i <= self.streams@.len(),
                v == self.streams(),
                forall|j: int| 0 <= j < i ==> #[trigger] v[j].name != stream@,
                i < self.streams@.len() ==> v[i as int].name == stream@,
            decreases self.streams@.len() - i,
        {
            assert(v[i as int] == self.streams@[i as int].view());
            if str_eq(self.streams[i].name.as_str(), stream) {
                break;
            }
            i = i + 1;
        }
        let found = i < self.streams.len();
        if found {
            proof {
                assert(v[i as int] == self.streams@[i as int].view());
                lemma_stream_at_is_index(v, stream@, i as int);
            }
        } else {
            proof {
                lemma_no_stream(v, stream@);
            }
            if silent {
                return AudioDecision::Ignored;
            }
            let ghost before = self.streams@;
            self.streams.push(
                StreamAudio {
                    name: String::from_str(stream),
                    samples: Vec::new(),
                    trailing_silence: 0,
                    scheduler: RollingTranscriptionScheduler::new(self.step_samples),
                },
            );
            proof {
                assert(self.streams@ =~= before.push(self.streams@[i as int]));
                assert(self.streams@[i as int].view() == fresh_stream(stream@)) by {
                    assert(self.streams@[i as int].samples@ =~= Seq::<i16>::empty());
                }
            }
        }
        let ghost e = self.streams@[i as int].view();
        let mut entry = self.streams.remove(i);
        let ghost rest = self.streams@;
        let capacity = self.capacity;
        let d = take_in(&mut entry, chunk, silent, capacity, self.finalize_silence);
        self.streams.insert(i, entry);
        proof {
            let w = self.streams();
            assert(w.len() == self.streams@.len());
            assert forall|j: int| 0 <= j < self.streams@.len() implies (#[trigger] self.streams@[j]).scheduler.step()
                == self.step_samples && self.streams@[j].samples@.len() <= self.capacity by {
                if j < i {
                    assert(self.streams@[j] == rest[j]);
                } else if j > i {
                    assert(self.streams@[j] == rest[j - 1]);
                }
            }
            if found {
                assert forall|j: int| 0 <= j < v.len() && j != i implies w[j] == v[j] by {
                    if j < i {
                        assert(self.streams@[j] == rest[j]);
                    } else {
                        assert(self.streams@[j] == rest[j - 1]);
                    }
                }
            } else {
                assert(w.take(v.len() as int) =~= v) by {
                    assert forall|j: int| 0 <= j < v.len() implies w[j] == v[j] by {
                        assert(self.streams@[j] == rest[j]);
                    }
                }
            }
        }
        d
    }
}

/// What to do with a stream's latest rolling transcript.
#[derive(Debug, Clone, Copy, PartialEq, Eq, Structural)]
pub enum CachedPlan {
    /// Leave it: it may still change.
    Keep,
    /// Hand it out as final, without transcribing again.
    Promote,
    /// Transcribe the buffered audio afresh and hand that out as final.
    Retranscribe,
}

/// Whether a transcript made from the first `transcribed` buffered samples
/// still covers the stream's speech: nothing newer was buffered, or all of
/// it is trailing silence.
pub open spec fn covers_speech_spec(buffered: nat, transcribed: nat, trailing_silence: nat) -> bool {
    buffered <= transcribed || buffered - transcribed <= trailing_silence
}

/// After enough trailing silence: the latest transcript becomes final when
/// there is one and it covers the speech; otherwise nothing happens yet.
pub fn after_silence_plan(has_cached: bool, covers: bool) -> (p: CachedPlan)
    ensures
        p == (if has_cached && covers { CachedPlan::Promote } else { CachedPlan::Keep }),
{
    if has_cached && covers {
        CachedPlan::Promote
    } else {
        CachedPlan::Keep
    }
}

/// On a flush: the latest transcript becomes final when there is one and it
/// covers the speech; otherwise the buffer is transcribed afresh.
pub fn flush_plan(has_cached: bool, covers: bool) -> (p: CachedPlan)
    ensures
        p == (if has_cached && covers { CachedPlan::Promote } else { CachedPlan::Retranscribe }),
{
    if has_cached && covers {
        CachedPlan::Promote
    } else {
        CachedPlan::Retranscribe
    }
}

impl SidecarAudio {
    /// Whether a transcript of `stream` made from its first `transcribed`
    /// buffered samples still covers its speech. A stream with nothing
    /// buffered counts as empty and silent for no time.
    pub fn transcript_covers_speech(&self, stream: &str, transcribed: usize) -> (b: bool)
        ensures
            has_stream(self.streams(), stream@) ==> b == covers_speech_spec(
                self.streams()[stream_index(self.streams(), stream@)].samples.len(),
                transcribed as nat,
                self.streams()[stream_index(self.streams(), stream@)].trailing_silence,
            ),
            !has_stream(self.streams(), stream@) ==> b == covers_speech_spec(0, transcribed as nat, 0),
    {
        let mut i: usize = 0;
        while i < self.streams.len()
            invariant
                i <= self.streams@.len(),
                forall|j: int| 0 <= j < i ==> #[trigger] self.streams()[j].name != stream@,
            decreases self.streams@.len() - i,
        {
            assert(self.streams()[i as int] == self.streams@[i as int].view());
            if str_eq(self.streams[i].name.as_str(), stream) {
                proof {
                    lemma_stream_at_is_index(self.streams(), stream@, i as int);
                }
                let buffered = self.streams[i].samples.len();
                let trailing = self.streams[i].trailing_silence;
                return buffered <= transcribed || buffered - transcribed <= trailing;
            }
            i = i + 1;
        }
        proof {
            lemma_no_stream(self.streams(), stream@);
        }
        0 <= transcribed
    }

    /// Forget `stream` once its transcript is final: its buffer, silence
    /// count and schedule go; the next audio on it starts afresh.
    pub fn forget(&mut self, stream: &str)
        requires
            old(self).wf(),
        ensures
            final(self).wf(),
            final(self).spec_capacity() == old(self).spec_capacity(),
            final(self).spec_step() == old(self).spec_step(),
            final(self).spec_finalize_silence() == old(self).spec_finalize_silence(),
            has_stream(old(self).streams(), stream@) ==> final(self).streams() == old(self).streams().remove(
                stream_index(old(self).streams(), stream@),
            ),
            !has_stream(old(self).streams(), stream@) ==> final(self).streams() == old(self).streams(),
    {
        let ghost v = self.streams();
        let mut i: usize = 0;
        while i < self.streams.len()
            invariant
                i <= self.streams@.len(),
                v == self.streams(),
                *self == *old(self),
                old(self).wf(),
                forall|j: int| 0 <= j < i ==> #[trigger] v[j].name != stream@,
            decreases self.streams@.len() - i,
        {
            assert(v[i as int] == self.streams@[i as int].view());
            if str_eq(self.streams[i].name.as_str(), stream) {
                proof {
                    lemma_stream_at_is_index(v, stream@, i as int);
                }
                let ghost before = self.streams@;
                assert(forall|j: int| 0 <= j < before.len() ==> (#[trigger] before[j]).scheduler.step() == self.step_samples
                    && before[j].samples@.len() <= self.capacity);
                self.streams.remove(i);
                proof {
                    assert(self.streams() =~= v.remove(i as int)) by {
                        assert forall|j: int| 0 <= j < self.streams@.len() implies self.streams()[j] == v.remove(
                            i as int,
                        )[j] by {
                            if j < i {
                                assert(self.streams@[j] == before[j]);
                            } else {
                                assert(self.streams@[j] == before[j + 1]);
                            }
                        }
                    }
                    assert forall|j: int| 0 <= j < self.streams@.len() implies (#[trigger] self.streams@[j]).scheduler.step()
                        == self.step_samples && self.streams@[j].samples@.len() <= self.capacity by {
                        if j < i {
                            assert(self.streams@[j] == before[j]);
                        } else {
                            assert(self.streams@[j] == before[j + 1]);
                        }
                    }
                }
                return;
            }
            i = i + 1;
        }
        proof {
            lemma_no_stream(v, stream@);
        }
    }
}

/// Take a chunk into one stream and decide what is due.
fn take_in(entry: &mut StreamAudio, chunk: &[i16], silent: bool, capacity: usize, finalize_silence: usize) -> (d: AudioDecision)
    requires
        old(entry).scheduler.step() > 0,
        old(entry).samples@.len() <= capacity,
    ensures
        final(entry).scheduler.step() == old(entry).scheduler.step(),
        final(entry).samples@.len() <= capacity,
        took_in(
            old(entry).view(),
            chunk@,
            silent,
            capacity as nat,
            old(entry).scheduler.step(),
            finalize_silence as nat,
            final(entry).view(),
            d,
        ),
{
    let ghost joined = old(entry).samples@ + chunk@;
    let mut k: usize = 0;
    while k < chunk.len()
        invariant
            k <= chunk@.len(),
            entry.samples@ == old(entry).samples@ + chunk@.take(k as int),
            entry.samples@.len() <= capacity + k,
            entry.name == old(entry).name,
            entry.trailing_silence == old(entry).trailing_silence,
            entry.scheduler == old(entry).scheduler,
            old(entry).samples@.len() <= capacity,
        decreases chunk@.len() - k,
    {
        entry.samples.push(chunk[k]);
        proof {
            assert(entry.samples@ =~= old(entry).samples@ + chunk@.take(k + 1));
        }
        k = k + 1;
    }
    proof {
        assert(chunk@.take(k as int) =~= chunk@);
    }
    if entry.samples.len() > capacity {
        let excess = entry.samples.len() - capacity;
        let kept = entry.samples.split_off(excess);
        entry.samples = kept;
        proof {
            assert(entry.samples@ =~= joined.skip(joined.len() - capacity));
        }
    }
    entry.trailing_silence = if silent {
        entry.trailing_silence.saturating_add(chunk.len())
    } else {
        0
    };
    let total = entry.samples.len();
    let decision = entry.scheduler.observe_total_samples_with_backlog_limit(total, DEFAULT_MAX_ROLLING_BACKLOG_STEPS);
    let transcribe = match decision {
        RollingTranscriptionDecision::Transcribe => true,
        _ => false,
    };
    AudioDecision::Buffered { transcribe, finalize: entry.trailing_silence >= finalize_silence }
}

} // verus!
