//! The whisper engine sidecar's plain parts: when rolling work is due, which
//! part of two partial results is stable, what configures a backend, and how
//! base64 PCM arrives as samples. The messages' JSON form belongs to the
//! application.
use vstd::prelude::*;

use base64::Engine;

use crate::local_agreement::{common_prefix_chars, common_prefix_len, lemma_common_prefix};
use crate::text::{char_is_whitespace, chars_of, is_ws, str_eq, string_of};

verus! {

/// What a rolling scheduler says about the samples seen so far.
#[derive(Debug, Clone, Copy, PartialEq, Eq, Structural)]
pub enum RollingTranscriptionDecision {
    /// Less than a step of new audio.
    Wait,
    /// A step (or a few) of new audio: transcribe.
    Transcribe,
    /// More new audio than the backlog limit allows: skip it.
    DropBacklog,
}

/// Schedules a rolling transcription each time a step's worth of new audio
/// has arrived.
#[derive(Debug, Clone)]
pub struct RollingTranscriptionScheduler {
    step_samples: usize,
    last_scheduled_total: usize,
}

impl RollingTranscriptionScheduler {
    pub closed spec fn step(&self) -> nat {
        self.step_samples as nat
    }

    /// The sample total at the last scheduling.
    pub closed spec fn last_total(&self) -> nat {
        self.last_scheduled_total as nat
    }

    pub fn new(step_samples: usize) -> (s: Self)
        ensures
            s.step() == step_samples,
            s.last_total() == 0,
    {
        RollingTranscriptionScheduler { step_samples, last_scheduled_total: 0 }
    }

    /// Whether a transcription is due now that `total_samples` have arrived.
    pub fn observe_total_samples(&mut self, total_samples: usize) -> (due: bool)
        requires
            old(self).step() > 0,
        ensures
            final(self).step() == old(self).step(),
            ({
                let new_samples: int = if total_samples >= old(self).last_total() { total_samples - old(self).last_total() } else { 0 };
                &&& new_samples < old(self).step() ==> !due && final(self).last_total() == old(self).last_total()
                &&& new_samples >= old(self).step() ==> due && final(self).last_total() == total_samples
            }),
    {
        let d = self.observe_total_samples_with_backlog_limit(total_samples, usize::MAX);
        d == RollingTranscriptionDecision::Transcribe
    }

    /// As [`Self::observe_total_samples`], but more than `max_backlog_steps`
    /// steps of new audio are dropped rather than transcribed.
    pub fn observe_total_samples_with_backlog_limit(&mut self, total_samples: usize, max_backlog_steps: usize) -> (d: RollingTranscriptionDecision)
        requires
            old(self).step() > 0,
        ensures
            final(self).step() == old(self).step(),
            ({
                let new_samples: int = if total_samples >= old(self).last_total() { total_samples - old(self).last_total() } else { 0 };
                &&& new_samples < old(self).step() ==> {
                    &&& d == RollingTranscriptionDecision::Wait
                    &&& final(self).last_total() == old(self).last_total()
                }
                &&& new_samples >= old(self).step() ==> {
                    &&& final(self).last_total() == total_samples
                    &&& d == (if new_samples / (old(self).step() as int) > max_backlog_steps {
                        RollingTranscriptionDecision::DropBacklog
                    } else {
                        RollingTranscriptionDecision::Transcribe
                    })
                }
            }),
    {
        let new_samples = total_samples.saturating_sub(self.last_scheduled_total);
        if new_samples < self.step_samples {
            return RollingTranscriptionDecision::Wait;
        }
        let backlog_steps = new_samples / self.step_samples;
        self.last_scheduled_total = total_samples;
        if backlog_steps > max_backlog_steps {
            RollingTranscriptionDecision::DropBacklog
        } else {
            RollingTranscriptionDecision::Transcribe
        }
    }
}

/// The position just after the last whitespace character among the first
/// `n` characters of `s`, or 0 when there is none.
pub open spec fn last_ws_end(s: Seq<char>, n: int) -> int
    decreases n,
{
    if n <= 0 {
        0
    } else if is_ws(s[n - 1]) {
        n
    } else {
        last_ws_end(s, n - 1)
    }
}

/// The part of two partial results that can be shown as stable: all of it
/// when they agree completely, else their common prefix cut back to the end
/// of its last whitespace, so a half-recognised word is never shown.
pub open spec fn stable_prefix_spec(left: Seq<char>, right: Seq<char>) -> Option<Seq<char>> {
    let n = common_prefix_len(left, right);
    if n == 0 {
        None
    } else if left == right {
        Some(left)
    } else {
        let b = last_ws_end(left, n as int);
        if b == 0 {
            None
        } else {
            Some(left.take(b))
        }
    }
}

pub fn stable_common_prefix(left: &str, right: &str) -> (r: Option<String>)
    ensures
        crate::text::opt_chars(r) == stable_prefix_spec(left@, right@),
{
    let l = chars_of(left);
    let rc = chars_of(right);
    let n = common_prefix_chars(l.as_slice(), rc.as_slice());
    if n == 0 {
        return None;
    }
    if str_eq(left, right) {
        return Some(String::from_str(left));
    }
    let mut b: usize = n;
    while b > 0 && !char_is_whitespace(l[b - 1])
        invariant
            b <= n,
            n <= l@.len(),
            l@ == left@,
            last_ws_end(l@, b as int) == last_ws_end(l@, n as int),
        decreases b,
    {
        b = b - 1;
    }
    if b == 0 {
        return None;
    }
    let mut out: Vec<char> = Vec::new();
    let mut i: usize = 0;
    while i < b
        invariant
            b <= l@.len(),
            i <= b,
            out@ == l@.take(i as int),
        decreases b - i,
    {
        out.push(l[i]);
        proof {
            assert(out@ =~= l@.take(i + 1));
        }
        i = i + 1;
    }
    Some(string_of(out.as_slice()))
}

/// What the app sends the engine sidecar.
#[derive(Debug, Clone, PartialEq, Eq)]
pub enum WhisperEngineInput {
    Config { model_path: String, language: String, sample_rate: u32 },
}

/// What a whisper backend is started with.
#[derive(Debug, Clone, PartialEq, Eq)]
pub struct WhisperBackendConfig {
    pub model_path: String,
    pub language: String,
    pub sample_rate: u32,
}

impl WhisperBackendConfig {
    /// The backend configuration a config message carries.
    pub fn try_from(input: WhisperEngineInput) -> (r: Result<Self, &'static str>)
        ensures
            match input {
                WhisperEngineInput::Config { model_path, language, sample_rate } => r == Ok::<
                    WhisperBackendConfig,
                    &'static str,
                >(WhisperBackendConfig { model_path, language, sample_rate }),
            },
    {
        match input {
            WhisperEngineInput::Config { model_path, language, sample_rate } => Ok(
                WhisperBackendConfig { model_path, language, sample_rate },
            ),
        }
    }
}

/// A message from the platform capture helper.
#[derive(Debug, Clone, PartialEq, Eq)]
pub enum CaptureHelperMessage {
    Start { stream: String },
    AudioFrame { stream: String, pcm16_base64: String, sample_rate: u32, timestamp_ms: i64 },
    Stop { stream: String },
}

#[verifier::external_type_specification]
#[verifier::external_body]
pub struct ExDecodeError(base64::DecodeError);

/// Why audio could not be decoded.
#[derive(Debug)]
pub enum WhisperEngineAudioError {
    Base64(base64::DecodeError),
}

/// The value of a digit of the standard base64 alphabet
/// (`A`-`Z`, `a`-`z`, `0`-`9`, `+`, `/`), or `None` for any other character.
pub open spec fn b64_digit(c: char) -> Option<int> {
    let n = c as int;
    if 65 <= n <= 90 {
        Some(n - 65)
    } else if 97 <= n <= 122 {
        Some(n - 97 + 26)
    } else if 48 <= n <= 57 {
        Some(n - 48 + 52)
    } else if n == 43 {
        Some(62)
    } else if n == 47 {
        Some(63)
    } else {
        None
    }
}

/// The three bytes four digit values carry, of which a padded quad keeps
/// the first one or two.
pub open spec fn b64_bytes(v0: int, v1: int, v2: int, v3: int) -> Seq<u8> {
    seq![(v0 * 4 + v1 / 16) as u8, ((v1 % 16) * 16 + v2 / 4) as u8, ((v2 % 4) * 64 + v3) as u8]
}

/// Four digits, no padding.
pub open spec fn b64_full_quad(q: Seq<char>) -> Option<Seq<u8>> {
    match (b64_digit(q[0]), b64_digit(q[1]), b64_digit(q[2]), b64_digit(q[3])) {
        (Some(v0), Some(v1), Some(v2), Some(v3)) => Some(b64_bytes(v0, v1, v2, v3)),
        _ => None,
    }
}

/// The final quad: four digits, or three and `=`, or two and `==`; the
/// bits a padded quad does not carry into a byte must be zero.
pub open spec fn b64_last_quad(q: Seq<char>) -> Option<Seq<u8>> {
    match (b64_digit(q[0]), b64_digit(q[1])) {
        (Some(v0), Some(v1)) => if q[2] == '=' && q[3] == '=' {
            if v1 % 16 == 0 {
                Some(b64_bytes(v0, v1, 0, 0).take(1))
            } else {
                None
            }
        } else if q[3] == '=' {
            match b64_digit(q[2]) {
                Some(v2) => if v2 % 4 == 0 {
                    Some(b64_bytes(v0, v1, v2, 0).take(2))
                } else {
                    None
                },
                None => None,
            }
        } else {
            b64_full_quad(q)
        },
        _ => None,
    }
}

/// Standard padded base64 (RFC 4648, section 4) as the strict decoder reads
/// it: quads of digits, padding only in the last one and only as much as
/// it needs, and no stray bits under the padding. `None` for anything else.
pub open spec fn base64_decode(s: Seq<char>) -> Option<Seq<u8>>
    decreases s.len(),
{
    if s.len() == 0 {
        Some(Seq::empty())
    } else if s.len() < 4 {
        None
    } else if s.len() == 4 {
        b64_last_quad(s)
    } else {
        match (b64_full_quad(s.take(4)), base64_decode(s.skip(4))) {
            (Some(a), Some(b)) => Some(a + b),
            _ => None,
        }
    }
}

/// `base64::engine::general_purpose::STANDARD.decode`: the decoded bytes,
/// or the decoder's error. Claimed: it succeeds exactly on the input
/// [`base64_decode`] accepts, with the bytes it gives. (That engine
/// requires canonical padding and rejects trailing bits; every byte of the
/// input is checked against the alphabet, so any other character fails.)
#[verifier::external_body]
fn decode_base64_standard(encoded: &str) -> (r: Result<Vec<u8>, base64::DecodeError>)
    ensures
        match r {
            Ok(bytes) => base64_decode(encoded@) == Some(bytes@),
            Err(_) => base64_decode(encoded@) is None,
        },
{
    base64::engine::general_purpose::STANDARD.decode(encoded)
}

/// The 16-bit little-endian sample made of `lo` and `hi`.
pub open spec fn le_i16(lo: u8, hi: u8) -> int {
    let u = lo + 256 * hi;
    if u < 32768 {
        u
    } else {
        u - 65536
    }
}

/// Samples from little-endian byte pairs; an odd trailing byte is dropped.
pub open spec fn pcm16_le(bytes: Seq<u8>) -> Seq<i16> {
    Seq::new(bytes.len() / 2, |i: int| le_i16(bytes[2 * i], bytes[2 * i + 1]) as i16)
}

/// Read little-endian 16-bit samples from bytes.
pub fn pcm16_from_le_bytes(bytes: &[u8]) -> (samples: Vec<i16>)
    ensures
        samples@ == pcm16_le(bytes@),
{
    let mut samples: Vec<i16> = Vec::new();
    let len = bytes.len();
    let n = len / 2;
    let mut i: usize = 0;
    while i < n
        invariant
            len == bytes@.len(),
            n == len / 2,
            i <= n,
            samples@ == pcm16_le(bytes@).take(i as int),
        decreases n - i,
    {
        let j: usize = i + i;
        let lo = bytes[j];
        let hi = bytes[j + 1];
        let u: u32 = (lo as u32) + 256 * (hi as u32);
        let v: i16 = if u < 32768 {
            u as i16
        } else {
            ((u as i32) - 65536) as i16
        };
        samples.push(v);
        proof {
            assert(samples@ =~= pcm16_le(bytes@).take(i + 1));
        }
        i = i + 1;
    }
    proof {
        assert(pcm16_le(bytes@).take(n as int) =~= pcm16_le(bytes@));
    }
    samples
}

/// Decode base64 PCM16 audio into samples.
pub fn decode_pcm16_base64(encoded: &str) -> (r: Result<Vec<i16>, WhisperEngineAudioError>)
    ensures
        match base64_decode(encoded@) {
            Some(bytes) => r matches Ok(s) && s@ == pcm16_le(bytes),
            None => r is Err,
        },
{
    match decode_base64_standard(encoded) {
        Ok(bytes) => Ok(pcm16_from_le_bytes(bytes.as_slice())),
        Err(e) => Err(WhisperEngineAudioError::Base64(e)),
    }
}

proof fn lemma_last_ws_end(s: Seq<char>, n: int)
    requires
        0 <= n <= s.len(),
    ensures
        0 <= last_ws_end(s, n) <= n,
        last_ws_end(s, n) > 0 ==> is_ws(s[last_ws_end(s, n) - 1]),
    decreases n,
{
    if n > 0 && !is_ws(s[n - 1]) {
        lemma_last_ws_end(s, n - 1);
    }
}

/// What is shown as stable is shown by both results: it is a prefix of each,
/// and, unless they agree completely, it ends just after whitespace.
pub proof fn lemma_stable_prefix_is_shared(left: Seq<char>, right: Seq<char>)
    ensures
        match stable_prefix_spec(left, right) {
            Some(p) => {
                &&& p.len() > 0
                &&& p.len() <= left.len() && p.len() <= right.len()
                &&& left.take(p.len() as int) == p
                &&& right.take(p.len() as int) == p
                &&& left != right ==> is_ws(p.last())
            },
            None => true,
        },
{
    lemma_common_prefix(left, right);
    let n = common_prefix_len(left, right);
    if n > 0 {
        if left == right {
            assert(left.take(left.len() as int) =~= left);
        } else {
            lemma_last_ws_end(left, n as int);
            let b = last_ws_end(left, n as int);
            if b > 0 {
                assert(left.take(b) =~= left.take(n as int).take(b));
                assert(right.take(b) =~= right.take(n as int).take(b));
                assert(left.take(b).last() == left[b - 1]);
            }
        }
    }
}

/// A rolling scheduler only ever moves forward: the sample total it last
/// scheduled at never goes back.
pub proof fn lemma_rolling_total_only_grows(last: nat, step: nat, total: nat)
    requires
        step > 0,
    ensures
        ({
            let new_samples: int = if total >= last { total - last } else { 0 };
            new_samples >= step ==> total > last
        }),
{
}

} // verus!
