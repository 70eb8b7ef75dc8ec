//! Turning a streaming recognition service's token responses into step
//! outputs: final tokens are committed, the non-final ones of the latest
//! response are the volatile tail, and an endpoint token (or the end of the
//! stream) closes the utterance.
use vstd::prelude::*;

use crate::scheduler::{StepOutput, Utterance};
use crate::text::{decimal, decimal_string, opt_chars, str_eq, string_of, trim, trimmed};

use std::collections::VecDeque;

verus! {

/// One recognised token.
pub struct Token {
    pub text: String,
    pub is_final: bool,
    pub start_ms: Option<u64>,
    pub end_ms: Option<u64>,
    pub language: Option<String>,
}

/// One response from the service.
pub struct Response {
    pub tokens: Vec<Token>,
    pub finished: bool,
    pub error_code: Option<u16>,
    pub error_type: Option<String>,
    pub error_message: Option<String>,
}

/// What the connection worker hands the recognizer.
pub enum WorkerEvent {
    Response(Response),
    Error(String),
}

pub struct TokenView {
    pub text: Seq<char>,
    pub is_final: bool,
    pub start_ms: Option<u64>,
    pub end_ms: Option<u64>,
    pub language: Option<Seq<char>>,
}

pub open spec fn token_view(t: Token) -> TokenView {
    TokenView {
        text: t.text@,
        is_final: t.is_final,
        start_ms: t.start_ms,
        end_ms: t.end_ms,
        language: opt_chars(t.language),
    }
}

pub open spec fn token_views(ts: Seq<Token>) -> Seq<TokenView> {
    ts.map_values(|t: Token| token_view(t))
}

pub struct UtteranceView {
    pub text: Seq<char>,
    pub start_ms: u64,
    pub end_ms: u64,
    pub lang: Option<Seq<char>>,
}

pub struct OutputView {
    pub committed: Seq<char>,
    pub volatile: Seq<char>,
    pub utterance: Option<UtteranceView>,
}

pub open spec fn output_view(o: StepOutput) -> OutputView {
    OutputView {
        committed: o.committed_delta@,
        volatile: o.volatile@,
        utterance: match o.utterance_final {
            Some(u) => Some(
                UtteranceView { text: u.text@, start_ms: u.start_ms, end_ms: u.end_ms, lang: opt_chars(u.lang) },
            ),
            None => None,
        },
    }
}

/// The reducer's state, as plain values.
pub struct ReducerState {
    /// Final text of the utterance in progress.
    pub text: Seq<char>,
    pub start_ms: Option<u64>,
    pub end_ms: u64,
    pub lang: Option<Seq<char>>,
    /// Final text not yet handed out.
    pub committed: Seq<char>,
    /// The latest response's non-final text.
    pub volatile: Seq<char>,
    /// The volatile tail changed since it was last handed out.
    pub dirty: bool,
    /// Closed utterances waiting to be handed out, oldest first.
    pub outputs: Seq<OutputView>,
    /// The service said the stream is over.
    pub finished: bool,
}

/// Close the utterance in progress. With no text in it there is nothing to
/// hand out, but the volatile tail is taken down.
pub open spec fn finalize_spec(s: ReducerState) -> ReducerState {
    let t = trimmed(s.text);
    if t.len() == 0 {
        ReducerState { volatile: Seq::empty(), dirty: true, ..s }
    } else {
        ReducerState {
            text: Seq::empty(),
            start_ms: None,
            end_ms: 0,
            lang: None,
            committed: Seq::empty(),
            volatile: Seq::empty(),
            dirty: false,
            outputs: s.outputs.push(
                OutputView {
                    committed: s.committed,
                    volatile: Seq::empty(),
                    utterance: Some(
                        UtteranceView {
                            text: t,
                            start_ms: match s.start_ms {
                                Some(x) => x,
                                None => 0,
                            },
                            end_ms: s.end_ms,
                            lang: s.lang,
                        },
                    ),
                },
            ),
            finished: s.finished,
        }
    }
}

/// The endpoint marker the service sends as a final token.
pub open spec fn is_endpoint(t: TokenView) -> bool {
    t.is_final && t.text == "<end>"@
}

/// One token applied to the state and to the volatile text gathered so far
/// from this response.
pub open spec fn token_step(s: ReducerState, vol: Seq<char>, t: TokenView) -> (ReducerState, Seq<char>) {
    if is_endpoint(t) {
        (finalize_spec(s), vol)
    } else if t.is_final {
        (
            ReducerState {
                start_ms: match s.start_ms {
                    Some(x) => Some(x),
                    None => t.start_ms,
                },
                end_ms: match t.end_ms {
                    Some(e) => e,
                    None => s.end_ms,
                },
                lang: if t.language is Some {
                    t.language
                } else {
                    s.lang
                },
                text: s.text + t.text,
                committed: s.committed + t.text,
                ..s
            },
            vol,
        )
    } else {
        (s, vol + t.text)
    }
}

/// The tokens applied in order.
pub open spec fn tokens_fold(s: ReducerState, ts: Seq<TokenView>) -> (ReducerState, Seq<char>)
    decreases ts.len(),
{
    if ts.len() == 0 {
        (s, Seq::empty())
    } else {
        let (s1, v1) = tokens_fold(s, ts.drop_last());
        token_step(s1, v1, ts.last())
    }
}

/// A whole response applied: its tokens, then its non-final text as the new
/// volatile tail, then the end of the stream if it says so.
pub open spec fn ingest_spec(s: ReducerState, ts: Seq<TokenView>, finished: bool) -> ReducerState {
    let (s1, vol) = tokens_fold(s, ts);
    let s2 = ReducerState { dirty: s1.dirty || s1.volatile != vol, volatile: vol, ..s1 };
    if finished {
        finalize_spec(ReducerState { finished: true, ..s2 })
    } else {
        s2
    }
}

/// The next output and the state after handing it out: a closed utterance
/// first, else whatever text moved.
pub open spec fn next_output_spec(s: ReducerState) -> (ReducerState, Option<OutputView>) {
    if s.outputs.len() > 0 {
        (ReducerState { outputs: s.outputs.drop_first(), ..s }, Some(s.outputs[0]))
    } else if s.committed.len() == 0 && !s.dirty {
        (s, None)
    } else {
        (
            ReducerState { committed: Seq::empty(), dirty: false, ..s },
            Some(OutputView { committed: s.committed, volatile: s.volatile, utterance: None }),
        )
    }
}

/// Nothing heard yet.
pub open spec fn fresh_state() -> ReducerState {
    ReducerState {
        text: Seq::empty(),
        start_ms: None,
        end_ms: 0,
        lang: None,
        committed: Seq::empty(),
        volatile: Seq::empty(),
        dirty: false,
        outputs: Seq::empty(),
        finished: false,
    }
}

/// Accumulates the service's responses into step outputs.
pub struct Reducer {
    utterance_text: String,
    utterance_start_ms: Option<u64>,
    utterance_end_ms: u64,
    utterance_lang: Option<String>,
    committed_delta: String,
    volatile: String,
    volatile_dirty: bool,
    outputs: VecDeque<StepOutput>,
    finished: bool,
}

impl View for Reducer {
    type V = ReducerState;

    closed spec fn view(&self) -> ReducerState {
        ReducerState {
            text: self.utterance_text@,
            start_ms: self.utterance_start_ms,
            end_ms: self.utterance_end_ms,
            lang: opt_chars(self.utterance_lang),
            committed: self.committed_delta@,
            volatile: self.volatile@,
            dirty: self.volatile_dirty,
            outputs: self.outputs@.map_values(|o: StepOutput| output_view(o)),
            finished: self.finished,
        }
    }
}

fn empty_string() -> (s: String)
    ensures
        s@ == Seq::<char>::empty(),
{
    String::new()
}

fn appended(a: &str, b: &str) -> (s: String)
    ensures
        s@ == a@ + b@,
{
    let mut s = String::from_str(a);
    s.append(b);
    s
}

impl Reducer {
    pub fn new() -> (r: Self)
        ensures
            r@ == fresh_state(),
    {
        let r = Reducer {
            utterance_text: String::new(),
            utterance_start_ms: None,
            utterance_end_ms: 0,
            utterance_lang: None,
            committed_delta: String::new(),
            volatile: String::new(),
            volatile_dirty: false,
            outputs: VecDeque::new(),
            finished: false,
        };
        assert(r@.outputs =~= Seq::<OutputView>::empty());
        r
    }

    /// Whether the service said the stream is over.
    pub fn is_finished(&self) -> (b: bool)
        ensures
            b == self@.finished,
    {
        self.finished
    }

    /// Close the utterance in progress.
    pub fn finalize(&mut self)
        ensures
            final(self)@ == finalize_spec(old(self)@),
    {
        let text = trim(self.utterance_text.as_str());
        if text.as_str().is_empty() {
            self.volatile = empty_string();
            self.volatile_dirty = true;
            return;
        }
        let lang = self.utterance_lang.take();
        let start_ms = match self.utterance_start_ms {
            Some(x) => x,
            None => 0,
        };
        let mut committed = empty_string();
        std::mem::swap(&mut committed, &mut self.committed_delta);
        let out = StepOutput {
            committed_delta: committed,
            volatile: empty_string(),
            utterance_final: Some(Utterance { text, start_ms, end_ms: self.utterance_end_ms, lang }),
        };
        let ghost before = self.outputs@;
        self.outputs.push_back(out);
        self.utterance_text = empty_string();
        self.utterance_start_ms = None;
        self.utterance_end_ms = 0;
        self.volatile = empty_string();
        self.volatile_dirty = false;
        proof {
            assert(self.outputs@ == before.push(out));
            assert(self@.outputs =~= old(self)@.outputs.push(output_view(out)));
        }
    }

    /// Apply one token; `vol` gathers this response's non-final text.
    fn apply_token(&mut self, vol: &mut String, t: &Token)
        ensures
            (final(self)@, final(vol)@) == token_step(old(self)@, old(vol)@, token_view(*t)),
    {
        proof {
            reveal_strlit("<end>");
        }
        if t.is_final && str_eq(t.text.as_str(), "<end>") {
            self.finalize();
            return;
        }
        if t.is_final {
            if self.utterance_start_ms.is_none() {
                self.utterance_start_ms = t.start_ms;
            }
            if let Some(e) = t.end_ms {
                self.utterance_end_ms = e;
            }
            if let Some(l) = &t.language {
                self.utterance_lang = Some(l.clone());
            }
            let text = appended(self.utterance_text.as_str(), t.text.as_str());
            self.utterance_text = text;
            let committed = appended(self.committed_delta.as_str(), t.text.as_str());
            self.committed_delta = committed;
        } else {
            let v = appended(vol.as_str(), t.text.as_str());
            *vol = v;
        }
    }

    /// Take in one response.
    pub fn ingest(&mut self, response: Response)
        ensures
            final(self)@ == ingest_spec(old(self)@, token_views(response.tokens@), response.finished),
    {
        let mut vol = empty_string();
        let ghost ts = token_views(response.tokens@);
        let mut i: usize = 0;
        while i < response.tokens.len()
            invariant
                i <= response.tokens@.len(),
                ts == token_views(response.tokens@),
                (self@, vol@) == tokens_fold(old(self)@, ts.take(i as int)),
            decreases response.tokens@.len() - i,
        {
            proof {
                assert(ts.take(i + 1).drop_last() =~= ts.take(i as int));
                assert(ts.take(i + 1).last() == token_view(response.tokens@[i as int]));
            }
            self.apply_token(&mut vol, &response.tokens[i]);
            i = i + 1;
        }
        proof {
            assert(ts.take(i as int) =~= ts);
        }
        let same = str_eq(self.volatile.as_str(), vol.as_str());
        self.volatile_dirty = self.volatile_dirty || !same;
        self.volatile = vol;
        if response.finished {
            self.finished = true;
            self.finalize();
        }
    }

    /// The next output to hand to the UI, if any.
    pub fn next_output(&mut self) -> (o: Option<StepOutput>)
        ensures
            final(self)@ == next_output_spec(old(self)@).0,
            final(self)@.text == old(self)@.text,
            final(self)@.start_ms == old(self)@.start_ms,
            final(self)@.end_ms == old(self)@.end_ms,
            final(self)@.lang == old(self)@.lang,
            final(self)@.volatile == old(self)@.volatile,
            final(self)@.finished == old(self)@.finished,
            match o {
                Some(x) => next_output_spec(old(self)@).1 == Some(output_view(x)),
                None => next_output_spec(old(self)@).1 is None,
            },
    {
        if self.outputs.len() > 0 {
            let ghost before = self.outputs@;
            let o = self.outputs.pop_front();
            proof {
                assert(self@.outputs =~= old(self)@.outputs.drop_first());
            }
            return o;
        }
        if self.committed_delta.as_str().is_empty() && !self.volatile_dirty {
            return None;
        }
        self.volatile_dirty = false;
        let mut committed = empty_string();
        std::mem::swap(&mut committed, &mut self.committed_delta);
        let volatile = string_of(crate::text::chars_of(self.volatile.as_str()).as_slice());
        Some(StepOutput { committed_delta: committed, volatile, utterance_final: None })
    }

    /// A worker event applied: a response is taken in, an error (from the
    /// service or the connection) becomes the message the session reports.
    pub fn apply(&mut self, event: WorkerEvent) -> (r: Result<(), String>)
        ensures
            match event {
                WorkerEvent::Response(resp) => match resp.error_code {
                    Some(code) => {
                        &&& *final(self) == *old(self)
                        &&& r matches Err(m)
                        &&& r->Err_0@ == service_error_message(code, opt_chars(resp.error_type), opt_chars(resp.error_message))
                    },
                    None => r is Ok && final(self)@ == ingest_spec(old(self)@, token_views(resp.tokens@), resp.finished),
                },
                WorkerEvent::Error(e) => {
                    &&& *final(self) == *old(self)
                    &&& r matches Err(m)
                    &&& r->Err_0@ == "Soniox connection failed: "@ + e@
                },
            },
    {
        proof {
            reveal_strlit("Soniox connection failed: ");
        }
        match event {
            WorkerEvent::Response(response) => {
                match response.error_code {
                    Some(code) => Err(service_error(code, &response.error_type, &response.error_message)),
                    None => {
                        self.ingest(response);
                        Ok(())
                    },
                }
            },
            WorkerEvent::Error(e) => Err(appended("Soniox connection failed: ", e.as_str())),
        }
    }
}

impl Default for Reducer {
    fn default() -> (r: Self)
        ensures
            r@ == fresh_state(),
    {
        Reducer::new()
    }
}

/// The message for an error the service reported.
pub open spec fn service_error_message(code: u16, kind: Option<Seq<char>>, message: Option<Seq<char>>) -> Seq<char> {
    "Soniox "@ + decimal(code as nat) + " "@ + (match kind {
        Some(k) => k,
        None => "error"@,
    }) + ": "@ + (match message {
        Some(m) => m,
        None => "request failed"@,
    })
}

fn service_error(code: u16, kind: &Option<String>, message: &Option<String>) -> (s: String)
    ensures
        s@ == service_error_message(code, opt_chars(*kind), opt_chars(*message)),
{
    proof {
        reveal_strlit("Soniox ");
        reveal_strlit(" ");
        reveal_strlit("error");
        reveal_strlit(": ");
        reveal_strlit("request failed");
    }
    let mut s = String::from_str("Soniox ");
    let code_text = decimal_string(code as u64);
    s.append(code_text.as_str());
    s.append(" ");
    match kind {
        Some(k) => s.append(k.as_str()),
        None => s.append("error"),
    }
    s.append(": ");
    match message {
        Some(m) => s.append(m.as_str()),
        None => s.append("request failed"),
    }
    s
}

/// The final tokens' text, in order.
pub open spec fn final_text(ts: Seq<TokenView>) -> Seq<char>
    decreases ts.len(),
{
    if ts.len() == 0 {
        Seq::empty()
    } else {
        final_text(ts.drop_last()) + (if ts.last().is_final { ts.last().text } else { Seq::empty() })
    }
}

/// The non-final tokens' text, in order.
pub open spec fn tentative_text(ts: Seq<TokenView>) -> Seq<char>
    decreases ts.len(),
{
    if ts.len() == 0 {
        Seq::empty()
    } else {
        tentative_text(ts.drop_last()) + (if !ts.last().is_final { ts.last().text } else { Seq::empty() })
    }
}

/// The start of the first final token that carries one: where an
/// utterance begins when `ts` opens it.
pub open spec fn first_start(ts: Seq<TokenView>) -> Option<u64>
    decreases ts.len(),
{
    if ts.len() == 0 {
        None
    } else {
        match first_start(ts.drop_last()) {
            Some(x) => Some(x),
            None => if ts.last().is_final {
                ts.last().start_ms
            } else {
                None
            },
        }
    }
}

/// No token of `ts` marks an endpoint.
pub open spec fn no_endpoint(ts: Seq<TokenView>) -> bool {
    forall|i: int| 0 <= i < ts.len() ==> !is_endpoint(#[trigger] ts[i])
}

proof fn lemma_fold_without_endpoint(s: ReducerState, ts: Seq<TokenView>)
    requires
        no_endpoint(ts),
    ensures
        tokens_fold(s, ts).0.committed == s.committed + final_text(ts),
        tokens_fold(s, ts).0.text == s.text + final_text(ts),
        tokens_fold(s, ts).0.outputs == s.outputs,
        tokens_fold(s, ts).0.volatile == s.volatile,
        tokens_fold(s, ts).0.dirty == s.dirty,
        tokens_fold(s, ts).0.finished == s.finished,
        tokens_fold(s, ts).0.start_ms == (match s.start_ms {
            Some(x) => Some(x),
            None => first_start(ts),
        }),
        tokens_fold(s, ts).1 == tentative_text(ts),
    decreases ts.len(),
{
    if ts.len() == 0 {
        assert(s.committed + final_text(ts) =~= s.committed);
        assert(s.text + final_text(ts) =~= s.text);
    } else {
        let p = ts.drop_last();
        assert(no_endpoint(p)) by {
            assert forall|i: int| 0 <= i < p.len() implies !is_endpoint(#[trigger] p[i]) by {
                assert(p[i] == ts[i]);
            }
        }
        assert(!is_endpoint(ts[ts.len() - 1]));
        lemma_fold_without_endpoint(s, p);
        let t = ts.last();
        if t.is_final {
            assert(s.committed + final_text(p) + t.text =~= s.committed + final_text(ts));
            assert(s.text + final_text(p) + t.text =~= s.text + final_text(ts));
        } else {
            assert(s.committed + final_text(p) =~= s.committed + final_text(ts));
            assert(s.text + final_text(p) =~= s.text + final_text(ts));
            assert(tentative_text(p) + t.text =~= tentative_text(ts));
        }
    }
}

/// Within an utterance, final tokens are committed in order and exactly
/// once, and the non-final tokens of the latest response replace the
/// volatile tail (marked changed when they differ from it).
pub proof fn lemma_response_without_endpoint(s: ReducerState, ts: Seq<TokenView>)
    requires
        no_endpoint(ts),
    ensures
        ({
            let t = ingest_spec(s, ts, false);
            &&& t.committed == s.committed + final_text(ts)
            &&& t.text == s.text + final_text(ts)
            &&& t.volatile == tentative_text(ts)
            &&& t.dirty == (s.dirty || s.volatile != tentative_text(ts))
            &&& t.outputs == s.outputs
            &&& t.start_ms == (match s.start_ms {
                Some(x) => Some(x),
                None => first_start(ts),
            })
        }),
{
    lemma_fold_without_endpoint(s, ts);
}

/// Handing out an output leaves the utterance in progress as it was: its
/// text, where it started and ended, and its language.
pub proof fn lemma_next_output_keeps_the_utterance(s: ReducerState)
    ensures
        next_output_spec(s).0.text == s.text,
        next_output_spec(s).0.start_ms == s.start_ms,
        next_output_spec(s).0.end_ms == s.end_ms,
        next_output_spec(s).0.lang == s.lang,
{
}

/// Where the utterance in progress started after a run of events — a
/// response without an endpoint (`Some` of its tokens) or an output handed
/// out (`None`): the start of the first final token heard since it opened.
pub open spec fn run_start(start: Option<u64>, events: Seq<Option<Seq<TokenView>>>) -> Option<u64>
    decreases events.len(),
{
    if events.len() == 0 {
        start
    } else {
        match run_start(start, events.drop_last()) {
            Some(x) => Some(x),
            None => match events.last() {
                Some(ts) => first_start(ts),
                None => None,
            },
        }
    }
}

/// An utterance is stamped from its first final token however many
/// responses and outputs it spans: after responses without an endpoint and
/// outputs handed out between them, the utterance in progress starts where
/// the first final token heard since it opened does, and the endpoint that
/// closes it hands that start out.
pub proof fn lemma_utterance_keeps_its_first_start(states: Seq<ReducerState>, events: Seq<Option<Seq<TokenView>>>)
    requires
        states.len() == events.len() + 1,
        forall|i: int|
            0 <= i < events.len() ==> match #[trigger] events[i] {
                Some(ts) => no_endpoint(ts) && states[i + 1] == ingest_spec(states[i], ts, false),
                None => states[i + 1] == next_output_spec(states[i]).0,
            },
    ensures
        states.last().start_ms == run_start(states[0].start_ms, events),
        trimmed(states.last().text).len() > 0 ==> finalize_spec(states.last()).outputs.last().utterance == Some(
            UtteranceView {
                text: trimmed(states.last().text),
                start_ms: match run_start(states[0].start_ms, events) {
                    Some(x) => x,
                    None => 0,
                },
                end_ms: states.last().end_ms,
                lang: states.last().lang,
            },
        ),
    decreases events.len(),
{
    let n = events.len() as int;
    if n > 0 {
        let p = events.drop_last();
        let ps = states.drop_last();
        assert forall|i: int| 0 <= i < p.len() implies match #[trigger] p[i] {
            Some(ts) => no_endpoint(ts) && ps[i + 1] == ingest_spec(ps[i], ts, false),
            None => ps[i + 1] == next_output_spec(ps[i]).0,
        } by {
            assert(p[i] == events[i]);
            assert(ps[i] == states[i]);
            assert(ps[i + 1] == states[i + 1]);
            assert(match events[i] {
                Some(ts) => no_endpoint(ts) && states[i + 1] == ingest_spec(states[i], ts, false),
                None => states[i + 1] == next_output_spec(states[i]).0,
            });
        }
        lemma_utterance_keeps_its_first_start(ps, p);
        assert(ps.last() == states[n - 1]);
        assert(ps[0] == states[0]);
        let k = n - 1;
        assert(match events[k] {
            Some(ts) => no_endpoint(ts) && states[k + 1] == ingest_spec(states[k], ts, false),
            None => states[k + 1] == next_output_spec(states[k]).0,
        });
        match events[k] {
            Some(ts) => {
                lemma_response_without_endpoint(states[k], ts);
            },
            None => {},
        }
    }
}

/// An endpoint hands the utterance out: the final text gathered so far
/// becomes one output, committed text and utterance alike, and the next
/// utterance starts empty.
pub proof fn lemma_endpoint_closes_the_utterance(s: ReducerState)
    requires
        trimmed(s.text).len() > 0,
    ensures
        finalize_spec(s).outputs == s.outputs.push(
            OutputView {
                committed: s.committed,
                volatile: Seq::empty(),
                utterance: Some(
                    UtteranceView {
                        text: trimmed(s.text),
                        start_ms: match s.start_ms {
                            Some(x) => x,
                            None => 0,
                        },
                        end_ms: s.end_ms,
                        lang: s.lang,
                    },
                ),
            },
        ),
        finalize_spec(s).text == Seq::<char>::empty(),
        finalize_spec(s).committed == Seq::<char>::empty(),
        finalize_spec(s).volatile == Seq::<char>::empty(),
{
}

impl Response {
    /// Whether the connection worker stops after this response: the stream
    /// finished, or the service reported an error.
    pub fn ends_stream(&self) -> (b: bool)
        ensures
            b == (self.finished || self.error_code is Some),
    {
        self.finished || self.error_code.is_some()
    }
}

/// An API key as configured, unless it is blank.
pub fn usable_api_key(key: Option<String>) -> (r: Option<String>)
    ensures
        match key {
            Some(k) => if trimmed(k@).len() > 0 {
                r == Some(k)
            } else {
                r is None
            },
            None => r is None,
        },
{
    match key {
        Some(k) => {
            let t = trim(k.as_str());
            if t.as_str().is_empty() {
                None
            } else {
                Some(k)
            }
        },
        None => None,
    }
}

} // verus!
