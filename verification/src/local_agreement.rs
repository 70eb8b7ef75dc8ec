//! LocalAgreement-2: a hypothesis prefix is committed once two consecutive
//! hypotheses agree on it. Committed text never retracts.
//!
//! Agreement is reckoned in characters, so it works for Japanese (no word
//! boundaries) and English alike.
use vstd::prelude::*;

use crate::text::{chars_of, slice_chars, string_of};

verus! {

/// How many leading characters `a` and `b` share, counting from `i`.
pub open spec fn common_prefix_from(a: Seq<char>, b: Seq<char>, i: nat) -> nat
    decreases a.len() - i,
{
    if i < a.len() && i < b.len() && a[i as int] == b[i as int] {
        common_prefix_from(a, b, i + 1)
    } else {
        i
    }
}

/// Length of the longest common prefix of `a` and `b`.
pub open spec fn common_prefix_len(a: Seq<char>, b: Seq<char>) -> nat {
    common_prefix_from(a, b, 0)
}

/// The abstract state of a [`LocalAgreement`]: the last hypothesis fed (if
/// any) and how many of its characters are committed.
pub struct AgreementState {
    pub prev: Option<Seq<char>>,
    pub committed: nat,
}

pub open spec fn min_nat(a: nat, b: nat) -> nat {
    if a <= b { a } else { b }
}

pub open spec fn max_nat(a: nat, b: nat) -> nat {
    if a >= b { a } else { b }
}

/// How far the previous hypothesis and `h` agree.
pub open spec fn agreed_len(s: AgreementState, h: Seq<char>) -> nat {
    match s.prev {
        Some(p) => common_prefix_len(p, h),
        None => 0,
    }
}

/// Where the committed point of `h` lies after feeding it: never behind the
/// point already committed.
pub open spec fn commit_point(s: AgreementState, h: Seq<char>) -> nat {
    max_nat(agreed_len(s, h), s.committed)
}

/// The text `feed(h)` newly commits.
pub open spec fn fed_delta(s: AgreementState, h: Seq<char>) -> Seq<char> {
    h.subrange(min_nat(s.committed, h.len()) as int, min_nat(commit_point(s, h), h.len()) as int)
}

/// `h` contradicts committed text: it differs from the previous hypothesis
/// at a character that was already committed (rather than merely stopping
/// short of it).
pub open spec fn contradicts(s: AgreementState, h: Seq<char>) -> bool {
    match s.prev {
        Some(p) => {
            let a = common_prefix_len(p, h);
            a < s.committed && a < p.len() && a < h.len()
        },
        None => false,
    }
}

/// The unstable tail `feed(h)` reports: nothing for a hypothesis that
/// contradicts committed text, else `h` beyond the new commit point.
pub open spec fn fed_volatile(s: AgreementState, h: Seq<char>) -> Seq<char> {
    if contradicts(s, h) {
        Seq::empty()
    } else {
        h.subrange(min_nat(commit_point(s, h), h.len()) as int, h.len() as int)
    }
}

/// The state after `feed(h)`.
pub open spec fn fed_state(s: AgreementState, h: Seq<char>) -> AgreementState {
    AgreementState { prev: Some(h), committed: commit_point(s, h) }
}

/// The pending tail `flush` commits: the last hypothesis beyond the
/// committed point, or nothing.
pub open spec fn flushed_tail(s: AgreementState) -> Seq<char> {
    match s.prev {
        Some(p) => if s.committed < p.len() {
            p.subrange(s.committed as int, p.len() as int)
        } else {
            Seq::empty()
        },
        None => Seq::empty(),
    }
}

/// The state after `flush`.
pub open spec fn flushed_state(s: AgreementState) -> AgreementState {
    AgreementState { prev: s.prev, committed: s.committed + flushed_tail(s).len() }
}

/// Result of feeding one hypothesis.
#[derive(Debug, Clone, PartialEq, Eq)]
pub struct Agreement {
    /// Newly committed text (delta since the previous feed).
    pub committed_delta: String,
    /// Unstable tail of the current hypothesis (may change next feed).
    pub volatile: String,
}

#[derive(Debug, Default)]
pub struct LocalAgreement {
    prev: Option<String>,
    committed_chars: usize,
}

impl View for LocalAgreement {
    type V = AgreementState;

    closed spec fn view(&self) -> AgreementState {
        AgreementState {
            prev: match self.prev {
                Some(p) => Some(p@),
                None => None,
            },
            committed: self.committed_chars as nat,
        }
    }
}

/// Length of the common prefix of `a` and `b`, in characters.
pub fn common_prefix_chars(a: &[char], b: &[char]) -> (n: usize)
    ensures
        n == common_prefix_len(a@, b@),
        n <= a.len(),
        n <= b.len(),
        a@.take(n as int) == b@.take(n as int),
        n == a.len() || n == b.len() || a@[n as int] != b@[n as int],
{
    let mut i: usize = 0;
    while i < a.len() && i < b.len() && a[i] == b[i]
        invariant
            i <= a.len(),
            i <= b.len(),
            common_prefix_from(a@, b@, i as nat) == common_prefix_len(a@, b@),
            forall|k: int| 0 <= k < i ==> a@[k] == b@[k],
        decreases a.len() - i,
    {
        i = i + 1;
    }
    assert(a@.take(i as int) =~= b@.take(i as int));
    i
}

impl LocalAgreement {
    /// A fresh agreement context: nothing fed, nothing committed.
    pub fn new() -> (la: Self)
        ensures
            la@.prev is None,
            la@.committed == 0,
    {
        LocalAgreement { prev: None, committed_chars: 0 }
    }

    /// Start a fresh agreement context (call when the audio window slides).
    pub fn reset(&mut self)
        ensures
            final(self)@.prev is None,
            final(self)@.committed == 0,
    {
        self.prev = None;
        self.committed_chars = 0;
    }

    /// Commit and return the pending volatile tail (the last hypothesis
    /// beyond the committed point). Call when the hypothesis is known to be
    /// stable: at an utterance boundary or when capture stops.
    pub fn flush(&mut self) -> (tail: String)
        ensures
            tail@ == flushed_tail(old(self)@),
            final(self)@ == flushed_state(old(self)@),
    {
        match &self.prev {
            None => String::new(),
            Some(p) => {
                let chars = chars_of(p.as_str());
                let from = if self.committed_chars < chars.len() {
                    self.committed_chars
                } else {
                    chars.len()
                };
                let tail = slice_chars(chars.as_slice(), from, chars.len());
                self.committed_chars = self.committed_chars + (chars.len() - from);
                string_of(tail.as_slice())
            },
        }
    }

    /// Feed the next hypothesis for the current window. The prefix it shares
    /// with the previous one is committed (never less than what already is);
    /// the rest is reported as volatile.
    pub fn feed(&mut self, hypothesis: &str) -> (out: Agreement)
        ensures
            out.committed_delta@ == fed_delta(old(self)@, hypothesis@),
            out.volatile@ == fed_volatile(old(self)@, hypothesis@),
            final(self)@ == fed_state(old(self)@, hypothesis@),
    {
        let h = chars_of(hypothesis);
        let (agreed, prev_len) = match &self.prev {
            Some(p) => {
                let pc = chars_of(p.as_str());
                (common_prefix_chars(pc.as_slice(), h.as_slice()), pc.len())
            },
            None => (0, 0),
        };
        let commit_to = if agreed >= self.committed_chars {
            agreed
        } else {
            self.committed_chars
        };
        let delta_from = if self.committed_chars < h.len() {
            self.committed_chars
        } else {
            h.len()
        };
        let delta_to = if commit_to < h.len() {
            commit_to
        } else {
            h.len()
        };
        let contradicted = self.prev.is_some() && agreed < self.committed_chars && agreed < prev_len
            && agreed < h.len();
        let committed_delta = string_of(slice_chars(h.as_slice(), delta_from, delta_to).as_slice());
        let volatile = if contradicted {
            string_of(slice_chars(h.as_slice(), h.len(), h.len()).as_slice())
        } else {
            string_of(slice_chars(h.as_slice(), delta_to, h.len()).as_slice())
        };
        self.committed_chars = commit_to;
        self.prev = Some(string_of(h.as_slice()));
        Agreement { committed_delta, volatile }
    }
}

proof fn lemma_common_prefix_from(a: Seq<char>, b: Seq<char>, i: nat)
    requires
        i <= a.len(),
        i <= b.len(),
        a.take(i as int) == b.take(i as int),
    ensures
        i <= common_prefix_from(a, b, i) <= a.len(),
        common_prefix_from(a, b, i) <= b.len(),
        a.take(common_prefix_from(a, b, i) as int) == b.take(common_prefix_from(a, b, i) as int),
        a == b ==> common_prefix_from(a, b, i) == a.len(),
    decreases a.len() - i,
{
    if i < a.len() && i < b.len() && a[i as int] == b[i as int] {
        assert(a.take(i + 1int) =~= a.take(i as int).push(a[i as int]));
        assert(b.take(i + 1int) =~= b.take(i as int).push(b[i as int]));
        lemma_common_prefix_from(a, b, i + 1);
    }
}

/// The common prefix is shared by both sequences, and a sequence agrees
/// with itself in full.
pub proof fn lemma_common_prefix(a: Seq<char>, b: Seq<char>)
    ensures
        common_prefix_len(a, b) <= a.len(),
        common_prefix_len(a, b) <= b.len(),
        a.take(common_prefix_len(a, b) as int) == b.take(common_prefix_len(a, b) as int),
        common_prefix_len(a, a) == a.len(),
{
    assert(a.take(0) =~= b.take(0));
    lemma_common_prefix_from(a, b, 0);
    assert(a.take(0) =~= a.take(0));
    lemma_common_prefix_from(a, a, 0);
}

/// Committed text never retracts: feeding a hypothesis only moves the
/// commit point forward, and it moves only as far as the previous and the
/// new hypothesis agree.
pub proof fn lemma_feed_never_retracts(s: AgreementState, h: Seq<char>)
    ensures
        fed_state(s, h).committed >= s.committed,
        fed_state(s, h).committed > s.committed ==> {
            &&& s.prev is Some
            &&& fed_state(s, h).committed == common_prefix_len(s.prev->0, h)
            &&& s.prev->0.take(fed_state(s, h).committed as int) == h.take(fed_state(s, h).committed as int)
        },
{
    if let Some(p) = s.prev {
        lemma_common_prefix(p, h);
    }
}

/// Nothing of a consistent hypothesis is lost: what a feed commits and what
/// it leaves volatile are, together, the hypothesis beyond the point
/// committed before.
pub proof fn lemma_feed_splits_the_hypothesis(s: AgreementState, h: Seq<char>)
    requires
        s.committed <= h.len(),
        !contradicts(s, h),
    ensures
        fed_delta(s, h) + fed_volatile(s, h) == h.skip(s.committed as int),
{
    assert(fed_delta(s, h) + fed_volatile(s, h) =~= h.skip(s.committed as int));
}

/// A hypothesis that contradicts committed text shows nothing: it commits
/// nothing, leaves nothing volatile, and the commit point stays.
pub proof fn lemma_contradiction_shows_nothing(s: AgreementState, h: Seq<char>)
    requires
        contradicts(s, h),
    ensures
        fed_delta(s, h) == Seq::<char>::empty(),
        fed_volatile(s, h) == Seq::<char>::empty(),
        fed_state(s, h).committed == s.committed,
{
    assert(fed_delta(s, h) =~= Seq::<char>::empty());
}

/// Two consecutive identical hypotheses commit all of it: the second feed
/// leaves nothing volatile.
pub proof fn lemma_repeated_hypothesis_commits_all(s: AgreementState, h: Seq<char>)
    ensures
        fed_state(fed_state(s, h), h).committed >= h.len(),
        fed_volatile(fed_state(s, h), h) == Seq::<char>::empty(),
{
    lemma_common_prefix(h, h);
    assert(fed_volatile(fed_state(s, h), h) =~= Seq::<char>::empty());
}

/// A flush commits the whole last hypothesis: afterwards nothing of it is
/// pending, and a second flush commits nothing.
pub proof fn lemma_flush_commits_everything(s: AgreementState)
    ensures
        flushed_tail(flushed_state(s)) == Seq::<char>::empty(),
        s.prev is Some && s.committed <= s.prev->0.len() ==> flushed_state(s).committed == s.prev->0.len(),
{
}

} // verus!
