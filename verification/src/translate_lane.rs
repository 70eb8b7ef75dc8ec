//! The translation worker's decisions: what it wakes up for, what it
//! reports for a sentence, and which language names the model is given.
//! The thread, its lock and its condition variable belong to the
//! application.
use vstd::prelude::*;

use crate::language::{language_name, language_name_spec};
use crate::translate::{Job, TranslationQueue};
use crate::text::opt_chars;
use crate::Lane;

verus! {

/// Sentences that may wait at once: sized for a burst, not a backlog.
pub const QUEUE_CAPACITY: usize = 8;

/// What became of one submitted sentence.
#[derive(Debug, Clone, PartialEq, Eq)]
pub enum Status {
    Done(String),
    /// The backend failed; the message is for the status line.
    Failed(String),
}

/// A finished sentence, for the pipeline to collect.
#[derive(Debug, Clone, PartialEq, Eq)]
pub struct Outcome {
    pub id: u64,
    pub lane: Lane,
    /// The language it was being translated into.
    pub target: String,
    pub status: Status,
}

/// What the worker was woken for.
#[derive(Debug, Clone, PartialEq, Eq)]
pub enum Woke {
    Job(Job),
    Warm,
    Stop,
}

/// The state the worker and the pipeline share under the lock.
pub struct Queued {
    pub jobs: TranslationQueue,
    /// A session started: load the model now rather than at the first
    /// sentence.
    pub warm: bool,
    pub stop: bool,
}

impl Queued {
    pub fn new() -> (q: Self)
        ensures
            q.jobs.wf(),
            q.jobs@ == Seq::<Job>::empty(),
            q.jobs.spec_capacity() == QUEUE_CAPACITY,
            !q.warm,
            !q.stop,
    {
        Queued { jobs: TranslationQueue::new(QUEUE_CAPACITY), warm: false, stop: false }
    }

    /// What the worker does next: stop before anything else, then the
    /// oldest sentence, then a requested warm-up (taken, so it happens
    /// once). `None`: nothing to do, wait to be woken.
    pub fn next_wake(&mut self) -> (w: Option<Woke>)
        requires
            old(self).jobs.wf(),
        ensures
            final(self).jobs.wf(),
            final(self).jobs.spec_capacity() == old(self).jobs.spec_capacity(),
            final(self).stop == old(self).stop,
            old(self).stop ==> w == Some(Woke::Stop) && final(self).jobs@ == old(self).jobs@
                && final(self).warm == old(self).warm,
            !old(self).stop && old(self).jobs@.len() > 0 ==> {
                &&& w == Some(Woke::Job(old(self).jobs@[0]))
                &&& final(self).jobs@ == old(self).jobs@.drop_first()
                &&& final(self).warm == old(self).warm
            },
            !old(self).stop && old(self).jobs@.len() == 0 ==> {
                &&& final(self).jobs@ == old(self).jobs@
                &&& !final(self).warm
                &&& w == (if old(self).warm { Some(Woke::Warm) } else { None })
            },
    {
        if self.stop {
            return Some(Woke::Stop);
        }
        if let Some(job) = self.jobs.pop() {
            return Some(Woke::Job(job));
        }
        if self.warm {
            self.warm = false;
            return Some(Woke::Warm);
        }
        None
    }
}

/// The language names a sentence is translated with: the source's name, or
/// nothing when detection was not confident enough to say, and the target's.
pub fn job_languages(job: &Job) -> (names: (&str, &str))
    ensures
        names.0@ == (match opt_chars(job.source) {
            Some(s) => language_name_spec(s),
            None => Seq::<char>::empty(),
        }),
        names.1@ == language_name_spec(job.target@),
{
    proof {
        reveal_strlit("");
    }
    let source = match &job.source {
        Some(s) => language_name(s.as_str()),
        None => "",
    };
    (source, language_name(job.target.as_str()))
}

/// What a sentence gets when no translator is loaded: the load failure,
/// else a plain "unavailable".
pub fn unavailable_status(load_error: &Option<String>) -> (s: Status)
    ensures
        s matches Status::Failed(m) && m@ == (match opt_chars(*load_error) {
            Some(e) => e,
            None => "translation backend unavailable"@,
        }),
{
    proof {
        reveal_strlit("translation backend unavailable");
    }
    match load_error {
        Some(e) => Status::Failed(e.clone()),
        None => Status::Failed(String::from_str("translation backend unavailable")),
    }
}

/// The message a failed model load leaves for every later sentence.
pub fn load_failure_message(error: &str) -> (m: String)
    ensures
        m@ == "translation unavailable: "@ + error@,
{
    proof {
        reveal_strlit("translation unavailable: ");
    }
    let mut m = String::from_str("translation unavailable: ");
    m.append(error);
    m
}

/// Whether the worker loads the model before a sentence: only when none is
/// loaded and no earlier load failed (a warm-up retries a failure).
pub fn load_before_job(loaded: bool, load_failed: bool) -> (b: bool)
    ensures
        b == (!loaded && !load_failed),
{
    !loaded && !load_failed
}

/// The outcome reported for a sentence.
pub fn outcome_for(job: Job, status: Status) -> (o: Outcome)
    ensures
        o.id == job.id,
        o.lane == job.lane,
        o.target == job.target,
        o.status == status,
{
    Outcome { id: job.id, lane: job.lane, target: job.target, status }
}

} // verus!
