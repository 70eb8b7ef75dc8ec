//! The queue between recognition and translation.
//!
//! Recognition must never wait for translation: a slow sentence would stall
//! the decode loop and cost the *next* sentence its audio. So finished
//! utterances go into a bounded queue that a translation thread drains, and
//! the queue — not the pipeline — absorbs the overload.
use vstd::prelude::*;

use std::collections::VecDeque;

use crate::Lane;

verus! {

/// One sentence waiting to be translated, carrying the id of the transcript
/// line the result belongs to.
#[derive(Debug, Clone, PartialEq, Eq)]
pub struct Job {
    /// The utterance this translates; the UI attaches the result by it.
    pub id: u64,
    pub lane: Lane,
    pub text: String,
    /// The language it was spoken in, when detection was confident enough to
    /// say. `None` leaves it for the model to infer.
    pub source: Option<String>,
    pub target: String,
}

/// A bounded backlog of sentences awaiting translation.
///
/// When it overflows the **oldest** job is dropped: what is worth reading in a
/// live meeting is the sentence currently on screen. The dropped job is handed
/// back so the UI can take down its "translating…" placeholder.
pub struct TranslationQueue {
    capacity: usize,
    jobs: VecDeque<Job>,
}

impl View for TranslationQueue {
    type V = Seq<Job>;

    closed spec fn view(&self) -> Seq<Job> {
        self.jobs@
    }
}

impl TranslationQueue {
    /// The number of sentences the queue holds at most.
    pub closed spec fn spec_capacity(&self) -> nat {
        self.capacity as nat
    }

    /// Able to hold something, and never over capacity.
    pub open spec fn wf(&self) -> bool {
        &&& self.spec_capacity() > 0
        &&& self@.len() <= self.spec_capacity()
    }

    /// `capacity` is in sentences. Sized for a burst — both lanes talking
    /// over each other — not for an unbounded backlog. A queue that can hold
    /// nothing is a caller's bug.
    pub fn new(capacity: usize) -> (q: Self)
        requires
            capacity > 0,
        ensures
            q.wf(),
            q@ == Seq::<Job>::empty(),
            q.spec_capacity() == capacity,
    {
        TranslationQueue { capacity, jobs: VecDeque::new() }
    }

    /// Queue a sentence, returning whichever job had to be dropped to make
    /// room for it: the oldest, and only when the queue was full.
    pub fn push(&mut self, job: Job) -> (evicted: Option<Job>)
        requires
            old(self).wf(),
        ensures
            final(self).wf(),
            final(self).spec_capacity() == old(self).spec_capacity(),
            old(self)@.len() < old(self).spec_capacity() ==> {
                &&& evicted is None
                &&& final(self)@ == old(self)@.push(job)
            },
            old(self)@.len() >= old(self).spec_capacity() ==> {
                &&& evicted == Some(old(self)@[0])
                &&& final(self)@ == old(self)@.drop_first().push(job)
            },
            final(self)@ == pushed(old(self)@, old(self).spec_capacity(), job),
    {
        let evicted = if self.jobs.len() >= self.capacity {
            self.jobs.pop_front()
        } else {
            None
        };
        self.jobs.push_back(job);
        evicted
    }

    /// The oldest waiting sentence, if any.
    pub fn pop(&mut self) -> (job: Option<Job>)
        requires
            old(self).wf(),
        ensures
            final(self).wf(),
            final(self).spec_capacity() == old(self).spec_capacity(),
            old(self)@.len() == 0 ==> job is None && final(self)@ == old(self)@,
            old(self)@.len() > 0 ==> job == Some(old(self)@[0]) && final(self)@ == old(self)@.drop_first(),
    {
        self.jobs.pop_front()
    }

    pub fn len(&self) -> (n: usize)
        ensures
            n == self@.len(),
    {
        self.jobs.len()
    }

    pub fn is_empty(&self) -> (b: bool)
        ensures
            b == (self@.len() == 0),
    {
        self.jobs.len() == 0
    }

    /// Abandon everything still waiting, oldest first, e.g. when the session
    /// ends before the backlog cleared.
    pub fn drain(&mut self) -> (jobs: Vec<Job>)
        requires
            old(self).wf(),
        ensures
            final(self).wf(),
            final(self).spec_capacity() == old(self).spec_capacity(),
            jobs@ == old(self)@,
            final(self)@ == Seq::<Job>::empty(),
    {
        let mut out: Vec<Job> = Vec::new();
        while self.jobs.len() > 0
            invariant
                self.wf(),
                self.capacity == old(self).capacity,
                out@ + self.jobs@ == old(self)@,
            decreases self.jobs@.len(),
        {
            let ghost before = self.jobs@;
            match self.jobs.pop_front() {
                Some(job) => {
                    out.push(job);
                    assert(out@ + self.jobs@ =~= old(self)@) by {
                        assert(before == seq![before[0]] + before.drop_first());
                    }
                },
                None => {},
            }
        }
        assert(self.jobs@ =~= Seq::<Job>::empty());
        assert(out@ =~= old(self)@);
        out
    }
}

/// The queue after one push: the job joins the back, and a full queue
/// loses its front.
pub open spec fn pushed(q: Seq<Job>, capacity: nat, job: Job) -> Seq<Job> {
    if q.len() < capacity {
        q.push(job)
    } else {
        q.drop_first().push(job)
    }
}

/// The queue after pushing `jobs` in order, with nothing taken out.
pub open spec fn pushed_all(q: Seq<Job>, capacity: nat, jobs: Seq<Job>) -> Seq<Job>
    decreases jobs.len(),
{
    if jobs.len() == 0 {
        q
    } else {
        pushed(pushed_all(q, capacity, jobs.drop_last()), capacity, jobs.last())
    }
}

/// Overload drops the oldest: however many sentences arrive while none is
/// taken, the queue holds the newest `capacity` of them, in arrival order.
pub proof fn lemma_queue_keeps_the_newest(capacity: nat, jobs: Seq<Job>)
    requires
        capacity > 0,
    ensures
        pushed_all(Seq::empty(), capacity, jobs) == jobs.skip(
            if jobs.len() > capacity { jobs.len() - capacity } else { 0 },
        ),
    decreases jobs.len(),
{
    if jobs.len() > 0 {
        let prev = jobs.drop_last();
        lemma_queue_keeps_the_newest(capacity, prev);
        let r = pushed_all(Seq::<Job>::empty(), capacity, prev);
        if prev.len() < capacity {
            assert(r =~= prev);
            assert(r.push(jobs.last()) =~= jobs.skip(0));
        } else {
            let k = prev.len() - capacity;
            assert(r =~= prev.skip(k));
            assert(r.len() == capacity);
            assert(r.drop_first().push(jobs.last()) =~= jobs.skip(jobs.len() - capacity));
        }
    } else {
        assert(jobs.skip(0) =~= jobs);
    }
}

} // verus!
