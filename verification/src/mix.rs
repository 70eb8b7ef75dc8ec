//! Mixes the capture lanes into one timeline. The caller says where each
//! chunk belongs, in samples from the session's zero; the mixer adds the
//! lanes up and decides when a moment is settled enough to write out. How
//! two samples combine is the caller's: it hands the addition in.
use vstd::prelude::*;

verus! {

/// The furthest any lane has reached.
pub open spec fn furthest(c: Seq<usize>) -> nat
    decreases c.len(),
{
    if c.len() == 0 {
        0
    } else {
        let prev = furthest(c.drop_last());
        if c.last() > prev {
            c.last() as nat
        } else {
            prev
        }
    }
}

/// No lane is further than the furthest.
pub proof fn lemma_furthest_bounds(c: Seq<usize>)
    ensures
        forall|i: int| 0 <= i < c.len() ==> #[trigger] c[i] <= furthest(c),
    decreases c.len(),
{
    if c.len() > 0 {
        lemma_furthest_bounds(c.drop_last());
        assert forall|i: int| 0 <= i < c.len() implies #[trigger] c[i] <= furthest(c) by {
            if i < c.len() - 1 {
                assert(c[i] == c.drop_last()[i]);
            }
        }
    }
}

/// How many samples a drain with `lag` emits.
pub open spec fn drain_count(written: nat, buffered: nat, cursors: Seq<usize>, lag: nat) -> nat {
    let head = if cursors.len() == 0 { written } else { furthest(cursors) };
    let behind: nat = if head >= lag { (head - lag) as nat } else { 0 };
    let upto = if behind >= written { behind } else { written };
    let n = (upto - written) as nat;
    if n <= buffered { n } else { buffered }
}

/// Slot `k` after a chunk starting at `offset` was added: the addition of
/// what was there (an unspecified silence value past the old end) and the
/// chunk's sample.
pub open spec fn combined_at<S, F: Fn(S, S) -> S>(combine: F, before: Seq<S>, samples: Seq<S>, offset: int, k: int, now: S) -> bool {
    if k < before.len() {
        call_ensures(combine, (before[k], samples[k - offset]), now)
    } else {
        exists|z: S| #[trigger] call_ensures(combine, (z, samples[k - offset]), now)
    }
}

/// Accumulates the lanes into a single stream.
pub struct Mixer<S> {
    /// Absolute position of `buf[0]`: everything before it is already out.
    written: usize,
    /// Sums for the region still open to contributions.
    buf: Vec<S>,
    /// Where each lane's audio has reached: its last chunk's end.
    cursors: Vec<usize>,
}

impl<S: Copy + Default> Mixer<S> {
    pub closed spec fn spec_written(&self) -> nat {
        self.written as nat
    }

    pub closed spec fn spec_buf(&self) -> Seq<S> {
        self.buf@
    }

    pub closed spec fn spec_cursors(&self) -> Seq<usize> {
        self.cursors@
    }

    /// No lane has placed audio past the end of the timeline the mixer
    /// holds (written out or buffered).
    pub open spec fn covers_lanes(&self) -> bool {
        forall|i: int|
            0 <= i < self.spec_cursors().len() ==> #[trigger] self.spec_cursors()[i] <= self.spec_written()
                + self.spec_buf().len()
    }

    pub fn new(lanes: usize) -> (m: Self)
        ensures
            m.spec_written() == 0,
            m.spec_buf() == Seq::<S>::empty(),
            m.spec_cursors() == Seq::new(lanes as nat, |i: int| 0usize),
            m.covers_lanes(),
    {
        let m = Mixer { written: 0, buf: Vec::new(), cursors: vec![0; lanes] };
        assert(m.cursors@ =~= Seq::new(lanes as nat, |i: int| 0usize));
        m
    }

    /// Place one lane's audio at `at` and report the silence that leaves in
    /// front of it, which the lane's own recording must be padded by to stay
    /// in step. Audio for a moment already written out goes in at the head.
    pub fn push_at<F: Fn(S, S) -> S>(&mut self, lane: usize, samples: &[S], at: usize, combine: F) -> (skipped: usize)
        requires
            lane < old(self).spec_cursors().len(),
            (if at >= old(self).spec_written() { at as nat } else { old(self).spec_written() }) + samples@.len()
                <= usize::MAX,
            forall|a: S, b: S| call_requires(combine, (a, b)),
        ensures
            final(self).spec_written() == old(self).spec_written(),
            old(self).covers_lanes() ==> final(self).covers_lanes(),
            samples@.len() == 0 ==> skipped == 0 && *final(self) == *old(self),
            samples@.len() > 0 ==> {
                let start: nat = if at >= old(self).spec_written() { at as nat } else { old(self).spec_written() };
                let offset = (start - old(self).spec_written()) as nat;
                let end = offset + samples@.len();
                let cursor = old(self).spec_cursors()[lane as int];
                &&& skipped == (if start >= cursor { (start - cursor) as nat } else { 0 })
                &&& final(self).spec_cursors() == old(self).spec_cursors().update(lane as int, (start + samples@.len()) as usize)
                &&& final(self).spec_buf().len() == (if old(self).spec_buf().len() >= end { old(self).spec_buf().len() } else { end })
                &&& forall|i: int| offset <= i < end ==> combined_at(
                    combine,
                    old(self).spec_buf(),
                    samples@,
                    offset as int,
                    i,
                    #[trigger] final(self).spec_buf()[i],
                )
                &&& forall|i: int| 0 <= i < old(self).spec_buf().len() && !(offset <= i < end)
                    ==> #[trigger] final(self).spec_buf()[i] == old(self).spec_buf()[i]
            },
    {
        if samples.len() == 0 {
            return 0;
        }
        let start = if at >= self.written {
            at
        } else {
            self.written
        };
        let cursor = self.cursors[lane];
        let skipped = if start >= cursor {
            start - cursor
        } else {
            0
        };
        let offset = start - self.written;
        let end = offset + samples.len();
        let ghost before = self.buf@;
        if self.buf.len() < end {
            self.buf.resize(end, S::default());
        }
        let ghost grown = self.buf@;
        let ghost w0 = self.written;
        let ghost c0 = self.cursors@;
        let mut i: usize = 0;
        while i < samples.len()
            invariant
                i <= samples@.len(),
                self.written == w0,
                self.cursors@ == c0,
                lane < c0.len(),
                offset + samples@.len() <= usize::MAX,
                end == offset + samples@.len(),
                self.buf@.len() == grown.len(),
                grown.len() == (if before.len() >= end { before.len() } else { end as nat }),
                forall|k: int| 0 <= k < before.len() ==> grown[k] == before[k],
                forall|a: S, b: S| call_requires(combine, (a, b)),
                forall|k: int| offset <= k < offset + i ==> combined_at(combine, before, samples@, offset as int, k, #[trigger] self.buf@[k]),
                forall|k: int| 0 <= k < self.buf@.len() && !(offset <= k < offset + i) ==> #[trigger] self.buf@[k] == grown[k],
            decreases samples@.len() - i,
        {
            let current = self.buf[offset + i];
            let v = combine(current, samples[i]);
            let ghost prev = self.buf@;
            self.buf.set(offset + i, v);
            proof {
                let k0 = (offset + i) as int;
                assert(prev[k0] == grown[k0]);
                if k0 >= before.len() {
                    assert(call_ensures(combine, (grown[k0], samples@[k0 - offset]), self.buf@[k0]));
                } else {
                    assert(grown[k0] == before[k0]);
                }
                assert(combined_at(combine, before, samples@, offset as int, k0, self.buf@[k0]));
                assert forall|k: int| offset <= k < offset + i + 1 implies combined_at(combine, before, samples@, offset as int, k, #[trigger] self.buf@[k]) by {
                    if k != k0 {
                        assert(self.buf@[k] == prev[k]);
                    }
                }
                assert forall|k: int| 0 <= k < self.buf@.len() && !(offset <= k < offset + i + 1) implies #[trigger] self.buf@[k] == grown[k] by {
                    assert(self.buf@[k] == prev[k]);
                }
            }
            i = i + 1;
        }
        let ghost c1 = self.cursors@;
        self.cursors.set(lane, start + samples.len());
        proof {
            if old(self).covers_lanes() {
                assert forall|k: int| 0 <= k < self.cursors@.len() implies #[trigger] self.cursors@[k] <= self.written
                    + self.buf@.len() by {
                    if k != lane {
                        assert(self.cursors@[k] == c1[k]);
                        assert(c1[k] == old(self).spec_cursors()[k]);
                    }
                }
            }
        }
        skipped
    }

    /// Emit the mixed audio, holding back `lag` samples behind the furthest
    /// lane so a lane polled later can still land where it belongs.
    pub fn drain(&mut self, lag: usize) -> (out: Vec<S>)
        ensures
            ({
                let n = drain_count(
                    old(self).spec_written(),
                    old(self).spec_buf().len(),
                    old(self).spec_cursors(),
                    lag as nat,
                );
                &&& out@ == old(self).spec_buf().take(n as int)
                &&& final(self).spec_buf() == old(self).spec_buf().skip(n as int)
                &&& final(self).spec_written() == old(self).spec_written() + n
                &&& final(self).spec_cursors() == old(self).spec_cursors()
            }),
            old(self).covers_lanes() ==> final(self).covers_lanes(),
    {
        let mut head = self.written;
        if self.cursors.len() > 0 {
            head = 0;
            let mut i: usize = 0;
            while i < self.cursors.len()
                invariant
                    i <= self.cursors@.len(),
                    head == furthest(self.cursors@.take(i as int)),
                decreases self.cursors@.len() - i,
            {
                proof {
                    assert(self.cursors@.take(i + 1).drop_last() =~= self.cursors@.take(i as int));
                }
                if self.cursors[i] > head {
                    head = self.cursors[i];
                }
                i = i + 1;
            }
            proof {
                assert(self.cursors@.take(i as int) =~= self.cursors@);
            }
        }
        let behind = head.saturating_sub(lag);
        let upto = if behind >= self.written {
            behind
        } else {
            self.written
        };
        let n0 = upto - self.written;
        let n = if n0 <= self.buf.len() {
            n0
        } else {
            self.buf.len()
        };
        let ghost old_buf = self.buf@;
        let mut head_part = self.buf.split_off(n);
        std::mem::swap(&mut self.buf, &mut head_part);
        proof {
            assert(self.buf@ =~= old_buf.skip(n as int));
            assert(head_part@ =~= old_buf.take(n as int));
        }
        self.written = self.written + n;
        head_part
    }

    /// Emit everything left, holding nothing back (the session ended).
    pub fn finish(&mut self) -> (out: Vec<S>)
        ensures
            ({
                let n = drain_count(
                    old(self).spec_written(),
                    old(self).spec_buf().len(),
                    old(self).spec_cursors(),
                    0,
                );
                &&& out@ == old(self).spec_buf().take(n as int)
                &&& final(self).spec_buf() == old(self).spec_buf().skip(n as int)
                &&& final(self).spec_written() == old(self).spec_written() + n
                &&& final(self).spec_cursors() == old(self).spec_cursors()
            }),
            old(self).covers_lanes() ==> final(self).covers_lanes(),
            old(self).covers_lanes() ==> forall|i: int|
                0 <= i < final(self).spec_cursors().len() ==> #[trigger] final(self).spec_cursors()[i]
                    <= final(self).spec_written(),
    {
        let out = self.drain(0);
        proof {
            lemma_furthest_bounds(self.cursors@);
        }
        out
    }

    /// How much has been emitted: the length of the mixed timeline so far.
    pub fn position(&self) -> (n: usize)
        ensures
            n == self.spec_written(),
    {
        self.written
    }
}

} // verus!
