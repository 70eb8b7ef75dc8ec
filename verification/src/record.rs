//! The recording's timeline: one rate for every file, and the bookkeeping
//! that keeps each lane's file in step with the session's clock. The files
//! themselves are written by the application.
use vstd::prelude::*;

use crate::mix::{combined_at, drain_count, Mixer};
use crate::text::{decimal, decimal_string};

verus! {

/// One rate for every file written, so the lanes and their mix share a
/// format whatever each device runs at.
pub const RECORD_RATE: u32 = 48_000;

/// How far behind the furthest lane the mix stays, in recording samples.
pub const MIX_LAG_SAMPLES: usize = 96_000;

/// Gap below which a lane is taken to be continuous, in recording samples
/// (30 ms): capture timestamps wobble and the resampler holds input back.
pub const SNAP_SAMPLES: usize = 1_440;

/// What the recorder needs to know about one capture lane.
pub struct LaneSpec {
    /// File stem: `mic` gives `mic.wav`.
    pub name: &'static str,
    pub src_rate: u32,
}

/// Where a chunk timestamped at `at` goes in a lane's file that already
/// holds `written` samples: straight after them when the gap is within the
/// snap, else where its timestamp says.
pub open spec fn snapped_start(at: nat, written: nat) -> nat {
    if at < written + SNAP_SAMPLES {
        written
    } else {
        at
    }
}

pub fn snap_start(at: usize, written: usize) -> (start: usize)
    ensures
        start == snapped_start(at as nat, written as nat),
{
    if at.saturating_sub(written) < SNAP_SAMPLES {
        written
    } else {
        at
    }
}

/// One lane file's bookkeeping.
#[derive(Clone, Copy, Debug)]
pub struct LaneBook {
    /// Silence written into the file that the device never delivered: its
    /// late start plus every dropout since. This is how far the lane's own
    /// clock trails the recording's.
    pub padding: usize,
    /// Samples in the file, silence included.
    pub written: usize,
}

impl LaneBook {
    pub fn new() -> (b: Self)
        ensures
            b.padding == 0,
            b.written == 0,
    {
        LaneBook { padding: 0, written: 0 }
    }

    /// `len` samples went in after `skipped` samples of silence.
    pub fn wrote(&mut self, skipped: usize, len: usize)
        requires
            old(self).padding + skipped <= usize::MAX,
            old(self).written + skipped + len <= usize::MAX,
        ensures
            final(self).padding == old(self).padding + skipped,
            final(self).written == old(self).written + skipped + len,
    {
        self.padding = self.padding + skipped;
        self.written = self.written + skipped + len;
    }

    /// Bring the file up to `total` samples with silence; returns how much
    /// is owed. A file already that long is left alone.
    pub fn pad_to(&mut self, total: usize) -> (owed: usize)
        requires
            old(self).padding + (if total >= old(self).written { total - old(self).written } else { 0 })
                <= usize::MAX,
        ensures
            owed == (if total >= old(self).written { total - old(self).written } else { 0 }),
            final(self).written == padded_len(old(self).written as nat, total as nat),
            final(self).padding == old(self).padding + owed,
    {
        let owed = total.saturating_sub(self.written);
        self.padding = self.padding + owed;
        self.written = self.written + owed;
        owed
    }
}

/// A file's length after padding it up to `total`.
pub open spec fn padded_len(written: nat, total: nat) -> nat {
    if total >= written {
        total
    } else {
        written
    }
}

/// Every file ends at the same moment: lanes no longer than the mix, each
/// padded up to it, all end where the mix does.
pub proof fn lemma_files_end_together(written: Seq<usize>, total: usize)
    requires
        forall|i: int| 0 <= i < written.len() ==> written[i] <= total,
    ensures
        forall|i: int| 0 <= i < written.len() ==> #[trigger] padded_len(written[i] as nat, total as nat) == total,
{
}

/// Where a chunk of a lane whose file holds `lane_len` samples, timestamped
/// at `at`, lands on a mix already written out to `written`: snapped to the
/// file's end when the gap is small, and never before what is written out.
pub open spec fn placed_start(at: nat, lane_len: nat, written: nat) -> nat {
    let snapped = snapped_start(at, lane_len);
    if snapped >= written {
        snapped
    } else {
        written
    }
}

/// How many samples each lane's file holds.
pub open spec fn book_lens(books: Seq<LaneBook>) -> Seq<usize> {
    books.map_values(|b: LaneBook| b.written)
}

/// A session's lane files and their mix, counted: each lane's file and
/// the mixer that adds the lanes up. A lane's file holds exactly as many
/// samples as the mixer has placed for that lane, silence included, so the
/// files share the mix's timeline.
pub struct Tracks<S> {
    mixer: Mixer<S>,
    books: Vec<LaneBook>,
}

impl<S: Copy + Default> Tracks<S> {
    pub closed spec fn mixer(&self) -> Mixer<S> {
        self.mixer
    }

    /// Each lane file's bookkeeping.
    pub closed spec fn books(&self) -> Seq<LaneBook> {
        self.books@
    }

    /// How many samples each lane's file holds.
    pub open spec fn lane_lens(&self) -> Seq<usize> {
        book_lens(self.books())
    }

    /// Each lane's file ends where the mixer placed that lane's audio, no
    /// lane is past what the mixer holds, and no file holds more silence
    /// than samples.
    pub open spec fn wf(&self) -> bool {
        &&& self.lane_lens() == self.mixer().spec_cursors()
        &&& self.mixer().covers_lanes()
        &&& forall|i: int| 0 <= i < self.books().len() ==> #[trigger] self.books()[i].padding <= self.books()[i].written
    }

    pub fn new(lanes: usize) -> (t: Self)
        ensures
            t.wf(),
            t.lane_lens() == Seq::new(lanes as nat, |i: int| 0usize),
            forall|i: int| 0 <= i < lanes ==> #[trigger] t.books()[i].padding == 0,
            t.mixer().spec_written() == 0,
            t.mixer().spec_buf() == Seq::<S>::empty(),
    {
        let mixer = Mixer::new(lanes);
        let mut books: Vec<LaneBook> = Vec::new();
        let mut i: usize = 0;
        while i < lanes
            invariant
                i <= lanes,
                books@.len() == i,
                forall|k: int| 0 <= k < i ==> #[trigger] books@[k].written == 0 && books@[k].padding == 0,
            decreases lanes - i,
        {
            books.push(LaneBook::new());
            i = i + 1;
        }
        assert(book_lens(books@) =~= Seq::new(lanes as nat, |i: int| 0usize));
        Tracks { mixer, books }
    }

    /// How many samples lane `lane`'s file holds.
    pub fn lane_len(&self, lane: usize) -> (n: usize)
        requires
            lane < self.lane_lens().len(),
        ensures
            n == self.lane_lens()[lane as int],
    {
        self.books[lane].written
    }

    /// How long the mix written out is.
    pub fn position(&self) -> (n: usize)
        ensures
            n == self.mixer().spec_written(),
    {
        self.mixer.position()
    }

    /// Place `samples` of lane `lane`, timestamped at `at`, per
    /// [`placed_start`]; returns the silence the lane's file takes in front
    /// of them. `None`, with nothing changed, when there is no such lane or
    /// the timeline would run past `usize::MAX`.
    pub fn place<F: Fn(S, S) -> S>(&mut self, lane: usize, samples: &[S], at: usize, combine: F) -> (r: Option<usize>)
        requires
            old(self).wf(),
            forall|a: S, b: S| call_requires(combine, (a, b)),
        ensures
            final(self).wf(),
            r is None <==> (lane >= old(self).lane_lens().len() || (samples@.len() > 0 && placed_start(
                at as nat,
                old(self).lane_lens()[lane as int] as nat,
                old(self).mixer().spec_written(),
            ) + samples@.len() > usize::MAX)),
            r is None ==> *final(self) == *old(self),
            r is Some && samples@.len() == 0 ==> r == Some(0usize) && *final(self) == *old(self),
            r is Some && samples@.len() > 0 ==> {
                let len = old(self).lane_lens()[lane as int];
                let w = old(self).mixer().spec_written();
                let start = placed_start(at as nat, len as nat, w);
                let offset = (start - w) as nat;
                let end = offset + samples@.len();
                let buf = old(self).mixer().spec_buf();
                &&& r == Some((start - len) as usize)
                &&& final(self).lane_lens() == old(self).lane_lens().update(lane as int, (start + samples@.len()) as usize)
                &&& final(self).books()[lane as int].padding == old(self).books()[lane as int].padding + (start - len)
                &&& forall|i: int| 0 <= i < old(self).books().len() && i != lane ==> #[trigger] final(self).books()[i]
                    == old(self).books()[i]
                &&& final(self).mixer().spec_written() == w
                &&& final(self).mixer().spec_buf().len() == (if buf.len() >= end { buf.len() } else { end })
                &&& forall|i: int| offset <= i < end ==> combined_at(
                    combine,
                    buf,
                    samples@,
                    offset as int,
                    i,
                    #[trigger] final(self).mixer().spec_buf()[i],
                )
                &&& forall|i: int| 0 <= i < buf.len() && !(offset <= i < end) ==> #[trigger] final(self).mixer().spec_buf()[i]
                    == buf[i]
            },
    {
        if lane >= self.books.len() {
            return None;
        }
        if samples.len() == 0 {
            return Some(0);
        }
        let book = self.books[lane];
        let snapped = snap_start(at, book.written);
        let w = self.mixer.position();
        let start = if snapped >= w {
            snapped
        } else {
            w
        };
        if samples.len() > usize::MAX - start {
            return None;
        }
        proof {
            assert(book_lens(self.books@)[lane as int] == book.written);
            assert(self.books@[lane as int].padding <= self.books@[lane as int].written);
        }
        let ghost before = self.books@;
        let skipped = self.mixer.push_at(lane, samples, snapped, combine);
        let mut book = book;
        book.wrote(skipped, samples.len());
        self.books.set(lane as usize, book);
        proof {
            assert(book_lens(self.books@) =~= book_lens(before).update(lane as int, (start + samples@.len()) as usize));
            assert forall|i: int| 0 <= i < self.books@.len() implies #[trigger] self.books@[i].padding <= self.books@[i].written by {
                if i != lane {
                    assert(self.books@[i] == before[i]);
                }
            }
        }
        Some(skipped)
    }

    /// Hand out the mix that no lane can still change: up to `lag` samples
    /// behind the furthest lane (see [`drain_count`]).
    pub fn drain(&mut self, lag: usize) -> (out: Vec<S>)
        requires
            old(self).wf(),
        ensures
            final(self).wf(),
            final(self).books() == old(self).books(),
            ({
                let n = drain_count(
                    old(self).mixer().spec_written(),
                    old(self).mixer().spec_buf().len(),
                    old(self).mixer().spec_cursors(),
                    lag as nat,
                );
                &&& out@ == old(self).mixer().spec_buf().take(n as int)
                &&& final(self).mixer().spec_buf() == old(self).mixer().spec_buf().skip(n as int)
                &&& final(self).mixer().spec_written() == old(self).mixer().spec_written() + n
            }),
    {
        self.mixer.drain(lag)
    }

    /// The session ended: hand out the rest of the mix, and bring every
    /// lane's file up to the mix's length with silence; the second result
    /// is how much silence each file owes. Every file then ends where the
    /// mix does.
    pub fn close(&mut self) -> (r: (Vec<S>, Vec<usize>))
        requires
            old(self).wf(),
        ensures
            ({
                let n = drain_count(
                    old(self).mixer().spec_written(),
                    old(self).mixer().spec_buf().len(),
                    old(self).mixer().spec_cursors(),
                    0,
                );
                let total = old(self).mixer().spec_written() + n;
                &&& r.0@ == old(self).mixer().spec_buf().take(n as int)
                &&& final(self).mixer().spec_written() == total
                &&& final(self).mixer().spec_buf() == old(self).mixer().spec_buf().skip(n as int)
                &&& final(self).books().len() == old(self).books().len()
                &&& r.1@.len() == old(self).books().len()
                &&& forall|i: int| 0 <= i < old(self).books().len() ==> {
                    &&& old(self).lane_lens()[i] <= total
                    &&& #[trigger] final(self).lane_lens()[i] == total
                    &&& r.1@[i] == total - old(self).lane_lens()[i]
                    &&& final(self).books()[i].padding == old(self).books()[i].padding + r.1@[i]
                }
            }),
    {
        let mixed = self.mixer.finish();
        let total = self.mixer.position();
        let ghost before = self.books@;
        let ghost finished = self.mixer;
        proof {
            assert forall|k: int| 0 <= k < before.len() implies #[trigger] before[k].written <= total by {
                assert(book_lens(before)[k] == before[k].written);
                assert(self.mixer.spec_cursors()[k] <= self.mixer.spec_written());
            }
        }
        let mut owed: Vec<usize> = Vec::new();
        let mut i: usize = 0;
        while i < self.books.len()
            invariant
                i <= self.books@.len(),
                self.books@.len() == before.len(),
                self.mixer == finished,
                owed@.len() == i,
                forall|k: int| 0 <= k < before.len() ==> #[trigger] before[k].written <= total,
                forall|k: int| 0 <= k < before.len() ==> #[trigger] before[k].padding <= before[k].written,
                forall|k: int| 0 <= k < i ==> {
                    &&& #[trigger] self.books@[k].written == total
                    &&& owed@[k] == total - before[k].written
                    &&& self.books@[k].padding == before[k].padding + owed@[k]
                },
                forall|k: int| i <= k < before.len() ==> #[trigger] self.books@[k] == before[k],
            decreases before.len() - i,
        {
            let mut book = self.books[i];
            let o = book.pad_to(total);
            self.books.set(i, book);
            owed.push(o);
            i = i + 1;
        }
        proof {
            assert forall|k: int| 0 <= k < before.len() implies #[trigger] book_lens(self.books@)[k] == total by {
                assert(self.books@[k].written == total);
            }
            assert forall|k: int| 0 <= k < before.len() implies book_lens(before)[k] <= total by {
                assert(book_lens(before)[k] == before[k].written);
            }
        }
        (mixed, owed)
    }
}

/// The directory name for the `attempt`-th try at a session name: the name
/// itself first, then `name-2`, `name-3`, and so on.
pub open spec fn session_dir_spec(name: Seq<char>, attempt: u32) -> Seq<char> {
    if attempt <= 1 {
        name
    } else {
        name + "-"@ + decimal(attempt as nat)
    }
}

pub fn session_dir_name(name: &str, attempt: u32) -> (dir: String)
    ensures
        dir@ == session_dir_spec(name@, attempt),
{
    proof {
        reveal_strlit("-");
    }
    let mut dir = String::from_str(name);
    if attempt > 1 {
        dir.append("-");
        let n = decimal_string(attempt as u64);
        dir.append(n.as_str());
    }
    dir
}

} // verus!
