//! The capture side's plain data: when audio was captured, which output
//! device the speaker lane follows, and the rules for acting on a change of
//! that device.
use vstd::prelude::*;

use crate::text::str_eq;

verus! {

/// Seconds of interleaved audio a lane's ring buffer can hold.
pub const RING_CAPACITY_SECS: usize = 8;

/// Room for one anchor per capture callback.
pub const ANCHOR_CAPACITY: usize = 1024;

/// When a callback's first frame was captured, and where that frame sits in
/// the audio the lane has delivered.
#[derive(Clone, Copy, Debug, PartialEq, Eq, Structural)]
pub struct Anchor {
    /// Frames this lane delivered before the ones this anchor describes.
    pub frame: u64,
    /// Capture time of the first of those frames, in nanoseconds.
    pub nanos: u64,
}

/// How many of a callback's `len` interleaved samples fit in a ring with
/// `free` slots: whole frames only, since a partial frame would misalign
/// every frame read after it.
pub open spec fn writable_spec(free: nat, len: nat, channels: nat) -> nat {
    let room = if free <= len { free } else { len };
    (room / channels * channels) as nat
}

/// A capture callback's side of a lane's ring: counts the frames written,
/// which is what the anchors are numbered in.
pub struct RingFeed {
    /// Frames written to the ring so far.
    pub frames: u64,
}

/// What one callback does with its audio.
#[derive(Debug, PartialEq, Eq)]
pub struct FeedPlan {
    /// Leading samples to write to the ring.
    pub writable: usize,
    /// The anchor to stamp before writing them; none when nothing is written.
    pub anchor: Option<Anchor>,
    /// Samples lost to a full ring.
    pub dropped: usize,
}

impl RingFeed {
    pub fn new() -> (f: Self)
        ensures
            f.frames == 0,
    {
        RingFeed { frames: 0 }
    }

    /// One callback delivered `len` interleaved samples of `channels`
    /// channels, the first captured at `captured_nanos`, while the ring had
    /// `free` slots. The anchor is stamped before the write, so the reader
    /// always finds one at or before the audio it is looking at.
    pub fn accept(&mut self, free: usize, len: usize, channels: usize, captured_nanos: u64) -> (p: FeedPlan)
        requires
            channels > 0,
            old(self).frames + len / channels <= u64::MAX,
        ensures
            p.writable == writable_spec(free as nat, len as nat, channels as nat),
            p.writable <= len,
            p.dropped == len - p.writable,
            p.writable > 0 ==> p.anchor == Some(Anchor { frame: old(self).frames, nanos: captured_nanos })
                && final(self).frames == old(self).frames + p.writable / channels,
            p.writable == 0 ==> p.anchor is None && final(self).frames == old(self).frames,
    {
        let room = if free <= len {
            free
        } else {
            len
        };
        let frames = room / channels;
        assert(frames * channels <= room) by (nonlinear_arith)
            requires
                frames == room / channels,
                channels > 0,
        ;
        let writable = frames * channels;
        assert(writable / channels <= len / channels) by (nonlinear_arith)
            requires
                writable == room / channels * channels,
                room <= len,
                channels > 0,
        ;
        if writable > 0 {
            let anchor = Anchor { frame: self.frames, nanos: captured_nanos };
            self.frames = self.frames + (writable / channels) as u64;
            FeedPlan { writable, anchor: Some(anchor), dropped: len - writable }
        } else {
            FeedPlan { writable: 0, anchor: None, dropped: len }
        }
    }
}

/// The host clock's tick-to-nanosecond ratio as `(numer, denom)`, from the
/// kernel's answer. A failed query, or a zero denominator (a broken kernel),
/// gives 1/1, which at least keeps the arithmetic sane.
pub fn timebase(status: i32, numer: u32, denom: u32) -> (r: (u64, u64))
    ensures
        status != 0 || denom == 0 ==> r == (1u64, 1u64),
        status == 0 && denom != 0 ==> r == (numer as u64, denom as u64),
{
    if status != 0 || denom == 0 {
        (1, 1)
    } else {
        (numer as u64, denom as u64)
    }
}

/// Host clock ticks in nanoseconds: `ticks * numer / denom`, computed in
/// 128 bits and kept to its low 64.
pub fn ticks_to_nanos(ticks: u64, numer: u64, denom: u64) -> (n: u64)
    requires
        denom > 0,
    ensures
        n == (ticks as int * numer as int / denom as int) % 0x1_0000_0000_0000_0000,
{
    let t: u128 = ticks as u128;
    let m: u128 = numer as u128;
    assert(t * m <= u128::MAX) by (nonlinear_arith)
        requires
            t <= u64::MAX,
            m <= u64::MAX,
    ;
    let product: u128 = t * m;
    let q: u128 = product / (denom as u128);
    let n = #[verifier::truncate] (q as u64);
    assert(n == q % 0x1_0000_0000_0000_0000) by (bit_vector)
        requires
            n == q as u64,
    ;
    n
}

/// An output device as the OS reports it.
#[derive(Clone, Debug, PartialEq, Eq)]
pub struct OutputDevice {
    pub uid: String,
    pub name: String,
}

/// Why a pending output-device switch was dismissed without rebuilding IO.
#[derive(Clone, Copy, Debug, PartialEq, Eq, Structural)]
pub enum OutputDeviceSwitchCancellation {
    Rejected,
    StaleDecision,
    AlreadyCapturing,
}

/// Events produced by the speaker capture thread.
#[derive(Clone, Debug, PartialEq, Eq)]
pub enum OutputDeviceSwitchEvent {
    Detected { capturing: OutputDevice, detected: OutputDevice },
    Switched { previous: OutputDevice, current: OutputDevice },
    SwitchFailed { capturing: OutputDevice, detected: OutputDevice, error: String },
    Cancelled {
        capturing: OutputDevice,
        detected: OutputDevice,
        reason: OutputDeviceSwitchCancellation,
    },
}

/// A decision from the UI. `expected_uid` makes it safe against a newer
/// device change arriving while the prompt was on screen.
#[derive(Clone, Debug, PartialEq, Eq)]
pub enum OutputDeviceSwitchDecision {
    Switch { expected_uid: String },
    Cancel { expected_uid: String },
}

#[verifier::external_type_specification]
#[verifier::external_body]
#[verifier::reject_recursive_types(T)]
pub struct ExMutex<T: ?Sized>(std::sync::Mutex<T>);

#[verifier::external_type_specification]
#[verifier::external_body]
#[verifier::reject_recursive_types(T)]
pub struct ExReceiver<T>(std::sync::mpsc::Receiver<T>);

#[verifier::external_type_specification]
#[verifier::external_body]
#[verifier::reject_recursive_types(T)]
pub struct ExSender<T>(std::sync::mpsc::Sender<T>);

/// The speaker lane's control plane: events come out of the capture thread,
/// decisions go back in.
pub struct OutputDeviceSwitch {
    events: std::sync::Mutex<std::sync::mpsc::Receiver<OutputDeviceSwitchEvent>>,
    decisions: std::sync::mpsc::Sender<OutputDeviceSwitchDecision>,
}

impl OutputDeviceSwitch {
    pub closed spec fn spec_events(&self) -> std::sync::Mutex<std::sync::mpsc::Receiver<OutputDeviceSwitchEvent>> {
        self.events
    }

    pub closed spec fn spec_decisions(&self) -> std::sync::mpsc::Sender<OutputDeviceSwitchDecision> {
        self.decisions
    }

    pub fn new(
        events: std::sync::Mutex<std::sync::mpsc::Receiver<OutputDeviceSwitchEvent>>,
        decisions: std::sync::mpsc::Sender<OutputDeviceSwitchDecision>,
    ) -> (s: Self)
        ensures
            s.spec_events() == events,
            s.spec_decisions() == decisions,
    {
        OutputDeviceSwitch { events, decisions }
    }

    pub fn event_receiver(&self) -> (r: &std::sync::Mutex<std::sync::mpsc::Receiver<OutputDeviceSwitchEvent>>)
        ensures
            *r == self.spec_events(),
    {
        &self.events
    }

    pub fn decision_sender(&self) -> (r: &std::sync::mpsc::Sender<OutputDeviceSwitchDecision>)
        ensures
            *r == self.spec_decisions(),
    {
        &self.decisions
    }
}

/// The uid a decision was made about.
pub open spec fn decision_uid(d: OutputDeviceSwitchDecision) -> Seq<char> {
    match d {
        OutputDeviceSwitchDecision::Switch { expected_uid } => expected_uid@,
        OutputDeviceSwitchDecision::Cancel { expected_uid } => expected_uid@,
    }
}

/// What the capture thread does with a decision.
#[derive(Debug, Clone, Copy, PartialEq, Eq, Structural)]
pub enum SwitchAction {
    Switch,
    Cancel(OutputDeviceSwitchCancellation),
}

/// The action a decision calls for, given the device being captured and the
/// one most recently observed as the default output.
pub open spec fn action_spec(capturing: Seq<char>, observed: Seq<char>, d: OutputDeviceSwitchDecision) -> SwitchAction {
    if decision_uid(d) != observed {
        SwitchAction::Cancel(OutputDeviceSwitchCancellation::StaleDecision)
    } else if d is Cancel {
        SwitchAction::Cancel(OutputDeviceSwitchCancellation::Rejected)
    } else if capturing == observed {
        SwitchAction::Cancel(OutputDeviceSwitchCancellation::AlreadyCapturing)
    } else {
        SwitchAction::Switch
    }
}

/// Follows the default output device: which one is being captured, and which
/// one was last seen as the default.
pub struct OutputDeviceTracker {
    pub capturing: OutputDevice,
    pub observed: OutputDevice,
}

pub fn clone_device(d: &OutputDevice) -> (c: OutputDevice)
    ensures
        c.uid@ == d.uid@,
        c.name@ == d.name@,
{
    OutputDevice { uid: d.uid.clone(), name: d.name.clone() }
}

impl OutputDeviceTracker {
    pub fn new(capturing: OutputDevice) -> (t: Self)
        ensures
            t.capturing == capturing,
            t.observed.uid@ == capturing.uid@,
            t.observed.name@ == capturing.name@,
    {
        let observed = clone_device(&capturing);
        OutputDeviceTracker { observed, capturing }
    }

    /// Report a change of the default output, once per change: the same uid
    /// seen again is no news, while a return to the captured device is.
    pub fn observe(&mut self, detected: OutputDevice) -> (ev: Option<OutputDeviceSwitchEvent>)
        ensures
            final(self).capturing == old(self).capturing,
            detected.uid@ == old(self).observed.uid@ ==> {
                &&& ev is None
                &&& final(self).observed == old(self).observed
            },
            detected.uid@ != old(self).observed.uid@ ==> {
                &&& final(self).observed.uid@ == detected.uid@
                &&& final(self).observed.name@ == detected.name@
                &&& ev matches Some(OutputDeviceSwitchEvent::Detected { capturing, detected: d })
                &&& ev->0->Detected_capturing.uid@ == old(self).capturing.uid@
                &&& ev->0->Detected_capturing.name@ == old(self).capturing.name@
                &&& ev->0->Detected_detected == detected
            },
    {
        if str_eq(self.observed.uid.as_str(), detected.uid.as_str()) {
            return None;
        }
        self.observed = clone_device(&detected);
        Some(OutputDeviceSwitchEvent::Detected { capturing: clone_device(&self.capturing), detected })
    }

    /// Whether to rebuild capture for a decision: only an approval of the
    /// device still observed, and only if that is not the one captured.
    pub fn action_for(&self, decision: &OutputDeviceSwitchDecision) -> (a: SwitchAction)
        ensures
            a == action_spec(self.capturing.uid@, self.observed.uid@, *decision),
    {
        let expected_uid = match decision {
            OutputDeviceSwitchDecision::Switch { expected_uid } => expected_uid,
            OutputDeviceSwitchDecision::Cancel { expected_uid } => expected_uid,
        };
        if !str_eq(expected_uid.as_str(), self.observed.uid.as_str()) {
            return SwitchAction::Cancel(OutputDeviceSwitchCancellation::StaleDecision);
        }
        if let OutputDeviceSwitchDecision::Cancel { .. } = decision {
            return SwitchAction::Cancel(OutputDeviceSwitchCancellation::Rejected);
        }
        if str_eq(self.capturing.uid.as_str(), self.observed.uid.as_str()) {
            return SwitchAction::Cancel(OutputDeviceSwitchCancellation::AlreadyCapturing);
        }
        SwitchAction::Switch
    }

    /// The switch to the observed device went through: it is now the one
    /// captured.
    pub fn switched(&mut self)
        ensures
            final(self).observed == old(self).observed,
            final(self).capturing.uid@ == old(self).observed.uid@,
            final(self).capturing.name@ == old(self).observed.name@,
    {
        self.capturing = clone_device(&self.observed);
    }
}

/// A stale decision (one about a device that is no longer the observed
/// default) is never acted on, whatever it says.
pub proof fn lemma_stale_decision_never_switches(capturing: Seq<char>, observed: Seq<char>, d: OutputDeviceSwitchDecision)
    requires
        decision_uid(d) != observed,
    ensures
        action_spec(capturing, observed, d) == SwitchAction::Cancel(OutputDeviceSwitchCancellation::StaleDecision),
{
}

/// Capture is rebuilt only on an approval of the observed device, and never
/// for the device already being captured.
pub proof fn lemma_switch_only_on_fresh_approval(capturing: Seq<char>, observed: Seq<char>, d: OutputDeviceSwitchDecision)
    requires
        action_spec(capturing, observed, d) == SwitchAction::Switch,
    ensures
        d is Switch,
        decision_uid(d) == observed,
        capturing != observed,
{
}

} // verus!
