//! The session's decisions, apart from the threads, devices and events that
//! carry them out: which output-device prompt is pending, where a captured
//! moment sits in the recording, which notices the status line carries,
//! which step outputs reach the UI, when a silent lane counts as broken, and
//! how a lane's own clock maps onto the recording's.
use vstd::prelude::*;

use crate::capture::{Anchor, OutputDevice, OutputDeviceSwitchDecision, OutputDeviceSwitchEvent};
use crate::models::{join_strings, joined, views};
use crate::record::RECORD_RATE;
use crate::scheduler::StepOutput;
use crate::language::{codes, target_for_spec, LanguagePolicy};
use crate::text::{chars_of, decimal, decimal_string, opt_chars, opt_str, own_opt, str_eq, string_of, trim, trimmed};
use crate::translate::Job;
use crate::Lane;

verus! {

/// Decode cadence, step start to step start, in milliseconds.
pub const STEP_INTERVAL_MS: u64 = 1_000;
/// How often the worker drains the rings and checks for commands, in ms.
pub const POLL_INTERVAL_MS: u64 = 100;
/// How long an overrun notice stays up after the last drop, in ms.
pub const OVERRUN_NOTICE_MS: u64 = 5_000;
/// A pending anchor within this much of where the clock predicts it belongs
/// to the same continuous stream.
pub const ANCHOR_JUMP_NANOS: u64 = 30_000_000;

/// What the UI asks of the worker.
pub enum Cmd {
    Start,
    Stop,
    RespondOutputDevice { prompt_id: u64, switch_device: bool },
}

/// The question put to the user when the default output changes while the
/// speaker lane records the old one.
#[derive(Clone, Debug, PartialEq)]
pub struct OutputDevicePrompt {
    pub id: u64,
    pub previous_name: String,
    pub detected_name: String,
}

/// What the status line shows: `state` drives the UI, `message` is detail,
/// `recording_dir` is where the session's audio is being written.
#[derive(Clone)]
pub struct StatusPayload {
    pub state: &'static str,
    pub message: Option<String>,
    pub recording_dir: Option<String>,
}

/// The status before any session.
pub fn idle_status() -> (s: StatusPayload)
    ensures
        s.state@ == "idle"@,
        s.message is None,
        s.recording_dir is None,
{
    proof {
        reveal_strlit("idle");
    }
    StatusPayload { state: "idle", message: None, recording_dir: None }
}

/// The prompt about an output-device change and the device it expects the
/// user's answer to be about.
pub struct PendingOutputDevice {
    pub prompt: Option<OutputDevicePrompt>,
    pub expected_uid: Option<String>,
    /// The id the next prompt gets.
    pub next_id: u64,
}

/// What observing `detected` while capturing `capturing` does to the
/// pending prompt `p` (giving `q`), and whether the prompt changed.
pub open spec fn observed(
    p: PendingOutputDevice,
    capturing_uid: Seq<char>,
    capturing_name: Seq<char>,
    detected_uid: Seq<char>,
    detected_name: Seq<char>,
    q: PendingOutputDevice,
    changed: bool,
) -> bool {
    if capturing_uid == detected_uid {
        &&& q.prompt is None
        &&& q.expected_uid is None
        &&& q.next_id == p.next_id
        &&& changed == p.prompt is Some
    } else if opt_chars(p.expected_uid) == Some(detected_uid) {
        &&& !changed
        &&& q == p
    } else {
        &&& changed
        &&& opt_chars(q.expected_uid) == Some(detected_uid)
        &&& q.prompt is Some
        &&& q.prompt->0.id == p.next_id
        &&& q.prompt->0.previous_name@ == capturing_name
        &&& q.prompt->0.detected_name@ == detected_name
        &&& q.next_id == following_id(p.next_id)
    }
}

/// The prompt id after `id`.
pub open spec fn following_id(id: u64) -> u64 {
    if id == u64::MAX {
        0
    } else {
        (id + 1) as u64
    }
}

impl PendingOutputDevice {
    /// Nothing pending; prompts are numbered from `first_id`. A new session
    /// starts where the last one's numbering stopped, so an answer to an old
    /// prompt can never match a new one.
    pub fn starting_at(first_id: u64) -> (p: Self)
        ensures
            p.prompt is None,
            p.expected_uid is None,
            p.next_id == first_id,
    {
        PendingOutputDevice { prompt: None, expected_uid: None, next_id: first_id }
    }

    /// The id the next prompt will get.
    pub fn next_prompt_id(&self) -> (id: u64)
        ensures
            id == self.next_id,
    {
        self.next_id
    }

    /// The default output is now `detected` while the lane records
    /// `capturing`. Returns whether the prompt changed and must be shown
    /// again: the captured device coming back takes it down, the same
    /// detected device again changes nothing, any other replaces it.
    pub fn observe(&mut self, capturing: &OutputDevice, detected: &OutputDevice) -> (changed: bool)
        ensures
            observed(*old(self), capturing.uid@, capturing.name@, detected.uid@, detected.name@, *final(self), changed),
    {
        if str_eq(capturing.uid.as_str(), detected.uid.as_str()) {
            return self.clear();
        }
        let same = match &self.expected_uid {
            Some(uid) => str_eq(uid.as_str(), detected.uid.as_str()),
            None => false,
        };
        if same {
            return false;
        }
        self.expected_uid = Some(detected.uid.clone());
        let id = self.next_id;
        self.next_id = if id == u64::MAX {
            0
        } else {
            id + 1
        };
        self.prompt = Some(
            OutputDevicePrompt {
                id,
                previous_name: capturing.name.clone(),
                detected_name: detected.name.clone(),
            },
        );
        true
    }

    /// The user answered prompt `prompt_id`. Only an answer to the prompt on
    /// screen counts; it becomes a decision about the device that prompt was
    /// about, and the prompt goes away.
    pub fn decide(&mut self, prompt_id: u64, switch_device: bool) -> (d: Option<OutputDeviceSwitchDecision>)
        ensures
            final(self).next_id == old(self).next_id,
            ({
                let current = old(self).prompt is Some && old(self).prompt->0.id == prompt_id;
                &&& !current ==> d is None && *final(self) == *old(self)
                &&& current && old(self).expected_uid is None ==> d is None && final(self).prompt
                    == old(self).prompt && final(self).expected_uid is None
                &&& current && old(self).expected_uid is Some ==> {
                    &&& final(self).prompt is None
                    &&& final(self).expected_uid is None
                    &&& switch_device ==> d == Some(OutputDeviceSwitchDecision::Switch { expected_uid: old(self).expected_uid->0 })
                    &&& !switch_device ==> d == Some(OutputDeviceSwitchDecision::Cancel { expected_uid: old(self).expected_uid->0 })
                }
            }),
    {
        let current = match &self.prompt {
            Some(p) => p.id == prompt_id,
            None => false,
        };
        if !current {
            return None;
        }
        let expected_uid = match self.expected_uid.take() {
            Some(uid) => uid,
            None => return None,
        };
        self.prompt = None;
        if switch_device {
            Some(OutputDeviceSwitchDecision::Switch { expected_uid })
        } else {
            Some(OutputDeviceSwitchDecision::Cancel { expected_uid })
        }
    }

    /// Take the prompt down. Returns whether one was up.
    pub fn clear(&mut self) -> (changed: bool)
        ensures
            final(self).prompt is None,
            final(self).expected_uid is None,
            final(self).next_id == old(self).next_id,
            changed == old(self).prompt is Some,
    {
        let changed = self.prompt.is_some();
        self.prompt = None;
        self.expected_uid = None;
        changed
    }
}

/// What the running session's command poll brought.
pub enum Polled {
    Command(Cmd),
    /// Nothing arrived within the poll interval.
    Timeout,
    /// The application went away.
    Disconnected,
}

/// What the running session does about a poll.
#[derive(Debug, PartialEq)]
pub enum SessionCommandAction {
    /// Leave the capture loop and wind the session down.
    Stop,
    /// Carry on capturing.
    Continue,
    /// The prompt on screen was answered: take it down and pass this
    /// decision to the speaker lane.
    Decide(OutputDeviceSwitchDecision),
    /// An answer that matched no prompt on screen: show the pending prompt
    /// again, so a stale answer cannot leave the prompt view disabled.
    ShowPrompt,
}

/// One step of the capture loop's command handling: Stop, or the
/// application going away, ends the session; a Start while running and a
/// quiet poll change nothing; an answer to the prompt on screen becomes a
/// decision about the device that prompt was about, and any other answer
/// puts the pending prompt back on screen.
pub fn on_session_poll(pending: &mut PendingOutputDevice, polled: Polled) -> (a: SessionCommandAction)
    ensures
        match polled {
            Polled::Command(Cmd::RespondOutputDevice { prompt_id, switch_device }) => {
                let current = old(pending).prompt is Some && old(pending).prompt->0.id == prompt_id
                    && old(pending).expected_uid is Some;
                &&& current ==> {
                    &&& final(pending).prompt is None
                    &&& final(pending).expected_uid is None
                    &&& final(pending).next_id == old(pending).next_id
                    &&& a == SessionCommandAction::Decide(
                        if switch_device {
                            OutputDeviceSwitchDecision::Switch { expected_uid: old(pending).expected_uid->0 }
                        } else {
                            OutputDeviceSwitchDecision::Cancel { expected_uid: old(pending).expected_uid->0 }
                        },
                    )
                }
                &&& !current ==> a == SessionCommandAction::ShowPrompt && *final(pending) == *old(pending)
            },
            Polled::Command(Cmd::Stop) | Polled::Disconnected => a == SessionCommandAction::Stop
                && *final(pending) == *old(pending),
            Polled::Command(Cmd::Start) | Polled::Timeout => a == SessionCommandAction::Continue
                && *final(pending) == *old(pending),
        },
{
    match polled {
        Polled::Command(Cmd::Stop) | Polled::Disconnected => SessionCommandAction::Stop,
        Polled::Command(Cmd::Start) | Polled::Timeout => SessionCommandAction::Continue,
        Polled::Command(Cmd::RespondOutputDevice { prompt_id, switch_device }) => {
            match pending.decide(prompt_id, switch_device) {
                Some(decision) => SessionCommandAction::Decide(decision),
                None => SessionCommandAction::ShowPrompt,
            }
        },
    }
}

/// Whether an idle worker starts a session for `cmd`: only Start does; a
/// Stop or an answer to a prompt has nothing to act on while idle.
pub fn starts_session(cmd: &Cmd) -> (b: bool)
    ensures
        b == (*cmd is Start),
{
    match cmd {
        Cmd::Start => true,
        _ => false,
    }
}

impl Default for PendingOutputDevice {
    fn default() -> (p: Self)
        ensures
            p.prompt is None,
            p.expected_uid is None,
            p.next_id == 1,
    {
        PendingOutputDevice::starting_at(1)
    }
}

/// Nanoseconds to recording samples.
pub open spec fn nanos_to_record_samples(since: nat) -> nat {
    since * 48_000 / 1_000_000_000
}

/// The session's zero: the first captured moment any lane reported. Every
/// position in the recording is measured from it.
pub struct SessionClock {
    zero_nanos: Option<u64>,
}

impl SessionClock {
    pub closed spec fn spec_zero(&self) -> Option<u64> {
        self.zero_nanos
    }

    /// Where a captured moment sits in the recording, in recording samples.
    /// The first moment asked about becomes the zero; one before it clamps
    /// to the zero rather than going back.
    pub fn position(&mut self, nanos: u64) -> (pos: usize)
        ensures
            final(self).spec_zero() == Some(
                match old(self).spec_zero() {
                    Some(z) => z,
                    None => nanos,
                },
            ),
            ({
                let zero = final(self).spec_zero()->0;
                let since: nat = if nanos >= zero { (nanos - zero) as nat } else { 0 };
                pos == nanos_to_record_samples(since) as usize
            }),
    {
        let zero = match self.zero_nanos {
            Some(z) => z,
            None => {
                self.zero_nanos = Some(nanos);
                nanos
            },
        };
        let since: u64 = nanos.saturating_sub(zero);
        let samples: u128 = (since as u128) * (RECORD_RATE as u128) / 1_000_000_000u128;
        samples as usize
    }
}

impl Default for SessionClock {
    fn default() -> (c: Self)
        ensures
            c.spec_zero() is None,
    {
        SessionClock { zero_nanos: None }
    }
}

/// One source of status-line text. Each source owns one slot in
/// [`Notices`], so posting or expiring one never erases another's.
#[derive(Clone, Copy, Debug, PartialEq, Eq, Structural)]
pub enum NoticeKey {
    /// The speaker lane is delivering nothing usable.
    Speaker,
    /// Recording is off: the files failed to open, or a write failed.
    Recording,
    /// A lane's ring overflowed recently.
    Overrun(Lane),
    /// A lane's latest decode failed.
    Decode(Lane),
    /// The translation backend is not working; the transcript still is.
    Translation,
    /// The requested spoken languages were refused; the old set stays.
    Language,
}

/// `i` is the first place `key` occurs in `s`.
pub open spec fn key_at(s: Seq<(NoticeKey, Seq<char>)>, key: NoticeKey, i: int) -> bool {
    &&& 0 <= i < s.len()
    &&& s[i].0 == key
    &&& forall|j: int| 0 <= j < i ==> s[j].0 != key
}

pub open spec fn has_key(s: Seq<(NoticeKey, Seq<char>)>, key: NoticeKey) -> bool {
    exists|i: int| key_at(s, key, i)
}

pub open spec fn key_index(s: Seq<(NoticeKey, Seq<char>)>, key: NoticeKey) -> int {
    choose|i: int| key_at(s, key, i)
}

/// The notice `key` currently shows, if any.
pub open spec fn notice_of(s: Seq<(NoticeKey, Seq<char>)>, key: NoticeKey) -> Option<Seq<char>> {
    if has_key(s, key) {
        Some(s[key_index(s, key)].1)
    } else {
        None
    }
}

/// No source holds two slots.
pub open spec fn keys_distinct(s: Seq<(NoticeKey, Seq<char>)>) -> bool {
    forall|i: int, j: int| 0 <= i < s.len() && 0 <= j < s.len() && i != j ==> s[i].0 != s[j].0
}

/// The entries after `key` posts `msg` (or, with `None`, takes its notice
/// down): an existing slot is replaced or removed in place, a new one goes
/// last.
pub open spec fn notices_set(s: Seq<(NoticeKey, Seq<char>)>, key: NoticeKey, msg: Option<Seq<char>>) -> Seq<(NoticeKey, Seq<char>)> {
    if has_key(s, key) {
        let i = key_index(s, key);
        match msg {
            None => s.remove(i),
            Some(m) => s.update(i, (key, m)),
        }
    } else {
        match msg {
            Some(m) => s.push((key, m)),
            None => s,
        }
    }
}

/// The messages, in slot order.
pub open spec fn notice_texts(s: Seq<(NoticeKey, Seq<char>)>) -> Seq<Seq<char>> {
    s.map_values(|e: (NoticeKey, Seq<char>)| e.1)
}

/// The joined status message; `None` when nothing is wrong.
pub open spec fn notices_message(s: Seq<(NoticeKey, Seq<char>)>) -> Option<Seq<char>> {
    if s.len() == 0 {
        None
    } else {
        Some(joined(notice_texts(s), " / "@))
    }
}

/// The notices a session currently carries, oldest first.
pub struct Notices {
    entries: Vec<(NoticeKey, String)>,
}

impl View for Notices {
    type V = Seq<(NoticeKey, Seq<char>)>;

    closed spec fn view(&self) -> Seq<(NoticeKey, Seq<char>)> {
        entries_view(self.entries@)
    }
}

proof fn lemma_found_is_index(s: Seq<(NoticeKey, Seq<char>)>, key: NoticeKey, i: int)
    requires
        key_at(s, key, i),
    ensures
        has_key(s, key),
        key_index(s, key) == i,
{
    let k = key_index(s, key);
    if k < i {
        assert(s[k].0 == key);
    } else if k > i {
        assert(s[i].0 == key);
    }
}

proof fn lemma_absent(s: Seq<(NoticeKey, Seq<char>)>, key: NoticeKey)
    requires
        forall|j: int| 0 <= j < s.len() ==> s[j].0 != key,
    ensures
        !has_key(s, key),
{
    if has_key(s, key) {
        let k = key_index(s, key);
        assert(s[k].0 == key);
    }
}

/// The entries as (source, message) pairs.
pub open spec fn entries_view(e: Seq<(NoticeKey, String)>) -> Seq<(NoticeKey, Seq<char>)> {
    e.map_values(|x: (NoticeKey, String)| (x.0, x.1@))
}

/// `Notices::set` on the entries themselves.
#[verifier::rlimit(30)]
fn set_entries(entries: &mut Vec<(NoticeKey, String)>, key: NoticeKey, msg: Option<String>) -> (changed: bool)
    ensures
        entries_view(final(entries)@) == notices_set(entries_view(old(entries)@), key, opt_chars(msg)),
        changed == (entries_view(final(entries)@) != entries_view(old(entries)@)),
        keys_distinct(entries_view(old(entries)@)) ==> keys_distinct(entries_view(final(entries)@)),
{
    let ghost s = entries_view(entries@);
    let n = entries.len();
    let mut i: usize = 0;
    while i < n
        invariant
            n == entries.len(),
            s == entries_view(entries@),
            i <= n,
            forall|j: int| 0 <= j < i ==> s[j].0 != key,
        ensures
            i <= n,
            forall|j: int| 0 <= j < i ==> s[j].0 != key,
            i < n ==> s[i as int].0 == key,
        decreases n - i,
    {
        assert(s[i as int] == (entries@[i as int].0, entries@[i as int].1@));
        if entries[i].0 == key {
            break;
        }
        i = i + 1;
    }
    if i < n {
        proof {
            assert(s[i as int].0 == key);
            lemma_found_is_index(s, key, i as int);
        }
        match msg {
            None => {
                entries.remove(i);
                proof {
                    assert(entries_view(entries@) =~= s.remove(i as int));
                    assert(entries_view(entries@).len() != s.len());
                }
                true
            },
            Some(m) => {
                let same = str_eq(entries[i].1.as_str(), m.as_str());
                entries.set(i, (key, m));
                proof {
                    assert(entries_view(entries@) =~= s.update(i as int, (key, opt_chars(msg)->0)));
                    if same {
                        assert(entries_view(entries@) =~= s);
                    } else {
                        assert(entries_view(entries@)[i as int] != s[i as int]);
                    }
                    if keys_distinct(s) {
                        assert forall|a: int, b: int| 0 <= a < entries_view(entries@).len() && 0 <= b < entries_view(entries@).len() && a != b
                            implies entries_view(entries@)[a].0 != entries_view(entries@)[b].0 by {
                            assert(entries_view(entries@)[a].0 == s[a].0);
                            assert(entries_view(entries@)[b].0 == s[b].0);
                        }
                    }
                }
                !same
            },
        }
    } else {
        proof {
            lemma_absent(s, key);
        }
        match msg {
            None => false,
            Some(m) => {
                entries.push((key, m));
                proof {
                    assert(entries_view(entries@) =~= s.push((key, opt_chars(msg)->0)));
                    assert(entries_view(entries@).len() != s.len());
                    if keys_distinct(s) {
                        assert forall|a: int, b: int| 0 <= a < entries_view(entries@).len() && 0 <= b < entries_view(entries@).len() && a != b
                            implies entries_view(entries@)[a].0 != entries_view(entries@)[b].0 by {
                            if a < s.len() && b < s.len() {
                                assert(entries_view(entries@)[a] == s[a]);
                                assert(entries_view(entries@)[b] == s[b]);
                            }
                        }
                    }
                }
                true
            },
        }
    }
    }

impl Notices {
    /// No source holds two slots.
    #[verifier::type_invariant]
    spec fn one_slot_per_source(self) -> bool {
        keys_distinct(self@)
    }

    /// Post (`Some`) or take down (`None`) one source's notice. Returns
    /// whether the joined message changed: the caller's cue to re-emit the
    /// status. Afterwards the source reads back as what it posted (nothing,
    /// after taking it down), and every other source as before.
    #[verifier::rlimit(30)]
    pub fn set(&mut self, key: NoticeKey, msg: Option<String>) -> (changed: bool)
        ensures
            final(self)@ == notices_set(old(self)@, key, opt_chars(msg)),
            changed == (final(self)@ != old(self)@),
            changed == (notices_message(final(self)@) != notices_message(old(self)@)),
            keys_distinct(final(self)@),
            notice_of(final(self)@, key) == opt_chars(msg),
            forall|other: NoticeKey| other != key ==> #[trigger] notice_of(final(self)@, other) == notice_of(
                old(self)@,
                other,
            ),
    {
        proof {
            use_type_invariant(&*self);
            lemma_notice_change_is_message_change(self@, key, opt_chars(msg));
            lemma_notice_set_reads_back(self@, key, opt_chars(msg));
            assert forall|other: NoticeKey| other != key implies #[trigger] notice_of(
                notices_set(self@, key, opt_chars(msg)),
                other,
            ) == notice_of(self@, other) by {
                lemma_notice_set_keeps_others(self@, key, opt_chars(msg), other);
            }
        }
        let ghost s_before = self@;
        let mut entries: Vec<(NoticeKey, String)> = Vec::new();
        std::mem::swap(&mut entries, &mut self.entries);
        assert(entries_view(entries@) == s_before);
        let changed = set_entries(&mut entries, key, msg);
        self.entries = entries;
        changed
    }

    /// The joined status message; `None` when nothing is wrong.
    pub fn message(&self) -> (m: Option<String>)
        ensures
            opt_chars(m) == notices_message(self@),
    {
        if self.entries.len() == 0 {
            return None;
        }
        let mut texts: Vec<String> = Vec::new();
        let mut i: usize = 0;
        while i < self.entries.len()
            invariant
                i <= self.entries@.len(),
                texts@.len() == i,
                forall|k: int| 0 <= k < i ==> #[trigger] texts@[k]@ == self.entries@[k].1@,
            decreases self.entries@.len() - i,
        {
            let t = self.entries[i].1.clone();
            texts.push(t);
            i = i + 1;
        }
        proof {
            assert forall|k: int| 0 <= k < texts@.len() implies #[trigger] views(texts@)[k] == notice_texts(self@)[k] by {
                assert(self@[k] == (self.entries@[k].0, self.entries@[k].1@));
            }
            assert(views(texts@) =~= notice_texts(self@));
        }
        Some(join_strings(&texts, " / "))
    }
}

impl Default for Notices {
    fn default() -> (n: Self)
        ensures
            n@ == Seq::<(NoticeKey, Seq<char>)>::empty(),
    {
        let n = Notices { entries: Vec::new() };
        assert(n@ =~= Seq::<(NoticeKey, Seq<char>)>::empty());
        n
    }
}

/// Posting or taking down one source's notice leaves every other source's
/// notice as it was.
pub proof fn lemma_notice_set_keeps_others(
    s: Seq<(NoticeKey, Seq<char>)>,
    key: NoticeKey,
    msg: Option<Seq<char>>,
    other: NoticeKey,
)
    requires
        key != other,
    ensures
        notice_of(notices_set(s, key, msg), other) == notice_of(s, other),
{
    let t = notices_set(s, key, msg);
    if has_key(s, key) {
        let i = key_index(s, key);
        assert(key_at(s, key, i));
        if has_key(s, other) {
            let j = key_index(s, other);
            assert(key_at(s, other, j));
            assert(j != i);
            match msg {
                None => {
                    if j < i {
                        assert(key_at(t, other, j));
                        lemma_found_is_index(t, other, j);
                    } else {
                        assert forall|k: int| 0 <= k < j - 1 implies t[k].0 != other by {
                            if k >= i {
                                assert(t[k] == s[k + 1]);
                            }
                        }
                        assert(key_at(t, other, j - 1));
                        lemma_found_is_index(t, other, j - 1);
                    }
                },
                Some(m) => {
                    assert(key_at(t, other, j));
                    lemma_found_is_index(t, other, j);
                },
            }
        } else {
            assert forall|k: int| 0 <= k < t.len() implies t[k].0 != other by {
                if t[k].0 == other {
                    match msg {
                        None => {
                            if k < i {
                                assert(s[k].0 == other);
                            } else {
                                assert(s[k + 1].0 == other);
                            }
                        },
                        Some(m) => {
                            assert(s[k].0 == other);
                        },
                    }
                    lemma_first_occurrence(s, other, if msg is None && k >= i { k + 1 } else { k });
                }
            }
            lemma_absent(t, other);
        }
    } else {
        match msg {
            None => {},
            Some(m) => {
                if has_key(s, other) {
                    let j = key_index(s, other);
                    assert(key_at(s, other, j));
                    assert(key_at(t, other, j));
                    lemma_found_is_index(t, other, j);
                } else {
                    assert forall|k: int| 0 <= k < t.len() implies t[k].0 != other by {
                        if k < s.len() && t[k].0 == other {
                            lemma_first_occurrence(s, other, k);
                        }
                    }
                    lemma_absent(t, other);
                }
            },
        }
    }
}

/// Any occurrence of `key` means there is a first one.
proof fn lemma_first_occurrence(s: Seq<(NoticeKey, Seq<char>)>, key: NoticeKey, k: int)
    requires
        0 <= k < s.len(),
        s[k].0 == key,
    ensures
        has_key(s, key),
    decreases k,
{
    if forall|j: int| 0 <= j < k ==> s[j].0 != key {
        assert(key_at(s, key, k));
    } else {
        let j = choose|j: int| 0 <= j < k && s[j].0 == key;
        lemma_first_occurrence(s, key, j);
    }
}

/// Joining two lists that differ in one place gives two different texts.
proof fn lemma_joined_differs_at(p: Seq<Seq<char>>, q: Seq<Seq<char>>, i: int, sep: Seq<char>)
    requires
        p.len() == q.len(),
        0 <= i < p.len(),
        p[i] != q[i],
        forall|j: int| 0 <= j < p.len() && j != i ==> p[j] == q[j],
    ensures
        joined(p, sep) != joined(q, sep),
    decreases p.len(),
{
    let n = p.len();
    if n == 1 {
        assert(joined(p, sep) == p[0]);
        assert(joined(q, sep) == q[0]);
    } else if i == n - 1 {
        assert(p.drop_last() =~= q.drop_last()) by {
            assert forall|j: int| 0 <= j < n - 1 implies p.drop_last()[j] == q.drop_last()[j] by {}
        }
        let x = joined(p.drop_last(), sep) + sep;
        assert(joined(p, sep) == x + p.last());
        assert(joined(q, sep) == x + q.last());
        if joined(p, sep) == joined(q, sep) {
            assert((x + p.last()).skip(x.len() as int) =~= p.last());
            assert((x + q.last()).skip(x.len() as int) =~= q.last());
        }
    } else {
        lemma_joined_differs_at(p.drop_last(), q.drop_last(), i, sep);
        assert(p.last() == q[n - 1]);
        let a = joined(p.drop_last(), sep);
        let b = joined(q.drop_last(), sep);
        let t = sep + p.last();
        assert(joined(p, sep) =~= a + t);
        assert(joined(q, sep) =~= b + t);
        if joined(p, sep) == joined(q, sep) {
            assert((a + t).take(a.len() as int) =~= a);
            assert((b + t).take(b.len() as int) =~= b);
        }
    }
}

/// Leaving one part out of a join of two or more shortens it by at least
/// the separator.
proof fn lemma_joined_remove_shorter(p: Seq<Seq<char>>, i: int, sep: Seq<char>)
    requires
        p.len() >= 2,
        0 <= i < p.len(),
    ensures
        joined(p.remove(i), sep).len() + sep.len() <= joined(p, sep).len(),
    decreases p.len(),
{
    let n = p.len();
    if i == n - 1 {
        assert(p.remove(i) =~= p.drop_last());
    } else if n == 2 {
        assert(p.remove(i) =~= seq![p[1]]);
        assert(joined(p.remove(i), sep) == p[1]);
    } else {
        lemma_joined_remove_shorter(p.drop_last(), i, sep);
        assert(p.remove(i).drop_last() =~= p.drop_last().remove(i));
        assert(p.remove(i).last() == p.last());
    }
}

/// A notice change is a change of the joined status message: the entries
/// after posting or taking down one source's notice differ from those before
/// exactly when the message does.
pub proof fn lemma_notice_change_is_message_change(
    s: Seq<(NoticeKey, Seq<char>)>,
    key: NoticeKey,
    msg: Option<Seq<char>>,
)
    ensures
        (notices_set(s, key, msg) != s) == (notices_message(notices_set(s, key, msg)) != notices_message(s)),
{
    let t = notices_set(s, key, msg);
    let sep = " / "@;
    assert(sep.len() == 3) by {
        reveal_strlit(" / ");
    }
    if t != s {
        if has_key(s, key) {
            let i = key_index(s, key);
            assert(key_at(s, key, i));
            match msg {
                None => {
                    if s.len() >= 2 {
                        assert(notice_texts(t) =~= notice_texts(s).remove(i));
                        lemma_joined_remove_shorter(notice_texts(s), i, sep);
                    }
                },
                Some(m) => {
                    if m == s[i].1 {
                        assert(t =~= s);
                    }
                    assert(notice_texts(t) =~= notice_texts(s).update(i, m));
                    lemma_joined_differs_at(notice_texts(s), notice_texts(t), i, sep);
                },
            }
        } else {
            match msg {
                Some(m) => {
                    if s.len() > 0 {
                        assert(notice_texts(t) =~= notice_texts(s).push(m));
                        assert(notice_texts(t).drop_last() =~= notice_texts(s));
                    }
                },
                None => {},
            }
        }
    }
}

/// With one slot per source, a source's notice reads back as what it last
/// posted (nothing, after taking it down), and the slots stay one per
/// source.
pub proof fn lemma_notice_set_reads_back(s: Seq<(NoticeKey, Seq<char>)>, key: NoticeKey, msg: Option<Seq<char>>)
    requires
        keys_distinct(s),
    ensures
        notice_of(notices_set(s, key, msg), key) == msg,
        keys_distinct(notices_set(s, key, msg)),
{
    let t = notices_set(s, key, msg);
    if has_key(s, key) {
        let i = key_index(s, key);
        assert(key_at(s, key, i));
        match msg {
            None => {
                assert forall|k: int| 0 <= k < t.len() implies t[k].0 != key by {
                    if k < i {
                        assert(t[k] == s[k]);
                    } else {
                        assert(t[k] == s[k + 1]);
                    }
                }
                lemma_absent(t, key);
                assert forall|a: int, b: int| 0 <= a < t.len() && 0 <= b < t.len() && a != b implies t[a].0 != t[b].0 by {
                    let a2 = if a < i { a } else { a + 1 };
                    let b2 = if b < i { b } else { b + 1 };
                    assert(t[a] == s[a2]);
                    assert(t[b] == s[b2]);
                }
            },
            Some(m) => {
                assert(key_at(t, key, i));
                lemma_found_is_index(t, key, i);
                assert forall|a: int, b: int| 0 <= a < t.len() && 0 <= b < t.len() && a != b implies t[a].0 != t[b].0 by {
                    assert(t[a].0 == s[a].0);
                    assert(t[b].0 == s[b].0);
                }
            },
        }
    } else {
        match msg {
            None => {},
            Some(m) => {
                assert forall|k: int| 0 <= k < s.len() implies s[k].0 != key by {
                    if s[k].0 == key {
                        lemma_first_occurrence(s, key, k);
                    }
                }
                assert(key_at(t, key, s.len() as int));
                lemma_found_is_index(t, key, s.len() as int);
                assert forall|a: int, b: int| 0 <= a < t.len() && 0 <= b < t.len() && a != b implies t[a].0 != t[b].0 by {
                    if a < s.len() && b < s.len() {
                        assert(t[a] == s[a]);
                        assert(t[b] == s[b]);
                    }
                }
            },
        }
    }
}

/// Whether a step output is news for the UI: text moved, or an utterance
/// ended.
pub open spec fn has_news(out: StepOutput) -> bool {
    out.committed_delta@.len() > 0 || out.volatile@.len() > 0 || out.utterance_final is Some
}

/// Decides which step outputs reach the UI. Idle steps are dropped, but an
/// empty output must still go out while a volatile tail is on screen: an
/// empty volatile is how a contradicted tail is taken down.
pub struct EmitGate {
    volatile_on_screen: bool,
}

impl EmitGate {
    /// Whether a volatile tail is on screen.
    pub closed spec fn on_screen(&self) -> bool {
        self.volatile_on_screen
    }

    pub fn volatile_on_screen(&self) -> (b: bool)
        ensures
            b == self.on_screen(),
    {
        self.volatile_on_screen
    }

    pub fn should_emit(&mut self, out: &StepOutput) -> (emit: bool)
        ensures
            emit == (has_news(*out) || (old(self).on_screen() && out.volatile@.len() == 0)),
            emit ==> final(self).on_screen() == (out.volatile@.len() > 0),
            !emit ==> final(self).on_screen() == old(self).on_screen(),
    {
        let news = !out.committed_delta.as_str().is_empty() || !out.volatile.as_str().is_empty()
            || out.utterance_final.is_some();
        let clears_tail = self.volatile_on_screen && out.volatile.as_str().is_empty();
        if !(news || clears_tail) {
            return false;
        }
        self.volatile_on_screen = !out.volatile.as_str().is_empty();
        true
    }
}

impl Default for EmitGate {
    fn default() -> (g: Self)
        ensures
            !g.on_screen(),
    {
        EmitGate { volatile_on_screen: false }
    }
}

/// How long a lane may deliver nothing but digital silence before it is
/// called broken: 20 s, in nanoseconds.
pub const SILENCE_GRACE_NANOS: u64 = 20_000_000_000;

/// What one chunk of a lane's samples held.
#[derive(Clone, Copy, Debug, PartialEq, Eq, Structural)]
pub enum ChunkLevel {
    /// No samples at all: an output with nothing playing runs no IO cycle.
    Empty,
    /// Samples, every one exactly zero.
    Silent,
    /// At least one non-zero sample.
    Audible,
}

/// What [`SilenceWatch`] concluded from one chunk.
#[derive(Clone, Copy, Debug, PartialEq, Eq, Structural)]
pub enum SilenceEvent {
    /// Digital silence lasted the grace period: the permission is withheld.
    Broken,
    /// Real audio arrived after a report: the lane works after all.
    Recovered,
}

/// Watches a lane for samples that arrive and are all zero, which is how a
/// withheld system-audio permission looks: every call succeeds and the
/// transcript stays empty.
pub struct SilenceWatch {
    silent_since: Option<u64>,
    reported: bool,
}

impl SilenceWatch {
    /// When the current run of digital silence began.
    pub closed spec fn since(&self) -> Option<u64> {
        self.silent_since
    }

    /// Whether the current run has been reported.
    pub closed spec fn is_reported(&self) -> bool {
        self.reported
    }

    /// Take in one chunk, seen at `now_nanos` on a monotonic clock.
    pub fn observe(&mut self, level: ChunkLevel, now_nanos: u64) -> (ev: Option<SilenceEvent>)
        ensures
            level == ChunkLevel::Empty ==> ev is None && *final(self) == *old(self),
            level == ChunkLevel::Audible ==> {
                &&& final(self).since() is None
                &&& !final(self).is_reported()
                &&& ev == (if old(self).is_reported() { Some(SilenceEvent::Recovered) } else { None })
            },
            level == ChunkLevel::Silent ==> {
                let since: u64 = match old(self).since() {
                    Some(t) => t,
                    None => now_nanos,
                };
                let elapsed: int = if now_nanos >= since { now_nanos - since } else { 0 };
                let fires = !old(self).is_reported() && elapsed >= SILENCE_GRACE_NANOS;
                &&& final(self).since() == Some(since)
                &&& final(self).is_reported() == (old(self).is_reported() || fires)
                &&& ev == (if fires { Some(SilenceEvent::Broken) } else { None })
            },
    {
        match level {
            ChunkLevel::Empty => None,
            ChunkLevel::Audible => {
                self.silent_since = None;
                let was = self.reported;
                self.reported = false;
                if was {
                    Some(SilenceEvent::Recovered)
                } else {
                    None
                }
            },
            ChunkLevel::Silent => {
                let since = match self.silent_since {
                    Some(t) => t,
                    None => {
                        self.silent_since = Some(now_nanos);
                        now_nanos
                    },
                };
                if !self.reported && now_nanos.saturating_sub(since) >= SILENCE_GRACE_NANOS {
                    self.reported = true;
                    Some(SilenceEvent::Broken)
                } else {
                    None
                }
            },
        }
    }
}

impl Default for SilenceWatch {
    fn default() -> (w: Self)
        ensures
            w.since() is None,
            !w.is_reported(),
    {
        SilenceWatch { silent_since: None, reported: false }
    }
}

/// What the speaker lane's notice says while it receives only silence.
pub const SILENT_LANE_NOTICE: &'static str = "speaker lane is receiving only silence — grant System Settings > Privacy & Security > Screen & System Audio Recording";

/// The overrun notice's text for `ms` milliseconds lost so far.
pub open spec fn overrun_message(ms: nat) -> Seq<char> {
    "audio overrun: ~"@ + decimal(ms) + "ms dropped so far"@
}

/// When a notice raised at `now` expires.
pub open spec fn overrun_expiry(now: u64) -> u64 {
    if now + OVERRUN_NOTICE_MS * 1_000_000 <= u64::MAX {
        (now + OVERRUN_NOTICE_MS * 1_000_000) as u64
    } else {
        u64::MAX
    }
}

/// A lane's overrun notice: raised, with the total lost so far, whenever
/// the ring dropped more audio; taken down once no drop has come for
/// `OVERRUN_NOTICE_MS`.
pub struct OverrunWatch {
    /// The drop count the notice on screen reports.
    pub reported_drops: usize,
    /// While the notice is up: when it expires (ns, monotonic clock).
    pub until_nanos: Option<u64>,
}

impl OverrunWatch {
    pub fn new() -> (w: Self)
        ensures
            w.reported_drops == 0,
            w.until_nanos is None,
    {
        OverrunWatch { reported_drops: 0, until_nanos: None }
    }

    /// The ring has dropped `dropped` interleaved samples in all, seen at
    /// `now_nanos`. Returns how the notice changes: `Some(Some(m))` puts up
    /// `m`, `Some(None)` takes it down, `None` leaves it as it is.
    pub fn observe(&mut self, dropped: usize, channels: usize, src_rate: u32, now_nanos: u64) -> (change: Option<Option<String>>)
        requires
            dropped * 1000 <= u64::MAX,
            channels > 0,
            src_rate > 0,
            channels * src_rate <= u64::MAX,
        ensures
            dropped > old(self).reported_drops ==> {
                &&& change matches Some(Some(m)) && m@ == overrun_message(
                    (dropped * 1000 / (channels * src_rate as int)) as nat,
                )
                &&& final(self).reported_drops == dropped
                &&& final(self).until_nanos == Some(overrun_expiry(now_nanos))
            },
            dropped <= old(self).reported_drops ==> {
                let expired = old(self).until_nanos matches Some(u) && now_nanos >= u;
                &&& expired ==> change == Some(None::<String>) && final(self).until_nanos is None
                    && final(self).reported_drops == old(self).reported_drops
                &&& !expired ==> change is None && *final(self) == *old(self)
            },
    {
        proof {
            reveal_strlit("audio overrun: ~");
            reveal_strlit("ms dropped so far");
        }
        if dropped > self.reported_drops {
            let ms = overrun_ms(dropped, channels, src_rate);
            let mut m = String::from_str("audio overrun: ~");
            let digits = decimal_string(ms);
            m.append(digits.as_str());
            m.append("ms dropped so far");
            self.reported_drops = dropped;
            self.until_nanos = Some(now_nanos.saturating_add(OVERRUN_NOTICE_MS * 1_000_000));
            return Some(Some(m));
        }
        let expired = match self.until_nanos {
            Some(u) => now_nanos >= u,
            None => false,
        };
        if expired {
            self.until_nanos = None;
            Some(None)
        } else {
            None
        }
    }
}

/// The lane's decode notice after a step: none when it succeeded (which
/// also takes an earlier error down), the error while it fails.
pub fn decode_notice(error: Option<&str>) -> (n: Option<String>)
    ensures
        match error {
            None => n is None,
            Some(e) => n matches Some(m) && m@ == "decode error: "@ + e@,
        },
{
    proof {
        reveal_strlit("decode error: ");
    }
    match error {
        None => None,
        Some(e) => {
            let mut m = String::from_str("decode error: ");
            m.append(e);
            Some(m)
        },
    }
}

/// Below this, a change in a lane's stream-to-recording offset is clock
/// wobble, not a dropout (ms).
pub const TIMELINE_SLACK_MS: u64 = 30;

/// Whether two offsets differ by more than the slack.
pub open spec fn beyond_slack(a: u64, b: u64) -> bool {
    if a >= b {
        a - b > TIMELINE_SLACK_MS
    } else {
        b - a > TIMELINE_SLACK_MS
    }
}

/// The offset in force at `stream_ms` once spent anchors are dropped: the
/// first anchor's, if it starts no later than `stream_ms`, else none.
pub open spec fn offset_at(anchors: Seq<(u64, u64)>, stream_ms: u64) -> u64 {
    if anchors.len() > 0 && anchors[0].0 <= stream_ms {
        anchors[0].1
    } else {
        0
    }
}

/// The anchors left once those `stream_ms` has moved past are dropped: every
/// anchor but the last whose successor starts at or before `stream_ms`.
pub open spec fn unspent(anchors: Seq<(u64, u64)>, stream_ms: u64) -> Seq<(u64, u64)>
    decreases anchors.len(),
{
    if anchors.len() > 1 && anchors[1].0 <= stream_ms {
        unspent(anchors.drop_first(), stream_ms)
    } else {
        anchors
    }
}

/// Anchors whose starts never go back.
pub open spec fn starts_sorted(anchors: Seq<(u64, u64)>) -> bool {
    forall|i: int, j: int| 0 <= i < j < anchors.len() ==> (#[trigger] anchors[i]).0 <= (#[trigger] anchors[j]).0
}

/// The offset of the latest anchor that starts at or before `stream_ms`
/// (scanning from the newest), or 0 when none does.
pub open spec fn latest_offset(anchors: Seq<(u64, u64)>, stream_ms: u64) -> u64
    decreases anchors.len(),
{
    if anchors.len() == 0 {
        0
    } else if anchors.last().0 <= stream_ms {
        anchors.last().1
    } else {
        latest_offset(anchors.drop_last(), stream_ms)
    }
}

/// Dropping spent anchors drops a prefix, each of them superseded by the
/// next one starting at or before `stream_ms`, and keeps every anchor from
/// the first that is not: after it, the second anchor left (if any) starts
/// after `stream_ms`. Returns how many were dropped.
pub proof fn lemma_unspent_drops_superseded(anchors: Seq<(u64, u64)>, stream_ms: u64) -> (k: int)
    ensures
        0 <= k,
        k == 0 || k < anchors.len(),
        unspent(anchors, stream_ms) == anchors.skip(k),
        forall|i: int| 0 <= i < k ==> #[trigger] anchors[i + 1].0 <= stream_ms,
        unspent(anchors, stream_ms).len() > 1 ==> unspent(anchors, stream_ms)[1].0 > stream_ms,
    decreases anchors.len(),
{
    if anchors.len() > 1 && anchors[1].0 <= stream_ms {
        let rest = anchors.drop_first();
        let k0 = lemma_unspent_drops_superseded(rest, stream_ms);
        assert(rest.skip(k0) =~= anchors.skip(k0 + 1));
        assert forall|i: int| 0 <= i < k0 + 1 implies #[trigger] anchors[i + 1].0 <= stream_ms by {
            if i > 0 {
                assert(anchors[i + 1] == rest[(i - 1) + 1]);
            }
        }
        k0 + 1
    } else {
        assert(anchors.skip(0) =~= anchors);
        0
    }
}

/// With anchors in stream order, a lane time is moved by the offset of the
/// latest anchor that starts at or before it, and every anchor left after
/// the first starts later than it.
pub proof fn lemma_unspent_uses_the_latest_anchor(anchors: Seq<(u64, u64)>, stream_ms: u64)
    requires
        starts_sorted(anchors),
    ensures
        offset_at(unspent(anchors, stream_ms), stream_ms) == latest_offset(anchors, stream_ms),
        starts_sorted(unspent(anchors, stream_ms)),
        forall|i: int|
            1 <= i < unspent(anchors, stream_ms).len() ==> (#[trigger] unspent(anchors, stream_ms)[i]).0 > stream_ms,
{
    let k = lemma_unspent_drops_superseded(anchors, stream_ms);
    let u = anchors.skip(k);
    assert forall|i: int| 1 <= i < u.len() implies (#[trigger] u[i]).0 > stream_ms by {
        assert(u[1] == anchors[k + 1]);
        assert(u[i] == anchors[k + i]);
        assert(anchors[k + 1].0 <= anchors[k + i].0);
    }
    assert forall|i: int, j: int| 0 <= i < j < u.len() implies (#[trigger] u[i]).0 <= (#[trigger] u[j]).0 by {
        assert(u[i] == anchors[k + i]);
        assert(u[j] == anchors[k + j]);
    }
    lemma_latest_offset_from(anchors, stream_ms, k);
}

/// `latest_offset` read from the `k`-th anchor on, when every anchor from
/// index 1 of the rest on starts after `stream_ms`.
proof fn lemma_latest_offset_from(anchors: Seq<(u64, u64)>, stream_ms: u64, k: int)
    requires
        starts_sorted(anchors),
        0 <= k,
        k == 0 || k < anchors.len(),
        forall|i: int| 0 <= i < k ==> #[trigger] anchors[i + 1].0 <= stream_ms,
        forall|i: int| k + 1 <= i < anchors.len() ==> (#[trigger] anchors[i]).0 > stream_ms,
    ensures
        offset_at(anchors.skip(k), stream_ms) == latest_offset(anchors, stream_ms),
    decreases anchors.len(),
{
    if anchors.len() == 0 {
    } else if anchors.len() - 1 > k {
        let p = anchors.drop_last();
        assert(anchors.last().0 > stream_ms);
        assert forall|i: int, j: int| 0 <= i < j < p.len() implies (#[trigger] p[i]).0 <= (#[trigger] p[j]).0 by {
            assert(p[i] == anchors[i] && p[j] == anchors[j]);
        }
        assert forall|i: int| 0 <= i < k implies #[trigger] p[i + 1].0 <= stream_ms by {
            assert(p[i + 1] == anchors[i + 1]);
        }
        assert forall|i: int| k + 1 <= i < p.len() implies (#[trigger] p[i]).0 > stream_ms by {
            assert(p[i] == anchors[i]);
        }
        lemma_latest_offset_from(p, stream_ms, k);
        assert(p.skip(k)[0] == anchors.skip(k)[0]);
    } else {
        // the last anchor is the k-th
        assert(anchors.skip(k)[0] == anchors.last());
        if k > 0 {
            assert(anchors[(k - 1) + 1].0 <= stream_ms);
        } else {
            if anchors.last().0 > stream_ms {
                assert(latest_offset(anchors.drop_last(), stream_ms) == 0);
            }
        }
    }
}

/// Converts a lane's own clock (the audio its recognizer was given) into the
/// recording's. The two differ by the silence the recorder inserted: the
/// lane's late start plus every stretch where its device delivered nothing.
/// Only an offset change beyond [`TIMELINE_SLACK_MS`] records a new anchor.
pub struct LaneTimeline {
    /// (stream ms from which it applies, offset ms), oldest first.
    anchors: Vec<(u64, u64)>,
}

impl View for LaneTimeline {
    type V = Seq<(u64, u64)>;

    closed spec fn view(&self) -> Seq<(u64, u64)> {
        self.anchors@
    }
}

impl LaneTimeline {
    /// Note the offset that applies to audio pushed at `stream_ms`.
    pub fn observe(&mut self, stream_ms: u64, offset_ms: u64)
        ensures
            (old(self)@.len() == 0 || beyond_slack(old(self)@.last().1, offset_ms)) ==> final(self)@
                == old(self)@.push((stream_ms, offset_ms)),
            !(old(self)@.len() == 0 || beyond_slack(old(self)@.last().1, offset_ms)) ==> final(self)@
                == old(self)@,
            starts_sorted(old(self)@) && (old(self)@.len() == 0 || old(self)@.last().0 <= stream_ms)
                ==> starts_sorted(final(self)@),
    {
        let n = self.anchors.len();
        let new_anchor = if n == 0 {
            true
        } else {
            let at = self.anchors[n - 1].1;
            let diff = if at >= offset_ms {
                at - offset_ms
            } else {
                offset_ms - at
            };
            diff > TIMELINE_SLACK_MS
        };
        if new_anchor {
            let ghost before = self@;
            self.anchors.push((stream_ms, offset_ms));
            proof {
                if starts_sorted(before) && (before.len() == 0 || before.last().0 <= stream_ms) {
                    assert forall|i: int, j: int| 0 <= i < j < self@.len() implies (#[trigger] self@[i]).0 <= (
                    #[trigger] self@[j]).0 by {
                        if j == before.len() && i < before.len() {
                            assert(self@[i] == before[i]);
                            assert(before[i].0 <= before.last().0);
                        } else if j < before.len() {
                            assert(self@[i] == before[i] && self@[j] == before[j]);
                        }
                    }
                }
            }
        }
    }

    /// The number of anchors kept.
    pub fn len(&self) -> (n: usize)
        ensures
            n == self@.len(),
    {
        self.anchors.len()
    }

    /// Where `stream_ms` sits in the recording. Queries arrive in stream
    /// order, so the anchors it has moved past are dropped.
    pub fn recording_ms(&mut self, stream_ms: u64) -> (ms: u64)
        requires
            stream_ms + offset_at(unspent(old(self)@, stream_ms), stream_ms) <= u64::MAX,
        ensures
            final(self)@ == unspent(old(self)@, stream_ms),
            ms == stream_ms + offset_at(final(self)@, stream_ms),
            final(self)@.len() > 1 ==> final(self)@[1].0 > stream_ms,
            exists|k: int| 0 <= k && (k == 0 || k < old(self)@.len()) && final(self)@ == old(self)@.skip(k),
            starts_sorted(old(self)@) ==> {
                &&& ms == stream_ms + latest_offset(old(self)@, stream_ms)
                &&& starts_sorted(final(self)@)
                &&& forall|i: int| 1 <= i < final(self)@.len() ==> (#[trigger] final(self)@[i]).0 > stream_ms
            },
    {
        proof {
            let k = lemma_unspent_drops_superseded(old(self)@, stream_ms);
            if starts_sorted(old(self)@) {
                lemma_unspent_uses_the_latest_anchor(old(self)@, stream_ms);
            }
        }
        while self.anchors.len() > 1 && self.anchors[1].0 <= stream_ms
            invariant
                unspent(self@, stream_ms) == unspent(old(self)@, stream_ms),
            decreases self@.len(),
        {
            let ghost before = self@;
            self.anchors.remove(0);
            proof {
                assert(self@ =~= before.drop_first());
            }
        }
        let offset = if self.anchors.len() > 0 && self.anchors[0].0 <= stream_ms {
            self.anchors[0].1
        } else {
            0
        };
        stream_ms + offset
    }
}

impl Default for LaneTimeline {
    fn default() -> (t: Self)
        ensures
            t@ == Seq::<(u64, u64)>::empty(),
    {
        LaneTimeline { anchors: Vec::new() }
    }
}

/// The name a lane goes by in events and file names.
pub open spec fn lane_name_spec(lane: Lane) -> Seq<char> {
    match lane {
        Lane::Mic => "mic"@,
        Lane::Speaker => "speaker"@,
    }
}

pub fn lane_name(lane: Lane) -> (name: &'static str)
    ensures
        name@ == lane_name_spec(lane),
{
    proof {
        reveal_strlit("mic");
        reveal_strlit("speaker");
    }
    match lane {
        Lane::Mic => "mic",
        Lane::Speaker => "speaker",
    }
}

/// A lane's sample count at `src_rate`, expressed in recording samples.
pub fn record_samples(samples: usize, src_rate: u32) -> (n: usize)
    requires
        src_rate > 0,
        samples * 48_000 <= usize::MAX,
    ensures
        n == samples * 48_000 / (src_rate as int),
{
    samples * (RECORD_RATE as usize) / (src_rate as usize)
}

/// Where a lane's chunk of `samples` device samples goes in the recording,
/// and where the lane is expected to continue: at the position of its
/// capture time when there is one, else where the last chunk ended; the
/// next chunk is expected right after this one.
pub fn place_chunk(clock: &mut SessionClock, captured: Option<u64>, next_position: usize, samples: usize, src_rate: u32) -> (r: (usize, usize))
    requires
        src_rate > 0,
        samples * 48_000 <= usize::MAX,
    ensures
        captured is None ==> r.0 == next_position && *final(clock) == *old(clock),
        captured matches Some(n) ==> {
            let zero = final(clock).spec_zero()->0;
            let since: nat = if n >= zero { (n - zero) as nat } else { 0 };
            &&& final(clock).spec_zero() == Some(match old(clock).spec_zero() { Some(z) => z, None => n })
            &&& r.0 == nanos_to_record_samples(since) as usize
        },
        r.1 == (if r.0 + samples * 48_000 / (src_rate as int) <= usize::MAX {
            r.0 + samples * 48_000 / (src_rate as int)
        } else {
            usize::MAX as int
        }),
{
    let at = match captured {
        Some(nanos) => clock.position(nanos),
        None => next_position,
    };
    let n = record_samples(samples, src_rate);
    (at, at.saturating_add(n))
}

/// A recording position (in recording samples) in milliseconds.
pub fn record_position_ms(at: usize) -> (ms: u64)
    requires
        at * 1000 <= u64::MAX,
    ensures
        ms == at * 1000 / 48_000,
{
    (at as u64) * 1000 / (RECORD_RATE as u64)
}

/// The wall-clock duration of `dropped` interleaved samples lost to a full
/// ring, in milliseconds.
pub fn overrun_ms(dropped: usize, channels: usize, src_rate: u32) -> (ms: u64)
    requires
        dropped * 1000 <= u64::MAX,
        channels > 0,
        src_rate > 0,
        channels * src_rate <= u64::MAX,
    ensures
        ms == dropped * 1000 / (channels * src_rate as int),
{
    assert((channels as u64) * (src_rate as u64) > 0) by (nonlinear_arith)
        requires
            channels > 0,
            src_rate > 0,
    ;
    (dropped as u64) * 1000 / ((channels as u64) * (src_rate as u64))
}

/// Utterance numbering and the count of sentences still out with the
/// translator. Lives for the app, not the session: ids stay unique across a
/// stop and start, because the UI keeps the earlier session's lines.
pub struct TranslationLedger {
    pub next_id: u64,
    /// The current session's first utterance id.
    pub first_id: u64,
    /// Submitted and not yet accounted for.
    pub outstanding: usize,
}

impl TranslationLedger {
    pub fn new() -> (l: Self)
        ensures
            l.next_id == 1,
            l.first_id == 1,
            l.outstanding == 0,
    {
        TranslationLedger { next_id: 1, first_id: 1, outstanding: 0 }
    }

    /// A session is starting: nothing from the last one is still owed.
    pub fn begin_session(&mut self)
        ensures
            final(self).next_id == old(self).next_id,
            final(self).first_id == old(self).next_id,
            final(self).outstanding == 0,
    {
        self.outstanding = 0;
        self.first_id = self.next_id;
    }

    /// Number an utterance and decide whether it goes to the translator:
    /// the job to queue, or `None` when the policy says it needs no
    /// translation.
    pub fn number(&mut self, policy: &LanguagePolicy, lane: Lane, text: &str, source: Option<&str>) -> (r: (u64, Option<Job>))
        requires
            old(self).next_id < u64::MAX,
        ensures
            r.0 == old(self).next_id,
            final(self).next_id == old(self).next_id + 1,
            final(self).first_id == old(self).first_id,
            final(self).outstanding == old(self).outstanding,
            ({
                let target = target_for_spec(codes(policy.spoken@), opt_chars(policy.target), policy.mutual, opt_str(source));
                match r.1 {
                    None => target is None,
                    Some(job) => {
                        &&& target == Some(job.target@)
                        &&& job.id == r.0
                        &&& job.lane == lane
                        &&& job.text@ == text@
                        &&& opt_chars(job.source) == opt_str(source)
                    },
                }
            }),
    {
        let id = self.next_id;
        self.next_id = id + 1;
        match policy.target_for(source) {
            None => (id, None),
            Some(target) => (
                id,
                Some(
                    Job {
                        id,
                        lane,
                        text: String::from_str(text),
                        source: own_opt(source),
                        target: String::from_str(target),
                    },
                ),
            ),
        }
    }

    /// A job was handed to the translator; if that evicted an older one, it
    /// is one fewer result to wait for, not one more.
    pub fn submitted(&mut self, evicted: bool)
        requires
            old(self).outstanding < usize::MAX,
        ensures
            final(self).next_id == old(self).next_id,
            final(self).first_id == old(self).first_id,
            final(self).outstanding == old(self).outstanding + (if evicted { 0int } else { 1int }),
    {
        if !evicted {
            self.outstanding = self.outstanding + 1;
        }
    }

    /// A result came back.
    pub fn settled(&mut self)
        ensures
            final(self).next_id == old(self).next_id,
            final(self).first_id == old(self).first_id,
            final(self).outstanding == (if old(self).outstanding > 0 { old(self).outstanding - 1 } else { 0 }),
    {
        self.outstanding = self.outstanding.saturating_sub(1);
    }

    /// Whether utterance `id` belongs to the current session (and so to its
    /// transcript file).
    pub fn in_session(&self, id: u64) -> (b: bool)
        ensures
            b == (id >= self.first_id),
    {
        id >= self.first_id
    }
}

#[verifier::external_type_specification]
#[verifier::external_body]
#[verifier::reject_recursive_types(T)]
pub struct ExConsumer<T>(rtrb::Consumer<T>);

/// The anchors waiting in a lane's ring, oldest first, as the consumer
/// `c` last saw them.
pub uninterp spec fn ring_anchors(c: rtrb::Consumer<Anchor>) -> Seq<Anchor>;

/// `rtrb::Consumer::peek`, the anchor copied out: the front of the ring,
/// or `None` when it is empty. The capture thread may have pushed more
/// anchors since the consumer last looked (they come in behind the others);
/// none leaves the ring but through `pop`.
#[verifier::external_body]
fn peek_anchor(times: &mut rtrb::Consumer<Anchor>) -> (r: Option<Anchor>)
    ensures
        ring_anchors(*old(times)).is_prefix_of(ring_anchors(*final(times))),
        r == (if ring_anchors(*final(times)).len() == 0 {
            None
        } else {
            Some(ring_anchors(*final(times))[0])
        }),
{
    times.peek().ok().copied()
}

/// `rtrb::Consumer::pop`: takes the front anchor off the ring, after any
/// the capture thread has pushed meanwhile have come in behind it; `None`
/// when the ring is empty.
#[verifier::external_body]
fn pop_anchor(times: &mut rtrb::Consumer<Anchor>) -> (r: Option<Anchor>)
    ensures
        exists|grown: Seq<Anchor>|
            #![trigger grown.len()]
            ring_anchors(*old(times)).is_prefix_of(grown) && if grown.len() == 0 {
                r is None && ring_anchors(*final(times)) == grown
            } else {
                r == Some(grown[0]) && ring_anchors(*final(times)) == grown.drop_first()
            },
{
    times.pop().ok()
}

proof fn lemma_prefix_trans(a: Seq<Anchor>, b: Seq<Anchor>, c: Seq<Anchor>)
    requires
        a.is_prefix_of(b),
        b.is_prefix_of(c),
    ensures
        a.is_prefix_of(c),
{
    assert(a =~= c.subrange(0, a.len() as int)) by {
        assert forall|i: int| 0 <= i < a.len() implies a[i] == c[i] by {
            assert(a[i] == b.subrange(0, a.len() as int)[i]);
            assert(b[i] == c.subrange(0, b.len() as int)[i]);
        }
    }
}

proof fn lemma_prefix_behind(t: Seq<Anchor>, a: Seq<Anchor>, b: Seq<Anchor>)
    requires
        a.is_prefix_of(b),
    ensures
        (t + a).is_prefix_of(t + b),
{
    assert((t + a) =~= (t + b).subrange(0, (t + a).len() as int)) by {
        assert forall|i: int| 0 <= i < (t + a).len() implies (t + a)[i] == (t + b)[i] by {
            if i >= t.len() {
                assert(a[i - t.len()] == b.subrange(0, a.len() as int)[i - t.len()]);
            }
        }
    }
}

/// A peek followed by the pop of the anchor it showed: the ring seen at the
/// start is still a prefix of what was taken followed by what is left.
proof fn lemma_take_front(p0: Seq<Anchor>, taken: Seq<Anchor>, seen: Seq<Anchor>, peeked: Seq<Anchor>, grown: Seq<Anchor>)
    requires
        p0.is_prefix_of(taken + seen),
        seen.is_prefix_of(peeked),
        peeked.len() > 0,
        peeked.is_prefix_of(grown),
    ensures
        grown.len() > 0,
        grown[0] == peeked[0],
        p0.is_prefix_of(taken.push(peeked[0]) + grown.drop_first()),
{
    assert(grown[0] == grown.subrange(0, peeked.len() as int)[0]);
    lemma_prefix_trans(seen, peeked, grown);
    lemma_prefix_behind(taken, seen, grown);
    lemma_prefix_trans(p0, taken + seen, taken + grown);
    assert(taken.push(peeked[0]) + grown.drop_first() =~= taken + grown);
}

/// When frame `frames_read` was captured, by anchor `a`: the device's own
/// rate carries time forward from the anchor. The arithmetic wraps at
/// 64 bits, as the unchecked sum does in a release build.
pub open spec fn anchor_nanos(a: Anchor, frames_read: u64, rate: u32) -> u64 {
    let ahead: u64 = if frames_read >= a.frame { (frames_read - a.frame) as u64 } else { 0 };
    vstd::wrapping::u64_specs::wrapping_add(
        a.nanos,
        (vstd::wrapping::u64_specs::wrapping_mul(ahead, 1_000_000_000) / (rate as u64)) as u64,
    )
}

/// Where `current`'s clock puts `frame`.
pub open spec fn expected_nanos(current: Anchor, frame: u64, rate: u32) -> u64 {
    vstd::wrapping::u64_specs::wrapping_add(
        current.nanos,
        (vstd::wrapping::u64_specs::wrapping_mul(
            vstd::wrapping::u64_specs::wrapping_sub(frame, current.frame),
            1_000_000_000,
        ) / (rate as u64)) as u64,
    )
}

/// Whether `next` disagrees with `current`'s clock by more than the jump
/// threshold: a real hole in the lane's audio.
pub open spec fn disagrees(current: Anchor, next: Anchor, rate: u32) -> bool {
    let e = expected_nanos(current, next.frame, rate);
    if next.nanos >= e {
        next.nanos - e > ANCHOR_JUMP_NANOS
    } else {
        e - next.nanos > ANCHOR_JUMP_NANOS
    }
}

pub fn anchor_time(a: Anchor, frames_read: u64, rate: u32) -> (t: u64)
    requires
        rate > 0,
    ensures
        t == anchor_nanos(a, frames_read, rate),
{
    let ahead = frames_read.saturating_sub(a.frame);
    a.nanos.wrapping_add(ahead.wrapping_mul(1_000_000_000) / (rate as u64))
}

pub fn is_jump(current: Anchor, next: Anchor, rate: u32) -> (b: bool)
    requires
        rate > 0,
    ensures
        b == disagrees(current, next, rate),
{
    let expected = current.nanos.wrapping_add(
        next.frame.wrapping_sub(current.frame).wrapping_mul(1_000_000_000) / (rate as u64),
    );
    let diff = if next.nanos >= expected {
        next.nanos - expected
    } else {
        expected - next.nanos
    };
    diff > ANCHOR_JUMP_NANOS
}

/// Follows a lane's capture anchors as its audio is read, so any frame can
/// be given the time the OS says it was captured. Anchors the reader has
/// passed are taken off the ring as it goes.
///
/// Each scan is bounded only so that it provably ends: a ring holding
/// `u64::MAX` anchors does not exist.
pub struct AnchorTrail {
    /// The latest anchor at or before the frames read so far.
    current: Option<Anchor>,
    /// The pending anchors the latest scan looked at, in ring order.
    scanned: Ghost<Seq<Anchor>>,
    /// The clock the latest scan started from.
    scan_start: Ghost<Option<Anchor>>,
    /// The anchors the latest `nanos_at` took off the ring, in ring order.
    taken: Ghost<Seq<Anchor>>,
    /// The ring as the latest `nanos_at` left it.
    rest: Ghost<Seq<Anchor>>,
    /// The anchors the latest scan took off the ring, in ring order.
    passed: Ghost<Seq<Anchor>>,
}

/// What the trail does with the ring's front anchor (`None`: the ring is
/// empty) when frame `frames_read` is the next one read.
#[derive(Debug, Clone, Copy, PartialEq, Eq, Structural)]
pub enum TrailStep {
    /// The anchor describes frames already reached: take it as the clock.
    Take(Anchor),
    /// Nothing to take: stop here.
    Stop,
}

pub fn trail_step(peeked: Option<Anchor>, frames_read: u64) -> (s: TrailStep)
    ensures
        match peeked {
            None => s == TrailStep::Stop,
            Some(a) => if a.frame <= frames_read {
                s == TrailStep::Take(a)
            } else {
                s == TrailStep::Stop
            },
        },
{
    match peeked {
        Some(a) => {
            if a.frame <= frames_read {
                TrailStep::Take(a)
            } else {
                TrailStep::Stop
            }
        },
        None => TrailStep::Stop,
    }
}

/// Where a scan from the clock `current` over the pending anchors
/// `pending` (oldest first) stops before `limit`: at the frame of the first
/// anchor that disagrees with the clock as the agreeing ones before it carry
/// it forward, or nowhere (`None`) when an anchor at or past the limit, or
/// the end of the anchors, comes first.
pub open spec fn scan_stop(current: Anchor, pending: Seq<Anchor>, limit: u64, rate: u32) -> Option<u64>
    decreases pending.len(),
{
    if pending.len() == 0 {
        None
    } else if pending[0].frame >= limit {
        None
    } else if disagrees(current, pending[0], rate) {
        Some(pending[0].frame)
    } else {
        scan_stop(pending[0], pending.drop_first(), limit, rate)
    }
}

/// Each anchor of `s` is before `limit` and agrees with the one before it
/// (the first with `current`).
pub open spec fn agreeing_chain(current: Anchor, s: Seq<Anchor>, limit: u64, rate: u32) -> bool
    decreases s.len(),
{
    if s.len() == 0 {
        true
    } else {
        s[0].frame < limit && !disagrees(current, s[0], rate) && agreeing_chain(s[0], s.drop_first(), limit, rate)
    }
}

/// The clock after an agreeing chain: its last anchor.
pub open spec fn chain_end(current: Anchor, s: Seq<Anchor>) -> Anchor {
    if s.len() == 0 {
        current
    } else {
        s.last()
    }
}

proof fn lemma_scan_through_chain(current: Anchor, s: Seq<Anchor>, t: Seq<Anchor>, limit: u64, rate: u32)
    requires
        agreeing_chain(current, s, limit, rate),
    ensures
        scan_stop(current, s + t, limit, rate) == scan_stop(chain_end(current, s), t, limit, rate),
    decreases s.len(),
{
    if s.len() > 0 {
        assert((s + t)[0] == s[0]);
        assert((s + t).drop_first() =~= s.drop_first() + t);
        lemma_scan_through_chain(s[0], s.drop_first(), t, limit, rate);
        if s.len() > 1 {
            assert(s.drop_first().last() == s.last());
        } else {
            assert(s.drop_first() =~= Seq::<Anchor>::empty());
        }
    } else {
        assert(s + t =~= t);
    }
}

proof fn lemma_chain_push(current: Anchor, s: Seq<Anchor>, x: Anchor, limit: u64, rate: u32)
    requires
        agreeing_chain(current, s, limit, rate),
        x.frame < limit,
        !disagrees(chain_end(current, s), x, rate),
    ensures
        agreeing_chain(current, s.push(x), limit, rate),
        chain_end(current, s.push(x)) == x,
    decreases s.len(),
{
    if s.len() > 0 {
        assert(s.push(x).drop_first() =~= s.drop_first().push(x));
        assert(s.push(x)[0] == s[0]);
        if s.len() > 1 {
            assert(s.drop_first().last() == s.last());
        } else {
            assert(s.drop_first() =~= Seq::<Anchor>::empty());
        }
        lemma_chain_push(s[0], s.drop_first(), x, limit, rate);
        assert(agreeing_chain(s[0], s.push(x).drop_first(), limit, rate));
    } else {
        assert(s.push(x).drop_first() =~= Seq::<Anchor>::empty());
        assert(s.push(x)[0] == x);
        assert(agreeing_chain(x, s.push(x).drop_first(), limit, rate));
    }
}

impl AnchorTrail {
    pub closed spec fn spec_current(&self) -> Option<Anchor> {
        self.current
    }

    /// The pending anchors the latest scan looked at, in ring order.
    pub closed spec fn scanned(&self) -> Seq<Anchor> {
        self.scanned@
    }

    /// The clock the latest scan started from (`None`: there was none).
    pub closed spec fn scan_start(&self) -> Option<Anchor> {
        self.scan_start@
    }

    /// The anchors the latest `nanos_at` took off the ring, in ring order.
    pub closed spec fn taken(&self) -> Seq<Anchor> {
        self.taken@
    }

    /// The ring as the latest `nanos_at` left it.
    pub closed spec fn rest(&self) -> Seq<Anchor> {
        self.rest@
    }

    /// The anchors the latest scan took off the ring, in ring order.
    pub closed spec fn passed(&self) -> Seq<Anchor> {
        self.passed@
    }

    /// When frame `frames_read` was captured, or `None` before the lane
    /// has delivered any anchor. Every anchor at the front of the ring that
    /// describes frames already reached is taken (and so leaves the ring),
    /// the last of them becoming the clock; the scan stops at an empty ring
    /// or at an anchor for frames not read yet.
    pub fn nanos_at(&mut self, times: &mut rtrb::Consumer<Anchor>, frames_read: u64, rate: u32) -> (r: Option<u64>)
        requires
            rate > 0,
        ensures
            r == (match final(self).spec_current() {
                Some(a) => Some(anchor_nanos(a, frames_read, rate)),
                None => None,
            }),
            final(self).spec_current() == (if final(self).taken().len() == 0 {
                old(self).spec_current()
            } else {
                Some(final(self).taken().last())
            }),
            forall|k: int| 0 <= k < final(self).taken().len() ==> (#[trigger] final(self).taken()[k]).frame <= frames_read,
            ring_anchors(*old(times)).is_prefix_of(final(self).taken() + ring_anchors(*final(times))),
            final(self).taken().len() < u64::MAX ==> ring_anchors(*final(times)).len() == 0
                || ring_anchors(*final(times))[0].frame > frames_read,
            final(self).rest() == ring_anchors(*final(times)),
    {
        self.taken = Ghost(Seq::empty());
        let ghost p0 = ring_anchors(*times);
        proof {
            assert(Seq::<Anchor>::empty() + p0 =~= p0);
            assert(p0.is_prefix_of(p0));
        }
        let mut budget: u64 = u64::MAX;
        while budget > 0
            invariant
                rate > 0,
                self.taken@.len() == u64::MAX - budget,
                forall|k: int| 0 <= k < self.taken@.len() ==> (#[trigger] self.taken@[k]).frame <= frames_read,
                self.current == (if self.taken@.len() == 0 { old(self).current } else { Some(self.taken@.last()) }),
                p0 == ring_anchors(*old(times)),
                p0.is_prefix_of(self.taken@ + ring_anchors(*times)),
            ensures
                forall|k: int| 0 <= k < self.taken@.len() ==> (#[trigger] self.taken@[k]).frame <= frames_read,
                self.current == (if self.taken@.len() == 0 { old(self).current } else { Some(self.taken@.last()) }),
                p0.is_prefix_of(self.taken@ + ring_anchors(*times)),
                self.taken@.len() < u64::MAX ==> ring_anchors(*times).len() == 0
                    || ring_anchors(*times)[0].frame > frames_read,
            decreases budget,
        {
            let ghost seen = ring_anchors(*times);
            let peeked = peek_anchor(times);
            match trail_step(peeked, frames_read) {
                TrailStep::Stop => {
                    proof {
                        lemma_prefix_behind(self.taken@, seen, ring_anchors(*times));
                        lemma_prefix_trans(p0, self.taken@ + seen, self.taken@ + ring_anchors(*times));
                    }
                    break;
                },
                TrailStep::Take(next) => {
                    let ghost front = ring_anchors(*times);
                    let _ = pop_anchor(times);
                    proof {
                        let grown = choose|grown: Seq<Anchor>|
                            #![trigger grown.len()]
                            front.is_prefix_of(grown) && if grown.len() == 0 {
                                ring_anchors(*times) == grown
                            } else {
                                ring_anchors(*times) == grown.drop_first()
                            };
                        lemma_take_front(p0, self.taken@, seen, front, grown);
                    }
                    self.current = Some(next);
                    self.taken = Ghost(self.taken@.push(next));
                    budget = budget - 1;
                },
            }
        }
        self.rest = Ghost(ring_anchors(*times));
        match self.current {
            Some(a) => Some(anchor_time(a, frames_read, rate)),
            None => None,
        }
    }

    /// The frame of the first pending anchor before `limit` whose time
    /// disagrees with the current clock, if any. Anchors that agree are
    /// taken in as the scan passes them; they refine the clock but change
    /// nothing. The scan stops at an empty ring, at an anchor at or past the
    /// limit, or at the first that disagrees; the one it stops at stays in
    /// the ring.
    pub fn jump_before(&mut self, times: &mut rtrb::Consumer<Anchor>, limit: u64, rate: u32) -> (r: Option<u64>)
        requires
            rate > 0,
        ensures
            final(self).scan_start() == old(self).spec_current(),
            final(self).taken() == old(self).taken(),
            final(self).rest() == old(self).rest(),
            old(self).spec_current() is None ==> {
                &&& r is None
                &&& final(self).spec_current() is None
                &&& final(self).scanned() == Seq::<Anchor>::empty()
                &&& final(self).passed() == Seq::<Anchor>::empty()
                &&& ring_anchors(*final(times)) == ring_anchors(*old(times))
            },
            old(self).spec_current() matches Some(c) ==> r == scan_stop(c, final(self).scanned(), limit, rate),
            final(self).spec_current() == (if final(self).passed().len() == 0 {
                old(self).spec_current()
            } else {
                Some(final(self).passed().last())
            }),
            ring_anchors(*old(times)).is_prefix_of(final(self).passed() + ring_anchors(*final(times))),
            final(self).scanned() == final(self).passed() || (ring_anchors(*final(times)).len() > 0
                && final(self).scanned() == final(self).passed().push(ring_anchors(*final(times))[0])),
            old(self).spec_current() is Some && final(self).scanned() == final(self).passed() ==> (
            final(self).passed().len() == u64::MAX || ring_anchors(*final(times)).len() == 0),
            final(self).spec_current() == old(self).spec_current() || (final(self).spec_current() matches Some(
                a,
            ) && a.frame < limit),
            r matches Some(f) ==> f < limit && exists|next: Anchor|
                next.frame == f && #[trigger] disagrees(final(self).spec_current()->0, next, rate),
    {
        self.scanned = Ghost(Seq::empty());
        self.passed = Ghost(Seq::empty());
        self.scan_start = Ghost(self.current);
        let mut current = match self.current {
            Some(c) => c,
            None => return None,
        };
        let ghost start = current;
        let ghost p0 = ring_anchors(*times);
        proof {
            assert(Seq::<Anchor>::empty() + p0 =~= p0);
            assert(p0.is_prefix_of(p0));
        }
        let mut budget: u64 = u64::MAX;
        while budget > 0
            invariant
                rate > 0,
                self.current == Some(current),
                old(self).current == Some(start),
                self.current == old(self).current || current.frame < limit,
                agreeing_chain(start, self.scanned@, limit, rate),
                chain_end(start, self.scanned@) == current,
                self.scan_start@ == Some(start),
                self.scanned@ == self.passed@,
                self.passed@.len() == u64::MAX - budget,
                self.taken == old(self).taken,
                self.rest == old(self).rest,
                p0 == ring_anchors(*old(times)),
                p0.is_prefix_of(self.passed@ + ring_anchors(*times)),
            decreases budget,
        {
            let ghost seen = ring_anchors(*times);
            let peeked = peek_anchor(times);
            proof {
                lemma_prefix_behind(self.passed@, seen, ring_anchors(*times));
                lemma_prefix_trans(p0, self.passed@ + seen, self.passed@ + ring_anchors(*times));
            }
            let next = match peeked {
                Some(a) => a,
                None => {
                    proof {
                        lemma_scan_through_chain(start, self.scanned@, Seq::empty(), limit, rate);
                        assert(self.scanned@ + Seq::<Anchor>::empty() =~= self.scanned@);
                    }
                    return None;
                },
            };
            proof {
                lemma_scan_through_chain(start, self.scanned@, seq![next], limit, rate);
            }
            let ghost prior = self.scanned@;
            self.scanned = Ghost(self.scanned@.push(next));
            proof {
                assert(prior + seq![next] =~= self.scanned@);
            }
            if next.frame >= limit {
                return None;
            }
            if is_jump(current, next, rate) {
                proof {
                    assert(disagrees(self.current->0, next, rate));
                }
                return Some(next.frame);
            }
            proof {
                lemma_chain_push(start, prior, next, limit, rate);
            }
            let ghost front = ring_anchors(*times);
            let _ = pop_anchor(times);
            proof {
                let grown = choose|grown: Seq<Anchor>|
                    #![trigger grown.len()]
                    front.is_prefix_of(grown) && if grown.len() == 0 {
                        ring_anchors(*times) == grown
                    } else {
                        ring_anchors(*times) == grown.drop_first()
                    };
                assert(front.is_prefix_of(front));
                lemma_take_front(p0, self.passed@, front, front, grown);
            }
            current = next;
            self.current = Some(next);
            self.passed = Ghost(self.passed@.push(next));
            budget = budget - 1;
        }
        proof {
            lemma_scan_through_chain(start, self.scanned@, Seq::empty(), limit, rate);
            assert(self.scanned@ + Seq::<Anchor>::empty() =~= self.scanned@);
        }
        None
    }

    /// One pass of a lane's drain over `available` frames in its ring:
    /// when the first of them was captured, and how many to read now. The
    /// read stops at the first time jump between callbacks, so the hole is
    /// kept in the timeline instead of collapsing; the next pass starts at
    /// the jump and is placed by its own anchor.
    pub fn next_run(&mut self, times: &mut rtrb::Consumer<Anchor>, frames_read: u64, available: u64, rate: u32) -> (r: (Option<u64>, u64))
        requires
            rate > 0,
            frames_read + available <= u64::MAX,
        ensures
            available == 0 ==> r == (None::<u64>, 0u64) && *final(self) == *old(self) && ring_anchors(*final(times))
                == ring_anchors(*old(times)),
            available > 0 ==> {
                let taken = final(self).taken();
                let rest = final(self).rest();
                let passed = final(self).passed();
                let left = ring_anchors(*final(times));
                &&& final(self).scan_start() == (if taken.len() == 0 {
                    old(self).spec_current()
                } else {
                    Some(taken.last())
                })
                &&& forall|k: int| 0 <= k < taken.len() ==> (#[trigger] taken[k]).frame <= frames_read
                &&& ring_anchors(*old(times)).is_prefix_of(taken + rest)
                &&& taken.len() < u64::MAX ==> rest.len() == 0 || rest[0].frame > frames_read
                &&& rest.is_prefix_of(passed + left)
                &&& final(self).scanned() == passed || (left.len() > 0 && final(self).scanned() == passed.push(left[0]))
                &&& final(self).scan_start() is Some && final(self).scanned() == passed ==> (passed.len() == u64::MAX
                    || left.len() == 0)
                &&& final(self).spec_current() == (if passed.len() == 0 {
                    final(self).scan_start()
                } else {
                    Some(passed.last())
                })
                &&& r.0 == (match final(self).scan_start() {
                    Some(a) => Some(anchor_nanos(a, frames_read, rate)),
                    None => None,
                })
                &&& r.1 == (match final(self).scan_start() {
                    Some(c) => match scan_stop(c, final(self).scanned(), (frames_read + available) as u64, rate) {
                        Some(f) => if f >= frames_read { (f - frames_read) as u64 } else { 0u64 },
                        None => available,
                    },
                    None => available,
                })
                &&& r.1 <= available
                &&& r.1 < available ==> exists|next: Anchor|
                    next.frame < frames_read + available && #[trigger] disagrees(final(self).spec_current()->0, next, rate)
                    && (if next.frame >= frames_read { r.1 == next.frame - frames_read } else { r.1 == 0 })
            },
    {
        if available == 0 {
            return (None, 0);
        }
        let captured = self.nanos_at(times, frames_read, rate);
        let limit = frames_read + available;
        let frames = match self.jump_before(times, limit, rate) {
            Some(jump) => {
                if jump >= frames_read {
                    jump - frames_read
                } else {
                    0
                }
            },
            None => available,
        };
        (captured, frames)
    }
}

impl Default for AnchorTrail {
    fn default() -> (t: Self)
        ensures
            t.spec_current() is None,
    {
        AnchorTrail {
            current: None,
            scanned: Ghost(Seq::empty()),
            scan_start: Ghost(None),
            taken: Ghost(Seq::empty()),
            rest: Ghost(Seq::empty()),
            passed: Ghost(Seq::empty()),
        }
    }
}

/// `s` cut at every `c`: the pieces done so far and the one in progress.
pub open spec fn split_fold(s: Seq<char>, c: char) -> (Seq<Seq<char>>, Seq<char>)
    decreases s.len(),
{
    if s.len() == 0 {
        (Seq::empty(), Seq::empty())
    } else {
        let (done, cur) = split_fold(s.drop_last(), c);
        if s.last() == c {
            (done.push(cur), Seq::empty())
        } else {
            (done, cur.push(s.last()))
        }
    }
}

/// The pieces of `s` between the `c`s (an empty string is one empty piece).
pub open spec fn split_on(s: Seq<char>, c: char) -> Seq<Seq<char>> {
    split_fold(s, c).0.push(split_fold(s, c).1)
}

/// The trimmed pieces that are not blank, in order.
pub open spec fn nonblank_trimmed(pieces: Seq<Seq<char>>) -> Seq<Seq<char>>
    decreases pieces.len(),
{
    if pieces.len() == 0 {
        Seq::empty()
    } else {
        let prev = nonblank_trimmed(pieces.drop_last());
        let t = trimmed(pieces.last());
        if t.len() > 0 {
            prev.push(t)
        } else {
            prev
        }
    }
}

/// The language codes a comma-separated list names.
pub fn parse_lang_list(list: &str) -> (langs: Vec<String>)
    ensures
        crate::language::codes(langs@) == nonblank_trimmed(split_on(list@, ',')),
{
    let chars = chars_of(list);
    let mut langs: Vec<String> = Vec::new();
    let mut cur: Vec<char> = Vec::new();
    let ghost mut done: Seq<Seq<char>> = Seq::empty();
    let mut i: usize = 0;
    while i < chars.len()
        invariant
            i <= chars@.len(),
            chars@ == list@,
            (done, cur@) == split_fold(chars@.take(i as int), ','),
            crate::language::codes(langs@) == nonblank_trimmed(done),
        decreases chars@.len() - i,
    {
        proof {
            assert(chars@.take(i + 1).drop_last() =~= chars@.take(i as int));
        }
        if chars[i] == ',' {
            proof {
                assert(done.push(cur@).drop_last() =~= done);
            }
            let piece = trim(string_of(cur.as_slice()).as_str());
            let ghost prev = langs@;
            if !piece.as_str().is_empty() {
                langs.push(piece);
                proof {
                    assert(crate::language::codes(langs@) =~= crate::language::codes(prev).push(piece@));
                }
            }
            proof {
                done = done.push(cur@);
            }
            cur = Vec::new();
            proof {
                assert(cur@ =~= Seq::<char>::empty());
            }
        } else {
            cur.push(chars[i]);
        }
        i = i + 1;
    }
    proof {
        assert(chars@.take(i as int) =~= chars@);
    }
    proof {
        assert(done.push(cur@).drop_last() =~= done);
    }
    let piece = trim(string_of(cur.as_slice()).as_str());
    let ghost prev = langs@;
    if !piece.as_str().is_empty() {
        langs.push(piece);
        proof {
            assert(crate::language::codes(langs@) =~= crate::language::codes(prev).push(piece@));
        }
    }
    langs
}

/// The startup language settings: the default, then a comma-separated
/// candidate list (`langs`, ignored when it names none, and cut to its first
/// two: at most two languages may be spoken), then one pinned
/// language (`lang`), then the translation target (`target`; `none` or
/// empty means no translation).
pub fn policy_from_settings(langs: Option<&str>, lang: Option<&str>, target: Option<&str>) -> (p: LanguagePolicy)
    ensures
        ({
            let all = match langs {
                Some(l) => nonblank_trimmed(split_on(l@, ',')),
                None => Seq::<Seq<char>>::empty(),
            };
            let listed = if all.len() > 2 { all.take(2) } else { all };
            let spoken = match lang {
                Some(l) => seq![l@],
                None => if listed.len() > 0 {
                    listed
                } else {
                    seq!["ja"@, "en"@]
                },
            };
            &&& codes(p.spoken@) == spoken
            &&& opt_chars(p.target) == (match target {
                Some(t) => if t@ != "none"@ && t@.len() > 0 {
                    Some(t@)
                } else {
                    None
                },
                None => Some("ja"@),
            })
            &&& !p.mutual
        }),
{
    proof {
        reveal_strlit("none");
    }
    let mut policy = LanguagePolicy::default();
    if let Some(l) = langs {
        let mut spoken = parse_lang_list(l);
        if spoken.len() > 2 {
            spoken.truncate(2);
        }
        if spoken.len() > 0 {
            policy.spoken = spoken;
        }
    }
    if let Some(l) = lang {
        policy.spoken = vec![String::from_str(l)];
        proof {
            assert(codes(policy.spoken@) =~= seq![l@]);
        }
    }
    if let Some(t) = target {
        policy.target = if !str_eq(t, "none") && !t.is_empty() {
            Some(String::from_str(t))
        } else {
            None
        };
    }
    policy
}

/// What the UI must be told after an output-device event.
pub struct DeviceEventEffects {
    /// Show this prompt in the prompt window, or take it down (`Some(None)`);
    /// `None` leaves the window as it is.
    pub present: Option<Option<OutputDevicePrompt>>,
    /// The status line changed and must be emitted again.
    pub status_changed: bool,
    /// The speaker lane now records this device (its name, for the main
    /// window).
    pub switched_to: Option<String>,
    /// The switch failed: the prompt window says so.
    pub switch_failed: bool,
}

/// The notice a failed switch leaves on the status line.
pub open spec fn switch_failed_notice() -> Seq<char> {
    "スピーカー録音の出力先を切り替えられませんでした"@
}

fn clone_prompt(p: &Option<OutputDevicePrompt>) -> (c: Option<OutputDevicePrompt>)
    ensures
        c is Some == p is Some,
        c is Some ==> c->0.id == p->0.id && c->0.previous_name@ == p->0.previous_name@
            && c->0.detected_name@ == p->0.detected_name@,
{
    match p {
        Some(x) => Some(
            OutputDevicePrompt {
                id: x.id,
                previous_name: x.previous_name.clone(),
                detected_name: x.detected_name.clone(),
            },
        ),
        None => None,
    }
}

/// Whether `c` is a copy of the pending prompt `p`.
pub open spec fn same_prompt(c: Option<OutputDevicePrompt>, p: Option<OutputDevicePrompt>) -> bool {
    &&& c is Some == p is Some
    &&& c is Some ==> c->0.id == p->0.id && c->0.previous_name@ == p->0.previous_name@
        && c->0.detected_name@ == p->0.detected_name@
}

/// Take in one event from the speaker lane's capture thread.
///
/// A detected change (re)prompts when the prompt changed. A completed switch
/// takes the prompt and the speaker notice down and names the new device. A
/// failed switch prompts again for the same change and posts a notice. A
/// cancellation changes nothing here: the prompt went when its decision was
/// accepted, and a stale cancellation must not dismiss a newer prompt.
pub fn apply_output_device_event(
    pending: &mut PendingOutputDevice,
    notices: &mut Notices,
    event: OutputDeviceSwitchEvent,
) -> (fx: DeviceEventEffects)
    ensures
        keys_distinct(old(notices)@) ==> keys_distinct(final(notices)@),
        match event {
            OutputDeviceSwitchEvent::Detected { capturing, detected } => {
                &&& exists|changed: bool| {
                    &&& #[trigger] observed(*old(pending), capturing.uid@, capturing.name@, detected.uid@, detected.name@, *final(pending), changed)
                    &&& changed ==> (fx.present matches Some(pr) && same_prompt(pr, final(pending).prompt))
                    &&& !changed ==> fx.present is None
                }
                &&& final(notices)@ == old(notices)@
                &&& !fx.status_changed
                &&& fx.switched_to is None
                &&& !fx.switch_failed
            },
            OutputDeviceSwitchEvent::Switched { previous, current } => {
                &&& final(pending).prompt is None
                &&& final(pending).expected_uid is None
                &&& final(pending).next_id == old(pending).next_id
                &&& fx.present == Some(None::<OutputDevicePrompt>)
                &&& final(notices)@ == notices_set(old(notices)@, NoticeKey::Speaker, None)
                &&& fx.status_changed == (final(notices)@ != old(notices)@)
                &&& fx.switched_to matches Some(n) && n@ == current.name@
                &&& !fx.switch_failed
            },
            OutputDeviceSwitchEvent::SwitchFailed { capturing, detected, error } => {
                let cleared = PendingOutputDevice { prompt: None, expected_uid: None, next_id: old(pending).next_id };
                &&& exists|changed: bool| #[trigger] observed(cleared, capturing.uid@, capturing.name@, detected.uid@, detected.name@, *final(pending), changed)
                &&& fx.present matches Some(pr) && same_prompt(pr, final(pending).prompt)
                &&& final(notices)@ == notices_set(old(notices)@, NoticeKey::Speaker, Some(switch_failed_notice()))
                &&& fx.status_changed == (final(notices)@ != old(notices)@)
                &&& fx.switched_to is None
                &&& fx.switch_failed
            },
            OutputDeviceSwitchEvent::Cancelled { .. } => {
                &&& *final(pending) == *old(pending)
                &&& final(notices)@ == old(notices)@
                &&& fx.present is None
                &&& !fx.status_changed
                &&& fx.switched_to is None
                &&& !fx.switch_failed
            },
        },
{
    proof {
        reveal_strlit("スピーカー録音の出力先を切り替えられませんでした");
    }
    match event {
        OutputDeviceSwitchEvent::Detected { capturing, detected } => {
            let changed = pending.observe(&capturing, &detected);
            let present = if changed {
                Some(clone_prompt(&pending.prompt))
            } else {
                None
            };
            DeviceEventEffects { present, status_changed: false, switched_to: None, switch_failed: false }
        },
        OutputDeviceSwitchEvent::Switched { previous, current } => {
            pending.clear();
            let status_changed = notices.set(NoticeKey::Speaker, None);
            DeviceEventEffects {
                present: Some(None),
                status_changed,
                switched_to: Some(current.name),
                switch_failed: false,
            }
        },
        OutputDeviceSwitchEvent::SwitchFailed { capturing, detected, error } => {
            pending.clear();
            let ghost cleared = *pending;
            let changed = pending.observe(&capturing, &detected);
            let present = Some(clone_prompt(&pending.prompt));
            let status_changed = notices.set(
                NoticeKey::Speaker,
                Some(String::from_str("スピーカー録音の出力先を切り替えられませんでした")),
            );
            DeviceEventEffects { present, status_changed, switched_to: None, switch_failed: true }
        },
        OutputDeviceSwitchEvent::Cancelled { .. } => {
            DeviceEventEffects { present: None, status_changed: false, switched_to: None, switch_failed: false }
        },
    }
}

} // verus!
