//! Reading back what the recorder wrote: session titles, the summary a list
//! shows, the transcript put back together in spoken order, and the order
//! sessions are listed in. The directory walk, the WAV headers and the JSON
//! lines are read by the application and handed over as plain values.
use vstd::prelude::*;

use chrono::Datelike;
use chrono::TimeZone;
use chrono::Timelike;

use crate::sorting::{is_sorted, lemma_sorted_stable, sort_stable, sorted_stable, SortOrder};
use crate::text::{
    before_first, char_is_control, chars_of, is_control, opt_chars, prefix_before, str_eq, trim,
    trimmed,
};

verus! {

pub const METADATA_FILE: &'static str = "metadata.json";
pub const MAX_TITLE_CHARS: usize = 100;

/// One recorded session, as the library list needs it.
#[derive(Debug, PartialEq)]
pub struct Recording {
    /// Directory name: `20260819090503`, or `…-2` for a restart within the
    /// same second.
    pub name: String,
    pub dir: String,
    /// A user-supplied display name.
    pub title: Option<String>,
    /// When it started, from the name's wall clock read as local time.
    pub started_at_ms: Option<i64>,
    pub duration_ms: u64,
    /// Which lanes were actually recorded.
    pub lanes: Vec<String>,
    /// The session's first words.
    pub snippet: String,
    pub utterances: usize,
}

/// One utterance of a finished session, with whatever translation caught up
/// to it before the session ended.
#[derive(Debug, PartialEq)]
pub struct Line {
    pub id: u64,
    pub lane: String,
    pub start_ms: u64,
    pub end_ms: u64,
    pub lang: Option<String>,
    pub text: String,
    pub translation: Option<String>,
}

/// A finished session, read back for the transcript view.
#[derive(Debug, PartialEq)]
pub struct Session {
    pub name: String,
    pub dir: String,
    pub title: Option<String>,
    pub started_at_ms: Option<i64>,
    pub duration_ms: u64,
    pub lanes: Vec<String>,
    /// Both lanes in one stream, in the order they were spoken.
    pub lines: Vec<Line>,
}

/// Whether `s` holds a control character.
pub open spec fn has_control(s: Seq<char>) -> bool {
    exists|i: int| 0 <= i < s.len() && is_control(s[i])
}

/// The title a raw one becomes, or why it is refused.
pub open spec fn title_spec(raw: Seq<char>) -> Result<Seq<char>, Seq<char>> {
    let t = trimmed(raw);
    if t.len() == 0 {
        Err("title must not be empty"@)
    } else if t.len() > 100 {
        Err("title must be at most 100 characters"@)
    } else if has_control(t) {
        Err("title must not contain control characters"@)
    } else {
        Ok(t)
    }
}

/// A display title: trimmed, not empty, at most [`MAX_TITLE_CHARS`]
/// characters and free of control characters.
pub fn normalize_title(raw: &str) -> (r: Result<String, String>)
    ensures
        match r {
            Ok(t) => title_spec(raw@) == Ok::<Seq<char>, Seq<char>>(t@),
            Err(e) => title_spec(raw@) == Err::<Seq<char>, Seq<char>>(e@),
        },
{
    proof {
        reveal_strlit("title must not be empty");
        reveal_strlit("title must be at most 100 characters");
        reveal_strlit("title must not contain control characters");
    }
    let title = trim(raw);
    let chars = chars_of(title.as_str());
    if chars.len() == 0 {
        return Err(String::from_str("title must not be empty"));
    }
    if chars.len() > MAX_TITLE_CHARS {
        return Err(String::from_str("title must be at most 100 characters"));
    }
    let mut i: usize = 0;
    while i < chars.len()
        invariant
            i <= chars@.len(),
            chars@ == title@,
            title@ == trimmed(raw@),
            0 < chars@.len() <= 100,
            forall|k: int| 0 <= k < i ==> !is_control(chars@[k]),
        decreases chars@.len() - i,
    {
        if char_is_control(chars[i]) {
            proof {
                assert(is_control(title@[i as int]));
                assert(has_control(title@));
            }
            return Err(String::from_str("title must not contain control characters"));
        }
        i = i + 1;
    }
    Ok(title)
}

/// One line of `transcript.jsonl`, as far as the library reads it. Fields
/// the line lacks (or holds with the wrong type) read as `None`, zero or
/// empty.
#[derive(Debug, Clone, PartialEq)]
pub struct TranscriptEntry {
    /// The line's `type`: `utterance` or `translation`.
    pub kind: Option<String>,
    pub id: u64,
    pub lane: Option<String>,
    pub start_ms: u64,
    pub end_ms: u64,
    pub lang: Option<String>,
    pub text: String,
}

/// One line of `transcript.jsonl` read as JSON: its `type`, `id`, `lane`,
/// `startMs`, `endMs`, `lang` and `text` fields, each `None` when missing or
/// of another type; `None` for a line that is not JSON.
pub uninterp spec fn transcript_line_fields(line: Seq<char>) -> Option<
    (Option<Seq<char>>, Option<u64>, Option<Seq<char>>, Option<u64>, Option<u64>, Option<Seq<char>>, Option<Seq<char>>),
>;

/// `serde_json::from_str::<Value>` on one line, the error dropped, with its
/// seven fields picked out (strings as `as_str`, numbers as `as_u64`).
/// Claimed: the result is the named reading of the line, which depends on
/// the line alone.
#[verifier::external_body]
fn read_transcript_line(line: &str) -> (r: Option<
    (Option<String>, Option<u64>, Option<String>, Option<u64>, Option<u64>, Option<String>, Option<String>),
>)
    ensures
        match r {
            None => transcript_line_fields(line@) is None,
            Some(f) => transcript_line_fields(line@) == Some(
                (opt_chars(f.0), f.1, opt_chars(f.2), f.3, f.4, opt_chars(f.5), opt_chars(f.6)),
            ),
        },
{
    serde_json::from_str::<serde_json::Value>(line).ok().map(|v| {
        (
            v["type"].as_str().map(str::to_string),
            v["id"].as_u64(),
            v["lane"].as_str().map(str::to_string),
            v["startMs"].as_u64(),
            v["endMs"].as_u64(),
            v["lang"].as_str().map(str::to_string),
            v["text"].as_str().map(str::to_string),
        )
    })
}

/// One line of `transcript.jsonl` as an entry: `None` for a line that is
/// not JSON (a half-written last line after a crash); otherwise its fields,
/// a missing number reading as 0 and a missing text as empty.
pub fn transcript_entry(line: &str) -> (e: Option<TranscriptEntry>)
    ensures
        match transcript_line_fields(line@) {
            None => e is None,
            Some(f) => e matches Some(x) && {
                &&& opt_chars(x.kind) == f.0
                &&& x.id == (match f.1 { Some(n) => n, None => 0u64 })
                &&& opt_chars(x.lane) == f.2
                &&& x.start_ms == (match f.3 { Some(n) => n, None => 0u64 })
                &&& x.end_ms == (match f.4 { Some(n) => n, None => 0u64 })
                &&& opt_chars(x.lang) == f.5
                &&& x.text@ == (match f.6 { Some(t) => t, None => Seq::<char>::empty() })
            },
        },
{
    let f = match read_transcript_line(line) {
        None => return None,
        Some(f) => f,
    };
    let text = match f.6 {
        Some(t) => t,
        None => String::new(),
    };
    Some(
        TranscriptEntry {
            kind: f.0,
            id: match f.1 {
                Some(n) => n,
                None => 0,
            },
            lane: f.2,
            start_ms: match f.3 {
                Some(n) => n,
                None => 0,
            },
            end_ms: match f.4 {
                Some(n) => n,
                None => 0,
            },
            lang: f.5,
            text,
        },
    )
}

pub open spec fn is_kind(e: TranscriptEntry, kind: Seq<char>) -> bool {
    opt_chars(e.kind) == Some(kind)
}

/// How many utterances the entries hold (translations are not counted).
pub open spec fn utterance_count(s: Seq<TranscriptEntry>) -> nat
    decreases s.len(),
{
    if s.len() == 0 {
        0
    } else {
        utterance_count(s.drop_last()) + (if is_kind(s.last(), "utterance"@) { 1nat } else { 0nat })
    }
}

/// The first non-empty utterance text, or nothing.
pub open spec fn snippet_of(s: Seq<TranscriptEntry>) -> Seq<char>
    decreases s.len(),
{
    if s.len() == 0 {
        Seq::empty()
    } else {
        let prev = snippet_of(s.drop_last());
        if prev.len() == 0 && is_kind(s.last(), "utterance"@) {
            s.last().text@
        } else {
            prev
        }
    }
}

/// The session's first words and how many utterances it has.
pub fn summarize_transcript(entries: &[TranscriptEntry]) -> (r: (String, usize))
    requires
        entries@.len() <= usize::MAX,
    ensures
        r.0@ == snippet_of(entries@),
        r.1 == utterance_count(entries@),
{
    proof {
        reveal_strlit("utterance");
    }
    let mut snippet = String::new();
    let mut count: usize = 0;
    let mut i: usize = 0;
    while i < entries.len()
        invariant
            i <= entries@.len(),
            snippet@ == snippet_of(entries@.take(i as int)),
            count == utterance_count(entries@.take(i as int)),
            count <= i,
        decreases entries@.len() - i,
    {
        proof {
            assert(entries@.take(i + 1).drop_last() =~= entries@.take(i as int));
        }
        let e = &entries[i];
        let utterance = match &e.kind {
            Some(k) => str_eq(k.as_str(), "utterance"),
            None => false,
        };
        if utterance {
            count = count + 1;
            if snippet.as_str().is_empty() {
                snippet = e.text.clone();
            }
        }
        i = i + 1;
    }
    proof {
        assert(entries@.take(i as int) =~= entries@);
    }
    (snippet, count)
}

/// The line an utterance entry becomes; a missing lane reads as the mic.
pub open spec fn line_of(e: TranscriptEntry) -> LineView {
    LineView {
        id: e.id,
        lane: match e.lane {
            Some(l) => l@,
            None => "mic"@,
        },
        start_ms: e.start_ms,
        end_ms: e.end_ms,
        lang: opt_chars(e.lang),
        text: e.text@,
        translation: None,
    }
}

/// A line as plain values.
pub struct LineView {
    pub id: u64,
    pub lane: Seq<char>,
    pub start_ms: u64,
    pub end_ms: u64,
    pub lang: Option<Seq<char>>,
    pub text: Seq<char>,
    pub translation: Option<Seq<char>>,
}

pub open spec fn line_view(l: Line) -> LineView {
    LineView {
        id: l.id,
        lane: l.lane@,
        start_ms: l.start_ms,
        end_ms: l.end_ms,
        lang: opt_chars(l.lang),
        text: l.text@,
        translation: opt_chars(l.translation),
    }
}

pub open spec fn line_views(s: Seq<Line>) -> Seq<LineView> {
    s.map_values(|l: Line| line_view(l))
}

/// `i` is the first line with this id.
pub open spec fn first_with_id(lines: Seq<LineView>, id: u64, i: int) -> bool {
    &&& 0 <= i < lines.len()
    &&& lines[i].id == id
    &&& forall|j: int| 0 <= j < i ==> lines[j].id != id
}

/// A translation attached to the first line it names; one naming no line is
/// dropped.
pub open spec fn attach(lines: Seq<LineView>, id: u64, text: Seq<char>) -> Seq<LineView> {
    if exists|i: int| first_with_id(lines, id, i) {
        let i = choose|i: int| first_with_id(lines, id, i);
        lines.update(i, LineView { translation: Some(text), ..lines[i] })
    } else {
        lines
    }
}

/// The utterances as lines, in file order.
pub open spec fn utterance_lines(s: Seq<TranscriptEntry>) -> Seq<LineView>
    decreases s.len(),
{
    if s.len() == 0 {
        Seq::empty()
    } else if is_kind(s.last(), "utterance"@) {
        utterance_lines(s.drop_last()).push(line_of(s.last()))
    } else {
        utterance_lines(s.drop_last())
    }
}

/// The lines after the first `n` entries' translations are attached, in
/// file order: a later translation of the same line replaces an earlier one.
pub open spec fn attached(lines: Seq<LineView>, s: Seq<TranscriptEntry>) -> Seq<LineView>
    decreases s.len(),
{
    if s.len() == 0 {
        lines
    } else {
        let prev = attached(lines, s.drop_last());
        if is_kind(s.last(), "translation"@) {
            attach(prev, s.last().id, s.last().text@)
        } else {
            prev
        }
    }
}

impl SortOrder for Line {
    /// Spoken order: by start time, ties by utterance id.
    open spec fn before_or_with(a: Line, b: Line) -> bool {
        a.start_ms < b.start_ms || (a.start_ms == b.start_ms && a.id <= b.id)
    }

    proof fn lemma_total(a: Line, b: Line) {
    }

    proof fn lemma_transitive(a: Line, b: Line, c: Line) {
    }

    fn comes_before_or_with(a: &Line, b: &Line) -> (r: bool) {
        a.start_ms < b.start_ms || (a.start_ms == b.start_ms && a.id <= b.id)
    }
}

/// Lines in the transcript's order come in spoken order: a line never
/// follows one that started later, and lines that started together come in
/// utterance order.
pub proof fn lemma_transcript_in_spoken_order(lines: Seq<Line>)
    requires
        is_sorted(lines),
    ensures
        forall|i: int, j: int| 0 <= i < j < lines.len() ==> (#[trigger] lines[i]).start_ms <= (#[trigger] lines[j]).start_ms,
        forall|i: int, j: int|
            0 <= i < j < lines.len() && (#[trigger] lines[i]).start_ms == (#[trigger] lines[j]).start_ms
                ==> lines[i].id <= lines[j].id,
{
    assert forall|i: int, j: int| 0 <= i < j < lines.len() implies (#[trigger] lines[i]).start_ms <= (
    #[trigger] lines[j]).start_ms && (lines[i].start_ms == lines[j].start_ms ==> lines[i].id <= lines[j].id) by {
        assert(<Line as SortOrder>::before_or_with(lines[i], lines[j]));
    }
}

fn owned_or_mic(lane: &Option<String>) -> (s: String)
    ensures
        s@ == (match *lane {
            Some(l) => l@,
            None => "mic"@,
        }),
{
    proof {
        reveal_strlit("mic");
    }
    match lane {
        Some(l) => l.clone(),
        None => String::from_str("mic"),
    }
}

fn clone_opt_string(o: &Option<String>) -> (c: Option<String>)
    ensures
        opt_chars(c) == opt_chars(*o),
{
    match o {
        Some(s) => Some(s.clone()),
        None => None,
    }
}

/// The transcript put back together: each utterance a line, each
/// translation joined to the line it names, all in spoken order.
pub fn transcript_lines(entries: &[TranscriptEntry]) -> (lines: Vec<Line>)
    ensures
        exists|joined: Seq<Line>|
            {
                &&& line_views(joined) == attached(utterance_lines(entries@), entries@)
                &&& #[trigger] sorted_stable(joined) == lines@
                &&& lines@.to_multiset() == joined.to_multiset()
            },
        is_sorted(lines@),
        forall|i: int, j: int|
            0 <= i < j < lines@.len() ==> (#[trigger] lines@[i]).start_ms <= (#[trigger] lines@[j]).start_ms,
        forall|i: int, j: int|
            0 <= i < j < lines@.len() && (#[trigger] lines@[i]).start_ms == (#[trigger] lines@[j]).start_ms
                ==> lines@[i].id <= lines@[j].id,
{
    proof {
        reveal_strlit("utterance");
        reveal_strlit("translation");
    }
    let mut lines: Vec<Line> = Vec::new();
    let mut i: usize = 0;
    while i < entries.len()
        invariant
            i <= entries@.len(),
            line_views(lines@) == utterance_lines(entries@.take(i as int)),
        decreases entries@.len() - i,
    {
        proof {
            assert(entries@.take(i + 1).drop_last() =~= entries@.take(i as int));
        }
        let e = &entries[i];
        let utterance = match &e.kind {
            Some(k) => str_eq(k.as_str(), "utterance"),
            None => false,
        };
        if utterance {
            let line = Line {
                id: e.id,
                lane: owned_or_mic(&e.lane),
                start_ms: e.start_ms,
                end_ms: e.end_ms,
                lang: clone_opt_string(&e.lang),
                text: e.text.clone(),
                translation: None,
            };
            let ghost before = lines@;
            lines.push(line);
            proof {
                assert(line_views(lines@) =~= line_views(before).push(line_of(*e)));
            }
        }
        i = i + 1;
    }
    proof {
        assert(entries@.take(i as int) =~= entries@);
    }
    let ghost base = line_views(lines@);
    let mut t: usize = 0;
    while t < entries.len()
        invariant
            t <= entries@.len(),
            base == utterance_lines(entries@),
            line_views(lines@) == attached(base, entries@.take(t as int)),
        decreases entries@.len() - t,
    {
        proof {
            assert(entries@.take(t + 1).drop_last() =~= entries@.take(t as int));
        }
        let e = &entries[t];
        let translation = match &e.kind {
            Some(k) => str_eq(k.as_str(), "translation"),
            None => false,
        };
        if translation {
            attach_exec(&mut lines, e.id, &e.text);
        }
        t = t + 1;
    }
    proof {
        assert(entries@.take(t as int) =~= entries@);
    }
    let ghost joined = lines@;
    let sorted = sort_stable(lines);
    proof {
        lemma_sorted_stable(joined);
        assert(sorted_stable(joined) == sorted@);
        lemma_transcript_in_spoken_order(sorted@);
    }
    sorted
}

fn attach_exec(lines: &mut Vec<Line>, id: u64, text: &String)
    ensures
        line_views(final(lines)@) == attach(line_views(old(lines)@), id, text@),
{
    let ghost v = line_views(lines@);
    let mut i: usize = 0;
    while i < lines.len() && lines[i].id != id
        invariant
            i <= lines@.len(),
            v == line_views(lines@),
            forall|j: int| 0 <= j < i ==> lines@[j].id != id,
        decreases lines@.len() - i,
    {
        i = i + 1;
    }
    if i < lines.len() {
        proof {
            assert(first_with_id(v, id, i as int));
            let k = choose|k: int| first_with_id(v, id, k);
            assert(first_with_id(v, id, k));
            if k < i {
                assert(v[k].id == id);
            } else if k > i {
                assert(v[i as int].id == id);
            }
        }
        let old_line = lines.remove(i);
        let updated = Line { translation: Some(text.clone()), ..old_line };
        let ghost lv = line_view(updated);
        lines.insert(i, updated);
        proof {
            assert(line_views(lines@) =~= v.update(i as int, LineView { translation: Some(text@), ..v[i as int] }));
        }
    } else {
        proof {
            if exists|k: int| first_with_id(v, id, k) {
                let k = choose|k: int| first_with_id(v, id, k);
                assert(v[k].id == id);
            }
        }
    }
}

/// Lexicographic order by code point. This is how Rust orders `String`s:
/// UTF-8 keeps code point order byte for byte.
pub open spec fn lex_le(a: Seq<char>, b: Seq<char>) -> bool
    decreases a.len(),
{
    if a.len() == 0 {
        true
    } else if b.len() == 0 {
        false
    } else if a[0] != b[0] {
        (a[0] as int) < (b[0] as int)
    } else {
        lex_le(a.drop_first(), b.drop_first())
    }
}

proof fn lemma_lex_total(a: Seq<char>, b: Seq<char>)
    ensures
        lex_le(a, b) || lex_le(b, a),
    decreases a.len(),
{
    if a.len() > 0 && b.len() > 0 {
        if a[0] == b[0] {
            lemma_lex_total(a.drop_first(), b.drop_first());
        } else {
            assert((a[0] as int) != (b[0] as int));
        }
    }
}

proof fn lemma_lex_transitive(a: Seq<char>, b: Seq<char>, c: Seq<char>)
    requires
        lex_le(a, b),
        lex_le(b, c),
    ensures
        lex_le(a, c),
    decreases a.len(),
{
    if a.len() > 0 && b.len() > 0 && c.len() > 0 && a[0] == b[0] && b[0] == c[0] {
        lemma_lex_transitive(a.drop_first(), b.drop_first(), c.drop_first());
    }
}

proof fn lemma_lex_skip(a: Seq<char>, b: Seq<char>, i: int)
    requires
        0 <= i <= a.len(),
        i <= b.len(),
        forall|k: int| 0 <= k < i ==> a[k] == b[k],
    ensures
        lex_le(a, b) == lex_le(a.skip(i), b.skip(i)),
    decreases i,
{
    if i > 0 {
        lemma_lex_skip(a.drop_first(), b.drop_first(), i - 1);
        assert(a.drop_first().skip(i - 1) =~= a.skip(i));
        assert(b.drop_first().skip(i - 1) =~= b.skip(i));
    } else {
        assert(a.skip(0) =~= a);
        assert(b.skip(0) =~= b);
    }
}

/// Whether `a` comes no later than `b` in code point order.
pub fn lex_le_exec(a: &str, b: &str) -> (r: bool)
    ensures
        r == lex_le(a@, b@),
{
    let x = chars_of(a);
    let y = chars_of(b);
    let mut i: usize = 0;
    while i < x.len() && i < y.len() && x[i] == y[i]
        invariant
            i <= x@.len(),
            i <= y@.len(),
            forall|k: int| 0 <= k < i ==> x@[k] == y@[k],
        decreases x@.len() - i,
    {
        i = i + 1;
    }
    proof {
        lemma_lex_skip(x@, y@, i as int);
    }
    if i == x.len() {
        true
    } else if i == y.len() {
        false
    } else {
        x[i] < y[i]
    }
}

/// Whether start time `a` is later than `b`; an undated session counts as
/// older than any dated one.
pub open spec fn newer(a: Option<i64>, b: Option<i64>) -> bool {
    match (a, b) {
        (Some(x), Some(y)) => x > y,
        (Some(_), None) => true,
        _ => false,
    }
}

impl SortOrder for Recording {
    /// Newest first; among equal starts, the greater name first, so the order
    /// never depends on the order the directories were read in.
    open spec fn before_or_with(a: Recording, b: Recording) -> bool {
        newer(a.started_at_ms, b.started_at_ms) || (a.started_at_ms == b.started_at_ms && lex_le(
            b.name@,
            a.name@,
        ))
    }

    proof fn lemma_total(a: Recording, b: Recording) {
        lemma_lex_total(a.name@, b.name@);
    }

    proof fn lemma_transitive(a: Recording, b: Recording, c: Recording) {
        if a.started_at_ms == b.started_at_ms && b.started_at_ms == c.started_at_ms {
            lemma_lex_transitive(c.name@, b.name@, a.name@);
        }
    }

    fn comes_before_or_with(a: &Recording, b: &Recording) -> (r: bool) {
        let newer_start = match (a.started_at_ms, b.started_at_ms) {
            (Some(x), Some(y)) => x > y,
            (Some(_), None) => true,
            _ => false,
        };
        if newer_start {
            return true;
        }
        if a.started_at_ms == b.started_at_ms {
            lex_le_exec(b.name.as_str(), a.name.as_str())
        } else {
            false
        }
    }
}

/// The sessions newest first.
pub fn newest_first(recordings: Vec<Recording>) -> (sorted: Vec<Recording>)
    ensures
        sorted@ == sorted_stable(recordings@),
        is_sorted(sorted@),
        sorted@.to_multiset() == recordings@.to_multiset(),
{
    let ghost given = recordings@;
    let sorted = sort_stable(recordings);
    proof {
        lemma_sorted_stable(given);
    }
    sorted
}

/// A WAV's length from its header: frames over rate, in milliseconds;
/// `None` for a header claiming a zero rate.
pub fn wav_duration_ms(frames: u32, sample_rate: u32) -> (ms: Option<u64>)
    ensures
        sample_rate == 0 ==> ms is None,
        sample_rate > 0 ==> ms == Some((frames * 1000 / (sample_rate as int)) as u64),
{
    if sample_rate == 0 {
        None
    } else {
        Some((frames as u64) * 1000 / (sample_rate as u64))
    }
}

/// The longest of the known lengths, or zero.
pub open spec fn longest(s: Seq<Option<u64>>) -> u64
    decreases s.len(),
{
    if s.len() == 0 {
        0
    } else {
        let prev = longest(s.drop_last());
        match s.last() {
            Some(d) => if d > prev {
                d
            } else {
                prev
            },
            None => prev,
        }
    }
}

/// A session's length: the mix's, which spans the whole session by
/// construction, else the longest lane's (a session that failed mid-write
/// may have no mix).
pub fn session_duration_ms(mix: Option<u64>, lanes: &[Option<u64>]) -> (ms: u64)
    ensures
        ms == (match mix {
            Some(d) => d,
            None => longest(lanes@),
        }),
{
    if let Some(d) = mix {
        return d;
    }
    let mut best: u64 = 0;
    let mut i: usize = 0;
    while i < lanes.len()
        invariant
            i <= lanes@.len(),
            best == longest(lanes@.take(i as int)),
        decreases lanes@.len() - i,
    {
        proof {
            assert(lanes@.take(i + 1).drop_last() =~= lanes@.take(i as int));
        }
        if let Some(d) = lanes[i] {
            if d > best {
                best = d;
            }
        }
        i = i + 1;
    }
    proof {
        assert(lanes@.take(i as int) =~= lanes@);
    }
    best
}

/// The lanes a session has, in the order the list names them.
pub fn recorded_lanes(has_mic: bool, has_speaker: bool) -> (lanes: Vec<String>)
    ensures
        lanes@.map_values(|l: String| l@) == (if has_mic { seq!["mic"@] } else { Seq::empty() }) + (
        if has_speaker {
            seq!["speaker"@]
        } else {
            Seq::empty()
        }),
{
    proof {
        reveal_strlit("mic");
        reveal_strlit("speaker");
    }
    let mut lanes: Vec<String> = Vec::new();
    if has_mic {
        lanes.push(String::from_str("mic"));
    }
    if has_speaker {
        lanes.push(String::from_str("speaker"));
    }
    assert(lanes@.map_values(|l: String| l@) =~= (if has_mic { seq!["mic"@] } else { Seq::empty() }) + (
    if has_speaker {
        seq!["speaker"@]
    } else {
        Seq::empty()
    }));
    lanes
}

/// A wall-clock reading split into its fields, as a session directory's
/// stamp gives it. A stamp in a leap second (seconds field `60`) reads as
/// second 59 with `nanosecond` 1_000_000_000; any other has `nanosecond` 0.
#[derive(Clone, Copy, Debug, PartialEq, Eq, Structural)]
pub struct StampFields {
    pub year: i32,
    pub month: u32,
    pub day: u32,
    pub hour: u32,
    pub minute: u32,
    pub second: u32,
    pub nanosecond: u32,
}

/// Days from 1970-01-01 to the given date of the proleptic Gregorian
/// calendar.
pub open spec fn civil_days(year: int, month: int, day: int) -> int {
    let y = if month <= 2 { year - 1 } else { year };
    let era = y / 400;
    let yoe = y - era * 400;
    let mp = (month + 9) % 12;
    let doy = (153 * mp + 2) / 5 + day - 1;
    let doe = yoe * 365 + yoe / 4 - yoe / 100 + doy;
    era * 146_097 + doe - 719_468
}

/// Milliseconds since the epoch of the reading `f`, were it taken in UTC.
pub open spec fn stamp_utc_ms(f: StampFields) -> int {
    civil_days(f.year as int, f.month as int, f.day as int) * 86_400_000 + f.hour * 3_600_000 + f.minute * 60_000
        + f.second * 1_000 + f.nanosecond / 1_000_000
}

/// What `NaiveDateTime::parse_from_str` reads from `stamp` in the session
/// name format `%Y%m%d%H%M%S`, or `None` where it refuses it.
pub uninterp spec fn session_stamp_fields(stamp: Seq<char>) -> Option<StampFields>;

/// `chrono::NaiveDateTime::parse_from_str(stamp, "%Y%m%d%H%M%S")`, the
/// error dropped and the date and time it read handed back as fields.
#[verifier::external_body]
fn read_session_stamp(stamp: &str) -> (r: Option<StampFields>)
    ensures
        r == session_stamp_fields(stamp@),
{
    let t = chrono::NaiveDateTime::parse_from_str(stamp, "%Y%m%d%H%M%S").ok()?;
    Some(StampFields {
        year: t.year(),
        month: t.month(),
        day: t.day(),
        hour: t.hour(),
        minute: t.minute(),
        second: t.second(),
        nanosecond: t.nanosecond(),
    })
}

/// `chrono::Local.from_local_datetime(..).earliest()` on the reading `f`,
/// in milliseconds since the epoch. Which instant comes back rests on the
/// machine's time zone; chrono's offsets are under a day either way
/// (`FixedOffset::east_opt` refuses any other), so the instant is within a
/// day of the reading taken as UTC. `None` where the fields are no date or
/// time, or where the zone has no reading at that wall clock. It returns
/// for every date: on this local-time path chrono's zone lookup
/// (`TimeZoneRef::find_local_time_type_from_local` and the fixed and
/// alternating transition rules) gives a value on every branch, and a zone
/// that fails to load falls back to UTC, so the `expect` after that lookup
/// is not reached.
#[verifier::external_body]
fn local_timestamp_ms(f: StampFields) -> (r: Option<i64>)
    ensures
        r matches Some(t) ==> stamp_utc_ms(f) - 86_400_000 < t < stamp_utc_ms(f) + 86_400_000,
{
    let date = chrono::NaiveDate::from_ymd_opt(f.year, f.month, f.day)?;
    let naive = date.and_hms_nano_opt(f.hour, f.minute, f.second, f.nanosecond)?;
    chrono::Local.from_local_datetime(&naive).earliest().map(|t| t.timestamp_millis())
}

/// When a session started, from the wall clock in its directory name read
/// as local time. The `-2` suffix of a same-second restart is not part of
/// it; a name in another form has no start. Where the zone has two
/// readings of that wall clock (the hour that repeats when daylight saving
/// ends), the earlier is taken.
pub fn started_at_ms(name: &str) -> (r: Option<i64>)
    ensures
        match session_stamp_fields(before_first(name@, '-')) {
            None => r is None,
            Some(f) => r matches Some(t) ==> stamp_utc_ms(f) - 86_400_000 < t < stamp_utc_ms(f) + 86_400_000,
        },
{
    let stamp = prefix_before(name, '-');
    match read_session_stamp(stamp.as_str()) {
        Some(fields) => local_timestamp_ms(fields),
        None => None,
    }
}

/// A session read back: the list entry's details and its lines.
pub fn session_of(recording: Recording, lines: Vec<Line>) -> (s: Session)
    ensures
        s.name == recording.name,
        s.dir == recording.dir,
        s.title == recording.title,
        s.started_at_ms == recording.started_at_ms,
        s.duration_ms == recording.duration_ms,
        s.lanes == recording.lanes,
        s.lines == lines,
{
    Session {
        name: recording.name,
        dir: recording.dir,
        title: recording.title,
        started_at_ms: recording.started_at_ms,
        duration_ms: recording.duration_ms,
        lanes: recording.lanes,
        lines,
    }
}

} // verus!
