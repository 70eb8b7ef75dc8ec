//! What is spoken, and what it should be translated into.
use vstd::prelude::*;

use crate::text::{str_eq, string_of};

verus! {

/// The characters of each spoken language code.
pub open spec fn codes(v: Seq<String>) -> Seq<Seq<char>> {
    v.map_values(|s: String| s@)
}

/// The session's language settings: which languages are actually spoken, and
/// where the translation should land.
///
/// The two are separate on purpose: a single-language meeting with no
/// translation, and "this English meeting, read in Japanese", both need it.
#[derive(Debug, Clone, PartialEq, Eq)]
pub struct LanguagePolicy {
    /// Languages that may be spoken, as whisper language codes. At most two:
    /// beyond that, detection on a one-second window is closer to a guess
    /// than a decision.
    pub spoken: Vec<String>,
    /// Where translations go; `None` means "don't translate".
    pub target: Option<String>,
    /// Also translate the target language itself into the *other* spoken
    /// language — for showing the screen to the other party.
    pub mutual: bool,
}

/// The first spoken language other than `target`, if any.
pub open spec fn first_other(spoken: Seq<Seq<char>>, target: Seq<char>) -> Option<Seq<char>>
    decreases spoken.len(),
{
    if spoken.len() == 0 {
        None
    } else if spoken[0] != target {
        Some(spoken[0])
    } else {
        first_other(spoken.drop_first(), target)
    }
}

/// Which language an utterance spoken in `source` is translated into.
pub open spec fn target_for_spec(spoken: Seq<Seq<char>>, target: Option<Seq<char>>, mutual: bool, source: Option<Seq<char>>) -> Option<Seq<char>> {
    match target {
        None => None,
        Some(t) => if source != Some(t) {
            Some(t)
        } else if !mutual {
            None
        } else {
            first_other(spoken, t)
        },
    }
}

impl Default for LanguagePolicy {
    /// Japanese and English may be spoken; everything is read in Japanese.
    fn default() -> (p: Self)
        ensures
            codes(p.spoken@) == seq!["ja"@, "en"@],
            crate::text::opt_chars(p.target) == Some("ja"@),
            !p.mutual,
    {
        let spoken = vec![String::from_str("ja"), String::from_str("en")];
        let p = LanguagePolicy { spoken, target: Some(String::from_str("ja")), mutual: false };
        assert(codes(p.spoken@) =~= seq!["ja"@, "en"@]);
        p
    }
}

impl LanguagePolicy {
    /// The language to force on the recogniser, if there is only one it could
    /// be. Pinning skips language detection entirely, which is both faster
    /// and immune to whisper silently *translating* when told the wrong one.
    pub fn pinned_lang(&self) -> (l: Option<&str>)
        ensures
            self.spoken@.len() == 1 ==> (l matches Some(x) && x@ == self.spoken@[0]@),
            self.spoken@.len() != 1 ==> l is None,
    {
        if self.spoken.len() == 1 {
            Some(self.spoken[0].as_str())
        } else {
            None
        }
    }

    /// Which language an utterance spoken in `source` should be translated
    /// into — `None` when it needs no translation. `source` is `None` when
    /// detection was unconfident; the utterance is still translated, because
    /// the alternative is silently dropping it.
    pub fn target_for(&self, source: Option<&str>) -> (t: Option<&str>)
        ensures
            crate::text::opt_str(t) == target_for_spec(
                codes(self.spoken@),
                crate::text::opt_chars(self.target),
                self.mutual,
                crate::text::opt_str(source),
            ),
    {
        let target = match &self.target {
            Some(t) => t.as_str(),
            None => return None,
        };
        let same = match source {
            Some(s) => str_eq(s, target),
            None => false,
        };
        if !same {
            return Some(target);
        }
        if !self.mutual {
            return None;
        }
        let mut i: usize = 0;
        assert(codes(self.spoken@).skip(0) =~= codes(self.spoken@));
        while i < self.spoken.len()
            invariant
                i <= self.spoken@.len(),
                crate::text::opt_chars(self.target) == Some(target@),
                crate::text::opt_str(source) == Some(target@),
                self.mutual,
                first_other(codes(self.spoken@), target@) == first_other(
                    codes(self.spoken@).skip(i as int),
                    target@,
                ),
            decreases self.spoken@.len() - i,
        {
            let l = self.spoken[i].as_str();
            proof {
                let rest = codes(self.spoken@).skip(i as int);
                assert(rest.len() > 0);
                assert(rest[0] == l@);
                assert(rest.drop_first() =~= codes(self.spoken@).skip(i + 1));
            }
            if !str_eq(l, target) {
                proof {
                    let rest = codes(self.spoken@).skip(i as int);
                    assert(rest[0] != target@);
                    assert(first_other(rest, target@) == Some(rest[0]));
                }
                return Some(l);
            }
            i = i + 1;
        }
        assert(codes(self.spoken@).skip(i as int) =~= Seq::<Seq<char>>::empty());
        None
    }
}

/// The English name of a language code, for prompting the translation model;
/// unknown codes pass through unchanged.
pub open spec fn language_name_spec(code: Seq<char>) -> Seq<char> {
    if code == "ja"@ { "Japanese"@ }
    else if code == "en"@ { "English"@ }
    else if code == "zh"@ { "Chinese"@ }
    else if code == "ko"@ { "Korean"@ }
    else if code == "es"@ { "Spanish"@ }
    else if code == "fr"@ { "French"@ }
    else if code == "de"@ { "German"@ }
    else if code == "pt"@ { "Portuguese"@ }
    else if code == "ru"@ { "Russian"@ }
    else if code == "it"@ { "Italian"@ }
    else if code == "id"@ { "Indonesian"@ }
    else if code == "vi"@ { "Vietnamese"@ }
    else if code == "th"@ { "Thai"@ }
    else if code == "hi"@ { "Hindi"@ }
    else if code == "ar"@ { "Arabic"@ }
    else { code }
}

/// The language's English name, for use in prompts ("Japanese" reads better
/// to a model than "ja"). Unknown codes are passed through unchanged.
pub fn language_name(code: &str) -> (name: &str)
    ensures
        name@ == language_name_spec(code@),
{
    if str_eq(code, "ja") { "Japanese" }
    else if str_eq(code, "en") { "English" }
    else if str_eq(code, "zh") { "Chinese" }
    else if str_eq(code, "ko") { "Korean" }
    else if str_eq(code, "es") { "Spanish" }
    else if str_eq(code, "fr") { "French" }
    else if str_eq(code, "de") { "German" }
    else if str_eq(code, "pt") { "Portuguese" }
    else if str_eq(code, "ru") { "Russian" }
    else if str_eq(code, "it") { "Italian" }
    else if str_eq(code, "id") { "Indonesian" }
    else if str_eq(code, "vi") { "Vietnamese" }
    else if str_eq(code, "th") { "Thai" }
    else if str_eq(code, "hi") { "Hindi" }
    else if str_eq(code, "ar") { "Arabic" }
    else { code }
}

proof fn lemma_first_other_differs(spoken: Seq<Seq<char>>, target: Seq<char>)
    ensures
        first_other(spoken, target) != Some(target),
    decreases spoken.len(),
{
    if spoken.len() > 0 && spoken[0] == target {
        lemma_first_other_differs(spoken.drop_first(), target);
    }
}

/// No sentence is sent to be translated into the language it was spoken
/// in; with a translation target set, everything not already in it is.
pub proof fn lemma_never_translated_into_its_own_language(
    spoken: Seq<Seq<char>>,
    target: Option<Seq<char>>,
    mutual: bool,
    source: Option<Seq<char>>,
)
    ensures
        target_for_spec(spoken, target, mutual, source) matches Some(t) ==> source != Some(t),
        target is Some && source != target ==> target_for_spec(spoken, target, mutual, source) == target,
        target is None ==> target_for_spec(spoken, target, mutual, source) is None,
{
    if let Some(t) = target {
        lemma_first_other_differs(spoken, t);
    }
}

/// `s` with each run of equal neighbours reduced to one.
pub open spec fn dedup_runs(s: Seq<Seq<char>>) -> Seq<Seq<char>>
    decreases s.len(),
{
    if s.len() == 0 {
        Seq::empty()
    } else {
        let prev = dedup_runs(s.drop_last());
        if prev.len() > 0 && prev.last() == s.last() {
            prev
        } else {
            prev.push(s.last())
        }
    }
}

/// The settings the UI asks for, checked: repeated neighbours in the
/// spoken list count once; at least one and at most two spoken languages
/// (beyond two, detection on a one-second window is a guess); an empty
/// target means no translation.
pub fn languages_from(spoken: Vec<String>, target: Option<String>, mutual: bool) -> (r: Result<LanguagePolicy, String>)
    ensures
        ({
            let d = dedup_runs(codes(spoken@));
            &&& d.len() == 0 ==> (r matches Err(m) && m@ == "at least one spoken language is required"@)
            &&& d.len() > 2 ==> (r matches Err(m) && m@ == "at most two spoken languages"@)
            &&& 0 < d.len() <= 2 ==> (r matches Ok(p) && codes(p.spoken@) == d && p.mutual == mutual
                && crate::text::opt_chars(p.target) == (match target {
                    Some(t) => if t@.len() > 0 {
                        Some(t@)
                    } else {
                        None
                    },
                    None => None,
                }))
        }),
{
    proof {
        reveal_strlit("at least one spoken language is required");
        reveal_strlit("at most two spoken languages");
    }
    let mut kept: Vec<String> = Vec::new();
    let mut i: usize = 0;
    while i < spoken.len()
        invariant
            i <= spoken@.len(),
            codes(kept@) == dedup_runs(codes(spoken@).take(i as int)),
        decreases spoken@.len() - i,
    {
        proof {
            assert(codes(spoken@).take(i + 1).drop_last() =~= codes(spoken@).take(i as int));
            assert(codes(spoken@).take(i + 1).last() == spoken@[i as int]@);
        }
        let n = kept.len();
        let repeat = n > 0 && str_eq(kept[n - 1].as_str(), spoken[i].as_str());
        if !repeat {
            let ghost before = kept@;
            kept.push(spoken[i].clone());
            proof {
                assert(codes(kept@) =~= codes(before).push(spoken@[i as int]@));
            }
        } else {
            proof {
                assert(codes(kept@).last() == kept@[n - 1]@);
            }
        }
        i = i + 1;
    }
    proof {
        assert(codes(spoken@).take(i as int) =~= codes(spoken@));
    }
    if kept.len() == 0 {
        return Err(String::from_str("at least one spoken language is required"));
    }
    if kept.len() > 2 {
        return Err(String::from_str("at most two spoken languages"));
    }
    let target = match target {
        Some(t) => if t.as_str().is_empty() {
            None
        } else {
            Some(t)
        },
        None => None,
    };
    Ok(LanguagePolicy { spoken: kept, target, mutual })
}

} // verus!
