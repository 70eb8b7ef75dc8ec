use live_poly_trans::language::{language_name, LanguagePolicy};
use live_poly_trans::local_agreement::LocalAgreement;
use live_poly_trans::translate::{Job, TranslationQueue};
use live_poly_trans::Lane;

#[test]
fn first_hypothesis_commits_nothing() {
    let mut la = LocalAgreement::new();
    let out = la.feed("こんにちは");
    assert_eq!(out.committed_delta, "");
    assert_eq!(out.volatile, "こんにちは");
}

#[test]
fn reset_starts_a_fresh_agreement_context() {
    let mut la = LocalAgreement::new();
    la.feed("こんにちは");
    la.feed("こんにちは"); // fully committed
    la.reset();
    let out = la.feed("次の文章");
    assert_eq!(out.committed_delta, "");
    assert_eq!(out.volatile, "次の文章");
}

#[test]
fn shorter_hypothesis_than_committed_yields_nothing() {
    let mut la = LocalAgreement::new();
    la.feed("こんにちは、世界");
    la.feed("こんにちは、世界"); // fully committed
    let out = la.feed("こんに"); // hypothesis shrank below the committed point
    assert_eq!(out.committed_delta, "");
    assert_eq!(out.volatile, "");
}

#[test]
fn flush_commits_and_returns_the_pending_volatile_tail() {
    let mut la = LocalAgreement::new();
    la.feed("こんにちは、せ");
    la.feed("こんにちは、世界"); // committed: こんにちは、 volatile: 世界
    assert_eq!(la.flush(), "世界");
    // the flushed tail is now committed: a second flush has nothing left
    assert_eq!(la.flush(), "");
}

#[test]
fn flush_before_any_hypothesis_returns_nothing() {
    let mut la = LocalAgreement::new();
    assert_eq!(la.flush(), "");
}

#[test]
fn agreeing_prefix_of_two_hypotheses_is_committed() {
    let mut la = LocalAgreement::new();
    la.feed("こんにちは、せ");
    let out = la.feed("こんにちは、世界");
    assert_eq!(out.committed_delta, "こんにちは、");
    assert_eq!(out.volatile, "世界");
}

#[test]
fn committed_text_never_retracts_across_a_disagreeing_hypothesis() {
    let mut la = LocalAgreement::new();
    la.feed("abcd");
    let out = la.feed("abcx");
    assert_eq!(out.committed_delta, "abc");
    assert_eq!(out.volatile, "x");
    // a later hypothesis that disagrees earlier cannot take "abc" back, and
    // shows nothing of itself either
    let out = la.feed("zzzzz");
    assert_eq!(out.committed_delta, "");
    assert_eq!(out.volatile, "");
}

fn job(id: u64) -> Job {
    Job {
        id,
        lane: Lane::Mic,
        text: format!("sentence {id}"),
        source: Some("en".into()),
        target: "ja".into(),
    }
}

#[test]
fn sentences_come_out_in_the_order_they_were_spoken() {
    let mut q = TranslationQueue::new(4);
    assert_eq!(q.push(job(1)), None);
    assert_eq!(q.push(job(2)), None);
    assert_eq!(q.pop(), Some(job(1)));
    assert_eq!(q.pop(), Some(job(2)));
    assert_eq!(q.pop(), None);
}

#[test]
fn an_overflowing_queue_drops_its_oldest_sentence() {
    let mut q = TranslationQueue::new(2);
    q.push(job(1));
    q.push(job(2));
    assert_eq!(q.push(job(3)), Some(job(1)));
    assert_eq!(q.len(), 2);
    assert_eq!(q.pop(), Some(job(2)));
}

#[test]
fn draining_hands_back_everything_still_waiting() {
    let mut q = TranslationQueue::new(4);
    q.push(job(1));
    q.push(job(2));
    assert_eq!(q.drain(), vec![job(1), job(2)]);
    assert!(q.is_empty());
}

#[test]
fn a_queue_of_one_keeps_only_the_newest() {
    let mut q = TranslationQueue::new(1);
    assert_eq!(q.push(job(1)), None);
    assert_eq!(q.push(job(2)), Some(job(1)));
    assert_eq!(q.push(job(3)), Some(job(2)));
    assert_eq!(q.drain(), vec![job(3)]);
}

fn policy(spoken: &[&str], target: Option<&str>, mutual: bool) -> LanguagePolicy {
    LanguagePolicy {
        spoken: spoken.iter().map(|s| s.to_string()).collect(),
        target: target.map(str::to_string),
        mutual,
    }
}

#[test]
fn a_single_spoken_language_is_pinned_on_the_recogniser() {
    assert_eq!(policy(&["en"], None, false).pinned_lang(), Some("en"));
    assert_eq!(policy(&["ja", "en"], None, false).pinned_lang(), None);
}

#[test]
fn translation_off_means_nothing_is_translated() {
    let p = policy(&["ja", "en"], None, false);
    assert_eq!(p.target_for(Some("en")), None);
    assert_eq!(p.target_for(None), None);
}

#[test]
fn an_english_meeting_read_in_japanese() {
    let p = policy(&["en"], Some("ja"), false);
    assert_eq!(p.target_for(Some("en")), Some("ja"));
}

#[test]
fn what_is_already_in_the_readers_language_is_left_alone() {
    let p = policy(&["ja", "en"], Some("ja"), false);
    assert_eq!(p.target_for(Some("ja")), None);
    assert_eq!(p.target_for(Some("en")), Some("ja"));
}

#[test]
fn mutual_translates_the_readers_own_language_for_the_other_party() {
    let p = policy(&["ja", "en"], Some("ja"), true);
    assert_eq!(p.target_for(Some("ja")), Some("en"));
    assert_eq!(p.target_for(Some("en")), Some("ja"));
}

#[test]
fn mutual_with_nothing_to_translate_into_is_a_no_op() {
    let p = policy(&["ja"], Some("ja"), true);
    assert_eq!(p.target_for(Some("ja")), None);
}

#[test]
fn an_undetected_language_is_still_translated() {
    let p = policy(&["ja", "en"], Some("ja"), false);
    assert_eq!(p.target_for(None), Some("ja"));
}

#[test]
fn language_names_are_for_the_prompt_and_unknown_codes_pass_through() {
    assert_eq!(language_name("ja"), "Japanese");
    assert_eq!(language_name("sv"), "sv");
}

#[test]
fn the_default_policy_reads_japanese_and_english_in_japanese() {
    let p = LanguagePolicy::default();
    assert_eq!(p.spoken, vec!["ja".to_string(), "en".to_string()]);
    assert_eq!(p.target.as_deref(), Some("ja"));
    assert!(!p.mutual);
    assert_eq!(language_name("ar"), "Arabic");
}

#[test]
fn hypothesis_contradicting_committed_text_shows_nothing() {
    let mut la = LocalAgreement::new();
    la.feed("こんにちは");
    la.feed("こんにちは"); // fully committed
    let out = la.feed("こんばんは、皆さん"); // differs inside the committed text
    assert_eq!(out.committed_delta, "");
    assert_eq!(out.volatile, "");
    // agreement is with the previous hypothesis: the next one is measured
    // against the contradicting one and shows nothing; once two agree, the
    // text beyond the committed point is committed
    let out = la.feed("こんにちは、皆さん");
    assert_eq!(out.volatile, "");
    let out = la.feed("こんにちは、皆さん");
    assert_eq!(out.committed_delta, "、皆さん");
    assert_eq!(out.volatile, "");
}
