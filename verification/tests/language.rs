use live_poly_trans::language::languages_from;

fn strings(items: &[&str]) -> Vec<String> {
    items.iter().map(|s| s.to_string()).collect()
}

#[test]
fn languages_from_requires_at_least_one_spoken_language() {
    let r = languages_from(Vec::new(), Some("en".into()), false);
    assert_eq!(r.err().as_deref(), Some("at least one spoken language is required"));
}

#[test]
fn languages_from_rejects_more_than_two() {
    let r = languages_from(strings(&["en", "ja", "de"]), None, false);
    assert_eq!(r.err().as_deref(), Some("at most two spoken languages"));
}

#[test]
fn languages_from_collapses_adjacent_repeats_only() {
    let p = languages_from(strings(&["en", "en", "ja", "ja"]), Some("de".into()), true).unwrap();
    assert_eq!(p.spoken, strings(&["en", "ja"]));
    assert_eq!(p.target.as_deref(), Some("de"));
    assert!(p.mutual);

    // Like `Vec::dedup`, only neighbours collapse: three entries remain.
    let r = languages_from(strings(&["en", "ja", "en"]), None, false);
    assert_eq!(r.err().as_deref(), Some("at most two spoken languages"));
}

#[test]
fn languages_from_treats_empty_target_as_none() {
    let p = languages_from(strings(&["ja"]), Some(String::new()), false).unwrap();
    assert_eq!(p.spoken, strings(&["ja"]));
    assert_eq!(p.target, None);
    assert!(!p.mutual);
}
