use helios::names::{words_of, MultiNamePrefixMatcher};

#[test]
fn words_split_on_white_space() {
    assert_eq!(words_of("  New   York\tcity "), vec!["New", "York", "city"]);
    assert_eq!(words_of(""), Vec::<String>::new());
    assert_eq!(words_of(" \n"), Vec::<String>::new());
}

#[test]
fn every_word_must_begin_a_name_word() {
    let mut m = MultiNamePrefixMatcher::new("Frank am");
    assert!(!m.is_matched());
    m.accept_casefolded_match("frankfurt am main");
    assert!(m.is_matched());

    let mut m = MultiNamePrefixMatcher::new("berlin");
    m.accept_casefolded_match("bern");
    assert!(!m.is_matched());
    m.accept_casefolded_match("berlingen");
    assert!(m.is_matched());
}

#[test]
fn search_words_are_folded() {
    let mut m = MultiNamePrefixMatcher::new("ÄRGER");
    m.accept_casefolded_match("ärgerlich");
    assert!(m.is_matched());
}

#[test]
fn empty_search_matches_at_once() {
    assert!(MultiNamePrefixMatcher::new("  ").is_matched());
}

#[test]
fn clones_wait_for_the_same_words() {
    let m = MultiNamePrefixMatcher::new("new york");
    let mut c = m.clone();
    c.accept_casefolded_match("new");
    assert!(!c.is_matched());
    c.accept_casefolded_match("yorkshire");
    assert!(c.is_matched());
    assert!(!m.is_matched());
}
