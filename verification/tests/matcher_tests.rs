use minigrep::ascii::fold_bytes;
use minigrep::matcher::contains_bytes;
use minigrep::query::Query;

fn contains(hay: &str, needle: &str) -> bool {
    contains_bytes(&hay.as_bytes().to_vec(), &needle.as_bytes().to_vec())
}

#[test]
fn substring_in_the_middle_is_found() {
    assert!(contains("productive", "duct"));
}

#[test]
fn substring_at_either_end_is_found() {
    assert!(contains("duct tape", "duct"));
    assert!(contains("aqueduct", "duct"));
    assert!(contains("duct", "duct"));
}

#[test]
fn absent_substring_is_not_found() {
    assert!(!contains("production", "duct tape"));
    assert!(!contains("Duct", "duct"));
}

#[test]
fn empty_needle_is_always_found() {
    assert!(contains("", ""));
    assert!(contains("anything", ""));
}

#[test]
fn needle_longer_than_line_is_never_found() {
    assert!(!contains("abc", "abcd"));
    assert!(!contains("", "a"));
}

#[test]
fn folding_lowercases_ascii_letters_only() {
    let folded = fold_bytes(&b"MiXeD 123 \xc3\x89!".to_vec());
    assert_eq!(folded, b"mixed 123 \xc3\x89!".to_vec());
}

#[test]
fn case_insensitive_query_prefolds_its_pattern() {
    let q = Query::new(b"DuCt".to_vec(), false);
    assert_eq!(q.pattern, b"duct".to_vec());
    assert!(!q.case_sensitive);
}

#[test]
fn case_sensitive_query_keeps_its_pattern() {
    let q = Query::new(b"DuCt".to_vec(), true);
    assert_eq!(q.pattern, b"DuCt".to_vec());
    assert!(q.case_sensitive);
}

#[test]
fn query_matches_respects_case_sensitivity() {
    let line = b"Duct tape.".to_vec();
    assert!(Query::new(b"duct".to_vec(), false).matches(&line));
    assert!(!Query::new(b"duct".to_vec(), true).matches(&line));
    assert!(Query::new(b"Duct".to_vec(), true).matches(&line));
}

#[test]
fn duplicate_copies_both_fields() {
    let q = Query::new(b"AbC".to_vec(), false);
    let d = q.duplicate();
    assert_eq!(d.pattern, q.pattern);
    assert_eq!(d.case_sensitive, q.case_sensitive);
}
