use minigrep::engine::search;
use minigrep::engine::Match;
use minigrep::engine::SearchError;
use minigrep::engine::Searcher;
use minigrep::query::Query;

fn poem() -> Vec<u8> {
    b"Rust\nsafe, fast, productive.\nPick three.\nDuct tape.".to_vec()
}

fn query(pattern: &str, case_sensitive: bool) -> Query {
    Query::new(pattern.as_bytes().to_vec(), case_sensitive)
}

fn expect(matches: &[Match], want: &[(usize, &str)]) {
    assert_eq!(matches.len(), want.len());
    for (m, (number, text)) in matches.iter().zip(want.iter()) {
        assert_eq!(m.line_number, *number);
        assert_eq!(m.text, text.as_bytes().to_vec());
    }
}

#[test]
fn case_insensitive_finds_both_duct_lines() {
    let input = poem();
    let q = query("duct", false);
    let matches = search(&input, &q).unwrap();
    expect(&matches, &[(2, "safe, fast, productive."), (4, "Duct tape.")]);
}

#[test]
fn case_sensitive_finds_only_line_two() {
    let input = poem();
    let q = query("duct", true);
    let matches = search(&input, &q).unwrap();
    expect(&matches, &[(2, "safe, fast, productive.")]);
}

#[test]
fn empty_input_gives_empty_result() {
    let input: Vec<u8> = Vec::new();
    let q = query("anything", true);
    let matches = search(&input, &q).unwrap();
    assert!(matches.is_empty());
}

#[test]
fn invalid_line_three_reports_two_lines_processed() {
    let mut input = b"one\ntwo\n".to_vec();
    input.push(0xff);
    input.extend_from_slice(b"three\nfour\n");
    let q = query("o", true);
    let err = search(&input, &q).unwrap_err();
    assert_eq!(err, SearchError::InvalidEncoding { lines_processed: 2 });
}

#[test]
fn empty_pattern_matches_every_line() {
    let input = poem();
    let q = query("", true);
    let matches = search(&input, &q).unwrap();
    expect(
        &matches,
        &[(1, "Rust"), (2, "safe, fast, productive."), (3, "Pick three."), (4, "Duct tape.")],
    );
}

#[test]
fn empty_pattern_matches_empty_lines_too() {
    let input = b"\n\nx\n".to_vec();
    let q = query("", false);
    let matches = search(&input, &q).unwrap();
    expect(&matches, &[(1, ""), (2, ""), (3, "x")]);
}

#[test]
fn two_reads_of_identical_input_agree() {
    let first = poem();
    let second = poem();
    let q1 = query("duct", false);
    let q2 = query("duct", false);
    let r1 = search(&first, &q1).unwrap();
    let r2 = search(&second, &q2).unwrap();
    assert_eq!(r1, r2);
}

#[test]
fn match_count_never_exceeds_line_count() {
    let input = poem();
    let q = query("t", false);
    let matches = search(&input, &q).unwrap();
    assert!(matches.len() <= 4);
}

#[test]
fn line_numbers_strictly_increase() {
    let input = b"aba\nzzz\naba\naba\n".to_vec();
    let q = query("a", true);
    let matches = search(&input, &q).unwrap();
    for pair in matches.windows(2) {
        assert!(pair[0].line_number < pair[1].line_number);
    }
}

#[test]
fn insensitive_line_numbers_cover_sensitive_ones() {
    let input = b"Needle\nneedle\nnothing\nNEEDLE here\n".to_vec();
    let sensitive = search(&input, &query("Needle", true)).unwrap();
    let insensitive = search(&input, &query("Needle", false)).unwrap();
    for m in &sensitive {
        assert!(insensitive.iter().any(|n| n.line_number == m.line_number));
    }
}

#[test]
fn no_match_is_success_with_empty_result() {
    let input = poem();
    let q = query("monomorphization", false);
    let matches = search(&input, &q).unwrap();
    assert!(matches.is_empty());
}

#[test]
fn streamed_lines_agree_with_whole_buffer_search() {
    let q = query("duct", false);
    let whole = search(&poem(), &q).unwrap();

    let mut searcher = Searcher::new(query("duct", false));
    for line in ["Rust", "safe, fast, productive.", "Pick three.", "Duct tape."] {
        searcher.push_line(line.as_bytes().to_vec()).unwrap();
    }
    assert_eq!(searcher.into_matches(), whole);
}

#[test]
fn searcher_counts_lines_and_stops_on_bad_line() {
    let mut searcher = Searcher::new(query("x", true));
    searcher.push_line(b"fine".to_vec()).unwrap();
    assert_eq!(searcher.lines_processed(), 1);
    let err = searcher.push_line(vec![0xc3]).unwrap_err();
    assert_eq!(err, SearchError::InvalidEncoding { lines_processed: 1 });
    assert_eq!(searcher.lines_processed(), 1);
}

#[test]
fn source_failure_carries_lines_processed() {
    let mut searcher = Searcher::new(query("x", true));
    searcher.push_line(b"one".to_vec()).unwrap();
    searcher.push_line(b"two".to_vec()).unwrap();
    let e = searcher.source_failed();
    assert_eq!(e, SearchError::SourceUnavailable { lines_processed: 2 });
}

#[test]
fn matched_text_is_the_full_line() {
    let input = b"prefix duct suffix\n".to_vec();
    let q = query("duct", true);
    let matches = search(&input, &q).unwrap();
    expect(&matches, &[(1, "prefix duct suffix")]);
}
