use minigrep::reader::split_lines;
use minigrep::reader::strip_line_ending;

fn lines(input: &[u8]) -> Vec<Vec<u8>> {
    split_lines(&input.to_vec())
}

fn expect_lines(input: &[u8], want: &[&str]) {
    let got = lines(input);
    assert_eq!(got.len(), want.len());
    for (g, w) in got.iter().zip(want.iter()) {
        assert_eq!(g, &w.as_bytes().to_vec());
    }
}

#[test]
fn empty_buffer_has_no_lines() {
    expect_lines(b"", &[]);
}

#[test]
fn single_line_without_newline_is_kept() {
    expect_lines(b"alpha", &["alpha"]);
}

#[test]
fn trailing_newline_adds_no_extra_line() {
    expect_lines(b"alpha\nbeta\n", &["alpha", "beta"]);
}

#[test]
fn missing_final_newline_keeps_last_line() {
    expect_lines(b"alpha\nbeta", &["alpha", "beta"]);
}

#[test]
fn empty_lines_are_preserved() {
    expect_lines(b"\na\n\nb\n", &["", "a", "", "b"]);
}

#[test]
fn carriage_return_before_newline_is_stripped() {
    expect_lines(b"alpha\r\nbeta\r\n", &["alpha", "beta"]);
}

#[test]
fn lone_carriage_return_stays_in_the_line() {
    expect_lines(b"al\rpha\nbeta\r", &["al\rpha", "beta\r"]);
}

#[test]
fn newline_only_buffer_is_one_empty_line() {
    expect_lines(b"\n", &[""]);
}

#[test]
fn stripping_removes_only_one_line_ending() {
    assert_eq!(strip_line_ending(b"alpha\n".to_vec()), b"alpha".to_vec());
    assert_eq!(strip_line_ending(b"alpha\r\n".to_vec()), b"alpha".to_vec());
    assert_eq!(strip_line_ending(b"alpha".to_vec()), b"alpha".to_vec());
    assert_eq!(strip_line_ending(b"alpha\r".to_vec()), b"alpha\r".to_vec());
    assert_eq!(strip_line_ending(b"alpha\n\n".to_vec()), b"alpha\n".to_vec());
    assert_eq!(strip_line_ending(b"\n".to_vec()), b"".to_vec());
    assert_eq!(strip_line_ending(b"".to_vec()), b"".to_vec());
}
