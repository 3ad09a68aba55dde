use word_nerd::ingest::{ingest_text, is_word_per_line, split_lines, trim_str};

#[test]
fn word_per_line_classification() {
    let (tokens, paragraph) = ingest_text("alpha\nbeta\ngamma");
    assert_eq!(
        tokens,
        vec!["alpha".to_string(), "beta".to_string(), "gamma".to_string()]
    );
    assert!(!paragraph);
}

#[test]
fn paragraph_classification() {
    let (tokens, paragraph) = ingest_text("hello world\nfoo bar");
    assert_eq!(tokens, vec!["hello world   foo bar".to_string()]);
    assert!(paragraph);
}

#[test]
fn paragraph_skips_blank_lines() {
    let (tokens, paragraph) = ingest_text("hello world\n\n  \nfoo bar\n");
    assert_eq!(tokens, vec!["hello world   foo bar".to_string()]);
    assert!(paragraph);
}

#[test]
fn line_endings_are_uniform() {
    let (tokens, paragraph) = ingest_text("a\r\nb\rc\nd");
    assert_eq!(
        tokens,
        vec![
            "a".to_string(),
            "b".to_string(),
            "c".to_string(),
            "d".to_string()
        ]
    );
    assert!(!paragraph);
}

#[test]
fn tokens_are_trimmed_and_blanks_dropped() {
    let (tokens, paragraph) = ingest_text("  alpha  \n\n\tbeta\t\n   ");
    assert_eq!(tokens, vec!["alpha".to_string(), "beta".to_string()]);
    assert!(!paragraph);
}

#[test]
fn empty_text_yields_no_tokens() {
    let (tokens, paragraph) = ingest_text("");
    assert_eq!(tokens, Vec::<String>::new());
    assert!(!paragraph);
}

#[test]
fn split_lines_keeps_blank_segments() {
    let lines = split_lines("a\n\nb");
    assert_eq!(
        lines,
        vec!["a".to_string(), "".to_string(), "b".to_string()]
    );
}

#[test]
fn split_lines_trailing_separator() {
    let lines = split_lines("a\nb\n");
    assert_eq!(
        lines,
        vec!["a".to_string(), "b".to_string(), "".to_string()]
    );
}

#[test]
fn crlf_is_one_separator() {
    let lines = split_lines("a\r\nb");
    assert_eq!(lines, vec!["a".to_string(), "b".to_string()]);
}

#[test]
fn classifier_accepts_single_pieces() {
    let lines = vec!["  alpha ".to_string(), "".to_string(), "beta".to_string()];
    assert!(is_word_per_line(&lines));
}

#[test]
fn classifier_rejects_prose() {
    let lines = vec!["alpha".to_string(), "two words".to_string()];
    assert!(!is_word_per_line(&lines));
}

#[test]
fn trim_removes_surrounding_whitespace() {
    assert_eq!(trim_str("  a b\t "), "a b".to_string());
    assert_eq!(trim_str(" \t "), "".to_string());
}
