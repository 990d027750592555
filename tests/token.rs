use quip::token::{detokenize, tokenize};

#[test]
fn test_tokenize_plaintext() {
    let res = tokenize("A000 Login Hello").unwrap();
    let target: Vec<String> = ["A000", "Login", "Hello"]
        .iter()
        .map(|s| s.to_string())
        .collect();

    assert_eq!(res, target);
}

#[test]
fn test_tokenize_quote() {
    let res = tokenize("A000 Login \"Hello  How R U\"").unwrap();
    let target: Vec<String> = ["A000", "Login", "Hello  How R U"]
        .iter()
        .map(|s| s.to_string())
        .collect();

    assert_eq!(res, target);
}

#[test]
fn test_tokenize_escape() {
    let res = tokenize("A000 Login \\\" \\\"").unwrap();
    let target: Vec<String> = ["A000", "Login", "\"", "\""]
        .iter()
        .map(|s| s.to_string())
        .collect();

    assert_eq!(res, target);
}

#[test]
fn test_tokenize_failed() {
    let res = tokenize("A000 Login \"Invalid");
    assert!(res.is_err());

    let res = tokenize("A000 Login Invalid\\");
    assert!(res.is_err());
}

#[test]
fn test_detokenize_plaintext() {
    let res = detokenize(&vec!["A000", "Login", "Hello"]);
    let target = "A000 Login Hello";

    assert_eq!(res, target);
}

#[test]
fn test_detokenize_quote() {
    let res = detokenize(&vec!["A000", "Login", "Hello  How R U"]);
    let target = "A000 Login \"Hello  How R U\"";

    assert_eq!(res, target);
}

#[test]
fn test_detokenize_escape() {
    let res = detokenize(&vec!["A000", "Login", "\"", "\""]);
    let target = "A000 Login \\\" \\\"";

    assert_eq!(res, target);
}

#[test]
fn tokenize_lone_backslash_fails() {
    assert!(matches!(tokenize("x\\"), Err(quip::error::QuipError::Parse(_))));
}

#[test]
fn tokenize_trims_line_end() {
    let res = tokenize("  A000 Nop \r\n").unwrap();
    assert_eq!(res, vec!["A000".to_string(), "Nop".to_string()]);
}

#[test]
fn tokenize_empty_line() {
    assert_eq!(tokenize("").unwrap(), Vec::<String>::new());
    assert_eq!(tokenize("    ").unwrap(), Vec::<String>::new());
}

#[test]
fn tokenize_escaped_backslash_and_space() {
    let res = tokenize("a\\\\b c\\ d").unwrap();
    assert_eq!(res, vec!["a\\b".to_string(), "c d".to_string()]);
}

#[test]
fn detokenize_empty() {
    let empty: Vec<&str> = Vec::new();
    assert_eq!(detokenize(&empty), "");
}

#[test]
fn detokenize_quotes_and_escapes_together() {
    let res = detokenize(&vec!["say \"hi\" \\o/"]);
    assert_eq!(res, "\"say \\\"hi\\\" \\\\o/\"");
}

#[test]
fn round_trip_keeps_tokens() {
    let cases: Vec<Vec<&str>> = vec![
        vec!["A000", "Login", "Hello  How R U"],
        vec!["\"", "\\", " ", "a b\"c\\d", "x"],
        vec!["only"],
        vec!["tab\tinside", "new\nline"],
    ];
    for v in cases {
        let line = detokenize(&v);
        let back = tokenize(&line).unwrap();
        let want: Vec<String> = v.iter().map(|s| s.to_string()).collect();
        assert_eq!(back, want);
    }
}

#[test]
fn round_trip_loses_bare_edge_white_space() {
    let line = detokenize(&vec!["\t"]);
    assert_eq!(tokenize(&line).unwrap(), Vec::<String>::new());
}
