use clingo::{parse_path, PathSegment};

fn key(s: &str) -> PathSegment {
    PathSegment::Key(s.to_string())
}

#[test]
fn dotted_keys() {
    assert_eq!(parse_path("solve.models"), vec![key("solve"), key("models")]);
    assert_eq!(parse_path("solve"), vec![key("solve")]);
}

#[test]
fn array_indices() {
    assert_eq!(
        parse_path("solver.0.heuristic"),
        vec![key("solver"), PathSegment::Index(0), key("heuristic")]
    );
    assert_eq!(parse_path("solver.12"), vec![key("solver"), PathSegment::Index(12)]);
}

#[test]
fn empty_pieces() {
    assert_eq!(parse_path(""), vec![key("")]);
    assert_eq!(parse_path("a..b"), vec![key("a"), key(""), key("b")]);
    assert_eq!(parse_path(".a."), vec![key(""), key("a"), key("")]);
}

#[test]
fn index_syntax_follows_usize_parsing() {
    assert_eq!(parse_path("+7"), vec![PathSegment::Index(7)]);
    assert_eq!(parse_path("007"), vec![PathSegment::Index(7)]);
    assert_eq!(parse_path("+"), vec![key("+")]);
    assert_eq!(parse_path("-1"), vec![key("-1")]);
    assert_eq!(parse_path("1a"), vec![key("1a")]);
    assert_eq!(parse_path("٣"), vec![key("٣")]);
    let max = usize::MAX.to_string();
    assert_eq!(parse_path(&max), vec![PathSegment::Index(usize::MAX)]);
    let too_big = format!("{}0", usize::MAX);
    assert_eq!(parse_path(&too_big), vec![key(&too_big)]);
}

#[test]
fn value_text_drops_the_terminator() {
    assert_eq!(clingo::value_text(b"auto\0".to_vec()), "auto");
    assert_eq!(clingo::value_text(vec![0]), "");
    assert_eq!(clingo::value_text(vec![]), "");
    assert_eq!(clingo::value_text("grüße\0".as_bytes().to_vec()), "grüße");
}

#[test]
fn value_text_replaces_invalid_bytes() {
    assert_eq!(clingo::value_text(vec![b'a', 0xff, b'b', 0]), "a\u{FFFD}b");
}
