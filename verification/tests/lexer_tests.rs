use lib::lexer::{Lexer, TokenKind};

fn check_spans(src: &str) {
    let (tokens, _diags) = Lexer::tokenize(src);
    let last = tokens.last().unwrap();
    assert!(matches!(last.kind, TokenKind::Eof));
    assert_eq!((last.span.start, last.span.end), (src.len(), src.len()));
    for (k, t) in tokens.iter().enumerate() {
        assert!(t.span.start <= t.span.end && t.span.end <= src.len());
        if k + 1 < tokens.len() {
            assert!(!matches!(t.kind, TokenKind::Eof));
            assert!(t.span.start < t.span.end);
            assert!(t.span.end <= tokens[k + 1].span.start);
        }
    }
}

#[test]
fn test_tokenize_spans_ordered_and_eof_at_end() {
    check_spans("module m; type Foo = struct { a: Int } # trailing");
    check_spans("é \"x\\\"y\" -> 12 .. <= $ -");
    check_spans("");
    check_spans("\"unterminated");
}

#[test]
fn test_tokenize_byte_offsets_count_utf8() {
    let (tokens, diags) = Lexer::tokenize("é x");
    assert_eq!(diags.len(), 1);
    assert_eq!((diags[0].span.start, diags[0].span.end), (0, 2));
    assert_eq!((tokens[0].span.start, tokens[0].span.end), (3, 4));
    assert_eq!((tokens[1].span.start, tokens[1].span.end), (4, 4));
}
