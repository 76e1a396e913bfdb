use lib::diag::{render, Diagnostic, Severity};
use lib::span::Span;


fn diag_at(start: usize) -> Diagnostic {
    Diagnostic {
        severity: Severity::Error,
        code: "E101",
        span: Span {
            start,
            end: start + 1,
        },
        message: "test".to_string(),
    }
}

#[test]
fn test_render_line_col_start() {
    let out = render(&[diag_at(0)], "hello world", "f.gym");
    assert!(out.contains("f.gym:1:1"), "{}", out);
}

#[test]
fn test_render_line_col_mid() {
    let out = render(&[diag_at(6)], "hello world", "f.gym");
    assert!(out.contains("f.gym:1:7"), "{}", out);
}

#[test]
fn test_render_line_col_newline() {
    let out = render(&[diag_at(6)], "hello\nworld", "f.gym");
    assert!(out.contains("f.gym:2:1"), "{}", out);
}
