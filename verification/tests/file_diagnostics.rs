use compiler_diagnostics::{
    CompilerDiagnostic, Diagnostic, FileDiagnostics, Level, Span, SpanHandle, Spanned,
};
use std::rc::Rc;

struct Node {
    offset: usize,
}

impl Spanned for Node {
    fn span(&self) -> Span {
        Span::new(self.offset)
    }
}

fn file(path: &str) -> FileDiagnostics {
    FileDiagnostics { inner: Vec::new(), current_path: Rc::new(path.to_string()), source: None }
}

#[test]
fn span_new_knows_only_its_offset() {
    let span = Span::new(42);
    assert_eq!(span.offset, 42);
    assert_eq!(span.span, None);
}

#[test]
fn span_default_is_offset_zero() {
    let span = Span::default();
    assert_eq!(span.offset, 0);
    assert_eq!(span.span, None);
}

#[test]
fn span_equality_looks_at_the_offset_only() {
    let bare = Span::new(7);
    let located = Span { offset: 7, span: Some(SpanHandle(3)) };
    let elsewhere = Span { offset: 8, span: Some(SpanHandle(3)) };
    assert!(bare == located);
    assert!(located != elsewhere);
    assert!(bare != elsewhere);
}

#[test]
fn span_from_a_handle_starts_at_zero() {
    let span = Span::from(SpanHandle(5));
    assert_eq!(span.offset, 0);
    assert_eq!(span.span, Some(SpanHandle(5)));
}

#[test]
fn level_defaults_to_error() {
    assert_eq!(Level::default(), Level::Error);
}

#[test]
fn compiler_diagnostic_default_is_an_empty_error() {
    let d = CompilerDiagnostic::default();
    assert_eq!(d.message, "");
    assert_eq!(d.span.offset, 0);
    assert_eq!(d.span.span, None);
    assert_eq!(d.level, Level::Error);
}

#[test]
fn compiler_diagnostic_shows_its_message() {
    let d = CompilerDiagnostic { message: "type mismatch".to_string(), span: Span::new(3), level: Level::Warning };
    assert_eq!(d.to_string(), "type mismatch");
}

#[test]
fn diagnostic_from_a_compiler_diagnostic() {
    let d = Diagnostic::from(CompilerDiagnostic {
        message: "oops".to_string(),
        span: Span::new(9),
        level: Level::Warning,
    });
    match &d {
        Diagnostic::CompilerDiagnostic(inner) => {
            assert_eq!(inner.message, "oops");
            assert_eq!(inner.span.offset, 9);
            assert_eq!(inner.level, Level::Warning);
        }
        Diagnostic::FileLoadError(_) => panic!("a compiler diagnostic was expected"),
    }
    assert!(!d.is_error());
    assert_eq!(d.to_string(), "oops");
}

#[test]
fn diagnostic_from_an_io_error() {
    let err = std::io::Error::new(std::io::ErrorKind::PermissionDenied, "no access");
    let shown = err.to_string();
    let d = Diagnostic::from(err);
    assert!(matches!(d, Diagnostic::FileLoadError(_)));
    assert!(d.is_error());
    assert_eq!(d.to_string(), shown);
}

#[test]
fn file_default_is_empty() {
    let f = FileDiagnostics::default();
    assert!(f.inner.is_empty());
    assert_eq!(f.current_path.as_str(), "");
    assert_eq!(f.source, None);
    assert!(!f.has_error());
    assert!(f.to_string_vec().is_empty());
}

#[test]
fn error_and_warning_scenario() {
    let mut f = file("a.lang");
    f.push_diagnostic_with_span("undefined symbol 'x'".to_string(), Span::new(10), Level::Error);
    f.push_diagnostic_with_span("unused import".to_string(), Span::new(0), Level::Warning);
    assert!(f.has_error());
    assert_eq!(f.to_string_vec(), vec!["undefined symbol 'x'".to_string(), "unused import".to_string()]);
    assert_eq!(f.current_path.as_str(), "a.lang");
}

#[test]
fn new_from_error_scenario() {
    let err = std::io::Error::new(std::io::ErrorKind::NotFound, "file not found");
    let description = err.to_string();
    let f = FileDiagnostics::new_from_error("missing.lang".to_string(), err);
    assert!(f.has_error());
    assert_eq!(f.source, None);
    assert_eq!(f.current_path.as_str(), "missing.lang");
    assert_eq!(f.inner.len(), 1);
    assert!(matches!(f.inner[0], Diagnostic::FileLoadError(_)));
    assert_eq!(f.to_string_vec(), vec![description]);
}

#[test]
fn warnings_alone_are_no_error() {
    let mut f = file("w.lang");
    assert!(!f.has_error());
    f.push_diagnostic_with_span("first".to_string(), Span::new(1), Level::Warning);
    assert!(!f.has_error());
    f.push_compiler_error(CompilerDiagnostic {
        message: "second".to_string(),
        span: Span::new(2),
        level: Level::Warning,
    });
    assert!(!f.has_error());
    assert_eq!(f.inner.len(), 2);
}

#[test]
fn an_error_after_warnings_is_found() {
    let mut f = file("w.lang");
    f.push_diagnostic_with_span("first".to_string(), Span::new(1), Level::Warning);
    f.push_diagnostic_with_span("second".to_string(), Span::new(2), Level::Warning);
    f.push_error_with_span("third".to_string(), Span::new(3));
    assert!(f.has_error());
}

#[test]
fn a_load_failure_is_an_error() {
    let mut f = file("w.lang");
    f.push_diagnostic_with_span("first".to_string(), Span::new(1), Level::Warning);
    f.push_entry(Diagnostic::from(std::io::Error::new(std::io::ErrorKind::Other, "broken")));
    assert!(f.has_error());
    assert_eq!(f.to_string_vec(), vec!["first".to_string(), "broken".to_string()]);
}

#[test]
fn push_error_with_span_makes_an_error_at_that_span() {
    let mut f = file("e.lang");
    f.push_error_with_span("bad".to_string(), Span { offset: 4, span: Some(SpanHandle(1)) });
    assert_eq!(f.inner.len(), 1);
    match &f.inner[0] {
        Diagnostic::CompilerDiagnostic(d) => {
            assert_eq!(d.message, "bad");
            assert_eq!(d.span.offset, 4);
            assert_eq!(d.span.span, Some(SpanHandle(1)));
            assert_eq!(d.level, Level::Error);
        }
        Diagnostic::FileLoadError(_) => panic!("a compiler diagnostic was expected"),
    }
}

#[test]
fn push_error_reads_the_span_of_its_source() {
    let mut f = file("e.lang");
    f.push_error("here".to_string(), &Node { offset: 17 });
    assert_eq!(f.inner.len(), 1);
    match &f.inner[0] {
        Diagnostic::CompilerDiagnostic(d) => {
            assert_eq!(d.message, "here");
            assert_eq!(d.span.offset, 17);
            assert_eq!(d.span.span, None);
            assert_eq!(d.level, Level::Error);
        }
        Diagnostic::FileLoadError(_) => panic!("a compiler diagnostic was expected"),
    }
    assert!(f.has_error());
}

#[test]
fn push_error_takes_a_trait_object_too() {
    let mut f = file("e.lang");
    let node = Node { offset: 23 };
    let source: &dyn Spanned = &node;
    f.push_error("there".to_string(), source);
    match &f.inner[0] {
        Diagnostic::CompilerDiagnostic(d) => {
            assert_eq!(d.message, "there");
            assert_eq!(d.span.offset, 23);
            assert_eq!(d.level, Level::Error);
        }
        Diagnostic::FileLoadError(_) => panic!("a compiler diagnostic was expected"),
    }
}

#[test]
fn push_compiler_error_keeps_the_diagnostic_as_it_is() {
    let mut f = file("e.lang");
    f.source = Some("let x;".to_string());
    f.push_compiler_error(CompilerDiagnostic {
        message: "kept".to_string(),
        span: Span::new(2),
        level: Level::Warning,
    });
    assert_eq!(f.source.as_deref(), Some("let x;"));
    assert_eq!(f.current_path.as_str(), "e.lang");
    match &f.inner[0] {
        Diagnostic::CompilerDiagnostic(d) => {
            assert_eq!(d.message, "kept");
            assert_eq!(d.span.offset, 2);
            assert_eq!(d.level, Level::Warning);
        }
        Diagnostic::FileLoadError(_) => panic!("a compiler diagnostic was expected"),
    }
}

#[test]
fn lines_come_in_the_order_of_the_pushes() {
    let mut f = file("o.lang");
    f.push_error_with_span("d1".to_string(), Span::new(30));
    f.push_diagnostic_with_span("d2".to_string(), Span::new(20), Level::Warning);
    f.push_error_with_span("d3".to_string(), Span::new(10));
    assert_eq!(f.to_string_vec(), vec!["d1".to_string(), "d2".to_string(), "d3".to_string()]);
}

#[test]
fn an_empty_message_is_a_line_too() {
    let mut f = file("o.lang");
    f.push_error_with_span(String::new(), Span::new(0));
    assert_eq!(f.to_string_vec(), vec![String::new()]);
}

#[test]
fn into_iter_hands_out_the_diagnostics_in_order() {
    let mut f = file("i.lang");
    f.push_error_with_span("one".to_string(), Span::new(1));
    f.push_diagnostic_with_span("two".to_string(), Span::new(2), Level::Warning);
    let shown: Vec<String> = f.into_iter().map(|d| d.to_string()).collect();
    assert_eq!(shown, vec!["one".to_string(), "two".to_string()]);
}
