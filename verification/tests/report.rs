use compiler_diagnostics::{
    BuildDiagnostics, Diagnostic, FileDiagnostics, Level, Marker, Span, SpanHandle,
};
use std::rc::Rc;

fn file(path: &str, source: Option<&str>) -> FileDiagnostics {
    FileDiagnostics {
        inner: Vec::new(),
        current_path: Rc::new(path.to_string()),
        source: source.map(|s| s.to_string()),
    }
}

#[test]
fn a_report_points_into_the_text_it_has() {
    let mut f = file("a.lang", Some("let x = y;"));
    f.push_error_with_span("undefined symbol 'y'".to_string(), Span::new(8));
    f.push_diagnostic_with_span("unused".to_string(), Span::new(4), Level::Warning);
    let report = f.into_report();
    assert_eq!(report.file_name, "a.lang");
    assert_eq!(report.source, "let x = y;");
    assert_eq!(report.entries.len(), 2);
    assert_eq!(report.entries[0].level, Level::Error);
    assert_eq!(report.entries[0].message, "undefined symbol 'y'");
    assert_eq!(report.entries[0].anchor, Some(8));
    assert_eq!(report.entries[1].level, Level::Warning);
    assert_eq!(report.entries[1].message, "unused");
    assert_eq!(report.entries[1].anchor, Some(4));
}

#[test]
fn a_report_without_text_points_nowhere() {
    let mut f = file("[internal error]", None);
    f.push_error_with_span("lost".to_string(), Span::new(8));
    f.push_diagnostic_with_span("also lost".to_string(), Span::new(0), Level::Warning);
    let report = f.into_report();
    assert_eq!(report.file_name, "[internal error]");
    assert_eq!(report.source, "");
    assert_eq!(report.entries.len(), 2);
    assert_eq!(report.entries[0].level, Level::Error);
    assert_eq!(report.entries[0].message, "lost");
    assert_eq!(report.entries[0].anchor, None);
    assert_eq!(report.entries[1].level, Level::Warning);
    assert_eq!(report.entries[1].anchor, None);
}

#[test]
fn a_load_failure_is_reported_as_an_error_without_a_place() {
    let err = std::io::Error::new(std::io::ErrorKind::NotFound, "file not found");
    let shown = err.to_string();
    let report = FileDiagnostics::new_from_error("missing.lang".to_string(), err).into_report();
    assert_eq!(report.file_name, "missing.lang");
    assert_eq!(report.source, "");
    assert_eq!(report.entries.len(), 1);
    assert_eq!(report.entries[0].level, Level::Error);
    assert_eq!(report.entries[0].message, shown);
    assert_eq!(report.entries[0].anchor, None);
}

#[test]
fn a_load_failure_beside_text_still_has_no_place() {
    let mut f = file("a.lang", Some("text"));
    f.push_entry(Diagnostic::from(std::io::Error::new(std::io::ErrorKind::Other, "late failure")));
    f.push_error_with_span("e".to_string(), Span::new(0));
    let report = f.into_report();
    assert_eq!(report.entries[0].anchor, None);
    assert_eq!(report.entries[0].message, "late failure");
    assert_eq!(report.entries[1].anchor, Some(0));
}

#[test]
fn an_empty_file_gives_an_empty_report() {
    let report = file("e.lang", Some("")).into_report();
    assert_eq!(report.file_name, "e.lang");
    assert_eq!(report.source, "");
    assert!(report.entries.is_empty());
}

#[test]
fn an_error_leaves_an_error_marker() {
    let mut f = file("m.lang", None);
    f.push_error_with_span("does not compile".to_string(), Span { offset: 3, span: Some(SpanHandle(9)) });
    f.push_error_with_span("nor does this".to_string(), Span::new(4));
    let markers = f.markers();
    assert_eq!(markers.len(), 2);
    match &markers[0] {
        Marker::Error { message, span } => {
            assert_eq!(message, "does not compile");
            assert_eq!(*span, Some(SpanHandle(9)));
        }
        Marker::Warning { .. } => panic!("an error marker was expected"),
    }
    match &markers[1] {
        Marker::Error { message, span } => {
            assert_eq!(message, "nor does this");
            assert_eq!(*span, None);
        }
        Marker::Warning { .. } => panic!("an error marker was expected"),
    }
}

#[test]
fn a_warning_leaves_a_named_constant() {
    let mut f = file("m.lang", None);
    f.push_diagnostic_with_span("unused-import".to_string(), Span { offset: 0, span: Some(SpanHandle(2)) }, Level::Warning);
    f.push_diagnostic_with_span("a-b--c-".to_string(), Span::new(1), Level::Warning);
    f.push_diagnostic_with_span("plain".to_string(), Span::new(2), Level::Warning);
    f.push_diagnostic_with_span("".to_string(), Span::new(3), Level::Warning);
    let markers = f.markers();
    let symbols: Vec<(String, Option<SpanHandle>)> = markers
        .iter()
        .map(|m| match m {
            Marker::Warning { symbol, span } => (symbol.clone(), *span),
            Marker::Error { .. } => panic!("a warning marker was expected"),
        })
        .collect();
    assert_eq!(
        symbols,
        vec![
            ("WARNING_unused_import".to_string(), Some(SpanHandle(2))),
            ("WARNING_a_b__c_".to_string(), None),
            ("WARNING_plain".to_string(), None),
            ("WARNING_".to_string(), None),
        ]
    );
}

#[test]
fn a_load_failure_leaves_no_marker() {
    let mut f = FileDiagnostics::new_from_error(
        "missing.lang".to_string(),
        std::io::Error::new(std::io::ErrorKind::NotFound, "file not found"),
    );
    assert!(f.markers().is_empty());
    f.push_error_with_span("after".to_string(), Span::new(0));
    f.push_entry(Diagnostic::from(std::io::Error::new(std::io::ErrorKind::Other, "again")));
    let markers = f.markers();
    assert_eq!(markers.len(), 1);
    assert!(matches!(&markers[0], Marker::Error { message, .. } if message == "after"));
}

#[test]
fn markers_keep_the_diagnostics_where_they_are() {
    let mut f = file("m.lang", None);
    f.push_error_with_span("stays".to_string(), Span::new(0));
    let _ = f.markers();
    assert_eq!(f.to_string_vec(), vec!["stays".to_string()]);
}

#[test]
fn a_build_leaves_the_markers_of_every_bucket() {
    let mut build = BuildDiagnostics::default();
    build.route_diagnostic("stray".to_string(), None, Span::new(0), Level::Error);
    let mut a = file("a.lang", None);
    a.push_error_with_span("in a".to_string(), Span::new(1));
    a.push_diagnostic_with_span("odd-name".to_string(), Span::new(2), Level::Warning);
    build.add(a);
    build.add(FileDiagnostics::new_from_error(
        "b.lang".to_string(),
        std::io::Error::new(std::io::ErrorKind::NotFound, "file not found"),
    ));
    let mut c = file("c.lang", None);
    c.push_error_with_span("in c".to_string(), Span::new(3));
    build.add(c);
    let shown: Vec<String> = build
        .markers()
        .iter()
        .map(|m| match m {
            Marker::Error { message, .. } => format!("error {}", message),
            Marker::Warning { symbol, .. } => format!("warning {}", symbol),
        })
        .collect();
    assert_eq!(
        shown,
        vec![
            "error in a".to_string(),
            "warning WARNING_odd_name".to_string(),
            "error in c".to_string(),
            "error stray".to_string(),
        ]
    );
}
