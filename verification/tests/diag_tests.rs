use slopcc::diag::{Diagnostic, Diagnostics, Severity};
use slopcc::source::FileId;
use slopcc::span::Span;

#[test]
fn has_errors_tracks_error_severity() {
    let mut diagnostics = Diagnostics::new();
    diagnostics.push(Diagnostic {
        severity: Severity::Warning,
        message: String::from("warn"),
        span: None,
    });
    assert!(!diagnostics.has_errors());

    diagnostics.push(Diagnostic {
        severity: Severity::Error,
        message: String::from("err"),
        span: None,
    });
    assert!(diagnostics.has_errors());
}

#[test]
fn empty_collection_has_no_errors() {
    let diagnostics = Diagnostics::new();
    assert!(diagnostics.is_empty());
    assert_eq!(diagnostics.len(), 0);
    assert!(!diagnostics.has_errors());
    assert_eq!(diagnostics.iter().count(), 0);
}

#[test]
fn notes_and_warnings_are_no_errors() {
    let mut diagnostics = Diagnostics::new();
    for severity in [Severity::Note, Severity::Warning, Severity::Note] {
        diagnostics.push(Diagnostic { severity, message: String::from("m"), span: None });
    }
    assert_eq!(diagnostics.len(), 3);
    assert!(!diagnostics.is_empty());
    assert!(!diagnostics.has_errors());
}

#[test]
fn an_error_anywhere_is_found() {
    for at in 0..4 {
        let mut diagnostics = Diagnostics::new();
        for i in 0..4 {
            let severity = if i == at { Severity::Error } else { Severity::Note };
            diagnostics.push(Diagnostic { severity, message: String::new(), span: None });
        }
        assert!(diagnostics.has_errors());
    }
}

#[test]
fn iter_keeps_insertion_order() {
    let span = Span::new(FileId::new(0), 3, 9);
    let mut diagnostics = Diagnostics::new();
    diagnostics.push(Diagnostic {
        severity: Severity::Note,
        message: String::from("first"),
        span: None,
    });
    diagnostics.push(Diagnostic {
        severity: Severity::Error,
        message: String::from("second"),
        span: Some(span),
    });
    diagnostics.push(Diagnostic {
        severity: Severity::Warning,
        message: String::from("third"),
        span: None,
    });
    let messages: Vec<&str> = diagnostics.iter().map(|d| d.message.as_str()).collect();
    assert_eq!(messages, vec!["first", "second", "third"]);
    let spans: Vec<Option<Span>> = diagnostics.iter().map(|d| d.span).collect();
    assert_eq!(spans, vec![None, Some(span), None]);
}
