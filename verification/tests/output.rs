use ravel::formatter::FormatError;
use ravel::formatter::FormatStyle;
use ravel::formatter::check::summarize_check;
use ravel::formatter::output::{OutputError, format_output, verified_output};
use ravel::linter::{LintFileReport, LintResult, LintStatus, blocked_message, summarize};
use ravel::parser::diagnostics::ParseDiagnostic;

#[test]
fn verified_output_refuses_a_changed_second_pass() {
    let ok = verified_output(Ok("x <- 1\n".to_string()), Some(Ok("x <- 1\n".to_string())));
    assert_eq!(ok, Ok("x <- 1\n".to_string()));
    let changed = verified_output(Ok("x <- 1\n".to_string()), Some(Ok("x <- 2\n".to_string())));
    assert_eq!(changed, Err(OutputError::NotIdempotent));
    let unverified = verified_output(Ok("a\n".to_string()), None);
    assert_eq!(unverified, Ok("a\n".to_string()));
    let second = verified_output(
        Ok("a\n".to_string()),
        Some(Err(FormatError::ParseErrors { count: 2 })),
    );
    assert_eq!(
        second,
        Err(OutputError::Verification(FormatError::ParseErrors { count: 2 }))
    );
    let first = verified_output(Err(FormatError::ParseErrors { count: 1 }), None);
    assert_eq!(first, Err(OutputError::Format(FormatError::ParseErrors { count: 1 })));
}

#[test]
fn format_output_verifies_when_asked() {
    let style = FormatStyle::default();
    assert_eq!(format_output("x<-1\n", style, true), Ok("x <- 1\n".to_string()));
    assert_eq!(format_output("x<-1\n", style, false), Ok("x <- 1\n".to_string()));
    assert_eq!(
        format_output("x <- (\n", style, true),
        Err(OutputError::Format(FormatError::ParseErrors { count: 1 }))
    );
}

#[test]
fn output_error_messages_name_the_file() {
    let e = OutputError::NotIdempotent;
    assert_eq!(
        e.to_message(None),
        "formatter verification failed (non-idempotent output)"
    );
    assert_eq!(
        e.to_message(Some("a.R")),
        "formatter verification failed for a.R (non-idempotent output)"
    );
    let v = OutputError::Verification(FormatError::ParseErrors { count: 3 });
    assert_eq!(
        v.to_message(Some("b.R")),
        "formatted output failed verification for b.R: input contains 3 parser diagnostic(s); formatter only supports parseable input"
    );
    assert_eq!(
        v.to_message(None),
        "formatted output failed verification: input contains 3 parser diagnostic(s); formatter only supports parseable input"
    );
    let f = OutputError::Format(FormatError::ParseErrors { count: 1 });
    assert_eq!(
        f.to_message(Some("c.R")),
        "failed to format c.R: input contains 1 parser diagnostic(s); formatter only supports parseable input"
    );
}

#[test]
fn check_summary_lists_the_files_that_would_change() {
    let result = summarize_check(vec![
        ("a.R".to_string(), false),
        ("b.R".to_string(), true),
        ("c.R".to_string(), true),
    ]);
    assert_eq!(result.checked_files, 3);
    assert_eq!(result.changed_files, vec!["b.R".to_string(), "c.R".to_string()]);
}

#[test]
fn lint_fails_on_findings_or_parse_blockers() {
    let clean = LintFileReport {
        path: "a.R".to_string(),
        status: LintStatus::Clean,
        diagnostics: Vec::new(),
    };
    let blocked = LintFileReport {
        path: "b.R".to_string(),
        status: LintStatus::ParseDiagnostics { count: 2 },
        diagnostics: Vec::new(),
    };
    let passing: LintResult = summarize(vec![clean.clone()]);
    assert!(!passing.fails());
    let failing: LintResult = summarize(vec![clean, blocked]);
    assert!(failing.fails());
    assert_eq!(
        blocked_message("b.R", 2),
        "lint blocked by parse diagnostics: b.R (2 diagnostics)"
    );
    assert_eq!(
        blocked_message("b.R", 1),
        "lint blocked by parse diagnostics: b.R (1 diagnostic)"
    );
}

#[test]
fn parse_diagnostics_print_their_range() {
    let d = ParseDiagnostic {
        message: "expected ')'".to_string(),
        start: 5,
        end: 6,
    };
    assert_eq!(d.to_message(), "error[5..6]: expected ')'");
}

#[test]
fn refused_tokens_fail_formatting_and_checking() {
    let style = FormatStyle::default();
    assert!(matches!(
        format_output("a %in% b\n", style, false),
        Err(OutputError::Format(FormatError::UnsupportedConstruct { .. }))
    ));
    assert!(ravel::formatter::check::check_file("a.R", "x@y\n", style).is_err());
}
