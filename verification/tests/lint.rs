use ravel::linter::{LintStatus, lint_source, run_rules, summarize};

#[test]
fn detects_assignment_spacing_violations() {
    let result = summarize(vec![lint_source("bad.R", "x<-1\nx  <-1\nx<- 1\n")]);
    assert_eq!(result.total_findings, 3);
    assert_eq!(result.reports[0].diagnostics.len(), 3);
    assert_eq!(
        result.reports[0].diagnostics[0].rule_id,
        "assignment-spacing"
    );
    assert_eq!(result.reports[0].diagnostics[0].line, 1);
    assert_eq!(result.reports[0].diagnostics[1].line, 2);
    assert_eq!(result.reports[0].diagnostics[2].line, 3);
}

#[test]
fn passes_when_assignment_spacing_is_correct() {
    let result = summarize(vec![lint_source("ok.R", "x <- 1\ny <- x + 1\n")]);
    assert_eq!(result.total_findings, 0);
    assert_eq!(result.reports[0].diagnostics.len(), 0);
    assert_eq!(result.reports[0].status, LintStatus::Clean);
}

#[test]
fn findings_carry_line_column_and_message() {
    let report = lint_source("bad.R", "x<-1\nx  <-1\nx<- 1\n");
    assert_eq!(report.status, LintStatus::Findings { count: 3 });
    let places: Vec<(usize, usize)> = report
        .diagnostics
        .iter()
        .map(|d| (d.line, d.column))
        .collect();
    assert_eq!(places, vec![(1, 2), (2, 4), (3, 2)]);
    assert_eq!(
        report.diagnostics[0].to_message(),
        "bad.R:1:2: [assignment-spacing] assignment operator `<-` must be surrounded by single spaces (span 1..3)"
    );
}

#[test]
fn parse_diagnostics_block_the_rules() {
    let report = lint_source("bad.R", "x <-\n");
    assert!(matches!(report.status, LintStatus::ParseDiagnostics { .. }));
    assert!(report.diagnostics.is_empty());
}

#[test]
fn findings_are_ordered_by_position() {
    let diags = run_rules("f.R", "a<-1;b<-2\n");
    let starts: Vec<usize> = diags.iter().map(|d| d.start).collect();
    assert_eq!(starts, vec![1, 6]);
}

#[test]
fn summary_counts_files_and_findings() {
    let reports = vec![
        lint_source("a_ok.R", "x <- 1\n"),
        lint_source("b_bad.R", "x<-1\n"),
    ];
    let result = summarize(reports);
    assert_eq!(result.checked_files, 2);
    assert_eq!(result.total_findings, 1);
    assert_eq!(
        result.reports[1].diagnostics[0].to_message(),
        "b_bad.R:1:2: [assignment-spacing] assignment operator `<-` must be surrounded by single spaces (span 1..3)"
    );
}
