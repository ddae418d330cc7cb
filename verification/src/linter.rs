//! The linter: rules run over the tokens of a source file that parses
//! cleanly, and the report of one file.

use vstd::prelude::*;

use crate::file_discovery::FileDiscoveryError;
use crate::parser::lexer::{Token, lex, lemma_tiles_index, lexes_to, tiles, chars_of};
use crate::parser::toplevel::{ParseOutput, parse};
use crate::syntax::TokKind;
use crate::text::{char_offset_to_line_col, decimal, decimal_string, line_col};

verus! {

/// The id of the assignment-spacing rule.
pub const ASSIGNMENT_SPACING_RULE_ID: &'static str = "assignment-spacing";

/// Whether a file was linted, and with what outcome.
#[derive(Debug, Clone, Copy, PartialEq, Eq, Structural)]
pub enum LintStatus {
    /// No rule found anything.
    Clean,
    /// The rules found `count` problems.
    Findings { count: usize },
    /// The file has `count` parser diagnostics, so the rules did not run.
    ParseDiagnostics { count: usize },
}

/// One problem found by a rule, with its character range and the 1-based
/// line and column where it starts.
#[derive(Debug, Clone, PartialEq, Eq)]
pub struct LintDiagnostic {
    pub path: String,
    pub rule_id: &'static str,
    pub message: String,
    pub start: usize,
    pub end: usize,
    pub line: usize,
    pub column: usize,
}

/// The outcome for one file.
#[derive(Debug, Clone, PartialEq, Eq)]
pub struct LintFileReport {
    pub path: String,
    pub status: LintStatus,
    pub diagnostics: Vec<LintDiagnostic>,
}

/// The outcome for all files.
#[derive(Debug, Clone, PartialEq, Eq)]
pub struct LintResult {
    pub checked_files: usize,
    pub total_findings: usize,
    pub reports: Vec<LintFileReport>,
}

/// Why linting could not run.
#[derive(Debug, Clone, PartialEq, Eq)]
pub enum LintError {
    MissingPaths,
    NoRFiles,
    NonRFilePath { path: String },
    WalkError { path: String, message: String },
    ReadError { path: String, source: String },
}

/// A finding before it is placed in a file: its rule, message and range.
pub(crate) struct RuleDiagnostic {
    pub rule_id: &'static str,
    pub message: String,
    pub start: usize,
    pub end: usize,
}

/// `t` is a single space.
pub open spec fn single_space(t: Token) -> bool {
    t.kind == TokKind::Whitespace && t.text@ == seq![' ']
}

/// The `<-` at index `i` has a single space on each side.
pub open spec fn spaced_at(toks: Seq<Token>, i: int) -> bool {
    &&& i > 0 && single_space(toks[i - 1])
    &&& i + 1 < toks.len() && single_space(toks[i + 1])
}

/// The indices, in order, of the `<-` tokens among the first `n` that lack a
/// single space on either side.
pub open spec fn spacing_violations(toks: Seq<Token>, n: int) -> Seq<int>
    decreases n,
{
    if n <= 0 {
        seq![]
    } else if toks[n - 1].kind == TokKind::AssignLeft && !spaced_at(toks, n - 1) {
        spacing_violations(toks, n - 1).push(n - 1)
    } else {
        spacing_violations(toks, n - 1)
    }
}

fn is_single_space(t: &Token) -> (b: bool)
    ensures
        b == single_space(*t),
{
    if t.kind != TokKind::Whitespace {
        return false;
    }
    let s = t.text.as_str();
    let n = s.unicode_len();
    if n != 1 {
        return false;
    }
    let c = s.get_char(0);
    proof {
        if c == ' ' {
            assert(t.text@ =~= seq![' ']);
        }
    }
    c == ' '
}

/// The message of the assignment-spacing rule.
pub open spec fn spacing_message() -> Seq<char> {
    "assignment operator `<-` must be surrounded by single spaces"@
}

/// The flagged indices come in increasing order.
proof fn lemma_violations_increasing(toks: Seq<Token>, n: int)
    ensures
        forall|j: int, k: int|
            0 <= j < k < spacing_violations(toks, n).len() ==> #[trigger] spacing_violations(
                toks,
                n,
            )[j] < #[trigger] spacing_violations(toks, n)[k],
        forall|j: int|
            0 <= j < spacing_violations(toks, n).len() ==> #[trigger] spacing_violations(
                toks,
                n,
            )[j] < n,
    decreases n,
{
    if n > 0 {
        lemma_violations_increasing(toks, n - 1);
        let v = spacing_violations(toks, n - 1);
        let w = spacing_violations(toks, n);
        if w != v {
            assert(w == v.push(n - 1));
            assert forall|j: int| 0 <= j < w.len() implies #[trigger] w[j] < n by {
                if j < v.len() {
                    assert(w[j] == v[j]);
                }
            }
            assert forall|j: int, k: int| 0 <= j < k < w.len() implies #[trigger] w[j]
                < #[trigger] w[k] by {
                assert(w[j] == v[j]);
                if k < v.len() {
                    assert(w[k] == v[k]);
                }
            }
        }
    }
}

/// Each `<-` among the first `n` tokens that lacks a single space on either
/// side is listed.
proof fn lemma_violation_listed(toks: Seq<Token>, n: int, i: int)
    requires
        0 <= i < n <= toks.len(),
        toks[i].kind == TokKind::AssignLeft,
        !spaced_at(toks, i),
    ensures
        exists|j: int| 0 <= j < spacing_violations(toks, n).len() && spacing_violations(toks, n)[j] == i,
    decreases n,
{
    let v = spacing_violations(toks, n - 1);
    if i == n - 1 {
        assert(spacing_violations(toks, n) == v.push(i));
        assert(spacing_violations(toks, n)[v.len() as int] == i);
    } else {
        lemma_violation_listed(toks, n - 1, i);
        let j = choose|j: int| 0 <= j < v.len() && v[j] == i;
        if toks[n - 1].kind == TokKind::AssignLeft && !spaced_at(toks, n - 1) {
            assert(spacing_violations(toks, n)[j] == v.push(n - 1)[j]);
        } else {
            assert(spacing_violations(toks, n) == v);
        }
        assert(spacing_violations(toks, n)[j] == i);
    }
}

/// Only a `<-` that lacks a single space on either side is listed.
proof fn lemma_listed_violation(toks: Seq<Token>, n: int, j: int)
    requires
        0 <= n <= toks.len(),
        0 <= j < spacing_violations(toks, n).len(),
    ensures
        0 <= spacing_violations(toks, n)[j] < n,
        toks[spacing_violations(toks, n)[j]].kind == TokKind::AssignLeft,
        !spaced_at(toks, spacing_violations(toks, n)[j]),
    decreases n,
{
    let v = spacing_violations(toks, n - 1);
    if toks[n - 1].kind == TokKind::AssignLeft && !spaced_at(toks, n - 1) {
        if j < v.len() {
            assert(spacing_violations(toks, n)[j] == v[j]);
            lemma_listed_violation(toks, n - 1, j);
        }
    } else {
        lemma_listed_violation(toks, n - 1, j);
    }
}

/// The assignment-spacing rule flags a `<-` exactly when one of its
/// neighbours is not a single space: a `<-` without a single space right
/// before it, or right after it, has a finding at its position; one with a
/// single space on each side has none (the tokens tiling the text).
pub proof fn law_assignment_spacing(r: Seq<LintDiagnostic>, path: Seq<char>, source: Seq<char>, toks: Seq<Token>, i: int)
    requires
        rule_findings(r, path, source, toks),
        0 <= i < toks.len(),
        toks[i].kind == TokKind::AssignLeft,
    ensures
        !(i > 0 && toks[i - 1].kind == TokKind::Whitespace && toks[i - 1].text@ == seq![' '])
            ==> exists|j: int| 0 <= j < r.len() && finding_at(#[trigger] r[j], path, source, toks[i]),
        !(i + 1 < toks.len() && toks[i + 1].kind == TokKind::Whitespace && toks[i + 1].text@ == seq![' '])
            ==> exists|j: int| 0 <= j < r.len() && finding_at(#[trigger] r[j], path, source, toks[i]),
        (tiles(toks, source, source.len() as int) && i > 0 && toks[i - 1].kind == TokKind::Whitespace
            && toks[i - 1].text@ == seq![' '] && i + 1 < toks.len() && toks[i + 1].kind == TokKind::Whitespace
            && toks[i + 1].text@ == seq![' ']) ==> forall|j: int|
            0 <= j < r.len() ==> (#[trigger] r[j]).start != toks[i].start,
{
    let n = toks.len() as int;
    let v = spacing_violations(toks, n);
    if !spaced_at(toks, i) {
        lemma_violation_listed(toks, n, i);
        let j = choose|j: int| 0 <= j < v.len() && v[j] == i;
        assert(finding_at(r[j], path, source, toks[v[j]]));
    } else {
        if tiles(toks, source, source.len() as int) {
            assert forall|j: int| 0 <= j < r.len() implies (#[trigger] r[j]).start != toks[i].start by {
                lemma_listed_violation(toks, n, j);
                lemma_violations_increasing(toks, n);
                assert(finding_at(r[j], path, source, toks[v[j]]));
                assert(v[j] != i);
                if v[j] < i {
                    lemma_starts_increasing(toks, source, v[j], i);
                } else {
                    lemma_starts_increasing(toks, source, i, v[j]);
                }
            }
        }
    }
}

/// Tokens that tile a text start at increasing positions.
proof fn lemma_starts_increasing(toks: Seq<Token>, input: Seq<char>, a: int, b: int)
    requires
        tiles(toks, input, input.len() as int),
        0 <= a < b < toks.len(),
    ensures
        toks[a].start < toks[b].start,
    decreases b - a,
{
    lemma_tiles_index(toks, input, input.len() as int, a);
    if b > a + 1 {
        lemma_starts_increasing(toks, input, a + 1, b);
    }
}

/// `d` is the assignment-spacing finding for token `t`.
pub(crate) open spec fn flags(d: RuleDiagnostic, t: Token) -> bool {
    &&& d.start == t.start
    &&& d.end == t.end
    &&& d.rule_id@ == ASSIGNMENT_SPACING_RULE_ID@
    &&& d.message@ == spacing_message()
}

/// `out` holds, in order, a finding for each token `toks[v[j]]`, all below
/// `n`.
pub(crate) open spec fn findings_match(out: Seq<RuleDiagnostic>, toks: Seq<Token>, v: Seq<int>, n: int) -> bool {
    &&& out.len() == v.len()
    &&& forall|j: int| 0 <= j < v.len() ==> 0 <= #[trigger] v[j] < n
    &&& forall|j: int| 0 <= j < out.len() ==> flags(#[trigger] out[j], toks[v[j]])
}

/// `out` holds, in order, a finding for each `<-` among the first `n`
/// tokens that is not surrounded by single spaces.
pub(crate) open spec fn spacing_findings(out: Seq<RuleDiagnostic>, toks: Seq<Token>, n: int) -> bool {
    findings_match(out, toks, spacing_violations(toks, n), n)
}

proof fn lemma_findings_same(out: Seq<RuleDiagnostic>, toks: Seq<Token>, n: int)
    requires
        0 <= n < toks.len(),
        spacing_findings(out, toks, n),
        !(toks[n].kind == TokKind::AssignLeft && !spaced_at(toks, n)),
    ensures
        spacing_findings(out, toks, n + 1),
{
    let v = spacing_violations(toks, n);
    assert(spacing_violations(toks, n + 1) == v);
    assert(findings_match(out, toks, v, n + 1));
}

proof fn lemma_findings_push(
    before: Seq<RuleDiagnostic>,
    d: RuleDiagnostic,
    toks: Seq<Token>,
    n: int,
)
    requires
        0 <= n < toks.len(),
        spacing_findings(before, toks, n),
        toks[n].kind == TokKind::AssignLeft && !spaced_at(toks, n),
        flags(d, toks[n]),
    ensures
        spacing_findings(before.push(d), toks, n + 1),
{
    let v = spacing_violations(toks, n);
    assert(spacing_violations(toks, n + 1) == v.push(n));
    let out = before.push(d);
    let w = v.push(n);
    assert forall|j: int| 0 <= j < w.len() implies 0 <= #[trigger] w[j] < n + 1 by {
        if j < v.len() {
            assert(w[j] == v[j]);
        }
    }
    assert forall|j: int| 0 <= j < out.len() implies flags(#[trigger] out[j], toks[w[j]]) by {
        if j < before.len() {
            assert(out[j] == before[j]);
            assert(w[j] == v[j]);
            assert(flags(before[j], toks[v[j]]));
        }
    }
    assert(findings_match(out, toks, w, n + 1));
}

/// Every `<-` that is not surrounded by single spaces, in order.
fn check_assignment_spacing(tokens: &[Token]) -> (out: Vec<RuleDiagnostic>)
    ensures
        spacing_findings(out@, tokens@, tokens@.len() as int),
{
    let mut out: Vec<RuleDiagnostic> = Vec::new();
    let n = tokens.len();
    let mut idx: usize = 0;
    while idx < n
        invariant
            idx <= n == tokens@.len(),
            spacing_findings(out@, tokens@, idx as int),
        decreases n - idx,
    {
        let token = &tokens[idx];
        let left_ok = idx > 0 && is_single_space(&tokens[idx - 1]);
        let right_ok = idx + 1 < n && is_single_space(&tokens[idx + 1]);
        if token.kind != TokKind::AssignLeft || (left_ok && right_ok) {
            proof {
                lemma_findings_same(out@, tokens@, idx as int);
            }
            idx += 1;
            continue ;
        }
        let ghost before = out@;
        let d = RuleDiagnostic {
            rule_id: ASSIGNMENT_SPACING_RULE_ID,
            message: String::from_str("assignment operator `<-` must be surrounded by single spaces"),
            start: token.start,
            end: token.end,
        };
        proof {
            lemma_findings_push(before, d, tokens@, idx as int);
        }
        out.push(d);
        idx += 1;
    }
    out
}

/// `d` is the report of the rule finding at token `t` of the file `path`
/// whose text is `source`.
pub open spec fn finding_at(d: LintDiagnostic, path: Seq<char>, source: Seq<char>, t: Token) -> bool {
    &&& d.path@ == path
    &&& d.rule_id@ == ASSIGNMENT_SPACING_RULE_ID@
    &&& d.message@ == spacing_message()
    &&& d.start == t.start
    &&& d.end == t.end
    &&& (d.line as int, d.column as int) == line_col(source, t.start as int)
}

/// `r` lists, in order, the finding of each `<-` among `toks` that lacks a
/// single space on either side, in the file `path` whose text is `source`;
/// the findings are sorted by where they start.
pub open spec fn rule_findings(r: Seq<LintDiagnostic>, path: Seq<char>, source: Seq<char>, toks: Seq<
    Token,
>) -> bool {
    &&& r.len() == spacing_violations(toks, toks.len() as int).len()
    &&& forall|j: int, k: int| 0 <= j < k < r.len() ==> #[trigger] r[j].start < #[trigger] r[k].start
    &&& forall|j: int|
        0 <= j < r.len() ==> finding_at(
            #[trigger] r[j],
            path,
            source,
            toks[spacing_violations(toks, toks.len() as int)[j]],
        )
}

/// The findings of all rules on the tokens of `source`, in the order of
/// their position, with the file path and the line and column of each.
/// Positions count characters.
pub fn lint_tokens(path: &str, source: &str, tokens: &[Token]) -> (r: Vec<LintDiagnostic>)
    requires
        tiles(tokens@, source@, source@.len() as int),
    ensures
        rule_findings(r@, path@, source@, tokens@),
{
    let chars = chars_of(source);
    let raw = check_assignment_spacing(tokens);
    let ghost viol = spacing_violations(tokens@, tokens@.len() as int);
    let mut out: Vec<LintDiagnostic> = Vec::new();
    let mut j: usize = 0;
    while j < raw.len()
        invariant
            j <= raw@.len() == viol.len(),
            chars@ == source@,
            tiles(tokens@, source@, source@.len() as int),
            viol == spacing_violations(tokens@, tokens@.len() as int),
            spacing_findings(raw@, tokens@, tokens@.len() as int),
            viol.len() == raw@.len(),
            out@.len() == j,
            forall|t: int|
                0 <= t < j ==> finding_at(#[trigger] out@[t], path@, source@, tokens@[viol[t]]),
        decreases raw@.len() - j,
    {
        let d = &raw[j];
        proof {
            assert(0 <= viol[j as int] < tokens@.len());
            assert(flags(raw@[j as int], tokens@[viol[j as int]]));
            lemma_tiles_index(tokens@, source@, source@.len() as int, viol[j as int]);
        }
        let (line, column) = char_offset_to_line_col(chars.as_slice(), d.start);
        out.push(
            LintDiagnostic {
                path: String::from_str(path),
                rule_id: d.rule_id,
                message: d.message.clone(),
                start: d.start,
                end: d.end,
                line,
                column,
            },
        );
        j += 1;
    }
    proof {
        lemma_violations_increasing(tokens@, tokens@.len() as int);
        assert forall|a: int, b: int| 0 <= a < b < out@.len() implies #[trigger] out@[a].start
            < #[trigger] out@[b].start by {
            assert(finding_at(out@[a], path@, source@, tokens@[viol[a]]));
            assert(finding_at(out@[b], path@, source@, tokens@[viol[b]]));
            assert(viol[a] < viol[b]);
            lemma_starts_increasing(tokens@, source@, viol[a], viol[b]);
        }
    }
    out
}

/// The findings of all rules on `source`, lexed here.
pub fn run_rules(path: &str, source: &str) -> (r: Vec<LintDiagnostic>)
    ensures
        exists|toks: Seq<Token>|
            lexes_to(source@, toks) && rule_findings(r@, path@, source@, toks),
{
    let tokens = lex(source);
    lint_tokens(path, source, tokens.as_slice())
}

/// Lint the file `path` whose text is `source` and whose parse reported
/// `parsed`'s diagnostics.
/// What linting the file `path` with text `source` gives, given its parse
/// `parsed`: parse diagnostics are reported by count alone; otherwise the
/// findings of the rules.
pub open spec fn lint_outcome(path: Seq<char>, source: Seq<char>, parsed: ParseOutput, r: LintFileReport) -> bool {
    &&& r.path@ == path
    &&& (parsed.diagnostics@.len() > 0 <==> r.status is ParseDiagnostics)
    &&& (r.status matches LintStatus::ParseDiagnostics { count } ==> count
        == parsed.diagnostics@.len() && r.diagnostics@.len() == 0)
    &&& (r.status matches LintStatus::Findings { count } ==> count == r.diagnostics@.len() > 0)
    &&& (r.status is Clean ==> r.diagnostics@.len() == 0)
    &&& (!(r.status is ParseDiagnostics) ==> exists|toks: Seq<Token>|
        lexes_to(source, toks) && rule_findings(r.diagnostics@, path, source, toks))
}

pub fn lint_parsed(path: &str, source: &str, parsed: &ParseOutput) -> (r: LintFileReport)
    ensures
        lint_outcome(path@, source@, *parsed, r),
{
    let count = parsed.diagnostics.len();
    if count > 0 {
        return LintFileReport {
            path: String::from_str(path),
            status: LintStatus::ParseDiagnostics { count },
            diagnostics: Vec::new(),
        };
    }
    let diagnostics = run_rules(path, source);
    let status = if diagnostics.len() == 0 {
        LintStatus::Clean
    } else {
        LintStatus::Findings { count: diagnostics.len() }
    };
    LintFileReport { path: String::from_str(path), status, diagnostics }
}

/// Lint the file `path` whose text is `source`: see [`lint_parsed`], with
/// the parse of `source`.
pub fn lint_source(path: &str, source: &str) -> (r: LintFileReport)
    ensures
        r.path@ == path@,
        r.status matches LintStatus::Findings { count } ==> count == r.diagnostics@.len() > 0,
        r.status is Clean ==> r.diagnostics@.len() == 0,
        r.status matches LintStatus::ParseDiagnostics { count } ==> count > 0
            && r.diagnostics@.len() == 0,
        !(r.status is ParseDiagnostics) ==> exists|toks: Seq<Token>|
            lexes_to(source@, toks) && rule_findings(
                r.diagnostics@,
                path@,
                source@,
                toks,
            ),
        exists|p: ParseOutput|
            #[trigger] crate::parser::toplevel::parses_to(source@, p) && lint_outcome(path@, source@, p, r),
        crate::parser::toplevel::blank_input(source@) ==> !(r.status is ParseDiagnostics),
{
    let parsed = parse(source);
    lint_parsed(path, source, &parsed)
}

/// All the file reports, with the number of files and of findings.
pub fn summarize(reports: Vec<LintFileReport>) -> (r: LintResult)
    ensures
        r.reports@ == reports@,
        r.checked_files == reports@.len(),
        r.total_findings == total_findings(reports@, reports@.len() as int),
{
    let mut total: usize = 0;
    let mut i: usize = 0;
    while i < reports.len()
        invariant
            i <= reports@.len(),
            total == total_findings(reports@, i as int),
        decreases reports@.len() - i,
    {
        let add = reports[i].diagnostics.len();
        total = total.saturating_add(add);
        i += 1;
    }
    LintResult { checked_files: reports.len(), total_findings: total, reports }
}

/// The findings of the first `n` reports, added up (capped at
/// `usize::MAX`).
pub open spec fn total_findings(reports: Seq<LintFileReport>, n: int) -> int
    decreases n,
{
    if n <= 0 {
        0
    } else {
        let t = total_findings(reports, n - 1) + reports[n - 1].diagnostics@.len();
        if t > usize::MAX {
            usize::MAX as int
        } else {
            t
        }
    }
}

/// How the command line prints a finding:
/// `path:line:column: [rule] message (span start..end)`.
pub open spec fn diagnostic_text(d: LintDiagnostic) -> Seq<char> {
    d.path@ + ":"@ + decimal(d.line as nat) + ":"@ + decimal(d.column as nat) + ": ["@
        + d.rule_id@ + "] "@ + d.message@ + " (span "@ + decimal(d.start as nat) + ".."@
        + decimal(d.end as nat) + ")"@
}

impl LintDiagnostic {
    /// The finding as the command line prints it.
    pub fn to_message(&self) -> (r: String)
        ensures
            r@ == diagnostic_text(*self),
    {
        let mut out = self.path.clone();
        out.append(":");
        out.append(decimal_string(self.line as u64).as_str());
        out.append(":");
        out.append(decimal_string(self.column as u64).as_str());
        out.append(": [");
        out.append(self.rule_id);
        out.append("] ");
        out.append(self.message.as_str());
        out.append(" (span ");
        out.append(decimal_string(self.start as u64).as_str());
        out.append("..");
        out.append(decimal_string(self.end as u64).as_str());
        out.append(")");
        out
    }
}

/// The text of a linting error.
pub open spec fn lint_error_text(e: LintError) -> Seq<char> {
    match e {
        LintError::MissingPaths => "--check requires at least one input path (file or directory)"@,
        LintError::NoRFiles => "no .R files found under the provided input paths"@,
        LintError::NonRFilePath { path } => "input file "@ + path@
            + " is not an .R file; --check only supports .R files"@,
        LintError::WalkError { path, message } => "failed while scanning "@ + path@ + ": "@
            + message@,
        LintError::ReadError { path, source } => "failed to read "@ + path@ + ": "@ + source@,
    }
}

impl LintError {
    /// The text of the error.
    pub fn to_message(&self) -> (r: String)
        ensures
            r@ == lint_error_text(*self),
    {
        match self {
            LintError::MissingPaths => String::from_str(
                "--check requires at least one input path (file or directory)",
            ),
            LintError::NoRFiles => String::from_str(
                "no .R files found under the provided input paths",
            ),
            LintError::NonRFilePath { path } => {
                let mut out = String::from_str("input file ");
                out.append(path.as_str());
                out.append(" is not an .R file; --check only supports .R files");
                out
            },
            LintError::WalkError { path, message } => {
                let mut out = String::from_str("failed while scanning ");
                out.append(path.as_str());
                out.append(": ");
                out.append(message.as_str());
                out
            },
            LintError::ReadError { path, source } => {
                let mut out = String::from_str("failed to read ");
                out.append(path.as_str());
                out.append(": ");
                out.append(source.as_str());
                out
            },
        }
    }
}

impl LintError {
    /// The linting error for a discovery error.
    pub fn from_discovery(value: FileDiscoveryError) -> (r: LintError)
        ensures
            value matches FileDiscoveryError::NonRFilePath { path } ==> r == (LintError::NonRFilePath { path }),
            value matches FileDiscoveryError::WalkError { path, message } ==> r == (LintError::WalkError { path, message }),
    {
        match value {
            FileDiscoveryError::NonRFilePath { path } => LintError::NonRFilePath { path },
            FileDiscoveryError::WalkError { path, message } => LintError::WalkError {
                path,
                message,
            },
        }
    }
}


/// Linting fails when some file has findings or could not be parsed.
pub open spec fn lint_fails(reports: Seq<LintFileReport>) -> bool {
    exists|i: int| 0 <= i < reports.len() && !(#[trigger] reports[i].status is Clean)
}

impl LintResult {
    /// Whether linting fails; see [`lint_fails`].
    pub fn fails(&self) -> (b: bool)
        ensures
            b == lint_fails(self.reports@),
    {
        let mut i: usize = 0;
        while i < self.reports.len()
            invariant
                i <= self.reports@.len(),
                forall|j: int| 0 <= j < i ==> #[trigger] self.reports@[j].status is Clean,
            decreases self.reports@.len() - i,
        {
            match self.reports[i].status {
                LintStatus::Clean => {},
                _ => {
                    return true;
                },
            }
            i += 1;
        }
        false
    }
}

/// How the command line reports a file whose parser diagnostics kept the
/// rules from running: `lint blocked by parse diagnostics: path (n
/// diagnostics)`, singular for one.
pub open spec fn blocked_text(path: Seq<char>, count: nat) -> Seq<char> {
    "lint blocked by parse diagnostics: "@ + path + " ("@ + decimal(count) + " diagnostic"@ + (
    if count == 1 {
        ""@
    } else {
        "s"@
    }) + ")"@
}

/// The message for a file with `count` parser diagnostics; see
/// [`blocked_text`].
pub fn blocked_message(path: &str, count: usize) -> (r: String)
    ensures
        r@ == blocked_text(path@, count as nat),
{
    let mut out = String::from_str("lint blocked by parse diagnostics: ");
    out.append(path);
    out.append(" (");
    out.append(decimal_string(count as u64).as_str());
    out.append(" diagnostic");
    if count != 1 {
        out.append("s");
    }
    out.append(")");
    proof {
        reveal_strlit("");
    }
    out
}

} // verus!
