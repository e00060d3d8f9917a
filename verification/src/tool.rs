//! The validation tool's result shaping: diagnostics become the
//! `{ valid, errors, warnings }` object shared by the CLI `validate`
//! command and the tool server, and a file that cannot be read or parsed
//! becomes one `PARSE_ERROR`.

use vstd::prelude::*;
use crate::text::{owned, push_str};

verus! {

/// What the caller asks to validate: a file on disk, or source text.
pub enum ValidateInput {
    Path { path: String },
    Source { source: String },
}

/// One finding of the validator.
pub struct Diagnostic {
    pub line: Option<usize>,
    pub column: Option<usize>,
    pub code: String,
    pub message: String,
    pub fix_hint: String,
    pub is_warning: bool,
}

/// One reported error or warning.
pub struct ErrorInfo {
    pub line: Option<usize>,
    pub column: Option<usize>,
    pub code: String,
    pub message: String,
    pub fix_hint: String,
}

/// The tool's answer: valid when there is no error.
pub struct ValidateResult {
    pub valid: bool,
    pub errors: Vec<ErrorInfo>,
    pub warnings: Vec<ErrorInfo>,
}

/// What reading, parsing and validating the input came to.
pub enum CheckOutcome {
    /// The file could not be read; the reason the system gave.
    Unreadable(String),
    /// The text is no valid TypeScript/TSX; the parser's account.
    Unparsable(String),
    /// The validator's findings.
    Checked(Vec<Diagnostic>),
}

/// An error or warning as values: line, column, code, message, hint.
pub type InfoView = (Option<usize>, Option<usize>, Seq<char>, Seq<char>, Seq<char>);

pub open spec fn info_view(e: ErrorInfo) -> InfoView {
    (e.line, e.column, e.code@, e.message@, e.fix_hint@)
}

pub open spec fn infos_view(v: Seq<ErrorInfo>) -> Seq<InfoView> {
    v.map_values(|e: ErrorInfo| info_view(e))
}

pub open spec fn diag_view(d: Diagnostic) -> InfoView {
    (d.line, d.column, d.code@, d.message@, d.fix_hint@)
}

/// The findings of one kind (warnings or errors), in order.
pub open spec fn of_kind(ds: Seq<Diagnostic>, warning: bool) -> Seq<InfoView>
    decreases ds.len(),
{
    if ds.len() == 0 {
        seq![]
    } else {
        of_kind(ds.drop_last(), warning) + if ds.last().is_warning == warning {
            seq![diag_view(ds.last())]
        } else {
            Seq::<InfoView>::empty()
        }
    }
}

fn info_of(d: &Diagnostic) -> (r: ErrorInfo)
    ensures
        info_view(r) == diag_view(*d),
{
    ErrorInfo {
        line: d.line,
        column: d.column,
        code: d.code.clone(),
        message: d.message.clone(),
        fix_hint: d.fix_hint.clone(),
    }
}

/// Splits the findings into errors and warnings (order kept); valid when
/// there is no error.
pub fn diagnostics_to_result(diagnostics: Vec<Diagnostic>) -> (r: ValidateResult)
    ensures
        infos_view(r.errors@) == of_kind(diagnostics@, false),
        infos_view(r.warnings@) == of_kind(diagnostics@, true),
        r.valid == (r.errors@.len() == 0),
{
    let mut errors: Vec<ErrorInfo> = Vec::new();
    let mut warnings: Vec<ErrorInfo> = Vec::new();
    for i in 0..diagnostics.len()
        invariant
            infos_view(errors@) == of_kind(diagnostics@.take(i as int), false),
            infos_view(warnings@) == of_kind(diagnostics@.take(i as int), true),
    {
        assert(diagnostics@.take(i + 1).drop_last() =~= diagnostics@.take(i as int));
        assert(diagnostics@.take(i + 1).last() == diagnostics@[i as int]);
        let d = &diagnostics[i];
        let info = info_of(d);
        if d.is_warning {
            let ghost b = warnings@;
            warnings.push(info);
            assert(infos_view(warnings@) =~= infos_view(b).push(info_view(info)));
        } else {
            let ghost b = errors@;
            errors.push(info);
            assert(infos_view(errors@) =~= infos_view(b).push(info_view(info)));
        }
    }
    assert(diagnostics@.take(diagnostics@.len() as int) =~= diagnostics@);
    let valid = errors.len() == 0;
    ValidateResult { valid, errors, warnings }
}

/// The result of an input that never reached the validator: invalid, one
/// `PARSE_ERROR` without position, no warnings.
pub open spec fn parse_failure(r: ValidateResult, message: Seq<char>, hint: Seq<char>) -> bool {
    &&& !r.valid
    &&& infos_view(r.errors@) == seq![(None::<usize>, None::<usize>, "PARSE_ERROR"@, message, hint)]
    &&& r.warnings@.len() == 0
}

fn failed(message: String, hint: &str) -> (r: ValidateResult)
    ensures
        parse_failure(r, message@, hint@),
{
    let mut errors: Vec<ErrorInfo> = Vec::new();
    let e = ErrorInfo {
        line: None,
        column: None,
        code: owned("PARSE_ERROR"),
        message,
        fix_hint: owned(hint),
    };
    errors.push(e);
    assert(infos_view(errors@) =~= seq![info_view(e)]);
    ValidateResult { valid: false, errors, warnings: Vec::new() }
}

/// The account of a file that could not be read.
pub open spec fn read_failure_message(path: Seq<char>, reason: Seq<char>) -> Seq<char> {
    "Failed to read '"@ + path + "': "@ + reason
}

/// The account of a text that could not be parsed.
pub open spec fn parse_failure_message(name: Seq<char>, detail: Seq<char>) -> Seq<char> {
    "Failed to parse '"@ + name + "': "@ + detail
}

pub fn file_read_error(path: &str, reason: &str) -> (r: String)
    ensures
        r@ == read_failure_message(path@, reason@),
{
    let mut m = owned("Failed to read '");
    push_str(&mut m, path);
    push_str(&mut m, "': ");
    push_str(&mut m, reason);
    m
}

pub fn file_parse_error(name: &str, detail: &str) -> (r: String)
    ensures
        r@ == parse_failure_message(name@, detail@),
{
    let mut m = owned("Failed to parse '");
    push_str(&mut m, name);
    push_str(&mut m, "': ");
    push_str(&mut m, detail);
    m
}

/// The tool's answer for a file, from what reading, parsing and validating
/// it came to.
pub open spec fn file_result(r: ValidateResult, path: Seq<char>, outcome: CheckOutcome) -> bool {
    let hint = "Check that the file exists and contains valid TypeScript/TSX."@;
    match outcome {
        CheckOutcome::Unreadable(reason) => parse_failure(
            r,
            read_failure_message(path, reason@),
            hint,
        ),
        CheckOutcome::Unparsable(detail) => parse_failure(
            r,
            parse_failure_message(path, detail@),
            hint,
        ),
        CheckOutcome::Checked(ds) => infos_view(r.errors@) == of_kind(ds@, false) && infos_view(
            r.warnings@,
        ) == of_kind(ds@, true) && r.valid == (r.errors@.len() == 0),
    }
}

/// The tool's answer for source text (reported as `inline.tsx`).
pub open spec fn source_result(r: ValidateResult, outcome: CheckOutcome) -> bool {
    let hint = "Check the source code for syntax errors."@;
    match outcome {
        CheckOutcome::Unreadable(reason) => parse_failure(r, reason@, hint),
        CheckOutcome::Unparsable(detail) => parse_failure(
            r,
            parse_failure_message("inline.tsx"@, detail@),
            hint,
        ),
        CheckOutcome::Checked(ds) => infos_view(r.errors@) == of_kind(ds@, false) && infos_view(
            r.warnings@,
        ) == of_kind(ds@, true) && r.valid == (r.errors@.len() == 0),
    }
}

/// Validation of a file on disk.
pub fn validate_file(path: &str, outcome: CheckOutcome) -> (r: ValidateResult)
    ensures
        file_result(r, path@, outcome),
{
    let hint = "Check that the file exists and contains valid TypeScript/TSX.";
    match outcome {
        CheckOutcome::Unreadable(reason) => failed(file_read_error(path, reason.as_str()), hint),
        CheckOutcome::Unparsable(detail) => failed(file_parse_error(path, detail.as_str()), hint),
        CheckOutcome::Checked(ds) => diagnostics_to_result(ds),
    }
}

/// Validation of source text, reported under the name `inline.tsx`.
pub fn validate_source(outcome: CheckOutcome) -> (r: ValidateResult)
    ensures
        source_result(r, outcome),
{
    let hint = "Check the source code for syntax errors.";
    match outcome {
        CheckOutcome::Unreadable(reason) => failed(reason, hint),
        CheckOutcome::Unparsable(detail) => failed(file_parse_error("inline.tsx", detail.as_str()), hint),
        CheckOutcome::Checked(ds) => diagnostics_to_result(ds),
    }
}

/// Dispatch on the explicit input: a path is validated as a file, source
/// text as source, never guessed from the content.
pub fn dispatch(input: ValidateInput, outcome: CheckOutcome) -> (r: ValidateResult)
    ensures
        match input {
            ValidateInput::Path { path } => file_result(r, path@, outcome),
            ValidateInput::Source { .. } => source_result(r, outcome),
        },
{
    match input {
        ValidateInput::Path { path } => validate_file(path.as_str(), outcome),
        ValidateInput::Source { source } => validate_source(outcome),
    }
}

} // verus!
