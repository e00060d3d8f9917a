use marisjs::tool::{
    diagnostics_to_result, dispatch, file_read_error, validate_file, validate_source, CheckOutcome,
    Diagnostic, ValidateInput,
};

fn unreadable(path: &str) -> CheckOutcome {
    let _ = path;
    CheckOutcome::Unreadable("No such file or directory (os error 2)".to_string())
}

#[test]
fn test_path_mode_dispatches_to_file_validation() {
    // The path deliberately contains "export " — path mode must validate
    // from disk (a read failure here), never treat the text as source.
    let path = "/nonexistent/export dir/comp.tsx";
    let output = dispatch(ValidateInput::Path { path: path.to_string() }, unreadable(path));
    assert_eq!(output.valid, false);
    let error = output.errors.iter().find(|e| e.code == "PARSE_ERROR").unwrap();
    assert!(
        error.message.contains("Failed to read"),
        "path mode must attempt a FILE read, got: {}",
        error.message
    );
}

#[test]
fn test_parse_error_output_shape() {
    let result = validate_file("/nonexistent/path.tsx", unreadable("/nonexistent/path.tsx"));
    assert!(!result.valid);
    let error = &result.errors[0];
    assert_eq!(error.code, "PARSE_ERROR");
    assert!(error.line.is_none());
    assert!(error.column.is_none());
    assert!(!error.message.is_empty());
    assert!(!error.fix_hint.is_empty());
}

fn diag(code: &str, warning: bool, line: Option<usize>) -> Diagnostic {
    Diagnostic {
        line,
        column: line.map(|_| 0),
        code: code.to_string(),
        message: format!("{} happened", code),
        fix_hint: "Add the thing".to_string(),
        is_warning: warning,
    }
}

#[test]
fn read_error_message_names_the_path() {
    assert_eq!(file_read_error("/a/b.tsx", "gone"), "Failed to read '/a/b.tsx': gone");
    let r = validate_file("/a/b.tsx", CheckOutcome::Unreadable("gone".to_string()));
    assert_eq!(r.errors.len(), 1);
    assert_eq!(r.errors[0].message, "Failed to read '/a/b.tsx': gone");
    assert_eq!(r.errors[0].fix_hint, "Check that the file exists and contains valid TypeScript/TSX.");
    assert!(r.warnings.is_empty());
}

#[test]
fn unparsable_file_and_source_report_parse_error() {
    let r = validate_file("x.tsx", CheckOutcome::Unparsable("Unexpected token".to_string()));
    assert_eq!(r.errors[0].message, "Failed to parse 'x.tsx': Unexpected token");
    let s = validate_source(CheckOutcome::Unparsable("Unexpected token".to_string()));
    assert!(!s.valid);
    assert_eq!(s.errors[0].code, "PARSE_ERROR");
    assert_eq!(s.errors[0].message, "Failed to parse 'inline.tsx': Unexpected token");
    assert_eq!(s.errors[0].fix_hint, "Check the source code for syntax errors.");
}

#[test]
fn warnings_alone_keep_the_result_valid() {
    let r = diagnostics_to_result(vec![diag("CSS_NOTE", true, Some(3))]);
    assert!(r.valid);
    assert!(r.errors.is_empty());
    assert_eq!(r.warnings.len(), 1);
    assert_eq!(r.warnings[0].code, "CSS_NOTE");
    assert_eq!(r.warnings[0].line, Some(3));
}

#[test]
fn errors_and_warnings_are_split_in_order() {
    let r = diagnostics_to_result(vec![
        diag("MISSING_RUNSON", false, None),
        diag("W_ONE", true, Some(1)),
        diag("FORBIDDEN_IMPORT", false, Some(2)),
        diag("W_TWO", true, None),
    ]);
    assert!(!r.valid);
    let codes: Vec<&str> = r.errors.iter().map(|e| e.code.as_str()).collect();
    assert_eq!(codes, vec!["MISSING_RUNSON", "FORBIDDEN_IMPORT"]);
    let wcodes: Vec<&str> = r.warnings.iter().map(|e| e.code.as_str()).collect();
    assert_eq!(wcodes, vec!["W_ONE", "W_TWO"]);
    assert_eq!(r.errors[1].line, Some(2));
    assert_eq!(r.errors[1].column, Some(0));
    assert_eq!(r.errors[0].message, "MISSING_RUNSON happened");
}

#[test]
fn source_mode_uses_the_checked_findings() {
    let r = dispatch(
        ValidateInput::Source { source: "type P = {};".to_string() },
        CheckOutcome::Checked(vec![diag("MISSING_RUNSON", false, None)]),
    );
    assert!(!r.valid);
    assert_eq!(r.errors[0].code, "MISSING_RUNSON");
    assert!(!r.errors.iter().any(|e| e.code == "PARSE_ERROR"));
}
