use poc::plugins::c::{parse_c_errors, parse_cppcheck};
use poc::plugins::go::parse_go_errors;
use poc::plugins::python::{parse_python_lint_output, parse_ruff_json, ruff_diagnostics_of};
use poc::plugins::rust::{cargo_json_line, parse_cargo_diagnostics, parse_cargo_json_diagnostics};
use poc::plugins::typescript::parse_ts_errors;
use poc::plugins::zig::parse_zig_errors;
use poc::types::{LintDiagnostic, Severity};

fn diag(file: &str, line: usize, col: usize, rule: &str, severity: Severity, message: &str) -> (String, usize, usize, String, Severity, String) {
    (file.to_string(), line, col, rule.to_string(), severity, message.to_string())
}

fn key(d: &LintDiagnostic) -> (String, usize, usize, String, Severity, String) {
    (d.file.clone(), d.line, d.col, d.rule.clone(), d.severity, d.message.clone())
}

#[test]
fn c_compiler_errors_and_warnings() {
    let out = "main.c:10:5: error: expected ';' before 'return'\nutil.h:3:1: warning: unused function 'f'\nnote: something else\n";
    let ds = parse_c_errors(out);
    assert_eq!(ds.len(), 2);
    assert_eq!(key(&ds[0]), diag("main.c", 10, 5, "compiler", Severity::Error, "expected ';' before 'return'"));
    assert_eq!(key(&ds[1]), diag("util.h", 3, 1, "compiler", Severity::Warning, "unused function 'f'"));
    assert!(ds[0].suggestion.is_none());
}

#[test]
fn c_output_without_diagnostics() {
    assert!(parse_c_errors("").is_empty());
    assert!(parse_c_errors("make: Nothing to be done for 'all'.").is_empty());
}

#[test]
fn cppcheck_findings_by_severity() {
    let out = "src/a.c:12:3: style: Variable 'x' is never used. [unreadVariable]\n\
               src/b.c:4:9: error: Null pointer dereference [nullPointer]\n\
               src/c.c:1:1: information: Include file not found [missingInclude]\n";
    let ds = parse_cppcheck(out);
    assert_eq!(ds.len(), 3);
    assert_eq!(key(&ds[0]), diag("src/a.c", 12, 3, "unreadVariable", Severity::Info, "Variable 'x' is never used. "));
    assert_eq!(key(&ds[1]), diag("src/b.c", 4, 9, "nullPointer", Severity::Error, "Null pointer dereference "));
    assert_eq!(ds[2].severity, Severity::Hint);
    assert_eq!(ds[2].rule, "missingInclude");
}

#[test]
fn go_errors() {
    let out = "# example\n./main.go:5:2: undefined: foo\n./util.go:12:10: declared and not used: x\n";
    let ds = parse_go_errors(out);
    assert_eq!(ds.len(), 2);
    assert_eq!(key(&ds[0]), diag("./main.go", 5, 2, "go-vet", Severity::Error, "undefined: foo"));
    assert_eq!(key(&ds[1]), diag("./util.go", 12, 10, "go-vet", Severity::Error, "declared and not used: x"));
}

#[test]
fn zig_messages() {
    let out = "src/main.zig:10:5: error: expected type 'u8', found 'i32'\nsrc/main.zig:11:1: note: called from here\nsrc/lib.zig:2:3: warning: unused\n";
    let ds = parse_zig_errors(out);
    assert_eq!(ds.len(), 3);
    assert_eq!(key(&ds[0]), diag("src/main.zig", 10, 5, "compiler", Severity::Error, "expected type 'u8', found 'i32'"));
    assert_eq!(ds[1].severity, Severity::Info);
    assert_eq!(ds[2].severity, Severity::Warning);
}

#[test]
fn typescript_compiler_diagnostics() {
    let out = "src/index.ts(12,7): error TS2322: Type 'string' is not assignable to type 'number'.\n";
    let ds = parse_ts_errors(out);
    assert_eq!(ds.len(), 1);
    assert_eq!(
        key(&ds[0]),
        diag("src/index.ts", 12, 7, "TS2322", Severity::Error, "Type 'string' is not assignable to type 'number'.")
    );
}

#[test]
fn typescript_lint_findings_skip_reported_lines() {
    let out = "src/a.ts(3,1): error TS1005: ';' expected.\n\
               src/a.ts:3:9 - duplicate of the compiler error\n\
               src/b.ts:4:2 - unused variable\n\
               src/b.ts:4:8 - second finding on the same line\n\
               src/c.tsx:7:1 \u{2013} dash of another kind\n";
    let ds = parse_ts_errors(out);
    assert_eq!(ds.len(), 3);
    assert_eq!(key(&ds[0]), diag("src/a.ts", 3, 1, "TS1005", Severity::Error, "';' expected."));
    assert_eq!(key(&ds[1]), diag("src/b.ts", 4, 2, "lint", Severity::Warning, "unused variable"));
    assert_eq!(key(&ds[2]), diag("src/c.tsx", 7, 1, "lint", Severity::Warning, "dash of another kind"));
}

#[test]
fn python_text_findings() {
    let out = "app/main.py:3:1: E302 expected 2 blank lines\napp/util.py:10:80: E501 line too long\n";
    let ds = parse_python_lint_output(out);
    assert_eq!(ds.len(), 2);
    assert_eq!(key(&ds[0]), diag("app/main.py", 3, 1, "E302", Severity::Warning, "expected 2 blank lines"));
    assert_eq!(key(&ds[1]), diag("app/util.py", 10, 80, "E501", Severity::Warning, "line too long"));
}

#[test]
fn ruff_json_items() {
    let out = r#"[{"filename":"a.py","location":{"row":2,"column":5},"code":"F401","message":"`os` imported but unused","fix":{"message":"Remove unused import"}},{"filename":"b.py","location":{"row":7,"column":1},"message":"syntax error"}]"#;
    let ds = parse_ruff_json(out);
    assert_eq!(ds.len(), 2);
    assert_eq!(key(&ds[0]), diag("a.py", 2, 5, "F401", Severity::Warning, "`os` imported but unused"));
    assert_eq!(ds[0].suggestion.as_deref(), Some("Remove unused import"));
    assert_eq!(key(&ds[1]), diag("b.py", 7, 1, "unknown", Severity::Warning, "syntax error"));
    assert!(ds[1].suggestion.is_none());
}

#[test]
fn ruff_output_that_is_not_an_array() {
    assert!(parse_ruff_json("not json").is_empty());
    assert!(parse_ruff_json("{\"a\": 1}").is_empty());
    assert!(parse_ruff_json("[]").is_empty());
}

#[test]
fn cargo_plain_errors() {
    let out = "   Compiling demo v0.1.0\nerror[E0308]: mismatched types\n  --> src/main.rs:4:18\n   |\nerror: cannot find value `y`\n --> src/lib.rs:9:5\n";
    let ds = parse_cargo_diagnostics(out);
    assert_eq!(ds.len(), 2);
    assert_eq!(key(&ds[0]), diag("src/main.rs", 4, 18, "compiler", Severity::Error, "mismatched types"));
    assert_eq!(key(&ds[1]), diag("src/lib.rs", 9, 5, "compiler", Severity::Error, "cannot find value `y`"));
}

#[test]
fn cargo_json_messages() {
    let warn = r#"{"reason":"compiler-message","message":{"message":"unused variable: `x`","code":{"code":"unused_variables"},"level":"warning","spans":[{"file_name":"src/main.rs","line_start":2,"column_start":9}],"children":[{"message":"if this is intentional, prefix it with an underscore"}]}}"#;
    let err = r#"{"reason":"compiler-message","message":{"message":"oops","code":null,"level":"error","spans":[{"file_name":"src/lib.rs","line_start":1,"column_start":1}],"children":[]}}"#;
    let artifact = r#"{"reason":"compiler-artifact","package_id":"demo"}"#;
    let no_span = r#"{"reason":"compiler-message","message":{"message":"aborting","level":"error","spans":[],"children":[]}}"#;
    let out = format!("{warn}\n{artifact}\nplain text line\n{err}\n{no_span}\n");
    let ds = parse_cargo_json_diagnostics(&out);
    assert_eq!(ds.len(), 2);
    assert_eq!(key(&ds[0]), diag("src/main.rs", 2, 9, "unused_variables", Severity::Warning, "unused variable: `x`"));
    assert_eq!(ds[0].suggestion.as_deref(), Some("if this is intentional, prefix it with an underscore"));
    assert_eq!(key(&ds[1]), diag("src/lib.rs", 1, 1, "unknown", Severity::Error, "oops"));
    assert!(ds[1].suggestion.is_none());
    assert!(cargo_json_line(artifact).is_none());
    assert!(cargo_json_line(no_span).is_none());
}

#[test]
fn ruff_items_from_a_parsed_value() {
    let doc: serde_json::Value = serde_json::from_str(r#"[{"filename":"c.py","location":{"row":3,"column":2},"code":"E1","message":"m"}]"#).unwrap();
    let ds = ruff_diagnostics_of(&doc);
    assert_eq!(ds.len(), 1);
    assert_eq!(key(&ds[0]), diag("c.py", 3, 2, "E1", Severity::Warning, "m"));
    let not_array: serde_json::Value = serde_json::from_str("{}").unwrap();
    assert!(ruff_diagnostics_of(&not_array).is_empty());
}

#[test]
fn cargo_outputs_joined_by_a_newline() {
    let a = r#"{"reason":"compiler-message","message":{"message":"one","level":"error","spans":[{"file_name":"a.rs","line_start":1,"column_start":1}]}}"#;
    let b = r#"{"reason":"compiler-message","message":{"message":"two","level":"warning","spans":[{"file_name":"b.rs","line_start":2,"column_start":3}]}}"#;
    let joined = parse_cargo_json_diagnostics(&format!("{a}\n{b}"));
    let first = parse_cargo_json_diagnostics(a);
    let second = parse_cargo_json_diagnostics(b);
    let expect: Vec<_> = first.iter().chain(second.iter()).map(key).collect();
    assert_eq!(joined.iter().map(key).collect::<Vec<_>>(), expect);
    assert_eq!(joined.len(), 2);
    let after_blank = parse_cargo_json_diagnostics(&format!("{a}\n\n{b}"));
    assert_eq!(after_blank.len(), 2);
    let crlf = format!("{a}\r");
    let joined_crlf = parse_cargo_json_diagnostics(&format!("{crlf}\n{b}"));
    let first_crlf = parse_cargo_json_diagnostics(&crlf);
    assert_eq!(first_crlf.len(), 1);
    let expect_crlf: Vec<_> = first_crlf.iter().chain(second.iter()).map(key).collect();
    assert_eq!(joined_crlf.iter().map(key).collect::<Vec<_>>(), expect_crlf);
    assert!(cargo_json_line("\r\r").is_none());
}
