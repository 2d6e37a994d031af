use poc::ai::{
    anthropic_answer, apply_answer, apply_context_fix, apply_diff, apply_hunk, build_prompt, detect_language, error_count, extract_context,
    judge_fix, ollama_answer, ollama_url, openai_answer, openai_url, provider_for, resolve_in_project, summarize,
    try_apply_unified_diff, AiFixer, FixAction, FixEvent, FixOutcome, FixReport, HunkOp, ManifestPresence, Provider, ReplyError,
    ANTHROPIC_URL, CONTEXT_RADIUS,
};
use poc::config::AiConfig;
use poc::types::{BuildResult, Language, LintDiagnostic, LintResult, Severity};

fn strings(v: &[&str]) -> Vec<String> {
    v.iter().map(|s| s.to_string()).collect()
}

fn ops(v: &[(HunkOp, &str)]) -> Vec<(HunkOp, String)> {
    v.iter().map(|(k, s)| (*k, s.to_string())).collect()
}

fn diag(suggestion: Option<&str>) -> LintDiagnostic {
    LintDiagnostic {
        file: "src/main.rs".to_string(),
        line: 2,
        col: 9,
        rule: "unused_variables".to_string(),
        severity: Severity::Warning,
        message: "unused variable".to_string(),
        suggestion: suggestion.map(|s| s.to_string()),
    }
}

fn no_manifest() -> ManifestPresence {
    ManifestPresence {
        cargo_toml: false,
        go_mod: false,
        package_json: false,
        cmake_lists: false,
        makefile: false,
        pyproject_toml: false,
        build_zig: false,
    }
}

#[test]
fn context_window_around_a_line() {
    let source = "l1\nl2\nl3\nl4\nl5";
    assert_eq!(extract_context(source, 3, 1), "l2\nl3\nl4");
    assert_eq!(extract_context(source, 1, 10), "l1\nl2\nl3\nl4\nl5");
    assert_eq!(CONTEXT_RADIUS, 10);
}

#[test]
fn fix_in_context_replaces_the_window() {
    let source = "l1\nl2\nl3\nl4\nl5";
    assert_eq!(apply_context_fix(source, 3, 1, "X\nY"), "l1\nX\nY\nl5");
    assert_eq!(apply_context_fix(source, 5, 1, "Z"), "l1\nl2\nl3\nZ");
}

#[test]
fn putting_the_context_back_changes_nothing() {
    let source = "fn main() {\n    let x = 1;\n    println!(\"{x}\");\n}";
    let ctx = extract_context(source, 2, CONTEXT_RADIUS);
    assert_eq!(apply_context_fix(source, 2, CONTEXT_RADIUS, &ctx), source);
}

#[test]
fn unified_diff_applies_its_hunks() {
    let source = "a\nb\nc\nd";
    let diff = "--- a/f\n+++ b/f\n@@ -2,1 +2,1 @@\n-b\n+B\n@@ -4,1 +4,2 @@\n-d\n+D\n+E\n";
    assert_eq!(try_apply_unified_diff(source, diff).as_deref(), Some("a\nB\nc\nD\nE"));
}

#[test]
fn diff_without_hunks_does_not_apply() {
    assert_eq!(try_apply_unified_diff("a\nb", "--- a/f\n+++ b/f\n"), None);
    assert_eq!(try_apply_unified_diff("a\nb", "@@ nonsense\n-a\n"), None);
}

#[test]
fn a_hunk_moves_later_hunks() {
    let mut lines = strings(&["a", "b", "c"]);
    let mut offset: isize = 0;
    apply_hunk(&mut lines, 0, &mut offset, &ops(&[(HunkOp::Remove, "a"), (HunkOp::Add, "x"), (HunkOp::Add, "y")]));
    assert_eq!(lines, strings(&["x", "y", "b", "c"]));
    assert_eq!(offset, 1);
    apply_hunk(&mut lines, 1, &mut offset, &ops(&[(HunkOp::Keep, "b"), (HunkOp::Remove, "c")]));
    assert_eq!(lines, strings(&["x", "y", "b"]));
    assert_eq!(offset, 0);
    apply_hunk(&mut lines, 2, &mut offset, &ops(&[(HunkOp::Remove, "p"), (HunkOp::Remove, "q"), (HunkOp::Add, "r")]));
    assert_eq!(lines, strings(&["x", "y", "b"]));
    assert_eq!(offset, 0);
}

#[test]
fn a_hunk_whose_context_differs_is_not_applied() {
    let mut lines = strings(&["a", "b", "c"]);
    let mut offset: isize = 0;
    apply_hunk(&mut lines, 0, &mut offset, &ops(&[(HunkOp::Keep, "z"), (HunkOp::Remove, "b"), (HunkOp::Add, "B")]));
    assert_eq!(lines, strings(&["a", "b", "c"]));
    assert_eq!(offset, 0);
}

#[test]
fn context_lines_place_the_change() {
    let diff = "--- a/f\n+++ b/f\n@@ -1,3 +1,3 @@\n a\n-b\n+B\n c";
    assert_eq!(try_apply_unified_diff("a\nb\nc", diff).as_deref(), Some("a\nB\nc"));
    let pure_addition = "@@ -2,0 +2,1 @@\n+new\n";
    assert_eq!(try_apply_unified_diff("one\ntwo", pure_addition).as_deref(), Some("one\nnew\ntwo"));
    let empty_context = "@@ -1,3 +1,3 @@\n a\n\n-c\n+C\n";
    assert_eq!(try_apply_unified_diff("a\n\nc", empty_context).as_deref(), Some("a\n\nC"));
}

#[test]
fn hunk_starting_before_the_first_line_is_skipped() {
    let diff = "@@ -1 +1 @@\n-a\n-b\n-c\n@@ -1 +1 @@\n-d";
    assert_eq!(try_apply_unified_diff("a\nb\nc\nd", diff).as_deref(), Some("d"));
}

#[test]
fn answers_that_cannot_be_applied() {
    let source = "l1\nl2";
    assert_eq!(apply_answer(source, "fixed", 1, 0).as_deref(), Some("fixed\nl2"));
    assert_eq!(apply_answer(source, "fixed", 9, 0), None);
    let diff = "--- a\n+++ b\n@@ -1 +1 @@\n-l1\n+L1\n";
    assert_eq!(apply_answer(source, diff, 9, 0).as_deref(), Some("L1\nl2"));
    assert_eq!(apply_diff(source, diff, 9, 0), "L1\nl2");
}

#[test]
fn answer_applied_as_diff_or_in_context() {
    let source = "l1\nl2\nl3";
    assert_eq!(apply_diff(source, "--- a\n+++ b\n@@ -1 +1 @@\n-l1\n+L1\n", 2, 1), "L1\nl2\nl3");
    assert_eq!(apply_diff(source, "fixed", 2, 0), "l1\nfixed\nl3");
}

#[test]
fn errors_counted_before_and_after() {
    let failed_silently = BuildResult { success: false, output: String::new(), errors: vec![] };
    let lint = LintResult { success: false, diagnostics: vec![diag(None), diag(None)] };
    assert_eq!(error_count(Some(&failed_silently), Some(&lint)), 3);
    assert_eq!(error_count(None, Some(&lint)), 2);
    assert_eq!(error_count(None, None), 0);
    let built = BuildResult { success: true, output: String::new(), errors: vec![] };
    assert_eq!(error_count(Some(&built), None), 0);
}

#[test]
fn fix_kept_only_when_errors_drop() {
    assert_eq!(judge_fix(5, 3), FixOutcome::Applied);
    assert_eq!(judge_fix(3, 3), FixOutcome::RolledBack);
    assert_eq!(judge_fix(1, 4), FixOutcome::RolledBack);
}

#[test]
fn session_report_and_actions() {
    let mut report = FixReport::new();
    assert_eq!(report.step(FixEvent::Checked { before: 5, after: 3 }), FixAction::Keep);
    assert_eq!(report.step(FixEvent::Checked { before: 3, after: 3 }), FixAction::Restore);
    assert_eq!(report.step(FixEvent::Unreadable), FixAction::Keep);
    assert_eq!(report.step(FixEvent::NoAnswer), FixAction::Keep);
    assert_eq!((report.fixed, report.rolled_back, report.failed), (1, 1, 2));
    let r = summarize(&vec![FixOutcome::Applied, FixOutcome::Failed, FixOutcome::Applied]);
    assert_eq!((r.fixed, r.rolled_back, r.failed), (2, 0, 1));
}

#[test]
fn language_of_a_project_directory() {
    let mut m = no_manifest();
    assert_eq!(detect_language(&m, ""), Language::C);
    assert_eq!(detect_language(&m, "tsx"), Language::TypeScript);
    m.pyproject_toml = true;
    assert_eq!(detect_language(&m, "rs"), Language::Python);
    m.go_mod = true;
    assert_eq!(detect_language(&m, ""), Language::Go);
}

#[test]
fn providers_and_urls() {
    assert_eq!(provider_for("anthropic"), Provider::Anthropic);
    assert_eq!(provider_for("ollama"), Provider::Ollama);
    assert_eq!(provider_for("openai"), Provider::OpenAiCompatible);
    assert_eq!(ollama_url("http://localhost:11434"), "http://localhost:11434/api/generate");
    assert_eq!(openai_url("https://api.example.com"), "https://api.example.com/v1/chat/completions");
}

#[test]
fn prompt_for_a_diagnostic() {
    let p = build_prompt("src/main.rs", "let x = 1;", &diag(Some("prefix with _")));
    assert_eq!(
        p,
        "Fix this error in `src/main.rs`.\n\nError: unused variable [unused_variables] at line 2:9\nprefix with _\n\nCode context:\n```\nlet x = 1;\n```\n\nReturn a unified diff (--- a/file, +++ b/file, @@ hunks) for the fix. If you cannot produce a valid diff, return ONLY the fixed code for the context shown. No explanations."
    );
    let p = build_prompt("f", "c", &diag(None));
    assert!(p.contains("at line 2:9\n\n\nCode context"));
}

#[test]
fn answers_read_from_replies() {
    assert_eq!(ollama_answer(r#"{"response":"  fixed code \n"}"#), Ok("fixed code".to_string()));
    assert_eq!(ollama_answer(r#"{"done":true}"#), Err(ReplyError::NoText));
    assert_eq!(anthropic_answer(r#"{"content":[{"type":"text","text":"diff here"}]}"#), Ok("diff here".to_string()));
    assert_eq!(anthropic_answer(r#"{"content":[]}"#), Err(ReplyError::NoText));
    assert_eq!(openai_answer(r#"{"choices":[{"message":{"content":" ok "}}]}"#), Ok("ok".to_string()));
    assert_eq!(openai_answer("<html>"), Err(ReplyError::NotJson));
}

#[test]
fn fixer_settings_and_requests() {
    let fixer = AiFixer::new(AiConfig::default());
    let req = fixer.fix_request("f.rs", "ctx", &diag(None));
    assert_eq!(req.provider, Provider::Ollama);
    assert_eq!(req.url, "http://0.0.0.0:11434/api/generate");
    assert_eq!(req.prompt, build_prompt("f.rs", "ctx", &diag(None)));
    let fixer = fixer.with_overrides(Some("anthropic"), Some("mistral"));
    assert_eq!(fixer.config.model, "mistral");
    assert_eq!(fixer.config.endpoint, "http://0.0.0.0:11434");
    let req = fixer.fix_request("f.rs", "ctx", &diag(None));
    assert_eq!(req.provider, Provider::Anthropic);
    assert_eq!(req.url, ANTHROPIC_URL);
    let fixer = fixer.with_overrides(None, None);
    assert_eq!(fixer.config.provider, "anthropic");
}

#[test]
fn files_resolved_in_their_project() {
    assert_eq!(resolve_in_project("/w/a", "src/x.rs"), "/w/a/src/x.rs");
    assert_eq!(resolve_in_project("/w/a/", "src/x.rs"), "/w/a/src/x.rs");
    assert_eq!(resolve_in_project("/w/a", "/abs/y.rs"), "/abs/y.rs");
}

#[test]
fn blank_context_line_is_lost_when_put_back() {
    let source = "a\n\nb";
    let ctx = extract_context(source, 2, 0);
    assert_eq!(ctx, "");
    assert_eq!(apply_context_fix(source, 2, 0, &ctx), "a\nb");
}

#[test]
fn crlf_text_comes_back_with_plain_newlines() {
    let source = "one\r\ntwo\r\nthree\r\n";
    let ctx = extract_context(source, 2, 1);
    assert_eq!(ctx, "one\ntwo\nthree");
    assert_eq!(apply_context_fix(source, 2, 1, &ctx), "one\ntwo\nthree");
}
