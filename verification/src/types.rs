use vstd::prelude::*;

verus! {

/// How serious a diagnostic is.
#[derive(Clone, Copy, Debug, PartialEq, Eq, Structural)]
pub enum Severity {
    Error,
    Warning,
    Info,
    Hint,
}

impl Severity {
    /// The lowercase name of the severity.
    pub fn as_str(&self) -> (r: &'static str)
        ensures
            r@ == self.spec_name(),
    {
        match self {
            Severity::Error => "error",
            Severity::Warning => "warning",
            Severity::Info => "info",
            Severity::Hint => "hint",
        }
    }

    pub open spec fn spec_name(&self) -> Seq<char> {
        match self {
            Severity::Error => "error"@,
            Severity::Warning => "warning"@,
            Severity::Info => "info"@,
            Severity::Hint => "hint"@,
        }
    }
}

/// One finding of a compiler or linter, located in a file.
#[derive(Debug)]
pub struct LintDiagnostic {
    pub file: String,
    pub line: usize,
    pub col: usize,
    pub rule: String,
    pub severity: Severity,
    pub message: String,
    pub suggestion: Option<String>,
}

/// What a diagnostic says, as plain values.
pub struct DiagnosticView {
    pub file: Seq<char>,
    pub line: usize,
    pub col: usize,
    pub rule: Seq<char>,
    pub severity: Severity,
    pub message: Seq<char>,
    pub suggestion: Option<Seq<char>>,
}

impl View for LintDiagnostic {
    type V = DiagnosticView;

    open spec fn view(&self) -> DiagnosticView {
        DiagnosticView {
            file: self.file@,
            line: self.line,
            col: self.col,
            rule: self.rule@,
            severity: self.severity,
            message: self.message@,
            suggestion: match self.suggestion {
                Some(s) => Some(s@),
                None => None,
            },
        }
    }
}

/// The views of a sequence of diagnostics.
pub open spec fn diagnostic_views(v: Seq<LintDiagnostic>) -> Seq<DiagnosticView> {
    v.map_values(|d: LintDiagnostic| d@)
}

/// A copy of an optional string.
pub fn clone_opt_string(o: &Option<String>) -> (r: Option<String>)
    ensures
        r == *o,
{
    match o {
        Some(s) => Some(s.clone()),
        None => None,
    }
}

impl Clone for LintDiagnostic {
    fn clone(&self) -> (r: Self)
        ensures
            r == *self,
    {
        LintDiagnostic {
            file: self.file.clone(),
            line: self.line,
            col: self.col,
            rule: self.rule.clone(),
            severity: self.severity,
            message: self.message.clone(),
            suggestion: clone_opt_string(&self.suggestion),
        }
    }
}

/// The outcome of building one project.
#[derive(Debug)]
pub struct BuildResult {
    pub success: bool,
    pub output: String,
    pub errors: Vec<LintDiagnostic>,
}

/// The outcome of linting one project.
#[derive(Debug)]
pub struct LintResult {
    pub success: bool,
    pub diagnostics: Vec<LintDiagnostic>,
}

/// The languages a project can be written in.
#[derive(Clone, Copy, Debug, PartialEq, Eq, Hash, Structural)]
pub enum Language {
    Rust,
    Go,
    TypeScript,
    C,
    Python,
    Zig,
}

impl Language {
    /// The lowercase name of the language, as it is shown and filtered on.
    pub fn as_str(&self) -> (r: &'static str)
        ensures
            r@ == self.spec_name(),
    {
        match self {
            Language::Rust => "rust",
            Language::Go => "go",
            Language::TypeScript => "typescript",
            Language::C => "c",
            Language::Python => "python",
            Language::Zig => "zig",
        }
    }

    pub open spec fn spec_name(&self) -> Seq<char> {
        match self {
            Language::Rust => "rust"@,
            Language::Go => "go"@,
            Language::TypeScript => "typescript"@,
            Language::C => "c"@,
            Language::Python => "python"@,
            Language::Zig => "zig"@,
        }
    }
}

/// A project found on disk: its directory and its language.
#[derive(Debug)]
pub struct DetectedProject {
    pub path: String,
    pub language: Language,
}

impl Clone for DetectedProject {
    fn clone(&self) -> (r: Self)
        ensures
            r == *self,
    {
        DetectedProject { path: self.path.clone(), language: self.language }
    }
}

/// What a build is asked to do besides compiling.
#[derive(Clone, Copy, Debug)]
pub struct BuildOpts {
    pub release: bool,
    pub test: bool,
    pub run: bool,
}

/// What a lint run is asked to do.
#[derive(Clone, Copy, Debug)]
pub struct LintOpts {
    pub fix: bool,
}

} // verus!
