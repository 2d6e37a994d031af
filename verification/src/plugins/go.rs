use vstd::prelude::*;
use crate::pattern::{captures_all, check_well_formed, group, group_number, group_string, number_or_zero, regex_captures, well_formed};
use crate::plugins::{Plugin, assemble_build, build_outcome, command, str_views, CommandSpec, ProcessOutput, Stream};
use crate::types::{diagnostic_views, BuildOpts, BuildResult, DiagnosticView, Language, LintDiagnostic, LintResult, Severity};

verus! {

/// Builds Go modules with the `go` tool.
#[derive(Clone, Copy, Debug)]
pub struct GoPlugin;

impl Plugin for GoPlugin {
    open spec fn handles(&self) -> Language {
        Language::Go
    }

    fn language(&self) -> (r: Language) {
        Language::Go
    }
}

impl GoPlugin {
    /// `go build -o <output> [-ldflags "-s -w"] ./...`, the binary written
    /// to `output` (the project's `build/main`).
    pub fn build_command(&self, output: &str, opts: &BuildOpts) -> (r: CommandSpec)
        ensures
            r@ == ("go"@, seq!["build"@, "-o"@, output@] + (if opts.release { seq!["-ldflags"@, "-s -w"@] } else { seq![] }) + seq!["./..."@]),
    {
        let r = if opts.release {
            command("go", &["build", "-o", output, "-ldflags", "-s -w", "./..."])
        } else {
            command("go", &["build", "-o", output, "./..."])
        };
        assert(r@.1 =~= seq!["build"@, "-o"@, output@] + (if opts.release { seq!["-ldflags"@, "-s -w"@] } else { seq![] }) + seq!["./..."@]);
        r
    }

    /// `go test ./...`.
    pub fn test_command(&self) -> (r: CommandSpec)
        ensures
            r@ == ("go"@, seq!["test"@, "./..."@]),
    {
        let r = command("go", &["test", "./..."]);
        assert(r@.1 =~= seq!["test"@, "./..."@]);
        r
    }

    /// `go vet ./...`.
    pub fn vet_command(&self) -> (r: CommandSpec)
        ensures
            r@ == ("go"@, seq!["vet"@, "./..."@]),
    {
        let r = command("go", &["vet", "./..."]);
        assert(r@.1 =~= seq!["vet"@, "./..."@]);
        r
    }

    /// `staticcheck ./...`.
    pub fn staticcheck_command(&self) -> (r: CommandSpec)
        ensures
            r@ == ("staticcheck"@, seq!["./..."@]),
    {
        let r = command("staticcheck", &["./..."]);
        assert(r@.1 =~= seq!["./..."@]);
        r
    }

    /// `go clean`.
    pub fn clean_command(&self) -> (r: CommandSpec)
        ensures
            r@ == ("go"@, seq!["clean"@]),
    {
        let r = command("go", &["clean"]);
        assert(r@.1 =~= seq!["clean"@]);
        r
    }

    /// The build result: the diagnostics of the build's standard error, and
    /// the outcome of the tests (their standard error) or of the run (its
    /// standard output) when one followed, else of the build.
    pub fn finish_build(&self, opts: &BuildOpts, main: &ProcessOutput, follow: Option<&ProcessOutput>) -> (r: BuildResult)
        ensures
            diagnostic_views(r.errors@) == spec_parse_go_errors(main.stderr@),
            (r.success, r.output@) == build_outcome(*opts, *main, match follow { Some(f) => Some(*f), None => None }, main.stderr@, Stream::Stderr, Stream::Stdout),
    {
        let errors = parse_go_errors(main.stderr.as_str());
        assemble_build(opts, main, follow, main.stderr.clone(), Stream::Stderr, Stream::Stdout, errors)
    }

    /// The lint result: the diagnostics of `go vet`'s standard error, then
    /// those of `staticcheck`'s standard output when it ran; a success when
    /// `go vet` succeeded and nothing was found.
    pub fn finish_lint(&self, vet: &ProcessOutput, staticcheck: Option<&ProcessOutput>) -> (r: LintResult)
        ensures
            diagnostic_views(r.diagnostics@) == spec_parse_go_errors(vet.stderr@) + match staticcheck {
                Some(s) => spec_parse_go_errors(s.stdout@),
                None => seq![],
            },
            r.success == (vet.success && r.diagnostics@.len() == 0),
    {
        let mut diagnostics = parse_go_errors(vet.stderr.as_str());
        match staticcheck {
            Some(sc) => {
                let mut more = parse_go_errors(sc.stdout.as_str());
                let ghost a = diagnostics@;
                let ghost b = more@;
                diagnostics.append(&mut more);
                assert(diagnostic_views(diagnostics@) =~= diagnostic_views(a) + diagnostic_views(b));
            },
            None => {
                assert(diagnostic_views(diagnostics@) + seq![] =~= diagnostic_views(diagnostics@));
            },
        }
        let success = vet.success && diagnostics.len() == 0;
        LintResult { success, diagnostics }
    }
}

/// What a line of `go build` or `go vet` output that names a Go source file
/// looks like.
pub const GO_ERROR_PATTERN: &'static str = r"(.+\.go):(\d+):(\d+):\s*(.+)";

/// The diagnostic that one match of `GO_ERROR_PATTERN` stands for.
pub open spec fn go_diagnostic(c: Seq<Option<Seq<char>>>) -> DiagnosticView {
    DiagnosticView {
        file: group(c, 1),
        line: number_or_zero(group(c, 2)),
        col: number_or_zero(group(c, 3)),
        rule: "go-vet"@,
        severity: Severity::Error,
        message: group(c, 4),
        suggestion: None,
    }
}

/// The diagnostics that the matches `caps` stand for, in order.
pub open spec fn go_diagnostics(caps: Seq<Seq<Option<Seq<char>>>>) -> Seq<DiagnosticView> {
    caps.map_values(|c: Seq<Option<Seq<char>>>| go_diagnostic(c))
}

/// The diagnostics that Go tool output holds.
pub open spec fn spec_parse_go_errors(output: Seq<char>) -> Seq<DiagnosticView> {
    match regex_captures(GO_ERROR_PATTERN@, output) {
        Some(caps) => if well_formed(caps, 5) { go_diagnostics(caps) } else { seq![] },
        None => seq![],
    }
}

/// Law: Go tool output gives one error per match of `file.go:line:col:
/// message`, in order, keeping the file and message.
pub proof fn lemma_go_findings(output: Seq<char>, caps: Seq<Seq<Option<Seq<char>>>>)
    requires
        regex_captures(GO_ERROR_PATTERN@, output) == Some(caps),
        well_formed(caps, 5),
    ensures
        spec_parse_go_errors(output).len() == caps.len(),
        forall|i: int| 0 <= i < caps.len() ==> {
            let d = #[trigger] spec_parse_go_errors(output)[i];
            &&& d.file == caps[i][1]->Some_0
            &&& d.message == caps[i][4]->Some_0
            &&& d.severity == Severity::Error
        },
{
}

/// One diagnostic per match of `GO_ERROR_PATTERN`, in order.
pub fn go_diagnostics_from_matches(caps: &Vec<Vec<Option<String>>>) -> (r: Vec<LintDiagnostic>)
    requires
        well_formed(caps.deep_view(), 5),
    ensures
        diagnostic_views(r@) == go_diagnostics(caps.deep_view()),
{
    let mut r: Vec<LintDiagnostic> = Vec::new();
    let mut k: usize = 0;
    while k < caps.len()
        invariant
            k <= caps@.len(),
            well_formed(caps.deep_view(), 5),
            diagnostic_views(r@) == go_diagnostics(caps.deep_view()).take(k as int),
        decreases caps.len() - k,
    {
        let c = &caps[k];
        assert(caps.deep_view()[k as int] == c.deep_view());
        let d = LintDiagnostic {
            file: group_string(c, 1),
            line: group_number(c, 2),
            col: group_number(c, 3),
            rule: String::from_str("go-vet"),
            severity: Severity::Error,
            message: group_string(c, 4),
            suggestion: None,
        };
        assert(d@ == go_diagnostic(caps.deep_view()[k as int]));
        let ghost old_r = r@;
        r.push(d);
        proof {
            assert(diagnostic_views(r@) =~= diagnostic_views(old_r).push(d@));
            assert(go_diagnostics(caps.deep_view()).take(k + 1) =~= go_diagnostics(caps.deep_view()).take(k as int).push(go_diagnostic(caps.deep_view()[k as int])));
        }
        k = k + 1;
    }
    assert(go_diagnostics(caps.deep_view()).take(caps@.len() as int) =~= go_diagnostics(caps.deep_view()));
    r
}

/// The diagnostics in the output of `go build`, `go vet` or `staticcheck`.
pub fn parse_go_errors(output: &str) -> (r: Vec<LintDiagnostic>)
    ensures
        diagnostic_views(r@) == spec_parse_go_errors(output@),
{
    match captures_all(GO_ERROR_PATTERN, output) {
        Some(caps) => {
            if check_well_formed(&caps, 5) {
                go_diagnostics_from_matches(&caps)
            } else {
                assert(diagnostic_views(Seq::<LintDiagnostic>::empty()) =~= seq![]);
                Vec::new()
            }
        },
        None => {
            assert(diagnostic_views(Seq::<LintDiagnostic>::empty()) =~= seq![]);
            Vec::new()
        },
    }
}

} // verus!
