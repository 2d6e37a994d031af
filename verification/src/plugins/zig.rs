use vstd::prelude::*;
use crate::pattern::{captures_all, check_well_formed, group, group_number, group_string, number_or_zero, regex_captures, well_formed};
use crate::plugins::{Plugin, assemble_build, build_outcome, command, CommandSpec, ProcessOutput, Stream};
use crate::text::str_eq;
use crate::types::{diagnostic_views, BuildOpts, BuildResult, DiagnosticView, Language, LintDiagnostic, LintResult, Severity};

verus! {

/// Builds Zig projects with `zig build`.
#[derive(Clone, Copy, Debug)]
pub struct ZigPlugin;

impl Plugin for ZigPlugin {
    open spec fn handles(&self) -> Language {
        Language::Zig
    }

    fn language(&self) -> (r: Language) {
        Language::Zig
    }
}

impl ZigPlugin {
    /// `zig build [-Doptimize=ReleaseFast] --prefix build`.
    pub fn build_command(&self, opts: &BuildOpts) -> (r: CommandSpec)
        ensures
            r@ == ("zig"@, seq!["build"@] + (if opts.release { seq!["-Doptimize=ReleaseFast"@] } else { seq![] }) + seq!["--prefix"@, "build"@]),
    {
        let r = if opts.release {
            command("zig", &["build", "-Doptimize=ReleaseFast", "--prefix", "build"])
        } else {
            command("zig", &["build", "--prefix", "build"])
        };
        assert(r@.1 =~= seq!["build"@] + (if opts.release { seq!["-Doptimize=ReleaseFast"@] } else { seq![] }) + seq!["--prefix"@, "build"@]);
        r
    }

    /// `zig build test`.
    pub fn test_command(&self) -> (r: CommandSpec)
        ensures
            r@ == ("zig"@, seq!["build"@, "test"@]),
    {
        let r = command("zig", &["build", "test"]);
        assert(r@.1 =~= seq!["build"@, "test"@]);
        r
    }

    /// `zig build`, which is how a Zig project is checked.
    pub fn lint_command(&self) -> (r: CommandSpec)
        ensures
            r@ == ("zig"@, seq!["build"@]),
    {
        let r = command("zig", &["build"]);
        assert(r@.1 =~= seq!["build"@]);
        r
    }

    /// The build result: the diagnostics of the build's standard error, and
    /// the outcome of the tests (their standard error) or of the first
    /// installed program (its standard output) when one ran, else of the
    /// build.
    pub fn finish_build(&self, opts: &BuildOpts, main: &ProcessOutput, follow: Option<&ProcessOutput>) -> (r: BuildResult)
        ensures
            diagnostic_views(r.errors@) == spec_parse_zig_errors(main.stderr@),
            (r.success, r.output@) == build_outcome(*opts, *main, match follow { Some(f) => Some(*f), None => None }, main.stderr@, Stream::Stderr, Stream::Stdout),
    {
        let errors = parse_zig_errors(main.stderr.as_str());
        assemble_build(opts, main, follow, main.stderr.clone(), Stream::Stderr, Stream::Stdout, errors)
    }

    /// The lint result: the outcome of `zig build` and the diagnostics of its
    /// standard error.
    pub fn finish_lint(&self, out: &ProcessOutput) -> (r: LintResult)
        ensures
            r.success == out.success,
            diagnostic_views(r.diagnostics@) == spec_parse_zig_errors(out.stderr@),
    {
        LintResult { success: out.success, diagnostics: parse_zig_errors(out.stderr.as_str()) }
    }
}

/// A compiler error, warning or note in a Zig file.
pub const ZIG_ERROR_PATTERN: &'static str = r"(.+\.zig):(\d+):(\d+):\s*(error|warning|note):\s*(.+)";

/// The severity of a Zig compiler message.
pub open spec fn zig_severity(kind: Seq<char>) -> Severity {
    if kind == "error"@ {
        Severity::Error
    } else if kind == "warning"@ {
        Severity::Warning
    } else {
        Severity::Info
    }
}

/// The diagnostic that one match of `ZIG_ERROR_PATTERN` stands for.
pub open spec fn zig_diagnostic(c: Seq<Option<Seq<char>>>) -> DiagnosticView {
    DiagnosticView {
        file: group(c, 1),
        line: number_or_zero(group(c, 2)),
        col: number_or_zero(group(c, 3)),
        rule: "compiler"@,
        severity: zig_severity(group(c, 4)),
        message: group(c, 5),
        suggestion: None,
    }
}

/// The diagnostics in `zig build`'s output.
pub open spec fn spec_parse_zig_errors(output: Seq<char>) -> Seq<DiagnosticView> {
    match regex_captures(ZIG_ERROR_PATTERN@, output) {
        Some(caps) => if well_formed(caps, 6) {
            caps.map_values(|c: Seq<Option<Seq<char>>>| zig_diagnostic(c))
        } else {
            seq![]
        },
        None => seq![],
    }
}

/// Law: Zig's output gives one diagnostic per match of
/// `file.zig:line:col: kind: message`, in order, keeping the file and
/// message; `error` is an error, `warning` a warning, and any other kind
/// (a note) is informational.
pub proof fn lemma_zig_findings(output: Seq<char>, caps: Seq<Seq<Option<Seq<char>>>>)
    requires
        regex_captures(ZIG_ERROR_PATTERN@, output) == Some(caps),
        well_formed(caps, 6),
    ensures
        spec_parse_zig_errors(output).len() == caps.len(),
        forall|i: int| 0 <= i < caps.len() ==> {
            let d = #[trigger] spec_parse_zig_errors(output)[i];
            let word = caps[i][4]->Some_0;
            &&& d.file == caps[i][1]->Some_0
            &&& d.message == caps[i][5]->Some_0
            &&& (d.severity == Severity::Error <==> word == "error"@)
            &&& (d.severity == Severity::Warning <==> word == "warning"@)
            &&& (d.severity == Severity::Info <==> !(word == "error"@ || word == "warning"@))
        },
{
    reveal_strlit("error");
    reveal_strlit("warning");
    assert("error"@.len() == 5 && "warning"@.len() == 7);
}

/// One diagnostic per match of `ZIG_ERROR_PATTERN`, in order.
pub fn zig_errors_from_matches(caps: &Vec<Vec<Option<String>>>) -> (r: Vec<LintDiagnostic>)
    requires
        well_formed(caps.deep_view(), 6),
    ensures
        diagnostic_views(r@) == caps.deep_view().map_values(|c: Seq<Option<Seq<char>>>| zig_diagnostic(c)),
{
    let ghost all = caps.deep_view().map_values(|c: Seq<Option<Seq<char>>>| zig_diagnostic(c));
    let mut r: Vec<LintDiagnostic> = Vec::new();
    let mut k: usize = 0;
    while k < caps.len()
        invariant
            k <= caps@.len(),
            well_formed(caps.deep_view(), 6),
            all == caps.deep_view().map_values(|c: Seq<Option<Seq<char>>>| zig_diagnostic(c)),
            diagnostic_views(r@) == all.take(k as int),
        decreases caps.len() - k,
    {
        let c = &caps[k];
        assert(caps.deep_view()[k as int] == c.deep_view());
        let kind = group_string(c, 4);
        let severity = if str_eq(kind.as_str(), "error") {
            Severity::Error
        } else if str_eq(kind.as_str(), "warning") {
            Severity::Warning
        } else {
            Severity::Info
        };
        let d = LintDiagnostic {
            file: group_string(c, 1),
            line: group_number(c, 2),
            col: group_number(c, 3),
            rule: String::from_str("compiler"),
            severity,
            message: group_string(c, 5),
            suggestion: None,
        };
        let ghost prev = r@;
        r.push(d);
        assert(diagnostic_views(r@) =~= diagnostic_views(prev).push(d@));
        assert(all.take(k + 1) =~= all.take(k as int).push(all[k as int]));
        k = k + 1;
    }
    assert(all.take(caps@.len() as int) =~= all);
    r
}

/// The diagnostics in `zig build`'s output.
pub fn parse_zig_errors(output: &str) -> (r: Vec<LintDiagnostic>)
    ensures
        diagnostic_views(r@) == spec_parse_zig_errors(output@),
{
    match captures_all(ZIG_ERROR_PATTERN, output) {
        Some(caps) => {
            if check_well_formed(&caps, 6) {
                zig_errors_from_matches(&caps)
            } else {
                assert(diagnostic_views(Seq::<LintDiagnostic>::empty()) =~= seq![]);
                Vec::new()
            }
        },
        None => {
            assert(diagnostic_views(Seq::<LintDiagnostic>::empty()) =~= seq![]);
            Vec::new()
        },
    }
}

} // verus!
