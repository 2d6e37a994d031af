use vstd::prelude::*;
use crate::config::PocConfig;
use crate::pattern::{captures_all, check_well_formed, group, group_number, group_string, number_or_zero, regex_captures, well_formed};
use crate::plugins::{Plugin, command, CommandSpec, ProcessOutput};
use crate::plugins::python::{all_below_error, no_errors};
use crate::text::str_eq;
use crate::types::{diagnostic_views, BuildOpts, BuildResult, DiagnosticView, Language, LintDiagnostic, LintResult, Severity};

verus! {

/// Builds C and C++ projects with CMake, Meson or Make.
#[derive(Debug)]
pub struct CPlugin {
    pub compiler: String,
    pub build_system: String,
}

/// `prefix` followed by `rest`.
fn concat(prefix: &str, rest: &str) -> (r: String)
    ensures
        r@ == prefix@ + rest@,
{
    let mut s = String::from_str(prefix);
    s.append(rest);
    s
}

impl Plugin for CPlugin {
    open spec fn handles(&self) -> Language {
        Language::C
    }

    fn language(&self) -> (r: Language) {
        Language::C
    }
}

impl CPlugin {
    /// The plugin with the compiler and build system of `config`.
    pub fn new(config: &PocConfig) -> (r: Self)
        ensures
            r.compiler == config.c.compiler,
            r.build_system == config.c.build_system,
    {
        CPlugin { compiler: config.c.compiler.clone(), build_system: config.c.build_system.clone() }
    }

    /// The commands of a build, run one after the other; the last one's
    /// outcome is the build's. CMake configures the `build` directory with
    /// the build type and compilers, then builds it in parallel; Meson sets
    /// the directory up unless it already holds `build.ninja`, then compiles
    /// it; Make (for any other build system) is given the compilers and
    /// `RELEASE=1` for a release build.
    pub fn build_commands(&self, opts: &BuildOpts, ninja_exists: bool) -> (r: Vec<CommandSpec>)
        ensures
            r@.len() > 0,
            self.build_system@ == "cmake"@ ==> r@.len() == 2 && r@[0]@ == ("cmake"@, seq![
                "-B"@,
                "build"@,
                "-DCMAKE_BUILD_TYPE="@ + if opts.release { "Release"@ } else { "Debug"@ },
                "-DCMAKE_C_COMPILER="@ + self.compiler@,
                "-DCMAKE_CXX_COMPILER="@ + self.compiler@ + "++"@,
            ]) && r@[1]@ == ("cmake"@, seq!["--build"@, "build"@, "--parallel"@]),
            self.build_system@ == "meson"@ ==> r@.len() == (if ninja_exists { 1int } else { 2int })
                && (!ninja_exists ==> r@[0]@ == ("meson"@, seq!["setup"@, "build"@, "--buildtype="@ + if opts.release { "release"@ } else { "debug"@ }]))
                && r@[r@.len() - 1]@ == ("meson"@, seq!["compile"@, "-C"@, "build"@]),
            self.build_system@ != "cmake"@ && self.build_system@ != "meson"@ ==> r@.len() == 1 && r@[0]@ == ("make"@,
                seq!["CC="@ + self.compiler@, "CXX="@ + self.compiler@ + "++"@] + if opts.release { seq!["RELEASE=1"@] } else { seq![] }),
    {
        let mut r: Vec<CommandSpec> = Vec::new();
        proof {
            reveal_strlit("cmake");
            reveal_strlit("meson");
            assert("cmake"@[0] != "meson"@[0]);
        }
        if str_eq(self.build_system.as_str(), "cmake") {
            let build_type = if opts.release { "Release" } else { "Debug" };
            let a = concat("-DCMAKE_BUILD_TYPE=", build_type);
            let b = concat("-DCMAKE_C_COMPILER=", self.compiler.as_str());
            let mut c = concat("-DCMAKE_CXX_COMPILER=", self.compiler.as_str());
            c.append("++");
            let configure = command("cmake", &["-B", "build", a.as_str(), b.as_str(), c.as_str()]);
            let build = command("cmake", &["--build", "build", "--parallel"]);
            assert(configure@.1 =~= seq![
                "-B"@,
                "build"@,
                "-DCMAKE_BUILD_TYPE="@ + if opts.release { "Release"@ } else { "Debug"@ },
                "-DCMAKE_C_COMPILER="@ + self.compiler@,
                "-DCMAKE_CXX_COMPILER="@ + self.compiler@ + "++"@,
            ]);
            assert(build@.1 =~= seq!["--build"@, "build"@, "--parallel"@]);
            r.push(configure);
            r.push(build);
        } else if str_eq(self.build_system.as_str(), "meson") {
            if !ninja_exists {
                let build_type = if opts.release { "release" } else { "debug" };
                let t = concat("--buildtype=", build_type);
                let setup = command("meson", &["setup", "build", t.as_str()]);
                assert(setup@.1 =~= seq!["setup"@, "build"@, "--buildtype="@ + if opts.release { "release"@ } else { "debug"@ }]);
                r.push(setup);
            }
            let compile = command("meson", &["compile", "-C", "build"]);
            assert(compile@.1 =~= seq!["compile"@, "-C"@, "build"@]);
            let ghost before = r@;
            r.push(compile);
            assert(r@[r@.len() - 1] == compile);
            assert(!ninja_exists ==> r@[0] == before[0]);
        } else {
            let cc = concat("CC=", self.compiler.as_str());
            let mut cxx = concat("CXX=", self.compiler.as_str());
            cxx.append("++");
            let make = if opts.release {
                command("make", &[cc.as_str(), cxx.as_str(), "RELEASE=1"])
            } else {
                command("make", &[cc.as_str(), cxx.as_str()])
            };
            assert(make@.1 =~= seq!["CC="@ + self.compiler@, "CXX="@ + self.compiler@ + "++"@] + if opts.release { seq!["RELEASE=1"@] } else { seq![] });
            r.push(make);
        }
        r
    }

    /// `cppcheck` with every check on, writing findings in the form that
    /// `parse_cppcheck` reads.
    pub fn lint_command(&self) -> (r: CommandSpec)
        ensures
            r@ == ("cppcheck"@, seq!["--enable=all"@, "--template={file}:{line}:{column}: {severity}: {message} [{id}]"@, "."@]),
    {
        let r = command("cppcheck", &["--enable=all", "--template={file}:{line}:{column}: {severity}: {message} [{id}]", "."]);
        assert(r@.1 =~= seq!["--enable=all"@, "--template={file}:{line}:{column}: {severity}: {message} [{id}]"@, "."@]);
        r
    }

    /// The build result: the outcome and standard error of the last build
    /// command, with the compiler diagnostics found there.
    pub fn finish_build(&self, out: &ProcessOutput) -> (r: BuildResult)
        ensures
            r.success == out.success,
            r.output == out.stderr,
            diagnostic_views(r.errors@) == spec_parse_c_errors(out.stderr@),
    {
        BuildResult { success: out.success, output: out.stderr.clone(), errors: parse_c_errors(out.stderr.as_str()) }
    }

    /// The lint result: cppcheck's findings in its standard error; a success
    /// when none is an error.
    pub fn finish_lint(&self, out: &ProcessOutput) -> (r: LintResult)
        ensures
            diagnostic_views(r.diagnostics@) == spec_parse_cppcheck(out.stderr@),
            r.success == no_errors(r.diagnostics@),
    {
        let diagnostics = parse_cppcheck(out.stderr.as_str());
        let success = all_below_error(&diagnostics);
        LintResult { success, diagnostics }
    }

    /// The lint result when cppcheck could not be started: the outcome and
    /// errors of a debug build.
    pub fn lint_from_build(&self, build: BuildResult) -> (r: LintResult)
        ensures
            r.success == build.success,
            r.diagnostics == build.errors,
    {
        LintResult { success: build.success, diagnostics: build.errors }
    }
}

// ---------------------------------------------------------------------------
// Compiler output
// ---------------------------------------------------------------------------

/// A compiler error or warning in a C or C++ file.
pub const C_ERROR_PATTERN: &'static str = r"(.+\.(?:c|cpp|h|hpp)):(\d+):(\d+):\s*(error|warning):\s*(.+)";

/// The diagnostic that one match of `C_ERROR_PATTERN` stands for.
pub open spec fn c_diagnostic(c: Seq<Option<Seq<char>>>) -> DiagnosticView {
    DiagnosticView {
        file: group(c, 1),
        line: number_or_zero(group(c, 2)),
        col: number_or_zero(group(c, 3)),
        rule: "compiler"@,
        severity: if group(c, 4) == "error"@ { Severity::Error } else { Severity::Warning },
        message: group(c, 5),
        suggestion: None,
    }
}

/// The compiler diagnostics in a C build's output.
pub open spec fn spec_parse_c_errors(output: Seq<char>) -> Seq<DiagnosticView> {
    match regex_captures(C_ERROR_PATTERN@, output) {
        Some(caps) => if well_formed(caps, 6) {
            caps.map_values(|c: Seq<Option<Seq<char>>>| c_diagnostic(c))
        } else {
            seq![]
        },
        None => seq![],
    }
}

/// One diagnostic per match of `C_ERROR_PATTERN`, in order.
pub fn c_errors_from_matches(caps: &Vec<Vec<Option<String>>>) -> (r: Vec<LintDiagnostic>)
    requires
        well_formed(caps.deep_view(), 6),
    ensures
        diagnostic_views(r@) == caps.deep_view().map_values(|c: Seq<Option<Seq<char>>>| c_diagnostic(c)),
{
    let ghost all = caps.deep_view().map_values(|c: Seq<Option<Seq<char>>>| c_diagnostic(c));
    let mut r: Vec<LintDiagnostic> = Vec::new();
    let mut k: usize = 0;
    while k < caps.len()
        invariant
            k <= caps@.len(),
            well_formed(caps.deep_view(), 6),
            all == caps.deep_view().map_values(|c: Seq<Option<Seq<char>>>| c_diagnostic(c)),
            diagnostic_views(r@) == all.take(k as int),
        decreases caps.len() - k,
    {
        let c = &caps[k];
        assert(caps.deep_view()[k as int] == c.deep_view());
        let kind = group_string(c, 4);
        let severity = if str_eq(kind.as_str(), "error") { Severity::Error } else { Severity::Warning };
        let d = LintDiagnostic {
            file: group_string(c, 1),
            line: group_number(c, 2),
            col: group_number(c, 3),
            rule: String::from_str("compiler"),
            severity,
            message: group_string(c, 5),
            suggestion: None,
        };
        let ghost prev = r@;
        r.push(d);
        assert(diagnostic_views(r@) =~= diagnostic_views(prev).push(d@));
        assert(all.take(k + 1) =~= all.take(k as int).push(all[k as int]));
        k = k + 1;
    }
    assert(all.take(caps@.len() as int) =~= all);
    r
}

/// The compiler diagnostics in a C build's output.
pub fn parse_c_errors(output: &str) -> (r: Vec<LintDiagnostic>)
    ensures
        diagnostic_views(r@) == spec_parse_c_errors(output@),
{
    match captures_all(C_ERROR_PATTERN, output) {
        Some(caps) => {
            if check_well_formed(&caps, 6) {
                c_errors_from_matches(&caps)
            } else {
                assert(diagnostic_views(Seq::<LintDiagnostic>::empty()) =~= seq![]);
                Vec::new()
            }
        },
        None => {
            assert(diagnostic_views(Seq::<LintDiagnostic>::empty()) =~= seq![]);
            Vec::new()
        },
    }
}

/// A finding of cppcheck in the form its template writes.
pub const CPPCHECK_PATTERN: &'static str = r"(.+):(\d+):(\d+):\s*(\w+):\s*(.+)\s*\[(\w+)\]";

/// The severity of a cppcheck finding.
pub open spec fn cppcheck_severity(kind: Seq<char>) -> Severity {
    if kind == "error"@ {
        Severity::Error
    } else if kind == "warning"@ {
        Severity::Warning
    } else if kind == "style"@ || kind == "performance"@ || kind == "portability"@ {
        Severity::Info
    } else {
        Severity::Hint
    }
}

/// The diagnostic that one match of `CPPCHECK_PATTERN` stands for.
pub open spec fn cppcheck_diagnostic(c: Seq<Option<Seq<char>>>) -> DiagnosticView {
    DiagnosticView {
        file: group(c, 1),
        line: number_or_zero(group(c, 2)),
        col: number_or_zero(group(c, 3)),
        rule: group(c, 6),
        severity: cppcheck_severity(group(c, 4)),
        message: group(c, 5),
        suggestion: None,
    }
}

/// The findings in cppcheck's output.
pub open spec fn spec_parse_cppcheck(output: Seq<char>) -> Seq<DiagnosticView> {
    match regex_captures(CPPCHECK_PATTERN@, output) {
        Some(caps) => if well_formed(caps, 7) {
            caps.map_values(|c: Seq<Option<Seq<char>>>| cppcheck_diagnostic(c))
        } else {
            seq![]
        },
        None => seq![],
    }
}

/// Law: cppcheck's output gives one finding per match of its template, in
/// order; each keeps the match's file, message and check id, and its
/// severity follows the severity word: `error` is an error, `warning` a
/// warning, `style`, `performance` and `portability` are informational, and
/// any other word is a hint.
pub proof fn lemma_cppcheck_findings(output: Seq<char>, caps: Seq<Seq<Option<Seq<char>>>>)
    requires
        regex_captures(CPPCHECK_PATTERN@, output) == Some(caps),
        well_formed(caps, 7),
    ensures
        spec_parse_cppcheck(output).len() == caps.len(),
        forall|i: int| 0 <= i < caps.len() ==> {
            let d = #[trigger] spec_parse_cppcheck(output)[i];
            let word = caps[i][4]->Some_0;
            &&& d.file == caps[i][1]->Some_0
            &&& d.message == caps[i][5]->Some_0
            &&& d.rule == caps[i][6]->Some_0
            &&& (d.severity == Severity::Error <==> word == "error"@)
            &&& (d.severity == Severity::Warning <==> word == "warning"@)
            &&& (d.severity == Severity::Info <==> (word == "style"@ || word == "performance"@ || word == "portability"@))
            &&& (d.severity == Severity::Hint <==> !(word == "error"@ || word == "warning"@ || word == "style"@
                || word == "performance"@ || word == "portability"@))
        },
{
    reveal_strlit("error");
    reveal_strlit("warning");
    reveal_strlit("style");
    reveal_strlit("performance");
    reveal_strlit("portability");
    assert("error"@.len() == 5 && "warning"@.len() == 7 && "style"@.len() == 5);
    assert("performance"@.len() == 11 && "portability"@.len() == 11);
    assert("error"@[0] != "style"@[0]);
    assert("performance"@[1] != "portability"@[1]);
}

/// Law: a C compiler's output gives one diagnostic per match of
/// `file:line:col: kind: message`, in order, keeping the file and message;
/// it is an error when the kind is `error` and a warning otherwise.
pub proof fn lemma_c_compiler_findings(output: Seq<char>, caps: Seq<Seq<Option<Seq<char>>>>)
    requires
        regex_captures(C_ERROR_PATTERN@, output) == Some(caps),
        well_formed(caps, 6),
    ensures
        spec_parse_c_errors(output).len() == caps.len(),
        forall|i: int| 0 <= i < caps.len() ==> {
            let d = #[trigger] spec_parse_c_errors(output)[i];
            &&& d.file == caps[i][1]->Some_0
            &&& d.message == caps[i][5]->Some_0
            &&& (d.severity == Severity::Error <==> caps[i][4]->Some_0 == "error"@)
            &&& (d.severity == Severity::Warning <==> caps[i][4]->Some_0 != "error"@)
        },
{
}

fn severity_of_cppcheck(kind: &str) -> (r: Severity)
    ensures
        r == cppcheck_severity(kind@),
{
    if str_eq(kind, "error") {
        Severity::Error
    } else if str_eq(kind, "warning") {
        Severity::Warning
    } else if str_eq(kind, "style") || str_eq(kind, "performance") || str_eq(kind, "portability") {
        Severity::Info
    } else {
        Severity::Hint
    }
}

/// One diagnostic per match of `CPPCHECK_PATTERN`, in order.
pub fn cppcheck_from_matches(caps: &Vec<Vec<Option<String>>>) -> (r: Vec<LintDiagnostic>)
    requires
        well_formed(caps.deep_view(), 7),
    ensures
        diagnostic_views(r@) == caps.deep_view().map_values(|c: Seq<Option<Seq<char>>>| cppcheck_diagnostic(c)),
{
    let ghost all = caps.deep_view().map_values(|c: Seq<Option<Seq<char>>>| cppcheck_diagnostic(c));
    let mut r: Vec<LintDiagnostic> = Vec::new();
    let mut k: usize = 0;
    while k < caps.len()
        invariant
            k <= caps@.len(),
            well_formed(caps.deep_view(), 7),
            all == caps.deep_view().map_values(|c: Seq<Option<Seq<char>>>| cppcheck_diagnostic(c)),
            diagnostic_views(r@) == all.take(k as int),
        decreases caps.len() - k,
    {
        let c = &caps[k];
        assert(caps.deep_view()[k as int] == c.deep_view());
        let kind = group_string(c, 4);
        let d = LintDiagnostic {
            file: group_string(c, 1),
            line: group_number(c, 2),
            col: group_number(c, 3),
            rule: group_string(c, 6),
            severity: severity_of_cppcheck(kind.as_str()),
            message: group_string(c, 5),
            suggestion: None,
        };
        let ghost prev = r@;
        r.push(d);
        assert(diagnostic_views(r@) =~= diagnostic_views(prev).push(d@));
        assert(all.take(k + 1) =~= all.take(k as int).push(all[k as int]));
        k = k + 1;
    }
    assert(all.take(caps@.len() as int) =~= all);
    r
}

/// The findings in cppcheck's output.
pub fn parse_cppcheck(output: &str) -> (r: Vec<LintDiagnostic>)
    ensures
        diagnostic_views(r@) == spec_parse_cppcheck(output@),
{
    match captures_all(CPPCHECK_PATTERN, output) {
        Some(caps) => {
            if check_well_formed(&caps, 7) {
                cppcheck_from_matches(&caps)
            } else {
                assert(diagnostic_views(Seq::<LintDiagnostic>::empty()) =~= seq![]);
                Vec::new()
            }
        },
        None => {
            assert(diagnostic_views(Seq::<LintDiagnostic>::empty()) =~= seq![]);
            Vec::new()
        },
    }
}

} // verus!
