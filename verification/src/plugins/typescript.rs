use vstd::prelude::*;
use crate::config::PocConfig;
use crate::pattern::{captures_all, check_well_formed, group, group_number, group_string, number_or_zero, regex_captures, well_formed};
use crate::plugins::{Plugin, assemble_build, build_outcome, command, two_lines, CommandSpec, ProcessOutput, Stream};
use crate::text::str_eq;
use crate::types::{diagnostic_views, BuildOpts, BuildResult, DiagnosticView, Language, LintDiagnostic, LintOpts, LintResult, Severity};

verus! {

/// Builds TypeScript and JavaScript projects with bun, deno or node.
#[derive(Debug)]
pub struct TypeScriptPlugin {
    pub runtime: String,
    pub package_manager: String,
    pub linter: String,
}

/// The command that installs a project's dependencies with `package_manager`:
/// `bun`, `yarn` or `pnpm install`, and `npm install` for any other.
pub open spec fn spec_install_command(package_manager: Seq<char>) -> (Seq<char>, Seq<Seq<char>>) {
    if package_manager == "bun"@ {
        ("bun"@, seq!["install"@])
    } else if package_manager == "yarn"@ {
        ("yarn"@, seq!["install"@])
    } else if package_manager == "pnpm"@ {
        ("pnpm"@, seq!["install"@])
    } else {
        ("npm"@, seq!["install"@])
    }
}

/// The build step of `runtime`: bun bundles `src/index.ts` when the project
/// has a `tsconfig.json` and has no build step otherwise; deno compiles
/// `src/index.ts` to `build/main`; any other runtime runs `tsc`.
pub open spec fn spec_ts_build_command(runtime: Seq<char>, has_tsconfig: bool) -> Option<(Seq<char>, Seq<Seq<char>>)> {
    if runtime == "bun"@ {
        if has_tsconfig {
            Some(("bun"@, seq!["build"@, "./src/index.ts"@, "--outdir"@, "build"@]))
        } else {
            None
        }
    } else if runtime == "deno"@ {
        Some(("deno"@, seq!["compile"@, "--output"@, "build/main"@, "src/index.ts"@]))
    } else {
        Some(("npx"@, seq!["tsc"@, "--outDir"@, "build"@]))
    }
}

/// The test command of `runtime`: `bun test`, `deno test`, else `npx jest`.
pub open spec fn spec_ts_test_command(runtime: Seq<char>) -> (Seq<char>, Seq<Seq<char>>) {
    if runtime == "bun"@ {
        ("bun"@, seq!["test"@])
    } else if runtime == "deno"@ {
        ("deno"@, seq!["test"@])
    } else {
        ("npx"@, seq!["jest"@])
    }
}

/// The command that runs the program with `runtime`: the sources with bun or
/// deno, the compiled `build/index.js` with node.
pub open spec fn spec_ts_run_command(runtime: Seq<char>) -> (Seq<char>, Seq<Seq<char>>) {
    if runtime == "bun"@ {
        ("bun"@, seq!["run"@, "src/index.ts"@])
    } else if runtime == "deno"@ {
        ("deno"@, seq!["run"@, "src/index.ts"@])
    } else {
        ("node"@, seq!["build/index.js"@])
    }
}

/// The lint command of `linter` through `npx`: biome's `check`, oxlint, or
/// eslint with JSON output for any other; each with `--fix` when asked.
pub open spec fn spec_ts_lint_command(linter: Seq<char>, fix: bool) -> (Seq<char>, Seq<Seq<char>>) {
    if linter == "biome"@ {
        ("npx"@, if fix { seq!["biome"@, "check"@, "--fix"@, "."@] } else { seq!["biome"@, "check"@, "."@] })
    } else if linter == "oxlint"@ {
        ("npx"@, seq!["oxlint"@] + (if fix { seq!["--fix"@] } else { seq![] }) + seq!["."@])
    } else {
        ("npx"@, seq!["eslint"@] + (if fix { seq!["--fix"@] } else { seq![] }) + seq!["--format"@, "json"@, "."@])
    }
}

/// Law: dependencies are installed by the configured package manager when it
/// is `bun`, `yarn` or `pnpm`, and by `npm` otherwise, always with the single
/// argument `install`.
pub proof fn lemma_install_uses_package_manager(package_manager: Seq<char>)
    ensures
        spec_install_command(package_manager).1 == seq!["install"@],
        (package_manager == "bun"@ || package_manager == "yarn"@ || package_manager == "pnpm"@)
            ==> spec_install_command(package_manager).0 == package_manager,
        !(package_manager == "bun"@ || package_manager == "yarn"@ || package_manager == "pnpm"@)
            ==> spec_install_command(package_manager).0 == "npm"@,
{
}

/// Law: the bun and deno runtimes test and run the sources themselves, with
/// `test` and `run src/index.ts`; any other runtime tests with `npx jest` and
/// runs the compiled `build/index.js` with `node`. Only bun without a
/// `tsconfig.json` has no build step.
pub proof fn lemma_runtime_commands(runtime: Seq<char>, has_tsconfig: bool)
    ensures
        (runtime == "bun"@ || runtime == "deno"@) ==> spec_ts_test_command(runtime) == (runtime, seq!["test"@])
            && spec_ts_run_command(runtime) == (runtime, seq!["run"@, "src/index.ts"@]),
        !(runtime == "bun"@ || runtime == "deno"@) ==> spec_ts_test_command(runtime) == ("npx"@, seq!["jest"@])
            && spec_ts_run_command(runtime) == ("node"@, seq!["build/index.js"@]),
        spec_ts_build_command(runtime, has_tsconfig) is None <==> (runtime == "bun"@ && !has_tsconfig),
        spec_ts_build_command(runtime, has_tsconfig) is Some ==> spec_ts_build_command(runtime, has_tsconfig)->Some_0.0
            == (if runtime == "bun"@ || runtime == "deno"@ { runtime } else { "npx"@ }),
{
}

/// Law: linting always goes through `npx`, with the configured linter when it
/// is `biome` or `oxlint` and with `eslint` otherwise, asked to fix when a
/// fix is wanted, and on the whole project.
pub proof fn lemma_lint_command(linter: Seq<char>, fix: bool)
    ensures
        spec_ts_lint_command(linter, fix).0 == "npx"@,
        spec_ts_lint_command(linter, fix).1.len() > 0,
        spec_ts_lint_command(linter, fix).1[0] == (if linter == "biome"@ || linter == "oxlint"@ { linter } else { "eslint"@ }),
        fix ==> spec_ts_lint_command(linter, fix).1.contains("--fix"@),
        spec_ts_lint_command(linter, fix).1.last() == "."@,
{
    let args = spec_ts_lint_command(linter, fix).1;
    if fix {
        if linter == "biome"@ {
            assert(args[2] == "--fix"@);
        } else {
            assert(args[1] == "--fix"@);
        }
    }
}

impl Plugin for TypeScriptPlugin {
    open spec fn handles(&self) -> Language {
        Language::TypeScript
    }

    fn language(&self) -> (r: Language) {
        Language::TypeScript
    }
}

impl TypeScriptPlugin {
    /// The plugin with the runtime, package manager and linter of `config`.
    pub fn new(config: &PocConfig) -> (r: Self)
        ensures
            r.runtime == config.ts.runtime,
            r.package_manager == config.ts.package_manager,
            r.linter == config.lint.ts,
    {
        TypeScriptPlugin {
            runtime: config.ts.runtime.clone(),
            package_manager: config.ts.package_manager.clone(),
            linter: config.lint.ts.clone(),
        }
    }

    /// The command that installs the dependencies (run when the project has
    /// no `node_modules` yet).
    pub fn install_command(&self) -> (r: CommandSpec)
        ensures
            r@ == spec_install_command(self.package_manager@),
    {
        let pm = self.package_manager.as_str();
        let r = if str_eq(pm, "bun") {
            command("bun", &["install"])
        } else if str_eq(pm, "yarn") {
            command("yarn", &["install"])
        } else if str_eq(pm, "pnpm") {
            command("pnpm", &["install"])
        } else {
            command("npm", &["install"])
        };
        assert(r@.1 =~= seq!["install"@]);
        r
    }

    /// The build step, `None` where the runtime needs none.
    pub fn build_command(&self, has_tsconfig: bool) -> (r: Option<CommandSpec>)
        ensures
            match r {
                Some(c) => spec_ts_build_command(self.runtime@, has_tsconfig) == Some(c@),
                None => spec_ts_build_command(self.runtime@, has_tsconfig) is None,
            },
    {
        let rt = self.runtime.as_str();
        if str_eq(rt, "bun") {
            if has_tsconfig {
                let c = command("bun", &["build", "./src/index.ts", "--outdir", "build"]);
                assert(c@.1 =~= seq!["build"@, "./src/index.ts"@, "--outdir"@, "build"@]);
                Some(c)
            } else {
                None
            }
        } else if str_eq(rt, "deno") {
            let c = command("deno", &["compile", "--output", "build/main", "src/index.ts"]);
            assert(c@.1 =~= seq!["compile"@, "--output"@, "build/main"@, "src/index.ts"@]);
            Some(c)
        } else {
            let c = command("npx", &["tsc", "--outDir", "build"]);
            assert(c@.1 =~= seq!["tsc"@, "--outDir"@, "build"@]);
            Some(c)
        }
    }

    /// The result of a build that has no build step: a success that says so.
    pub fn skipped_build(&self) -> (r: BuildResult)
        ensures
            r.success,
            r.output@ == "no build step needed"@,
            r.errors@.len() == 0,
    {
        BuildResult { success: true, output: String::from_str("no build step needed"), errors: Vec::new() }
    }

    /// The command that runs the tests.
    pub fn test_command(&self) -> (r: CommandSpec)
        ensures
            r@ == spec_ts_test_command(self.runtime@),
    {
        let rt = self.runtime.as_str();
        if str_eq(rt, "bun") {
            let c = command("bun", &["test"]);
            assert(c@.1 =~= seq!["test"@]);
            c
        } else if str_eq(rt, "deno") {
            let c = command("deno", &["test"]);
            assert(c@.1 =~= seq!["test"@]);
            c
        } else {
            let c = command("npx", &["jest"]);
            assert(c@.1 =~= seq!["jest"@]);
            c
        }
    }

    /// The command that runs the program.
    pub fn run_command(&self) -> (r: CommandSpec)
        ensures
            r@ == spec_ts_run_command(self.runtime@),
    {
        let rt = self.runtime.as_str();
        if str_eq(rt, "bun") {
            let c = command("bun", &["run", "src/index.ts"]);
            assert(c@.1 =~= seq!["run"@, "src/index.ts"@]);
            c
        } else if str_eq(rt, "deno") {
            let c = command("deno", &["run", "src/index.ts"]);
            assert(c@.1 =~= seq!["run"@, "src/index.ts"@]);
            c
        } else {
            let c = command("node", &["build/index.js"]);
            assert(c@.1 =~= seq!["build/index.js"@]);
            c
        }
    }

    /// The lint command of the configured linter.
    pub fn lint_command(&self, opts: &LintOpts) -> (r: CommandSpec)
        ensures
            r@ == spec_ts_lint_command(self.linter@, opts.fix),
    {
        let l = self.linter.as_str();
        if str_eq(l, "biome") {
            if opts.fix {
                let c = command("npx", &["biome", "check", "--fix", "."]);
                assert(c@.1 =~= seq!["biome"@, "check"@, "--fix"@, "."@]);
                c
            } else {
                let c = command("npx", &["biome", "check", "."]);
                assert(c@.1 =~= seq!["biome"@, "check"@, "."@]);
                c
            }
        } else if str_eq(l, "oxlint") {
            if opts.fix {
                let c = command("npx", &["oxlint", "--fix", "."]);
                assert(c@.1 =~= seq!["oxlint"@] + seq!["--fix"@] + seq!["."@]);
                c
            } else {
                let c = command("npx", &["oxlint", "."]);
                assert(c@.1 =~= seq!["oxlint"@] + Seq::<Seq<char>>::empty() + seq!["."@]);
                c
            }
        } else {
            if opts.fix {
                let c = command("npx", &["eslint", "--fix", "--format", "json", "."]);
                assert(c@.1 =~= seq!["eslint"@] + seq!["--fix"@] + seq!["--format"@, "json"@, "."@]);
                c
            } else {
                let c = command("npx", &["eslint", "--format", "json", "."]);
                assert(c@.1 =~= seq!["eslint"@] + Seq::<Seq<char>>::empty() + seq!["--format"@, "json"@, "."@]);
                c
            }
        }
    }

    /// The build result: the diagnostics of the build's standard error and
    /// standard output (joined by a newline), and the outcome of the tests
    /// (their standard error) or of the program (its standard output) when
    /// one ran, else of the build with that joined text.
    pub fn finish_build(&self, opts: &BuildOpts, main: &ProcessOutput, follow: Option<&ProcessOutput>) -> (r: BuildResult)
        ensures
            diagnostic_views(r.errors@) == spec_parse_ts_errors(main.stderr@ + "\n"@ + main.stdout@),
            (r.success, r.output@) == build_outcome(
                *opts,
                *main,
                match follow { Some(f) => Some(*f), None => None },
                main.stderr@ + "\n"@ + main.stdout@,
                Stream::Stderr,
                Stream::Stdout,
            ),
    {
        let combined = two_lines(main.stderr.as_str(), main.stdout.as_str());
        let errors = parse_ts_errors(combined.as_str());
        assemble_build(opts, main, follow, combined, Stream::Stderr, Stream::Stdout, errors)
    }

    /// The lint result: the linter's outcome, and the diagnostics of its
    /// standard output and standard error joined by a newline.
    pub fn finish_lint(&self, out: &ProcessOutput) -> (r: LintResult)
        ensures
            r.success == out.success,
            diagnostic_views(r.diagnostics@) == spec_parse_ts_errors(out.stdout@ + "\n"@ + out.stderr@),
    {
        let combined = two_lines(out.stdout.as_str(), out.stderr.as_str());
        LintResult { success: out.success, diagnostics: parse_ts_errors(combined.as_str()) }
    }
}

// ---------------------------------------------------------------------------
// Compiler and linter output
// ---------------------------------------------------------------------------

/// A `tsc` diagnostic: `file(line,col): severity code: message`.
pub const TS_COMPILER_PATTERN: &'static str = r"(.+\.(?:ts|tsx|js|jsx))\((\d+),(\d+)\):\s*(\w+)\s+(\w+):\s*(.+)";

/// A linter finding: `file:line:col - message`.
pub const TS_LINT_PATTERN: &'static str = r"(.+\.(?:ts|tsx|js|jsx)):(\d+):(\d+)\s*[-–]\s*(.+)";

/// The diagnostic that one match of `TS_COMPILER_PATTERN` stands for.
pub open spec fn ts_compiler_diagnostic(c: Seq<Option<Seq<char>>>) -> DiagnosticView {
    DiagnosticView {
        file: group(c, 1),
        line: number_or_zero(group(c, 2)),
        col: number_or_zero(group(c, 3)),
        rule: group(c, 5),
        severity: if group(c, 4) == "error"@ { Severity::Error } else { Severity::Warning },
        message: group(c, 6),
        suggestion: None,
    }
}

/// The diagnostic that one match of `TS_LINT_PATTERN` stands for.
pub open spec fn ts_lint_diagnostic(c: Seq<Option<Seq<char>>>) -> DiagnosticView {
    DiagnosticView {
        file: group(c, 1),
        line: number_or_zero(group(c, 2)),
        col: number_or_zero(group(c, 3)),
        rule: "lint"@,
        severity: Severity::Warning,
        message: group(c, 4),
        suggestion: None,
    }
}

/// Whether some diagnostic of `ds` is at `line` of `file`.
pub open spec fn reports_line(ds: Seq<DiagnosticView>, file: Seq<char>, line: usize) -> bool {
    exists|i: int| 0 <= i < ds.len() && (#[trigger] ds[i]).file == file && ds[i].line == line
}

/// `ds` followed by the linter findings of `caps`, in order, each left out
/// when a diagnostic before it is already at its file and line.
pub open spec fn add_lint_matches(ds: Seq<DiagnosticView>, caps: Seq<Seq<Option<Seq<char>>>>) -> Seq<DiagnosticView>
    decreases caps.len(),
{
    if caps.len() == 0 {
        ds
    } else {
        let before = add_lint_matches(ds, caps.drop_last());
        let d = ts_lint_diagnostic(caps.last());
        if reports_line(before, d.file, d.line) {
            before
        } else {
            before.push(d)
        }
    }
}

/// The compiler diagnostics in a text.
pub open spec fn ts_compiler_diagnostics(output: Seq<char>) -> Seq<DiagnosticView> {
    match regex_captures(TS_COMPILER_PATTERN@, output) {
        Some(caps) => if well_formed(caps, 7) {
            caps.map_values(|c: Seq<Option<Seq<char>>>| ts_compiler_diagnostic(c))
        } else {
            seq![]
        },
        None => seq![],
    }
}

/// The diagnostics in a TypeScript tool's output: every compiler diagnostic,
/// then the linter findings at a file and line that nothing before reports.
pub open spec fn spec_parse_ts_errors(output: Seq<char>) -> Seq<DiagnosticView> {
    let first = ts_compiler_diagnostics(output);
    match regex_captures(TS_LINT_PATTERN@, output) {
        Some(caps) => if well_formed(caps, 5) {
            add_lint_matches(first, caps)
        } else {
            first
        },
        None => first,
    }
}

proof fn lemma_add_lint(ds: Seq<DiagnosticView>, caps: Seq<Seq<Option<Seq<char>>>>)
    ensures
        add_lint_matches(ds, caps).len() >= ds.len(),
        add_lint_matches(ds, caps).take(ds.len() as int) == ds,
        forall|j: int| ds.len() <= j < add_lint_matches(ds, caps).len() ==> {
            let d = #[trigger] add_lint_matches(ds, caps)[j];
            d.rule == "lint"@ && d.severity == Severity::Warning
        },
        forall|k: int| 0 <= k < caps.len() ==> exists|j: int| {
            &&& 0 <= j < add_lint_matches(ds, caps).len()
            &&& (#[trigger] add_lint_matches(ds, caps)[j]).file == group(#[trigger] caps[k], 1)
            &&& add_lint_matches(ds, caps)[j].line == number_or_zero(group(caps[k], 2))
        },
    decreases caps.len(),
{
    if caps.len() == 0 {
        assert(add_lint_matches(ds, caps).take(ds.len() as int) =~= ds);
    } else {
        let rest = caps.drop_last();
        lemma_add_lint(ds, rest);
        let before = add_lint_matches(ds, rest);
        let d = ts_lint_diagnostic(caps.last());
        let r = add_lint_matches(ds, caps);
        if reports_line(before, d.file, d.line) {
            assert(r == before);
            assert forall|k: int| 0 <= k < caps.len() implies exists|j: int| {
                &&& 0 <= j < r.len()
                &&& (#[trigger] r[j]).file == group(#[trigger] caps[k], 1)
                &&& r[j].line == number_or_zero(group(caps[k], 2))
            } by {
                if k < rest.len() {
                    assert(rest[k] == caps[k]);
                } else {
                    let j = choose|j: int| 0 <= j < before.len() && (#[trigger] before[j]).file == d.file && before[j].line == d.line;
                    assert(caps[k] == caps.last());
                    assert(r[j].file == group(caps[k], 1));
                }
            }
        } else {
            assert(r == before.push(d));
            assert(r.take(ds.len() as int) =~= before.take(ds.len() as int));
            assert forall|k: int| 0 <= k < caps.len() implies exists|j: int| {
                &&& 0 <= j < r.len()
                &&& (#[trigger] r[j]).file == group(#[trigger] caps[k], 1)
                &&& r[j].line == number_or_zero(group(caps[k], 2))
            } by {
                if k < rest.len() {
                    assert(rest[k] == caps[k]);
                    let j = choose|j: int| {
                        &&& 0 <= j < before.len()
                        &&& (#[trigger] before[j]).file == group(rest[k], 1)
                        &&& before[j].line == number_or_zero(group(rest[k], 2))
                    };
                    assert(r[j] == before[j]);
                } else {
                    assert(caps[k] == caps.last());
                    assert(r[before.len() as int] == d);
                }
            }
            assert forall|j: int| ds.len() <= j < r.len() implies {
                let e = #[trigger] r[j];
                e.rule == "lint"@ && e.severity == Severity::Warning
            } by {
                if j < before.len() {
                    assert(r[j] == before[j]);
                }
            }
        }
    }
}

/// Law: a TypeScript tool's output gives every `tsc` diagnostic first, in
/// order of its matches (an error when its severity word is `error`, a
/// warning otherwise, keeping file, code and message), then linter warnings
/// only; and every linter finding's file and line is reported by some
/// diagnostic of the result.
pub proof fn lemma_ts_findings(output: Seq<char>, tsc: Seq<Seq<Option<Seq<char>>>>, lint: Seq<Seq<Option<Seq<char>>>>)
    requires
        regex_captures(TS_COMPILER_PATTERN@, output) == Some(tsc),
        well_formed(tsc, 7),
        regex_captures(TS_LINT_PATTERN@, output) == Some(lint),
        well_formed(lint, 5),
    ensures
        spec_parse_ts_errors(output).len() >= tsc.len(),
        forall|i: int| 0 <= i < tsc.len() ==> {
            let d = #[trigger] spec_parse_ts_errors(output)[i];
            &&& d.file == tsc[i][1]->Some_0
            &&& d.rule == tsc[i][5]->Some_0
            &&& d.message == tsc[i][6]->Some_0
            &&& (d.severity == Severity::Error <==> tsc[i][4]->Some_0 == "error"@)
            &&& (d.severity == Severity::Warning <==> tsc[i][4]->Some_0 != "error"@)
        },
        forall|j: int| tsc.len() <= j < spec_parse_ts_errors(output).len() ==> {
            let d = #[trigger] spec_parse_ts_errors(output)[j];
            d.rule == "lint"@ && d.severity == Severity::Warning
        },
        forall|k: int| 0 <= k < lint.len() ==> exists|j: int| {
            &&& 0 <= j < spec_parse_ts_errors(output).len()
            &&& (#[trigger] spec_parse_ts_errors(output)[j]).file == (#[trigger] lint[k])[1]->Some_0
            &&& spec_parse_ts_errors(output)[j].line == number_or_zero(lint[k][2]->Some_0)
        },
{
    let first = ts_compiler_diagnostics(output);
    lemma_add_lint(first, lint);
    let r = spec_parse_ts_errors(output);
    assert(r == add_lint_matches(first, lint));
    assert forall|i: int| 0 <= i < tsc.len() implies #[trigger] r[i] == ts_compiler_diagnostic(tsc[i]) by {
        assert(r.take(first.len() as int)[i] == r[i]);
    }
}

/// One diagnostic per match of `TS_COMPILER_PATTERN`, in order.
pub fn ts_compiler_from_matches(caps: &Vec<Vec<Option<String>>>) -> (r: Vec<LintDiagnostic>)
    requires
        well_formed(caps.deep_view(), 7),
    ensures
        diagnostic_views(r@) == caps.deep_view().map_values(|c: Seq<Option<Seq<char>>>| ts_compiler_diagnostic(c)),
{
    let ghost all = caps.deep_view().map_values(|c: Seq<Option<Seq<char>>>| ts_compiler_diagnostic(c));
    let mut r: Vec<LintDiagnostic> = Vec::new();
    let mut k: usize = 0;
    while k < caps.len()
        invariant
            k <= caps@.len(),
            well_formed(caps.deep_view(), 7),
            all == caps.deep_view().map_values(|c: Seq<Option<Seq<char>>>| ts_compiler_diagnostic(c)),
            diagnostic_views(r@) == all.take(k as int),
        decreases caps.len() - k,
    {
        let c = &caps[k];
        assert(caps.deep_view()[k as int] == c.deep_view());
        let kind = group_string(c, 4);
        let severity = if str_eq(kind.as_str(), "error") { Severity::Error } else { Severity::Warning };
        let d = LintDiagnostic {
            file: group_string(c, 1),
            line: group_number(c, 2),
            col: group_number(c, 3),
            rule: group_string(c, 5),
            severity,
            message: group_string(c, 6),
            suggestion: None,
        };
        let ghost prev = r@;
        r.push(d);
        assert(diagnostic_views(r@) =~= diagnostic_views(prev).push(d@));
        assert(all.take(k + 1) =~= all.take(k as int).push(all[k as int]));
        k = k + 1;
    }
    assert(all.take(caps@.len() as int) =~= all);
    r
}

/// Whether some diagnostic of `ds` is at `line` of `file`.
pub fn has_line(ds: &Vec<LintDiagnostic>, file: &str, line: usize) -> (r: bool)
    ensures
        r == reports_line(diagnostic_views(ds@), file@, line),
{
    let ghost views = diagnostic_views(ds@);
    let mut i: usize = 0;
    while i < ds.len()
        invariant
            i <= ds@.len(),
            views == diagnostic_views(ds@),
            forall|j: int| 0 <= j < i ==> !((#[trigger] views[j]).file == file@ && views[j].line == line),
        decreases ds.len() - i,
    {
        assert(views[i as int] == ds@[i as int]@);
        if ds[i].line == line && str_eq(ds[i].file.as_str(), file) {
            return true;
        }
        i = i + 1;
    }
    false
}

/// `ds` followed by the linter findings of `caps` (see `add_lint_matches`).
pub fn with_lint_matches(ds: Vec<LintDiagnostic>, caps: &Vec<Vec<Option<String>>>) -> (r: Vec<LintDiagnostic>)
    requires
        well_formed(caps.deep_view(), 5),
    ensures
        diagnostic_views(r@) == add_lint_matches(diagnostic_views(ds@), caps.deep_view()),
{
    let ghost start = diagnostic_views(ds@);
    let ghost all = caps.deep_view();
    let mut r = ds;
    assert(all.take(0) =~= Seq::<Seq<Option<Seq<char>>>>::empty());
    let mut k: usize = 0;
    while k < caps.len()
        invariant
            k <= caps@.len(),
            all == caps.deep_view(),
            well_formed(all, 5),
            diagnostic_views(r@) == add_lint_matches(start, all.take(k as int)),
        decreases caps.len() - k,
    {
        let c = &caps[k];
        assert(all[k as int] == c.deep_view());
        assert(all.take(k + 1).drop_last() =~= all.take(k as int));
        assert(all.take(k + 1).last() == all[k as int]);
        let file = group_string(c, 1);
        let line = group_number(c, 2);
        if !has_line(&r, file.as_str(), line) {
            let d = LintDiagnostic {
                file,
                line,
                col: group_number(c, 3),
                rule: String::from_str("lint"),
                severity: Severity::Warning,
                message: group_string(c, 4),
                suggestion: None,
            };
            let ghost prev = r@;
            r.push(d);
            assert(diagnostic_views(r@) =~= diagnostic_views(prev).push(d@));
        }
        k = k + 1;
    }
    assert(all.take(caps@.len() as int) =~= all);
    r
}

/// The compiler diagnostics in a text.
fn parse_ts_compiler(output: &str) -> (r: Vec<LintDiagnostic>)
    ensures
        diagnostic_views(r@) == ts_compiler_diagnostics(output@),
{
    match captures_all(TS_COMPILER_PATTERN, output) {
        Some(caps) => {
            if check_well_formed(&caps, 7) {
                ts_compiler_from_matches(&caps)
            } else {
                assert(diagnostic_views(Seq::<LintDiagnostic>::empty()) =~= seq![]);
                Vec::new()
            }
        },
        None => {
            assert(diagnostic_views(Seq::<LintDiagnostic>::empty()) =~= seq![]);
            Vec::new()
        },
    }
}

/// The diagnostics in a TypeScript tool's output (see `spec_parse_ts_errors`).
pub fn parse_ts_errors(output: &str) -> (r: Vec<LintDiagnostic>)
    ensures
        diagnostic_views(r@) == spec_parse_ts_errors(output@),
{
    let first = parse_ts_compiler(output);
    match captures_all(TS_LINT_PATTERN, output) {
        Some(caps) => {
            if check_well_formed(&caps, 5) {
                with_lint_matches(first, &caps)
            } else {
                first
            }
        },
        None => first,
    }
}

} // verus!
