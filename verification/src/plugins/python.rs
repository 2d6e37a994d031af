use vstd::prelude::*;
use crate::config::PocConfig;
use crate::json::{get_items, get_member, get_number, get_text, json_from_str, json_model, json_parse, member, member_of, number_of, or_text, text_of, text_or, JsonModel};
use crate::pattern::{captures_all, check_well_formed, group, group_number, group_string, number_or_zero, regex_captures, well_formed};
use crate::plugins::{Plugin, assemble_build, build_outcome, command, str_views, CommandSpec, ProcessOutput, Stream};
use crate::text::str_eq;
use crate::types::{diagnostic_views, BuildOpts, BuildResult, DiagnosticView, Language, LintDiagnostic, LintOpts, LintResult, Severity};

verus! {

/// Installs, tests and runs Python projects with a runner (`uv`, `poetry`,
/// `pdm` or `pip`), and lints them.
#[derive(Debug)]
pub struct PythonPlugin {
    pub runner: String,
    pub linter: String,
}

/// No diagnostic is an error.
pub open spec fn no_errors(ds: Seq<LintDiagnostic>) -> bool {
    forall|k: int| 0 <= k < ds.len() ==> (#[trigger] ds[k]).severity != Severity::Error
}

/// Whether no diagnostic is an error.
pub fn all_below_error(ds: &Vec<LintDiagnostic>) -> (r: bool)
    ensures
        r == no_errors(ds@),
{
    let mut k: usize = 0;
    while k < ds.len()
        invariant
            k <= ds@.len(),
            forall|j: int| 0 <= j < k ==> (#[trigger] ds@[j]).severity != Severity::Error,
        decreases ds.len() - k,
    {
        if ds[k].severity == Severity::Error {
            return false;
        }
        k = k + 1;
    }
    true
}

/// The module a project runs as: the name of its directory, or `__main__`
/// when it has none.
pub fn guess_module_name(dir_name: Option<&str>) -> (r: String)
    ensures
        r@ == match dir_name { Some(n) => n@, None => "__main__"@ },
{
    match dir_name {
        Some(n) => String::from_str(n),
        None => String::from_str("__main__"),
    }
}

/// What pylint is pointed at: the project directory when it has a `src`
/// directory, the working directory otherwise.
pub fn pylint_target(project: &str, has_src: bool) -> (r: String)
    ensures
        r@ == if has_src { project@ } else { "."@ },
{
    if has_src { String::from_str(project) } else { String::from_str(".") }
}

impl Plugin for PythonPlugin {
    open spec fn handles(&self) -> Language {
        Language::Python
    }

    fn language(&self) -> (r: Language) {
        Language::Python
    }
}

impl PythonPlugin {
    /// The plugin with the Python runner and linter of `config`.
    pub fn new(config: &PocConfig) -> (r: Self)
        ensures
            r.runner == config.python.runner,
            r.linter == config.lint.python,
    {
        PythonPlugin { runner: config.python.runner.clone(), linter: config.lint.python.clone() }
    }

    /// The install step: `uv sync`, `poetry install`, `pdm install`, or
    /// `pip install -e .` for any other runner.
    pub fn install_command(&self) -> (r: CommandSpec)
        ensures
            r@ == if self.runner@ == "uv"@ {
                ("uv"@, seq!["sync"@])
            } else if self.runner@ == "poetry"@ {
                ("poetry"@, seq!["install"@])
            } else if self.runner@ == "pdm"@ {
                ("pdm"@, seq!["install"@])
            } else {
                ("pip"@, seq!["install"@, "-e"@, "."@])
            },
    {
        let r = if str_eq(self.runner.as_str(), "uv") {
            command("uv", &["sync"])
        } else if str_eq(self.runner.as_str(), "poetry") {
            command("poetry", &["install"])
        } else if str_eq(self.runner.as_str(), "pdm") {
            command("pdm", &["install"])
        } else {
            command("pip", &["install", "-e", "."])
        };
        assert(r@.1 =~= (if self.runner@ == "uv"@ {
            ("uv"@, seq!["sync"@])
        } else if self.runner@ == "poetry"@ {
            ("poetry"@, seq!["install"@])
        } else if self.runner@ == "pdm"@ {
            ("pdm"@, seq!["install"@])
        } else {
            ("pip"@, seq!["install"@, "-e"@, "."@])
        }).1);
        r
    }

    /// The test step: pytest through `uv` or `poetry`, or on its own.
    pub fn test_command(&self) -> (r: CommandSpec)
        ensures
            r@ == if self.runner@ == "uv"@ {
                ("uv"@, seq!["run"@, "pytest"@])
            } else if self.runner@ == "poetry"@ {
                ("poetry"@, seq!["run"@, "pytest"@])
            } else {
                ("pytest"@, seq![])
            },
    {
        let r = if str_eq(self.runner.as_str(), "uv") {
            command("uv", &["run", "pytest"])
        } else if str_eq(self.runner.as_str(), "poetry") {
            command("poetry", &["run", "pytest"])
        } else {
            command("pytest", &[])
        };
        assert(r@.1 =~= (if self.runner@ == "uv"@ {
            ("uv"@, seq!["run"@, "pytest"@])
        } else if self.runner@ == "poetry"@ {
            ("poetry"@, seq!["run"@, "pytest"@])
        } else {
            ("pytest"@, seq![])
        }).1);
        r
    }

    /// The run step: `python -m <module>`, through `uv` or `poetry` when
    /// they are the runner.
    pub fn run_command(&self, module: &str) -> (r: CommandSpec)
        ensures
            r@ == if self.runner@ == "uv"@ {
                ("uv"@, seq!["run"@, "python"@, "-m"@, module@])
            } else if self.runner@ == "poetry"@ {
                ("poetry"@, seq!["run"@, "python"@, "-m"@, module@])
            } else {
                ("python"@, seq!["-m"@, module@])
            },
    {
        let r = if str_eq(self.runner.as_str(), "uv") {
            command("uv", &["run", "python", "-m", module])
        } else if str_eq(self.runner.as_str(), "poetry") {
            command("poetry", &["run", "python", "-m", module])
        } else {
            command("python", &["-m", module])
        };
        assert(r@.1 =~= (if self.runner@ == "uv"@ {
            ("uv"@, seq!["run"@, "python"@, "-m"@, module@])
        } else if self.runner@ == "poetry"@ {
            ("poetry"@, seq!["run"@, "python"@, "-m"@, module@])
        } else {
            ("python"@, seq!["-m"@, module@])
        }).1);
        r
    }

    /// The lint step: ruff with JSON output (fixing when asked, through `uv`
    /// when it is the runner), pylint with JSON output on `target`, or flake8
    /// with JSON output for any other linter.
    pub fn lint_command(&self, opts: &LintOpts, target: &str) -> (r: CommandSpec)
        ensures
            r@ == if self.linter@ == "ruff"@ {
                let args = seq!["check"@, "--output-format=json"@] + (if opts.fix { seq!["--fix"@] } else { seq![] }) + seq!["."@];
                if self.runner@ == "uv"@ { ("uv"@, seq!["run"@, "ruff"@] + args) } else { ("ruff"@, args) }
            } else if self.linter@ == "pylint"@ {
                ("pylint"@, seq!["--output-format=json"@, target@])
            } else {
                ("flake8"@, seq!["--format=json"@, "."@])
            },
    {
        let ruff = str_eq(self.linter.as_str(), "ruff");
        let uv = str_eq(self.runner.as_str(), "uv");
        let r = if ruff {
            if uv {
                if opts.fix {
                    command("uv", &["run", "ruff", "check", "--output-format=json", "--fix", "."])
                } else {
                    command("uv", &["run", "ruff", "check", "--output-format=json", "."])
                }
            } else {
                if opts.fix {
                    command("ruff", &["check", "--output-format=json", "--fix", "."])
                } else {
                    command("ruff", &["check", "--output-format=json", "."])
                }
            }
        } else if str_eq(self.linter.as_str(), "pylint") {
            command("pylint", &["--output-format=json", target])
        } else {
            command("flake8", &["--format=json", "."])
        };
        assert(r@.1 =~= (if self.linter@ == "ruff"@ {
            let args = seq!["check"@, "--output-format=json"@] + (if opts.fix { seq!["--fix"@] } else { seq![] }) + seq!["."@];
            if self.runner@ == "uv"@ { ("uv"@, seq!["run"@, "ruff"@] + args) } else { ("ruff"@, args) }
        } else if self.linter@ == "pylint"@ {
            ("pylint"@, seq!["--output-format=json"@, target@])
        } else {
            ("flake8"@, seq!["--format=json"@, "."@])
        }).1);
        r
    }

    /// The build result: no diagnostics, and the outcome of the tests or the
    /// run (standard output, a newline, standard error) when one followed,
    /// else of the install step (its standard error).
    pub fn finish_build(&self, opts: &BuildOpts, main: &ProcessOutput, follow: Option<&ProcessOutput>) -> (r: BuildResult)
        ensures
            r.errors@.len() == 0,
            (r.success, r.output@) == build_outcome(*opts, *main, match follow { Some(f) => Some(*f), None => None }, main.stderr@, Stream::Both, Stream::Both),
    {
        assemble_build(opts, main, follow, main.stderr.clone(), Stream::Both, Stream::Both, Vec::new())
    }

    /// The lint result: ruff's JSON, or the text of other linters, from the
    /// standard output; a success when the linter succeeded and no finding is
    /// an error.
    pub fn finish_lint(&self, out: &ProcessOutput) -> (r: LintResult)
        ensures
            diagnostic_views(r.diagnostics@) == if self.linter@ == "ruff"@ {
                spec_parse_ruff_json(out.stdout@)
            } else {
                spec_parse_python_lint_output(out.stdout@)
            },
            r.success == (out.success && no_errors(r.diagnostics@)),
    {
        let diagnostics = if str_eq(self.linter.as_str(), "ruff") {
            parse_ruff_json(out.stdout.as_str())
        } else {
            parse_python_lint_output(out.stdout.as_str())
        };
        let success = out.success && all_below_error(&diagnostics);
        LintResult { success, diagnostics }
    }

    /// The directories that cleaning searches the project for and removes.
    pub fn clean_patterns(&self) -> (r: Vec<&'static str>)
        ensures
            str_views(r@) == seq!["__pycache__"@, ".pytest_cache"@, "*.egg-info"@, ".ruff_cache"@],
    {
        let r = vec!["__pycache__", ".pytest_cache", "*.egg-info", ".ruff_cache"];
        assert(str_views(r@) =~= seq!["__pycache__"@, ".pytest_cache"@, "*.egg-info"@, ".ruff_cache"@]);
        r
    }

    /// `find <root> -name <pattern> -exec rm -rf {} +`.
    pub fn clean_command(&self, root: &str, pattern: &str) -> (r: CommandSpec)
        ensures
            r@ == ("find"@, seq![root@, "-name"@, pattern@, "-exec"@, "rm"@, "-rf"@, "{}"@, "+"@]),
    {
        let r = command("find", &[root, "-name", pattern, "-exec", "rm", "-rf", "{}", "+"]);
        assert(r@.1 =~= seq![root@, "-name"@, pattern@, "-exec"@, "rm"@, "-rf"@, "{}"@, "+"@]);
        r
    }
}

// ---------------------------------------------------------------------------
// ruff's JSON
// ---------------------------------------------------------------------------

/// The diagnostic that one item of ruff's JSON stands for.
pub open spec fn ruff_diagnostic(item: JsonModel) -> DiagnosticView {
    DiagnosticView {
        file: text_or(text_of(member(item, "filename"@)), seq![]),
        line: match number_of(member_of(member(item, "location"@), "row"@)) { Some(n) => n as usize, None => 0usize },
        col: match number_of(member_of(member(item, "location"@), "column"@)) { Some(n) => n as usize, None => 0usize },
        rule: text_or(text_of(member(item, "code"@)), "unknown"@),
        severity: Severity::Warning,
        message: text_or(text_of(member(item, "message"@)), seq![]),
        suggestion: text_of(member_of(member(item, "fix"@), "message"@)),
    }
}

/// The diagnostics in ruff's JSON output: one per item when the output is a
/// JSON array, none otherwise.
pub open spec fn spec_parse_ruff_json(output: Seq<char>) -> Seq<DiagnosticView> {
    match json_parse(output) {
        Some(JsonModel::Array(items)) => items.map_values(|i: JsonModel| ruff_diagnostic(i)),
        _ => seq![],
    }
}

fn ruff_item(item: &serde_json::Value) -> (r: LintDiagnostic)
    ensures
        r@ == ruff_diagnostic(json_model(*item)),
{
    let ghost m = json_model(*item);
    let file = or_text(get_text(get_member(Some(item), "filename")), "");
    let location = get_member(Some(item), "location");
    assert(match location { Some(l) => member(m, "location"@) == Some(json_model(*l)), None => member(m, "location"@) is None });
    let row = get_number(get_member(location, "row"));
    assert(row == number_of(member_of(member(m, "location"@), "row"@)));
    let line: usize = match row { Some(n) => n as usize, None => 0 };
    let column = get_number(get_member(location, "column"));
    assert(column == number_of(member_of(member(m, "location"@), "column"@)));
    let col: usize = match column { Some(n) => n as usize, None => 0 };
    let rule = or_text(get_text(get_member(Some(item), "code")), "unknown");
    let message = or_text(get_text(get_member(Some(item), "message")), "");
    let fix = get_member(Some(item), "fix");
    assert(match fix { Some(f) => member(m, "fix"@) == Some(json_model(*f)), None => member(m, "fix"@) is None });
    let suggestion = get_text(get_member(fix, "message"));
    assert(match suggestion { Some(t) => Some(t@) == text_of(member_of(member(m, "fix"@), "message"@)), None => text_of(member_of(member(m, "fix"@), "message"@)) is None });
    proof {
        reveal_strlit("");
    }
    let d = LintDiagnostic { file, line, col, rule, severity: Severity::Warning, message, suggestion };
    assert(d@.file == ruff_diagnostic(m).file);
    assert(d@.line == ruff_diagnostic(m).line);
    assert(d@.col == ruff_diagnostic(m).col);
    assert(d@.rule == ruff_diagnostic(m).rule);
    assert(d@.message == ruff_diagnostic(m).message);
    assert(d@.suggestion == ruff_diagnostic(m).suggestion);
    d
}

/// The diagnostics of ruff's parsed JSON output: one per item when it is an
/// array, none otherwise.
pub fn ruff_diagnostics_of(doc: &serde_json::Value) -> (r: Vec<LintDiagnostic>)
    ensures
        diagnostic_views(r@) == match json_model(*doc) {
            JsonModel::Array(items) => items.map_values(|i: JsonModel| ruff_diagnostic(i)),
            _ => seq![],
        },
{
    let mut r: Vec<LintDiagnostic> = Vec::new();
    assert(diagnostic_views(r@) =~= seq![]);
    let items = match get_items(doc) {
        Some(items) => items,
        None => { return r; },
    };
    let ghost all = items@.map_values(|e: serde_json::Value| ruff_diagnostic(json_model(e)));
    let mut k: usize = 0;
    while k < items.len()
        invariant
            k <= items@.len(),
            all == items@.map_values(|e: serde_json::Value| ruff_diagnostic(json_model(e))),
            diagnostic_views(r@) == all.take(k as int),
        decreases items.len() - k,
    {
        let d = ruff_item(&items[k]);
        let ghost prev = r@;
        r.push(d);
        assert(diagnostic_views(r@) =~= diagnostic_views(prev).push(d@));
        assert(all.take(k + 1) =~= all.take(k as int).push(all[k as int]));
        k = k + 1;
    }
    assert(all.take(items@.len() as int) =~= all);
    assert(all =~= items@.map_values(|e: serde_json::Value| json_model(e)).map_values(|i: JsonModel| ruff_diagnostic(i)));
    r
}

/// The diagnostics in ruff's JSON output.
pub fn parse_ruff_json(output: &str) -> (r: Vec<LintDiagnostic>)
    ensures
        diagnostic_views(r@) == spec_parse_ruff_json(output@),
{
    match json_from_str(output) {
        Some(v) => ruff_diagnostics_of(&v),
        None => {
            let r: Vec<LintDiagnostic> = Vec::new();
            assert(diagnostic_views(r@) =~= seq![]);
            r
        },
    }
}

// ---------------------------------------------------------------------------
// Other linters' text
// ---------------------------------------------------------------------------

/// A finding of pylint or flake8 in text form: file, line, column, code,
/// message.
pub const PYTHON_LINT_PATTERN: &'static str = r"(.+\.py):(\d+):(\d+):\s*(\w+)\s+(.+)";

/// The diagnostic that one match of `PYTHON_LINT_PATTERN` stands for.
pub open spec fn python_lint_diagnostic(c: Seq<Option<Seq<char>>>) -> DiagnosticView {
    DiagnosticView {
        file: group(c, 1),
        line: number_or_zero(group(c, 2)),
        col: number_or_zero(group(c, 3)),
        rule: group(c, 4),
        severity: Severity::Warning,
        message: group(c, 5),
        suggestion: None,
    }
}

/// The findings in a Python linter's text output.
pub open spec fn spec_parse_python_lint_output(output: Seq<char>) -> Seq<DiagnosticView> {
    match regex_captures(PYTHON_LINT_PATTERN@, output) {
        Some(caps) => if well_formed(caps, 6) {
            caps.map_values(|c: Seq<Option<Seq<char>>>| python_lint_diagnostic(c))
        } else {
            seq![]
        },
        None => seq![],
    }
}

/// Law: a Python linter's text output gives one warning per match of
/// `file.py:line:col: code message`, in order, keeping the file, the code
/// as its rule, and the message.
pub proof fn lemma_python_lint_findings(output: Seq<char>, caps: Seq<Seq<Option<Seq<char>>>>)
    requires
        regex_captures(PYTHON_LINT_PATTERN@, output) == Some(caps),
        well_formed(caps, 6),
    ensures
        spec_parse_python_lint_output(output).len() == caps.len(),
        forall|i: int| 0 <= i < caps.len() ==> {
            let d = #[trigger] spec_parse_python_lint_output(output)[i];
            &&& d.file == caps[i][1]->Some_0
            &&& d.rule == caps[i][4]->Some_0
            &&& d.message == caps[i][5]->Some_0
            &&& d.severity == Severity::Warning
        },
{
}

/// Law: ruff's JSON array gives one warning per item, in order, keeping the
/// item's file name, code and message when they are strings; anything but
/// a JSON array gives nothing.
pub proof fn lemma_ruff_findings(output: Seq<char>)
    ensures
        match json_parse(output) {
            Some(JsonModel::Array(items)) => {
                &&& spec_parse_ruff_json(output).len() == items.len()
                &&& forall|i: int| 0 <= i < items.len() ==> {
                    let d = #[trigger] spec_parse_ruff_json(output)[i];
                    &&& d.severity == Severity::Warning
                    &&& (text_of(member(items[i], "filename"@)) matches Some(f) ==> d.file == f)
                    &&& (text_of(member(items[i], "code"@)) matches Some(c) ==> d.rule == c)
                    &&& (text_of(member(items[i], "message"@)) matches Some(m) ==> d.message == m)
                }
            },
            _ => spec_parse_ruff_json(output).len() == 0,
        },
{
}

/// One diagnostic per match of `PYTHON_LINT_PATTERN`, in order.
pub fn python_lint_from_matches(caps: &Vec<Vec<Option<String>>>) -> (r: Vec<LintDiagnostic>)
    requires
        well_formed(caps.deep_view(), 6),
    ensures
        diagnostic_views(r@) == caps.deep_view().map_values(|c: Seq<Option<Seq<char>>>| python_lint_diagnostic(c)),
{
    let ghost all = caps.deep_view().map_values(|c: Seq<Option<Seq<char>>>| python_lint_diagnostic(c));
    let mut r: Vec<LintDiagnostic> = Vec::new();
    let mut k: usize = 0;
    while k < caps.len()
        invariant
            k <= caps@.len(),
            well_formed(caps.deep_view(), 6),
            all == caps.deep_view().map_values(|c: Seq<Option<Seq<char>>>| python_lint_diagnostic(c)),
            diagnostic_views(r@) == all.take(k as int),
        decreases caps.len() - k,
    {
        let c = &caps[k];
        assert(caps.deep_view()[k as int] == c.deep_view());
        let d = LintDiagnostic {
            file: group_string(c, 1),
            line: group_number(c, 2),
            col: group_number(c, 3),
            rule: group_string(c, 4),
            severity: Severity::Warning,
            message: group_string(c, 5),
            suggestion: None,
        };
        let ghost prev = r@;
        r.push(d);
        assert(diagnostic_views(r@) =~= diagnostic_views(prev).push(d@));
        assert(all.take(k + 1) =~= all.take(k as int).push(all[k as int]));
        k = k + 1;
    }
    assert(all.take(caps@.len() as int) =~= all);
    r
}

/// The findings in a Python linter's text output.
pub fn parse_python_lint_output(output: &str) -> (r: Vec<LintDiagnostic>)
    ensures
        diagnostic_views(r@) == spec_parse_python_lint_output(output@),
{
    match captures_all(PYTHON_LINT_PATTERN, output) {
        Some(caps) => {
            if check_well_formed(&caps, 6) {
                python_lint_from_matches(&caps)
            } else {
                assert(diagnostic_views(Seq::<LintDiagnostic>::empty()) =~= seq![]);
                Vec::new()
            }
        },
        None => {
            assert(diagnostic_views(Seq::<LintDiagnostic>::empty()) =~= seq![]);
            Vec::new()
        },
    }
}

} // verus!
