use vstd::prelude::*;
use crate::config::PocConfig;
use crate::json::{
    json_model, first_of, get_first, get_member, get_number, get_text, json_from_str, json_parse, member, member_of, number_of, or_text,
    text_of, text_or, JsonModel,
};
use crate::pattern::{captures_all, check_well_formed, group, group_number, group_string, number_or_zero, regex_captures, well_formed};
use crate::plugins::{Plugin, assemble_build, build_outcome, command, str_views, CommandSpec, ProcessOutput, Stream};
use crate::text::{contains, ends_with, lemma_lines_final_newline, lemma_trim_after_strip, trim_trailing_cr, without_trailing_cr, strip_cr, lemma_lines_of_newline, lemma_lines_split, lines, split_lines, starts_with, str_eq, to_chars, contains_chars, ends_with_chars, starts_with_chars};
use crate::types::{diagnostic_views, BuildOpts, BuildResult, DiagnosticView, Language, LintDiagnostic, LintOpts, LintResult, Severity};

verus! {

/// Builds Rust crates with `cargo`.
#[derive(Debug)]
pub struct RustPlugin {
    pub linker: String,
    pub linter: String,
}

impl Plugin for RustPlugin {
    open spec fn handles(&self) -> Language {
        Language::Rust
    }

    fn language(&self) -> (r: Language) {
        Language::Rust
    }
}

impl RustPlugin {
    /// The plugin with the linker and the Rust linter of `config`.
    pub fn new(config: &PocConfig) -> (r: Self)
        ensures
            r.linker == config.rust.linker,
            r.linter == config.lint.rust,
    {
        RustPlugin { linker: config.rust.linker.clone(), linter: config.lint.rust.clone() }
    }

    /// The value of `RUSTFLAGS` for every `cargo` run: a linker other than
    /// `default` is passed to the compiler; otherwise the variable is left
    /// alone.
    pub fn rustflags(&self) -> (r: Option<String>)
        ensures
            match r {
                Some(f) => self.linker@ != "default"@ && f@ == "-C linker="@ + self.linker@,
                None => self.linker@ == "default"@,
            },
    {
        if str_eq(self.linker.as_str(), "default") {
            None
        } else {
            let mut f = String::from_str("-C linker=");
            f.append(self.linker.as_str());
            Some(f)
        }
    }

    /// `cargo build [--release]`.
    pub fn build_command(&self, opts: &BuildOpts) -> (r: CommandSpec)
        ensures
            r@ == ("cargo"@, if opts.release { seq!["build"@, "--release"@] } else { seq!["build"@] }),
    {
        let r = if opts.release { command("cargo", &["build", "--release"]) } else { command("cargo", &["build"]) };
        assert(r@.1 =~= if opts.release { seq!["build"@, "--release"@] } else { seq!["build"@] });
        r
    }

    /// `cargo test`.
    pub fn test_command(&self) -> (r: CommandSpec)
        ensures
            r@ == ("cargo"@, seq!["test"@]),
    {
        let r = command("cargo", &["test"]);
        assert(r@.1 =~= seq!["test"@]);
        r
    }

    /// `cargo run`.
    pub fn run_command(&self) -> (r: CommandSpec)
        ensures
            r@ == ("cargo"@, seq!["run"@]),
    {
        let r = command("cargo", &["run"]);
        assert(r@.1 =~= seq!["run"@]);
        r
    }

    /// `cargo clean`.
    pub fn clean_command(&self) -> (r: CommandSpec)
        ensures
            r@ == ("cargo"@, seq!["clean"@]),
    {
        let r = command("cargo", &["clean"]);
        assert(r@.1 =~= seq!["clean"@]);
        r
    }

    /// Clippy with JSON messages (fixing what it can when asked), or
    /// `cargo check` with JSON messages for any other linter.
    pub fn lint_command(&self, opts: &LintOpts) -> (r: CommandSpec)
        ensures
            r@ == ("cargo"@, if self.linter@ == "clippy"@ {
                if opts.fix {
                    seq!["clippy"@, "--fix"@, "--allow-dirty"@, "--message-format=json"@]
                } else {
                    seq!["clippy"@, "--message-format=json"@]
                }
            } else {
                seq!["check"@, "--message-format=json"@]
            }),
    {
        let r = if str_eq(self.linter.as_str(), "clippy") {
            if opts.fix {
                command("cargo", &["clippy", "--fix", "--allow-dirty", "--message-format=json"])
            } else {
                command("cargo", &["clippy", "--message-format=json"])
            }
        } else {
            command("cargo", &["check", "--message-format=json"])
        };
        assert(r@.1 =~= if self.linter@ == "clippy"@ {
            if opts.fix {
                seq!["clippy"@, "--fix"@, "--allow-dirty"@, "--message-format=json"@]
            } else {
                seq!["clippy"@, "--message-format=json"@]
            }
        } else {
            seq!["check"@, "--message-format=json"@]
        });
        r
    }

    /// The build result: the compiler errors in the build's standard error,
    /// and the outcome of the tests (their standard error) or of the run (its
    /// standard output) when one followed, else of the build.
    pub fn finish_build(&self, opts: &BuildOpts, main: &ProcessOutput, follow: Option<&ProcessOutput>) -> (r: BuildResult)
        ensures
            diagnostic_views(r.errors@) == spec_parse_cargo_diagnostics(main.stderr@),
            (r.success, r.output@) == build_outcome(*opts, *main, match follow { Some(f) => Some(*f), None => None }, main.stderr@, Stream::Stderr, Stream::Stdout),
    {
        let errors = parse_cargo_diagnostics(main.stderr.as_str());
        assemble_build(opts, main, follow, main.stderr.clone(), Stream::Stderr, Stream::Stdout, errors)
    }

    /// The lint result: the JSON messages in the linter's standard error.
    pub fn finish_lint(&self, out: &ProcessOutput) -> (r: LintResult)
        ensures
            r.success == out.success,
            diagnostic_views(r.diagnostics@) == spec_parse_cargo_json(out.stderr@),
    {
        LintResult { success: out.success, diagnostics: parse_cargo_json_diagnostics(out.stderr.as_str()) }
    }
}

/// The directory of `target` whose artifacts are copied.
pub fn artifact_profile(release: bool) -> (r: &'static str)
    ensures
        r@ == if release { "release"@ } else { "debug"@ },
{
    if release { "release" } else { "debug" }
}

/// A file of the target directory is copied to `build/` unless it is a
/// dependency file, a fingerprint, a library archive of the crate or a lock;
/// where its permissions are known (`mode`), a file that no one may execute
/// is copied only when it is a shared or static library.
pub open spec fn spec_copies_artifact(name: Seq<char>, mode: Option<u32>) -> bool {
    let skipped = ends_with(name, ".d"@) || ends_with(name, ".fingerprint"@)
        || (starts_with(name, "lib"@) && ends_with(name, ".rlib"@)) || contains(name, ".cargo-lock"@);
    let not_executable = match mode {
        Some(m) => m & 0o111u32 == 0 && !ends_with(name, ".so"@) && !ends_with(name, ".dylib"@) && !ends_with(name, ".a"@),
        None => false,
    };
    !skipped && !not_executable
}

/// Law: dependency files (`.d`), fingerprints, the crate's `lib*.rlib`
/// archives and lock files are never copied; any other file is copied when
/// its permissions are unknown or let someone execute it.
pub proof fn lemma_copied_artifacts(name: Seq<char>, mode: Option<u32>)
    ensures
        ends_with(name, ".d"@) || ends_with(name, ".fingerprint"@) || contains(name, ".cargo-lock"@)
            || (starts_with(name, "lib"@) && ends_with(name, ".rlib"@)) ==> !spec_copies_artifact(name, mode),
        !(ends_with(name, ".d"@) || ends_with(name, ".fingerprint"@) || contains(name, ".cargo-lock"@)
            || (starts_with(name, "lib"@) && ends_with(name, ".rlib"@)))
            && (mode is None || mode->Some_0 & 0o111u32 != 0) ==> spec_copies_artifact(name, mode),
{
}

/// Whether a file of the target directory is copied (see
/// `spec_copies_artifact`).
pub fn copies_artifact(name: &str, mode: Option<u32>) -> (r: bool)
    ensures
        r == spec_copies_artifact(name@, mode),
{
    let n = to_chars(name);
    let d = to_chars(".d");
    let fp = to_chars(".fingerprint");
    let lib = to_chars("lib");
    let rlib = to_chars(".rlib");
    let lock = to_chars(".cargo-lock");
    if ends_with_chars(n.as_slice(), d.as_slice()) || ends_with_chars(n.as_slice(), fp.as_slice())
        || (starts_with_chars(n.as_slice(), lib.as_slice()) && ends_with_chars(n.as_slice(), rlib.as_slice()))
        || contains_chars(n.as_slice(), lock.as_slice()) {
        return false;
    }
    match mode {
        Some(m) => {
            let so = to_chars(".so");
            let dylib = to_chars(".dylib");
            let a = to_chars(".a");
            if m & 0o111u32 == 0 && !ends_with_chars(n.as_slice(), so.as_slice())
                && !ends_with_chars(n.as_slice(), dylib.as_slice()) && !ends_with_chars(n.as_slice(), a.as_slice()) {
                return false;
            }
            true
        },
        None => true,
    }
}

// ---------------------------------------------------------------------------
// Compiler errors in plain text
// ---------------------------------------------------------------------------

/// An error headline followed on the next line by its location.
pub const CARGO_ERROR_PATTERN: &'static str = r"(?m)^error\[?\w*\]?: (.+)\n\s*--> (.+):(\d+):(\d+)";

/// The diagnostic that one match of `CARGO_ERROR_PATTERN` stands for.
pub open spec fn cargo_diagnostic(c: Seq<Option<Seq<char>>>) -> DiagnosticView {
    DiagnosticView {
        file: group(c, 2),
        line: number_or_zero(group(c, 3)),
        col: number_or_zero(group(c, 4)),
        rule: "compiler"@,
        severity: Severity::Error,
        message: group(c, 1),
        suggestion: None,
    }
}

/// Law: cargo's plain output gives one error per match of an `error`
/// headline followed by its `-->` location, in order: the file is the
/// location's, the message the headline's.
pub proof fn lemma_cargo_plain_findings(output: Seq<char>, caps: Seq<Seq<Option<Seq<char>>>>)
    requires
        regex_captures(CARGO_ERROR_PATTERN@, output) == Some(caps),
        well_formed(caps, 5),
    ensures
        spec_parse_cargo_diagnostics(output).len() == caps.len(),
        forall|i: int| 0 <= i < caps.len() ==> {
            let d = #[trigger] spec_parse_cargo_diagnostics(output)[i];
            &&& d.file == caps[i][2]->Some_0
            &&& d.message == caps[i][1]->Some_0
            &&& d.severity == Severity::Error
        },
{
}

/// The errors in `cargo build`'s standard error.
pub open spec fn spec_parse_cargo_diagnostics(output: Seq<char>) -> Seq<DiagnosticView> {
    match regex_captures(CARGO_ERROR_PATTERN@, output) {
        Some(caps) => if well_formed(caps, 5) {
            caps.map_values(|c: Seq<Option<Seq<char>>>| cargo_diagnostic(c))
        } else {
            seq![]
        },
        None => seq![],
    }
}

/// One diagnostic per match of `CARGO_ERROR_PATTERN`, in order.
pub fn cargo_diagnostics_from_matches(caps: &Vec<Vec<Option<String>>>) -> (r: Vec<LintDiagnostic>)
    requires
        well_formed(caps.deep_view(), 5),
    ensures
        diagnostic_views(r@) == caps.deep_view().map_values(|c: Seq<Option<Seq<char>>>| cargo_diagnostic(c)),
{
    let ghost all = caps.deep_view().map_values(|c: Seq<Option<Seq<char>>>| cargo_diagnostic(c));
    let mut r: Vec<LintDiagnostic> = Vec::new();
    let mut k: usize = 0;
    while k < caps.len()
        invariant
            k <= caps@.len(),
            well_formed(caps.deep_view(), 5),
            all == caps.deep_view().map_values(|c: Seq<Option<Seq<char>>>| cargo_diagnostic(c)),
            diagnostic_views(r@) == all.take(k as int),
        decreases caps.len() - k,
    {
        let c = &caps[k];
        assert(caps.deep_view()[k as int] == c.deep_view());
        let d = LintDiagnostic {
            file: group_string(c, 2),
            line: group_number(c, 3),
            col: group_number(c, 4),
            rule: String::from_str("compiler"),
            severity: Severity::Error,
            message: group_string(c, 1),
            suggestion: None,
        };
        let ghost prev = r@;
        r.push(d);
        assert(diagnostic_views(r@) =~= diagnostic_views(prev).push(d@));
        assert(all.take(k + 1) =~= all.take(k as int).push(all[k as int]));
        k = k + 1;
    }
    assert(all.take(caps@.len() as int) =~= all);
    r
}

/// The errors in `cargo build`'s standard error.
pub fn parse_cargo_diagnostics(stderr: &str) -> (r: Vec<LintDiagnostic>)
    ensures
        diagnostic_views(r@) == spec_parse_cargo_diagnostics(stderr@),
{
    match captures_all(CARGO_ERROR_PATTERN, stderr) {
        Some(caps) => {
            if check_well_formed(&caps, 5) {
                cargo_diagnostics_from_matches(&caps)
            } else {
                assert(diagnostic_views(Seq::<LintDiagnostic>::empty()) =~= seq![]);
                Vec::new()
            }
        },
        None => {
            assert(diagnostic_views(Seq::<LintDiagnostic>::empty()) =~= seq![]);
            Vec::new()
        },
    }
}

// ---------------------------------------------------------------------------
// Compiler messages as JSON
// ---------------------------------------------------------------------------

/// The severity of a compiler message level: `error`, `warning`, `note` and
/// `help` as themselves (the last two as information), anything else as a
/// warning.
pub open spec fn level_severity(level: Seq<char>) -> Severity {
    if level == "warning"@ {
        Severity::Warning
    } else if level == "error"@ {
        Severity::Error
    } else if level == "note"@ || level == "help"@ {
        Severity::Info
    } else {
        Severity::Warning
    }
}

/// Law: a compiler message level `error` is an error, `note` and `help` are
/// informational, and `warning` or any other level is a warning.
pub proof fn lemma_level_severity(level: Seq<char>)
    ensures
        (level_severity(level) == Severity::Error) <==> level == "error"@,
        (level_severity(level) == Severity::Info) <==> (level == "note"@ || level == "help"@),
        (level_severity(level) == Severity::Warning) <==> !(level == "error"@ || level == "note"@ || level == "help"@),
        level_severity(level) != Severity::Hint,
{
    reveal_strlit("error");
    reveal_strlit("warning");
    reveal_strlit("note");
    reveal_strlit("help");
    assert("error"@.len() == 5 && "note"@.len() == 4 && "help"@.len() == 4 && "warning"@.len() == 7);
    assert("note"@[0] != "help"@[0]);
}

/// The diagnostic that one JSON message of cargo stands for: a
/// `compiler-message` whose first span names a file.
pub open spec fn cargo_json_diagnostic(v: JsonModel) -> Option<DiagnosticView> {
    if text_of(member(v, "reason"@)) == Some("compiler-message"@) {
        match member(v, "message"@) {
            None => None,
            Some(msg) => {
                let span = first_of(member(msg, "spans"@));
                let file = match span {
                    Some(sp) => text_or(text_of(member(sp, "file_name"@)), seq![]),
                    None => seq![],
                };
                let line = match span {
                    Some(sp) => match number_of(member(sp, "line_start"@)) { Some(n) => n as usize, None => 0usize },
                    None => 0usize,
                };
                let col = match span {
                    Some(sp) => match number_of(member(sp, "column_start"@)) { Some(n) => n as usize, None => 0usize },
                    None => 0usize,
                };
                if file.len() > 0 {
                    Some(DiagnosticView {
                        file,
                        line,
                        col,
                        rule: text_or(text_of(member_of(member(msg, "code"@), "code"@)), "unknown"@),
                        severity: level_severity(text_or(text_of(member(msg, "level"@)), "error"@)),
                        message: text_or(text_of(member(msg, "message"@)), seq![]),
                        suggestion: text_of(member_of(first_of(member(msg, "children"@)), "message"@)),
                    })
                } else {
                    None
                }
            },
        }
    } else {
        None
    }
}

/// The diagnostic on one line of output, if the line is such a message.
/// Carriage returns at the end of the line are taken off first: JSON reads
/// them as whitespace after the value.
pub open spec fn cargo_line_diagnostic(line: Seq<char>) -> Option<DiagnosticView> {
    let t = trim_trailing_cr(line);
    if t.len() == 0 {
        None
    } else {
        match json_parse(t) {
            Some(v) => cargo_json_diagnostic(v),
            None => None,
        }
    }
}

/// The diagnostics on the lines `ls`, in order.
pub open spec fn cargo_lines_diagnostics(ls: Seq<Seq<char>>) -> Seq<DiagnosticView>
    decreases ls.len(),
{
    if ls.len() == 0 {
        seq![]
    } else {
        cargo_lines_diagnostics(ls.drop_last()) + match cargo_line_diagnostic(ls.last()) {
            Some(d) => seq![d],
            None => seq![],
        }
    }
}

/// The diagnostics in cargo's JSON output.
pub open spec fn spec_parse_cargo_json(output: Seq<char>) -> Seq<DiagnosticView> {
    cargo_lines_diagnostics(lines(output))
}

fn severity_of_level(level: &str) -> (r: Severity)
    ensures
        r == level_severity(level@),
{
    if str_eq(level, "warning") {
        Severity::Warning
    } else if str_eq(level, "error") {
        Severity::Error
    } else if str_eq(level, "note") || str_eq(level, "help") {
        Severity::Info
    } else {
        Severity::Warning
    }
}

/// The diagnostic on one line of cargo's JSON output, if any.
pub fn cargo_json_line(line: &str) -> (r: Option<LintDiagnostic>)
    ensures
        match r {
            Some(d) => cargo_line_diagnostic(line@) == Some(d@),
            None => cargo_line_diagnostic(line@) is None,
        },
{
    let t = without_trailing_cr(line);
    if t.as_str().unicode_len() == 0 {
        return None;
    }
    let v = match json_from_str(t.as_str()) {
        Some(v) => v,
        None => { return None; },
    };
    let reason = get_text(get_member(Some(&v), "reason"));
    let is_message = match &reason {
        Some(r) => str_eq(r.as_str(), "compiler-message"),
        None => false,
    };
    if !is_message {
        return None;
    }
    let ghost vm = json_model(v);
    let msg = match get_member(Some(&v), "message") {
        Some(m) => m,
        None => { return None; },
    };
    let ghost mm = json_model(*msg);
    assert(member(vm, "message"@) == Some(mm));
    let message = or_text(get_text(get_member(Some(msg), "message")), "");
    let level = or_text(get_text(get_member(Some(msg), "level")), "error");
    let severity = severity_of_level(level.as_str());
    let span = get_first(get_member(Some(msg), "spans"));
    assert(match span { Some(sp) => first_of(member(mm, "spans"@)) == Some(json_model(*sp)), None => first_of(member(mm, "spans"@)) is None });
    let file = match span {
        Some(sp) => or_text(get_text(get_member(Some(sp), "file_name")), ""),
        None => String::new(),
    };
    let line_num: usize = match span {
        Some(sp) => match get_number(get_member(Some(sp), "line_start")) { Some(n) => n as usize, None => 0 },
        None => 0,
    };
    let col: usize = match span {
        Some(sp) => match get_number(get_member(Some(sp), "column_start")) { Some(n) => n as usize, None => 0 },
        None => 0,
    };
    let rule = or_text(get_text(get_member(get_member(Some(msg), "code"), "code")), "unknown");
    let suggestion = get_text(get_member(get_first(get_member(Some(msg), "children")), "message"));
    proof {
        reveal_strlit("");
    }
    if file.as_str().is_empty() {
        assert(file@.len() == 0);
        return None;
    }
    assert(file@.len() > 0);
    let d = LintDiagnostic { file, line: line_num, col, rule, severity, message, suggestion };
    let ghost want = cargo_json_diagnostic(vm)->Some_0;
    assert(cargo_json_diagnostic(vm) is Some);
    assert(d@.file == want.file);
    assert(d@.line == want.line);
    assert(d@.col == want.col);
    assert(d@.rule == want.rule);
    assert(d@.severity == want.severity);
    assert(d@.message == want.message);
    assert(d@.suggestion == want.suggestion);
    Some(d)
}

/// The diagnostics in cargo's JSON output, one line at a time.
pub fn parse_cargo_json_diagnostics(output: &str) -> (r: Vec<LintDiagnostic>)
    ensures
        diagnostic_views(r@) == spec_parse_cargo_json(output@),
{
    let ls = split_lines(output);
    let ghost lv = crate::text::views(ls@);
    let mut r: Vec<LintDiagnostic> = Vec::new();
    let mut k: usize = 0;
    assert(diagnostic_views(r@) =~= seq![]);
    while k < ls.len()
        invariant
            k <= ls@.len(),
            lv == crate::text::views(ls@),
            lv == lines(output@),
            diagnostic_views(r@) == cargo_lines_diagnostics(lv.take(k as int)),
        decreases ls.len() - k,
    {
        assert(lv.take(k + 1).drop_last() =~= lv.take(k as int));
        match cargo_json_line(ls[k].as_str()) {
            Some(d) => {
                let ghost prev = r@;
                r.push(d);
                assert(diagnostic_views(r@) =~= diagnostic_views(prev).push(d@));
            },
            None => {
                assert(diagnostic_views(r@) + seq![] =~= diagnostic_views(r@));
            },
        }
        k = k + 1;
    }
    assert(lv.take(ls@.len() as int) =~= lv);
    r
}


proof fn lemma_lines_diagnostics_concat(x: Seq<Seq<char>>, y: Seq<Seq<char>>)
    ensures
        cargo_lines_diagnostics(x + y) == cargo_lines_diagnostics(x) + cargo_lines_diagnostics(y),
    decreases y.len(),
{
    if y.len() == 0 {
        assert(x + y =~= x);
    } else {
        lemma_lines_diagnostics_concat(x, y.drop_last());
        assert((x + y).drop_last() =~= x + y.drop_last());
        assert((x + y).last() == y.last());
    }
}

/// Law: the diagnostics of two cargo outputs joined by a newline are those of
/// the first followed by those of the second.
pub proof fn lemma_cargo_output_concat(a: Seq<char>, b: Seq<char>)
    ensures
        spec_parse_cargo_json(a + seq!['\n'] + b) == spec_parse_cargo_json(a) + spec_parse_cargo_json(b),
{
    lemma_lines_split(a, b, seq![]);
    let la = lines(a);
    if a.len() > 0 && a.last() != '\n' {
        // the newline ends the last line of `a`, taking at most a carriage
        // return off it, which the line's diagnostic does not depend on
        assert(Seq::<char>::empty() + a =~= a);
        lemma_lines_final_newline(a, seq![]);
        lemma_trim_after_strip(la.last());
        let lt = la.drop_last().push(strip_cr(la.last()));
        assert(lt.drop_last() =~= la.drop_last());
        assert(lt.last() == strip_cr(la.last()));
        assert(cargo_line_diagnostic(lt.last()) == cargo_line_diagnostic(la.last()));
        assert(cargo_lines_diagnostics(lt) == cargo_lines_diagnostics(la));
        lemma_lines_diagnostics_concat(lt, lines(b));
    } else {
        // the newline ends an empty last line, which holds no message
        if a.len() == 0 {
            assert(a + seq!['\n'] =~= seq!['\n']);
            lemma_lines_of_newline();
            assert(la =~= Seq::<Seq<char>>::empty());
        } else {
            let a0 = a.drop_last();
            assert(a0 + seq!['\n'] =~= a);
            lemma_lines_split(a0, seq!['\n'], seq![]);
            lemma_lines_of_newline();
            assert(a0 + seq!['\n'] + seq!['\n'] =~= a + seq!['\n']);
        }
        assert(lines(a + seq!['\n']) == la + seq![Seq::<char>::empty()]);
        lemma_lines_diagnostics_concat(la, seq![Seq::<char>::empty()]);
        assert(seq![Seq::<char>::empty()].drop_last() =~= Seq::<Seq<char>>::empty());
        let y = seq![Seq::<char>::empty()];
        assert(y.last().len() == 0);
        assert(trim_trailing_cr(y.last()) == y.last());
        assert(cargo_line_diagnostic(y.last()) is None);
        assert(cargo_lines_diagnostics(y.drop_last()) =~= Seq::<DiagnosticView>::empty());
        assert(cargo_lines_diagnostics(y) =~= Seq::<DiagnosticView>::empty());
        lemma_lines_diagnostics_concat(la + seq![Seq::<char>::empty()], lines(b));
        assert(cargo_lines_diagnostics(la) + Seq::<DiagnosticView>::empty() =~= cargo_lines_diagnostics(la));
    }
}

} // verus!
