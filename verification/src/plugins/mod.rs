pub mod c;
pub mod go;
pub mod python;
pub mod rust;
pub mod typescript;
pub mod zig;

use vstd::prelude::*;
use crate::text::views;
use crate::config::PocConfig;
use crate::types::{BuildOpts, BuildResult, Language, LintDiagnostic};

verus! {

/// A program to start in the project's directory, with its arguments.
#[derive(Debug)]
pub struct CommandSpec {
    pub program: String,
    pub args: Vec<String>,
}

impl View for CommandSpec {
    type V = (Seq<char>, Seq<Seq<char>>);

    open spec fn view(&self) -> (Seq<char>, Seq<Seq<char>>) {
        (self.program@, views(self.args@))
    }
}

/// The character views of a sequence of string slices.
pub open spec fn str_views(v: Seq<&str>) -> Seq<Seq<char>> {
    v.map_values(|s: &str| s@)
}

/// Owned copies of the texts in `args`.
pub fn owned_args(args: &[&str]) -> (r: Vec<String>)
    ensures
        views(r@) == str_views(args@),
{
    let mut r: Vec<String> = Vec::new();
    let mut i: usize = 0;
    while i < args.len()
        invariant
            i <= args@.len(),
            views(r@) == str_views(args@).take(i as int),
        decreases args.len() - i,
    {
        let a = String::from_str(args[i]);
        let ghost old_r = r@;
        r.push(a);
        proof {
            assert(views(r@) =~= views(old_r).push(a@));
            assert(str_views(args@).take(i + 1) =~= str_views(args@).take(i as int).push(args@[i as int]@));
        }
        i = i + 1;
    }
    assert(str_views(args@).take(args@.len() as int) =~= str_views(args@));
    r
}

/// A command made of a program name and its arguments.
pub fn command(program: &str, args: &[&str]) -> (r: CommandSpec)
    ensures
        r@ == (program@, str_views(args@)),
{
    CommandSpec { program: String::from_str(program), args: owned_args(args) }
}

/// What a finished program left behind: whether it exited successfully and
/// what it wrote to its two output streams.
#[derive(Debug)]
pub struct ProcessOutput {
    pub success: bool,
    pub stdout: String,
    pub stderr: String,
}

/// What a build does after the main build step.
#[derive(Clone, Copy, Debug, PartialEq, Eq, Structural)]
pub enum FollowUp {
    Test,
    Run,
    Done,
}

pub open spec fn spec_follow_up(opts: BuildOpts, build_succeeded: bool) -> FollowUp {
    if opts.test && build_succeeded {
        FollowUp::Test
    } else if opts.run && build_succeeded {
        FollowUp::Run
    } else {
        FollowUp::Done
    }
}

/// Law: tests follow only a successful build that asked for them; the
/// program is run only after a successful build that asked to run it and not
/// to test; a failed build is followed by nothing.
pub proof fn lemma_follow_up(opts: BuildOpts, build_succeeded: bool)
    ensures
        (spec_follow_up(opts, build_succeeded) == FollowUp::Test) <==> (build_succeeded && opts.test),
        (spec_follow_up(opts, build_succeeded) == FollowUp::Run) <==> (build_succeeded && !opts.test && opts.run),
        (spec_follow_up(opts, build_succeeded) == FollowUp::Done) <==> (!build_succeeded || (!opts.test && !opts.run)),
{
}

/// After a successful build, tests are run when asked for; otherwise the
/// artifact is run when asked for; a failed build is followed by nothing.
pub fn follow_up(opts: &BuildOpts, build_succeeded: bool) -> (r: FollowUp)
    ensures
        r == spec_follow_up(*opts, build_succeeded),
{
    if opts.test && build_succeeded {
        FollowUp::Test
    } else if opts.run && build_succeeded {
        FollowUp::Run
    } else {
        FollowUp::Done
    }
}

/// Which output stream of a program is reported.
#[derive(Clone, Copy, Debug, PartialEq, Eq, Structural)]
pub enum Stream {
    Stdout,
    Stderr,
    /// Standard output, a newline, then standard error.
    Both,
}

/// The text of a stream of a finished program.
pub open spec fn stream_text(o: ProcessOutput, s: Stream) -> Seq<char> {
    match s {
        Stream::Stdout => o.stdout@,
        Stream::Stderr => o.stderr@,
        Stream::Both => o.stdout@ + "\n"@ + o.stderr@,
    }
}

/// A copy of a stream of a finished program.
pub fn stream_of(o: &ProcessOutput, s: Stream) -> (r: String)
    ensures
        r@ == stream_text(*o, s),
{
    match s {
        Stream::Stdout => o.stdout.clone(),
        Stream::Stderr => o.stderr.clone(),
        Stream::Both => {
            let mut t = o.stdout.clone();
            t.append("\n");
            t.append(o.stderr.as_str());
            t
        },
    }
}

/// `a`, a newline, then `b`.
pub fn two_lines(a: &str, b: &str) -> (r: String)
    ensures
        r@ == a@ + "\n"@ + b@,
{
    let mut t = String::from_str(a);
    t.append("\n");
    t.append(b);
    t
}

/// Whether a build succeeded and what it reports: after a successful main
/// step, the tests' or the run's outcome when that step was asked for and
/// ran (its stream `test` or `run`); otherwise the main step's outcome with
/// `main_output`.
pub open spec fn build_outcome(
    opts: BuildOpts,
    main: ProcessOutput,
    follow: Option<ProcessOutput>,
    main_output: Seq<char>,
    test: Stream,
    run: Stream,
) -> (bool, Seq<char>) {
    match (spec_follow_up(opts, main.success), follow) {
        (FollowUp::Test, Some(t)) => (t.success, stream_text(t, test)),
        (FollowUp::Run, Some(o)) => (o.success, stream_text(o, run)),
        _ => (main.success, main_output),
    }
}

/// The build result for the steps that ran (see `build_outcome`), with the
/// diagnostics `errors` of the main step.
pub fn assemble_build(
    opts: &BuildOpts,
    main: &ProcessOutput,
    follow: Option<&ProcessOutput>,
    main_output: String,
    test: Stream,
    run: Stream,
    errors: Vec<LintDiagnostic>,
) -> (r: BuildResult)
    ensures
        (r.success, r.output@) == build_outcome(
            *opts,
            *main,
            match follow { Some(f) => Some(*f), None => None },
            main_output@,
            test,
            run,
        ),
        r.errors == errors,
{
    match (follow_up(opts, main.success), follow) {
        (FollowUp::Test, Some(t)) => BuildResult { success: t.success, output: stream_of(t, test), errors },
        (FollowUp::Run, Some(o)) => BuildResult { success: o.success, output: stream_of(o, run), errors },
        _ => BuildResult { success: main.success, output: main_output, errors },
    }
}

/// The file names whose presence in a directory marks a project of `lang`.
pub open spec fn spec_markers(lang: Language) -> Seq<Seq<char>> {
    match lang {
        Language::Rust => seq!["Cargo.toml"@],
        Language::Go => seq!["go.mod"@],
        Language::TypeScript => seq!["package.json"@],
        Language::C => seq!["CMakeLists.txt"@, "Makefile"@],
        Language::Python => seq!["pyproject.toml"@],
        Language::Zig => seq!["build.zig"@],
    }
}

/// Law: the marker files of a language are exactly the manifest names that
/// the directory search takes for that language.
pub proof fn lemma_markers_match_manifests(lang: Language, file_name: Seq<char>)
    ensures
        spec_markers(lang).contains(file_name) <==> crate::walker::spec_manifest_language(file_name) == Some(lang),
{
    crate::walker::lemma_manifest_names(file_name);
    let m = spec_markers(lang);
    if crate::walker::spec_manifest_language(file_name) == Some(lang) {
        match lang {
            Language::C => {
                if file_name == "CMakeLists.txt"@ {
                    assert(m[0] == file_name);
                } else {
                    assert(m[1] == file_name);
                }
            },
            _ => {
                assert(m[0] == file_name);
            },
        }
    }
    if m.contains(file_name) {
        let i = choose|i: int| 0 <= i < m.len() && m[i] == file_name;
        match lang {
            Language::C => {
                assert(i == 0 || i == 1);
            },
            _ => {
                assert(i == 0);
            },
        }
    }
}

/// The file names whose presence in a directory marks a project of `lang`:
/// a plugin detects a project where one of them exists.
pub fn markers(lang: Language) -> (r: Vec<&'static str>)
    ensures
        str_views(r@) == spec_markers(lang),
{
    let r = match lang {
        Language::Rust => vec!["Cargo.toml"],
        Language::Go => vec!["go.mod"],
        Language::TypeScript => vec!["package.json"],
        Language::C => vec!["CMakeLists.txt", "Makefile"],
        Language::Python => vec!["pyproject.toml"],
        Language::Zig => vec!["build.zig"],
    };
    assert(str_views(r@) =~= spec_markers(lang));
    r
}

/// What every language plugin offers: the language it handles, and the
/// manifest files whose presence marks a project of that language.
pub trait Plugin {
    spec fn handles(&self) -> Language;

    /// The language the plugin handles.
    fn language(&self) -> (r: Language)
        ensures
            r == self.handles();

    /// The file names of which one must exist in a directory for the plugin
    /// to detect a project there.
    fn manifest_files(&self) -> (r: Vec<&'static str>)
        ensures
            str_views(r@) == spec_markers(self.handles()),
    {
        markers(self.language())
    }
}

/// One plugin of each language.
#[derive(Debug)]
pub enum LanguagePlugin {
    Rust(rust::RustPlugin),
    Go(go::GoPlugin),
    TypeScript(typescript::TypeScriptPlugin),
    C(c::CPlugin),
    Python(python::PythonPlugin),
    Zig(zig::ZigPlugin),
}

impl LanguagePlugin {
    pub open spec fn spec_language(&self) -> Language {
        match self {
            LanguagePlugin::Rust(_) => Language::Rust,
            LanguagePlugin::Go(_) => Language::Go,
            LanguagePlugin::TypeScript(_) => Language::TypeScript,
            LanguagePlugin::C(_) => Language::C,
            LanguagePlugin::Python(_) => Language::Python,
            LanguagePlugin::Zig(_) => Language::Zig,
        }
    }

}

impl Plugin for LanguagePlugin {
    open spec fn handles(&self) -> Language {
        self.spec_language()
    }

    fn language(&self) -> (r: Language) {
        match self {
            LanguagePlugin::Rust(_) => Language::Rust,
            LanguagePlugin::Go(_) => Language::Go,
            LanguagePlugin::TypeScript(_) => Language::TypeScript,
            LanguagePlugin::C(_) => Language::C,
            LanguagePlugin::Python(_) => Language::Python,
            LanguagePlugin::Zig(_) => Language::Zig,
        }
    }
}

/// The plugins of all languages, set up from `config`, in the order Rust,
/// Go, TypeScript, C, Python, Zig.
pub fn all_plugins(config: &PocConfig) -> (r: Vec<LanguagePlugin>)
    ensures
        r@.len() == 6,
        r@[0] == LanguagePlugin::Rust(rust::RustPlugin { linker: config.rust.linker, linter: config.lint.rust }),
        r@[1] == LanguagePlugin::Go(go::GoPlugin),
        r@[2] == LanguagePlugin::TypeScript(typescript::TypeScriptPlugin {
            runtime: config.ts.runtime,
            package_manager: config.ts.package_manager,
            linter: config.lint.ts,
        }),
        r@[3] == LanguagePlugin::C(c::CPlugin { compiler: config.c.compiler, build_system: config.c.build_system }),
        r@[4] == LanguagePlugin::Python(python::PythonPlugin { runner: config.python.runner, linter: config.lint.python }),
        r@[5] == LanguagePlugin::Zig(zig::ZigPlugin),
{
    let mut r: Vec<LanguagePlugin> = Vec::new();
    r.push(LanguagePlugin::Rust(rust::RustPlugin::new(config)));
    r.push(LanguagePlugin::Go(go::GoPlugin));
    r.push(LanguagePlugin::TypeScript(typescript::TypeScriptPlugin::new(config)));
    r.push(LanguagePlugin::C(c::CPlugin::new(config)));
    r.push(LanguagePlugin::Python(python::PythonPlugin::new(config)));
    r.push(LanguagePlugin::Zig(zig::ZigPlugin));
    r
}

/// The position of the first plugin for `lang`.
pub fn find_plugin(plugins: &Vec<LanguagePlugin>, lang: Language) -> (r: Option<usize>)
    ensures
        match r {
            Some(k) => k < plugins@.len() && plugins@[k as int].spec_language() == lang
                && forall|j: int| 0 <= j < k ==> (#[trigger] plugins@[j]).spec_language() != lang,
            None => forall|j: int| 0 <= j < plugins@.len() ==> (#[trigger] plugins@[j]).spec_language() != lang,
        },
{
    let mut k: usize = 0;
    while k < plugins.len()
        invariant
            k <= plugins@.len(),
            forall|j: int| 0 <= j < k ==> (#[trigger] plugins@[j]).spec_language() != lang,
        decreases plugins.len() - k,
    {
        if plugins[k].language() == lang {
            return Some(k);
        }
        k = k + 1;
    }
    None
}

} // verus!
