use poc::config::PocConfig;
use poc::plugins::c::CPlugin;
use poc::plugins::go::GoPlugin;
use poc::plugins::python::{guess_module_name, pylint_target, PythonPlugin};
use poc::plugins::rust::{artifact_profile, copies_artifact, RustPlugin};
use poc::plugins::typescript::TypeScriptPlugin;
use poc::plugins::zig::ZigPlugin;
use poc::plugins::{all_plugins, find_plugin, follow_up, markers, CommandSpec, FollowUp, LanguagePlugin, Plugin, ProcessOutput};
use poc::types::{BuildOpts, Language, LintOpts};

fn cmd(c: &CommandSpec) -> (String, Vec<String>) {
    (c.program.clone(), c.args.clone())
}

fn want(program: &str, args: &[&str]) -> (String, Vec<String>) {
    (program.to_string(), args.iter().map(|a| a.to_string()).collect())
}

fn opts(release: bool, test: bool, run: bool) -> BuildOpts {
    BuildOpts { release, test, run }
}

fn out(success: bool, stdout: &str, stderr: &str) -> ProcessOutput {
    ProcessOutput { success, stdout: stdout.to_string(), stderr: stderr.to_string() }
}

#[test]
fn plugins_of_every_language_in_order() {
    let config = PocConfig::default();
    let plugins = all_plugins(&config);
    let langs: Vec<Language> = plugins.iter().map(|p| p.language()).collect();
    assert_eq!(
        langs,
        vec![Language::Rust, Language::Go, Language::TypeScript, Language::C, Language::Python, Language::Zig]
    );
    assert_eq!(find_plugin(&plugins, Language::C), Some(3));
    let only_go = vec![LanguagePlugin::Go(GoPlugin)];
    assert_eq!(find_plugin(&only_go, Language::Zig), None);
    match &plugins[2] {
        LanguagePlugin::TypeScript(t) => {
            assert_eq!(t.runtime, "bun");
            assert_eq!(t.package_manager, "bun");
            assert_eq!(t.linter, "biome");
        }
        _ => panic!("expected the TypeScript plugin third"),
    }
}

#[test]
fn manifest_files_of_each_plugin() {
    assert_eq!(markers(Language::C), vec!["CMakeLists.txt", "Makefile"]);
    assert_eq!(GoPlugin.manifest_files(), vec!["go.mod"]);
    assert_eq!(ZigPlugin.manifest_files(), vec!["build.zig"]);
}

#[test]
fn follow_up_after_build() {
    assert_eq!(follow_up(&opts(false, true, true), true), FollowUp::Test);
    assert_eq!(follow_up(&opts(false, false, true), true), FollowUp::Run);
    assert_eq!(follow_up(&opts(false, true, true), false), FollowUp::Done);
}

#[test]
fn rust_commands() {
    let mut config = PocConfig::default();
    let p = RustPlugin::new(&config);
    assert_eq!(cmd(&p.build_command(&opts(true, false, false))), want("cargo", &["build", "--release"]));
    assert_eq!(cmd(&p.lint_command(&LintOpts { fix: true })), want("cargo", &["clippy", "--fix", "--allow-dirty", "--message-format=json"]));
    assert_eq!(p.rustflags(), None);
    config.rust.linker = "mold".to_string();
    config.lint.rust = "check".to_string();
    let p = RustPlugin::new(&config);
    assert_eq!(p.rustflags().as_deref(), Some("-C linker=mold"));
    assert_eq!(cmd(&p.lint_command(&LintOpts { fix: true })), want("cargo", &["check", "--message-format=json"]));
    assert_eq!(artifact_profile(false), "debug");
}

#[test]
fn rust_artifacts_that_are_copied() {
    assert!(copies_artifact("demo", Some(0o755)));
    assert!(!copies_artifact("demo.d", Some(0o755)));
    assert!(!copies_artifact("libdemo.rlib", None));
    assert!(!copies_artifact("notes.txt", Some(0o644)));
    assert!(copies_artifact("libdemo.so", Some(0o644)));
    assert!(copies_artifact("notes.txt", None));
}

#[test]
fn rust_build_result_follows_the_tests() {
    let p = RustPlugin::new(&PocConfig::default());
    let main = out(true, "", "   Compiling demo\n");
    let tests = out(false, "ok", "test failed");
    let r = p.finish_build(&opts(false, true, false), &main, Some(&tests));
    assert!(!r.success);
    assert_eq!(r.output, "test failed");
    let r = p.finish_build(&opts(false, false, false), &main, None);
    assert!(r.success);
    assert_eq!(r.output, "   Compiling demo\n");
}

#[test]
fn go_commands_and_lint_result() {
    let g = GoPlugin;
    assert_eq!(cmd(&g.build_command("build/main", &opts(true, false, false))), want("go", &["build", "-o", "build/main", "-ldflags", "-s -w", "./..."]));
    assert_eq!(cmd(&g.build_command("build/main", &opts(false, false, false))), want("go", &["build", "-o", "build/main", "./..."]));
    let vet = out(true, "", "");
    let sc = out(false, "main.go:3:1: should not use dot imports\n", "");
    let r = g.finish_lint(&vet, Some(&sc));
    assert!(!r.success);
    assert_eq!(r.diagnostics.len(), 1);
    let r = g.finish_lint(&vet, None);
    assert!(r.success);
}

#[test]
fn typescript_commands() {
    let mut config = PocConfig::default();
    let t = TypeScriptPlugin::new(&config);
    assert_eq!(cmd(&t.install_command()), want("bun", &["install"]));
    assert!(t.build_command(false).is_none());
    assert_eq!(cmd(&t.build_command(true).unwrap()), want("bun", &["build", "./src/index.ts", "--outdir", "build"]));
    assert_eq!(cmd(&t.lint_command(&LintOpts { fix: true })), want("npx", &["biome", "check", "--fix", "."]));
    let skipped = t.skipped_build();
    assert!(skipped.success);
    assert_eq!(skipped.output, "no build step needed");
    config.ts.runtime = "node".to_string();
    config.ts.package_manager = "pnpm".to_string();
    config.lint.ts = "eslint".to_string();
    let t = TypeScriptPlugin::new(&config);
    assert_eq!(cmd(&t.install_command()), want("pnpm", &["install"]));
    assert_eq!(cmd(&t.build_command(false).unwrap()), want("npx", &["tsc", "--outDir", "build"]));
    assert_eq!(cmd(&t.test_command()), want("npx", &["jest"]));
    assert_eq!(cmd(&t.run_command()), want("node", &["build/index.js"]));
    assert_eq!(cmd(&t.lint_command(&LintOpts { fix: false })), want("npx", &["eslint", "--format", "json", "."]));
}

#[test]
fn typescript_build_output_joins_both_streams() {
    let t = TypeScriptPlugin::new(&PocConfig::default());
    let main = out(false, "out", "src/a.ts(1,2): error TS1: bad");
    let r = t.finish_build(&opts(false, false, false), &main, None);
    assert!(!r.success);
    assert_eq!(r.output, "src/a.ts(1,2): error TS1: bad\nout");
    assert_eq!(r.errors.len(), 1);
}

#[test]
fn c_build_commands_per_build_system() {
    let mut config = PocConfig::default();
    let c = CPlugin::new(&config);
    let cs = c.build_commands(&opts(true, false, false), false);
    assert_eq!(cs.len(), 2);
    assert_eq!(
        cmd(&cs[0]),
        want("cmake", &["-B", "build", "-DCMAKE_BUILD_TYPE=Release", "-DCMAKE_C_COMPILER=clang", "-DCMAKE_CXX_COMPILER=clang++"])
    );
    assert_eq!(cmd(&cs[1]), want("cmake", &["--build", "build", "--parallel"]));
    config.c.build_system = "meson".to_string();
    let c = CPlugin::new(&config);
    let cs = c.build_commands(&opts(false, false, false), true);
    assert_eq!(cs.len(), 1);
    assert_eq!(cmd(&cs[0]), want("meson", &["compile", "-C", "build"]));
    let cs = c.build_commands(&opts(false, false, false), false);
    assert_eq!(cmd(&cs[0]), want("meson", &["setup", "build", "--buildtype=debug"]));
    config.c.build_system = "make".to_string();
    config.c.compiler = "gcc".to_string();
    let c = CPlugin::new(&config);
    let cs = c.build_commands(&opts(true, false, false), false);
    assert_eq!(cmd(&cs[0]), want("make", &["CC=gcc", "CXX=gcc++", "RELEASE=1"]));
}

#[test]
fn c_lint_result_from_cppcheck() {
    let c = CPlugin::new(&PocConfig::default());
    let r = c.finish_lint(&out(true, "", "a.c:1:2: warning: w [id1]\n"));
    assert!(r.success);
    let r = c.finish_lint(&out(true, "", "a.c:1:2: error: e [id2]\n"));
    assert!(!r.success);
}

#[test]
fn python_commands() {
    let mut config = PocConfig::default();
    let p = PythonPlugin::new(&config);
    assert_eq!(cmd(&p.install_command()), want("uv", &["sync"]));
    assert_eq!(cmd(&p.lint_command(&LintOpts { fix: true }, ".")), want("uv", &["run", "ruff", "check", "--output-format=json", "--fix", "."]));
    assert_eq!(cmd(&p.run_command("demo")), want("uv", &["run", "python", "-m", "demo"]));
    config.python.runner = "pip".to_string();
    config.lint.python = "pylint".to_string();
    let p = PythonPlugin::new(&config);
    assert_eq!(cmd(&p.install_command()), want("pip", &["install", "-e", "."]));
    assert_eq!(cmd(&p.test_command()), want("pytest", &[]));
    assert_eq!(cmd(&p.lint_command(&LintOpts { fix: false }, "/proj")), want("pylint", &["--output-format=json", "/proj"]));
    assert_eq!(guess_module_name(Some("demo")), "demo");
    assert_eq!(guess_module_name(None), "__main__");
    assert_eq!(pylint_target("/proj", false), ".");
}

#[test]
fn python_lint_success_needs_no_errors() {
    let p = PythonPlugin::new(&PocConfig::default());
    let r = p.finish_lint(&out(true, "[]", ""));
    assert!(r.success);
    assert!(r.diagnostics.is_empty());
}

#[test]
fn zig_commands() {
    assert_eq!(cmd(&ZigPlugin.build_command(&opts(true, false, false))), want("zig", &["build", "-Doptimize=ReleaseFast", "--prefix", "build"]));
    assert_eq!(cmd(&ZigPlugin.test_command()), want("zig", &["build", "test"]));
}
