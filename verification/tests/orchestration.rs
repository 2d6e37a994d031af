use poc::orchestrator::{
    at_or_under, build_order_indices, collect_all_diagnostics, count_with_severity, failure_excerpt, filter_by_language, filter_under,
    find_independent_groups, has_failures, has_lint_failures, independent_groups, local_package_paths, local_paths_of,
    manifest_declares_dependency, overall_mark, project_mark, resolve_build_order, tally_lint, LintTally, Mark,
};
use poc::types::{BuildResult, DetectedProject, Language, LintDiagnostic, LintResult, Severity};

fn proj(path: &str, language: Language) -> DetectedProject {
    DetectedProject { path: path.to_string(), language }
}

fn d(file: &str, severity: Severity) -> LintDiagnostic {
    LintDiagnostic {
        file: file.to_string(),
        line: 1,
        col: 1,
        rule: "r".to_string(),
        severity,
        message: "m".to_string(),
        suggestion: None,
    }
}

fn table(n: usize, edges: &[(usize, usize)]) -> Vec<Vec<bool>> {
    let mut t = vec![vec![false; n]; n];
    for &(i, j) in edges {
        t[i][j] = true;
    }
    t
}

fn paths(ps: &[DetectedProject]) -> Vec<String> {
    ps.iter().map(|p| p.path.clone()).collect()
}

#[test]
fn chain_is_built_dependencies_first() {
    let projects = vec![proj("app", Language::Rust), proj("lib", Language::Rust), proj("core", Language::Rust)];
    let dep = table(3, &[(0, 1), (1, 2)]);
    let (order, circular) = resolve_build_order(&projects, &dep);
    assert!(!circular);
    assert_eq!(paths(&order), vec!["core", "lib", "app"]);
    assert_eq!(build_order_indices(&dep), Some(vec![2, 1, 0]));
}

#[test]
fn every_project_comes_after_its_dependencies() {
    let dep = table(5, &[(0, 3), (1, 3), (4, 0), (2, 1)]);
    let order = build_order_indices(&dep).unwrap();
    let mut sorted = order.clone();
    sorted.sort();
    assert_eq!(sorted, vec![0, 1, 2, 3, 4]);
    let pos = |v: usize| order.iter().position(|&x| x == v).unwrap();
    for i in 0..5 {
        for j in 0..5 {
            if i != j && dep[i][j] {
                assert!(pos(j) < pos(i));
            }
        }
    }
}

#[test]
fn circular_dependencies_keep_discovery_order() {
    let projects = vec![proj("a", Language::Go), proj("b", Language::Go), proj("c", Language::Go)];
    let dep = table(3, &[(0, 1), (1, 0)]);
    let (order, circular) = resolve_build_order(&projects, &dep);
    assert!(circular);
    assert_eq!(paths(&order), vec!["a", "b", "c"]);
    assert_eq!(build_order_indices(&dep), None);
}

#[test]
fn no_projects_no_order() {
    let (order, circular) = resolve_build_order(&Vec::new(), &Vec::new());
    assert!(!circular);
    assert!(order.is_empty());
}

#[test]
fn groups_of_independent_projects() {
    let dep = table(4, &[(1, 0)]);
    assert_eq!(independent_groups(&dep), vec![vec![0, 2, 3], vec![1]]);
    let projects = vec![proj("a", Language::C), proj("b", Language::C), proj("c", Language::C), proj("d", Language::C)];
    let groups = find_independent_groups(&projects, &dep);
    assert_eq!(groups.len(), 2);
    assert_eq!(paths(&groups[0]), vec!["a", "c", "d"]);
    assert_eq!(paths(&groups[1]), vec!["b"]);
}

#[test]
fn projects_of_a_group_are_pairwise_independent() {
    // 2 depends on 1: both are independent of 0, but only 1 joins its group.
    let dep = table(3, &[(2, 1)]);
    assert_eq!(independent_groups(&dep), vec![vec![0, 1], vec![2]]);
    let dep = table(5, &[(3, 1), (4, 2)]);
    assert_eq!(independent_groups(&dep), vec![vec![0, 1, 2], vec![3, 4]]);
}

#[test]
fn rust_manifest_dependencies() {
    let manifest = "[package]\nname = \"app\"\n\n[dependencies]\nlib = { path = \"../lib\" }\n\n[dev-dependencies]\n";
    assert!(manifest_declares_dependency(Language::Rust, manifest, Some("lib"), "lib"));
    let registry = "[dependencies]\nserde = \"1\"\n";
    assert!(!manifest_declares_dependency(Language::Rust, registry, Some("lib"), "lib"));
    let named_elsewhere = "[package]\nname = \"lib-user\"\n[dependencies]\nserde = \"1\"\n";
    assert!(!manifest_declares_dependency(Language::Rust, named_elsewhere, Some("lib"), "zzz"));
    assert!(!manifest_declares_dependency(Language::Rust, manifest, None, "lib"));
}

#[test]
fn other_manifest_dependencies() {
    assert!(manifest_declares_dependency(Language::Go, "module x\nreplace example.com/util => ../util\n", Some("util"), "util"));
    assert!(!manifest_declares_dependency(Language::Go, "module x\nrequire example.com/util v1\n", Some("util"), "util"));
    assert!(manifest_declares_dependency(Language::C, "add_subdirectory(mathlib)\n", Some("mathlib"), "mathlib"));
    assert!(manifest_declares_dependency(Language::Zig, "const dep = b.dependency(\"zlib\", .{});", Some("zlib"), "zlib"));
    assert!(manifest_declares_dependency(Language::Python, "[tool.uv.sources]\nshared = { path = \"../shared\" }\n", Some("shared"), "shared"));
    assert!(!manifest_declares_dependency(Language::Python, "dependencies = [\"shared\"]\n", Some("shared"), "shared"));
    assert!(!manifest_declares_dependency(Language::TypeScript, "{\"dependencies\":{\"ui\":\"file:../ui\"}}", Some("ui"), "ui"));
}

#[test]
fn local_packages_of_a_package_json() {
    let manifest = r#"{"name":"web","dependencies":{"ui":"file:../ui","react":"^18.0.0"},"devDependencies":{"tools":"workspace:../tools","shared":"link:file:../shared"}}"#;
    let mut found = local_package_paths(manifest);
    found.sort();
    assert_eq!(found, vec!["../tools", "../ui", "file:../shared"]);
    assert!(local_package_paths("not json").is_empty());
    assert!(local_package_paths("{\"dependencies\":{\"a\":\"1.0.0\"}}").is_empty());
    assert_eq!(local_package_paths("{\"dependencies\":{\"a\":\"file:file:x\"}}"), vec!["x"]);
}

#[test]
fn failures_among_results() {
    let ok = BuildResult { success: true, output: String::new(), errors: vec![] };
    let bad = BuildResult { success: false, output: String::new(), errors: vec![] };
    let p = proj("a", Language::Rust);
    assert!(!has_failures(&vec![(p.clone(), Ok(ok))]));
    assert!(has_failures(&vec![(p.clone(), Ok(bad))]));
    assert!(has_failures(&vec![(p.clone(), Err("could not start".to_string()))]));
    assert!(!has_failures(&vec![]));
    let lint_ok = LintResult { success: true, diagnostics: vec![] };
    assert!(!has_lint_failures(&vec![(p.clone(), Ok(lint_ok))]));
    assert!(has_lint_failures(&vec![(p, Err("x".to_string()))]));
}

#[test]
fn all_diagnostics_build_first_then_lint() {
    let a = proj("/w/a", Language::Rust);
    let b = proj("/w/b", Language::Go);
    let builds = vec![
        (a.clone(), Ok(BuildResult { success: false, output: String::new(), errors: vec![d("x.rs", Severity::Error)] })),
        (b.clone(), Err("failed to start".to_string())),
    ];
    let lints = vec![(b.clone(), Ok(LintResult { success: false, diagnostics: vec![d("y.go", Severity::Warning), d("z.go", Severity::Error)] }))];
    let all = collect_all_diagnostics(&builds, &lints);
    let got: Vec<(String, String)> = all.iter().map(|(p, d)| (p.clone(), d.file.clone())).collect();
    assert_eq!(
        got,
        vec![
            ("/w/a".to_string(), "x.rs".to_string()),
            ("/w/b".to_string(), "y.go".to_string()),
            ("/w/b".to_string(), "z.go".to_string())
        ]
    );
}

#[test]
fn lint_report_counts_and_marks() {
    let p = proj("a", Language::Python);
    let results = vec![
        (p.clone(), Ok(LintResult { success: false, diagnostics: vec![d("a", Severity::Error), d("b", Severity::Warning), d("c", Severity::Info)] })),
        (p.clone(), Err("no linter".to_string())),
        (p.clone(), Ok(LintResult { success: true, diagnostics: vec![d("d", Severity::Warning)] })),
    ];
    let t = tally_lint(&results);
    assert_eq!(t, LintTally { total: 4, errors: 1, warnings: 2 });
    assert_eq!(overall_mark(&t), Mark::Errors);
    assert_eq!(overall_mark(&LintTally { total: 1, errors: 0, warnings: 0 }), Mark::Clean);
    assert_eq!(overall_mark(&LintTally { total: 1, errors: 0, warnings: 1 }), Mark::Warnings);
    assert_eq!(project_mark(&vec![]), Mark::Clean);
    assert_eq!(project_mark(&vec![d("i", Severity::Info)]), Mark::Warnings);
    assert_eq!(project_mark(&vec![d("i", Severity::Info), d("e", Severity::Error)]), Mark::Errors);
    assert_eq!(count_with_severity(&vec![d("a", Severity::Hint), d("b", Severity::Hint)], Severity::Hint), 2);
}

#[test]
fn excerpt_of_a_failed_build() {
    let text: Vec<String> = (1..=12).map(|i| format!("line {i}")).collect();
    let r = BuildResult { success: false, output: text.join("\n"), errors: vec![] };
    let ex = failure_excerpt(&r);
    assert_eq!(ex.len(), 10);
    assert_eq!(ex[0], "line 1");
    assert_eq!(ex[9], "line 10");
    let short = BuildResult { success: false, output: "a\r\nb\n".to_string(), errors: vec![] };
    assert_eq!(failure_excerpt(&short), vec!["a", "b"]);
    let with_errors = BuildResult { success: false, output: "x".to_string(), errors: vec![d("f", Severity::Error)] };
    assert!(failure_excerpt(&with_errors).is_empty());
    let silent = BuildResult { success: false, output: String::new(), errors: vec![] };
    assert!(failure_excerpt(&silent).is_empty());
}

#[test]
fn filter_projects_by_language_name() {
    let projects = vec![proj("a", Language::Rust), proj("b", Language::TypeScript), proj("c", Language::Rust)];
    assert_eq!(paths(&filter_by_language(projects.clone(), "rust")), vec!["a", "c"]);
    assert_eq!(paths(&filter_by_language(projects.clone(), "typescript")), vec!["b"]);
    assert!(filter_by_language(projects, "Rust").is_empty());
}

#[test]
fn filter_projects_under_a_directory() {
    let projects = vec![
        proj("/w/a", Language::Rust),
        proj("/w/a/sub", Language::Go),
        proj("/w/ab", Language::Rust),
        proj("/x/a", Language::Zig),
    ];
    assert_eq!(paths(&filter_under(projects.clone(), "/w/a")), vec!["/w/a", "/w/a/sub"]);
    assert_eq!(paths(&filter_under(projects.clone(), "/w")), vec!["/w/a", "/w/a/sub", "/w/ab"]);
    assert_eq!(paths(&filter_under(projects.clone(), "/")).len(), 4);
    assert!(filter_under(projects, "/y").is_empty());
    assert!(at_or_under("/w/a", "/w/a"));
    assert!(at_or_under("/w/a/b", "/w/a/"));
    assert!(!at_or_under("/w/abc", "/w/a"));
    assert!(!at_or_under("/w", "/w/a"));
}

#[test]
fn groups_of_a_chain_in_build_order() {
    // core <- lib <- app, in build order: each waits for the group before.
    let projects = vec![proj("core", Language::Rust), proj("lib", Language::Rust), proj("app", Language::Rust)];
    let dep = table(3, &[(1, 0), (2, 1)]);
    let groups = find_independent_groups(&projects, &dep);
    assert_eq!(groups.len(), 3);
    assert_eq!(paths(&groups[0]), vec!["core"]);
    assert_eq!(paths(&groups[1]), vec!["lib"]);
    assert_eq!(paths(&groups[2]), vec!["app"]);
}

#[test]
fn a_project_joins_once_its_dependencies_are_built() {
    // 3 depends on 0: it cannot share 0's group, but joins the next one.
    let dep = table(4, &[(3, 0), (1, 0)]);
    assert_eq!(independent_groups(&dep), vec![vec![0, 2], vec![1, 3]]);
}

#[test]
fn most_recently_released_project_comes_next() {
    assert_eq!(build_order_indices(&table(4, &[])), Some(vec![3, 2, 1, 0]));
    assert_eq!(build_order_indices(&table(3, &[(0, 2)])), Some(vec![2, 0, 1]));
    assert_eq!(build_order_indices(&table(4, &[(0, 1), (0, 2), (1, 3), (2, 3)])), Some(vec![3, 2, 1, 0]));
}

#[test]
fn local_packages_of_a_parsed_document() {
    let doc: serde_json::Value =
        serde_json::from_str(r#"{"devDependencies":{"a":"link:../a","b":"2.0.0"},"dependencies":"none"}"#).unwrap();
    assert_eq!(local_paths_of(&doc), vec!["../a"]);
}
