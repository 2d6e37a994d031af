use poc::types::Language;
use poc::walker::{is_skipped, manifest_language, ProjectDetector};

#[test]
fn entries_left_out_of_the_search() {
    for name in [".git", ".venv", "node_modules", "target", "build", "zig-cache", "__pycache__", "venv"] {
        assert!(is_skipped(name), "{name}");
    }
    for name in ["src", "app", "builds", "Target"] {
        assert!(!is_skipped(name), "{name}");
    }
}

#[test]
fn manifests_name_languages() {
    assert_eq!(manifest_language("Cargo.toml"), Some(Language::Rust));
    assert_eq!(manifest_language("go.mod"), Some(Language::Go));
    assert_eq!(manifest_language("package.json"), Some(Language::TypeScript));
    assert_eq!(manifest_language("CMakeLists.txt"), Some(Language::C));
    assert_eq!(manifest_language("Makefile"), Some(Language::C));
    assert_eq!(manifest_language("pyproject.toml"), Some(Language::Python));
    assert_eq!(manifest_language("build.zig"), Some(Language::Zig));
    assert_eq!(manifest_language("README.md"), None);
}

#[test]
fn one_project_per_directory() {
    let mut det = ProjectDetector::new();
    assert!(det.offer("/w/a", Language::Rust, true));
    assert!(!det.offer("/w/a", Language::TypeScript, true));
    assert!(!det.offer("/w/b", Language::Go, false));
    assert!(det.knows("/w/a"));
    assert!(!det.knows("/w/b"));
    assert!(det.offer("/w/b", Language::Go, true));
    let found = det.into_projects();
    let got: Vec<(String, Language)> = found.iter().map(|p| (p.path.clone(), p.language)).collect();
    assert_eq!(got, vec![("/w/a".to_string(), Language::Rust), ("/w/b".to_string(), Language::Go)]);
}
