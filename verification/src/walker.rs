use vstd::prelude::*;
use crate::text::{starts_with, str_eq, to_chars};
use crate::types::{DetectedProject, Language};

verus! {

/// A directory entry that the search for projects does not enter: hidden
/// entries, dependency and build output directories, caches and virtual
/// environments.
pub open spec fn spec_is_skipped(name: Seq<char>) -> bool {
    ||| name.len() > 0 && name[0] == '.'
    ||| name == "node_modules"@
    ||| name == "target"@
    ||| name == "build"@
    ||| name == "zig-cache"@
    ||| name == "__pycache__"@
    ||| name == ".venv"@
    ||| name == "venv"@
}

/// Whether the search for projects leaves the entry called `name` alone
/// (see `spec_is_skipped`).
pub fn is_skipped(name: &str) -> (r: bool)
    ensures
        r == spec_is_skipped(name@),
{
    let c = to_chars(name);
    if c.len() > 0 && c[0] == '.' {
        return true;
    }
    str_eq(name, "node_modules") || str_eq(name, "target") || str_eq(name, "build") || str_eq(name, "zig-cache")
        || str_eq(name, "__pycache__") || str_eq(name, ".venv") || str_eq(name, "venv")
}

/// Law: the search skips an entry exactly when its name is hidden (starts
/// with `.`) or is one of `node_modules`, `target`, `build`, `zig-cache`,
/// `__pycache__`, `.venv`, `venv`; every other directory is searched.
pub proof fn lemma_skipped_names(name: Seq<char>)
    ensures
        spec_is_skipped(name) <==> (
            (name.len() > 0 && name[0] == '.')
            || name == "node_modules"@ || name == "target"@ || name == "build"@ || name == "zig-cache"@
            || name == "__pycache__"@ || name == ".venv"@ || name == "venv"@
        ),
{
}

/// The language whose manifest file is called `file_name`.
pub open spec fn spec_manifest_language(file_name: Seq<char>) -> Option<Language> {
    if file_name == "Cargo.toml"@ {
        Some(Language::Rust)
    } else if file_name == "go.mod"@ {
        Some(Language::Go)
    } else if file_name == "package.json"@ {
        Some(Language::TypeScript)
    } else if file_name == "CMakeLists.txt"@ || file_name == "Makefile"@ {
        Some(Language::C)
    } else if file_name == "pyproject.toml"@ {
        Some(Language::Python)
    } else if file_name == "build.zig"@ {
        Some(Language::Zig)
    } else {
        None
    }
}

/// The language of a project whose directory holds a file called
/// `file_name`, when that file is a manifest: `Cargo.toml`, `go.mod`,
/// `package.json`, `CMakeLists.txt` or `Makefile`, `pyproject.toml`,
/// `build.zig`.
pub fn manifest_language(file_name: &str) -> (r: Option<Language>)
    ensures
        r == spec_manifest_language(file_name@),
{
    if str_eq(file_name, "Cargo.toml") {
        Some(Language::Rust)
    } else if str_eq(file_name, "go.mod") {
        Some(Language::Go)
    } else if str_eq(file_name, "package.json") {
        Some(Language::TypeScript)
    } else if str_eq(file_name, "CMakeLists.txt") || str_eq(file_name, "Makefile") {
        Some(Language::C)
    } else if str_eq(file_name, "pyproject.toml") {
        Some(Language::Python)
    } else if str_eq(file_name, "build.zig") {
        Some(Language::Zig)
    } else {
        None
    }
}

/// Law: each manifest file name belongs to exactly one language —
/// `Cargo.toml` to Rust, `go.mod` to Go, `package.json` to TypeScript,
/// `CMakeLists.txt` and `Makefile` to C, `pyproject.toml` to Python,
/// `build.zig` to Zig — and no other file name marks a project.
pub proof fn lemma_manifest_names(file_name: Seq<char>)
    ensures
        (spec_manifest_language(file_name) == Some(Language::Rust)) <==> file_name == "Cargo.toml"@,
        (spec_manifest_language(file_name) == Some(Language::Go)) <==> file_name == "go.mod"@,
        (spec_manifest_language(file_name) == Some(Language::TypeScript)) <==> file_name == "package.json"@,
        (spec_manifest_language(file_name) == Some(Language::C)) <==> (file_name == "CMakeLists.txt"@ || file_name == "Makefile"@),
        (spec_manifest_language(file_name) == Some(Language::Python)) <==> file_name == "pyproject.toml"@,
        (spec_manifest_language(file_name) == Some(Language::Zig)) <==> file_name == "build.zig"@,
{
    reveal_strlit("Cargo.toml");
    reveal_strlit("go.mod");
    reveal_strlit("package.json");
    reveal_strlit("CMakeLists.txt");
    reveal_strlit("Makefile");
    reveal_strlit("pyproject.toml");
    reveal_strlit("build.zig");
    assert("Cargo.toml"@.len() == 10);
    assert("go.mod"@.len() == 6);
    assert("package.json"@.len() == 12);
    assert("CMakeLists.txt"@.len() == 14);
    assert("Makefile"@.len() == 8);
    assert("pyproject.toml"@.len() == 14);
    assert("build.zig"@.len() == 9);
    assert("CMakeLists.txt"@[0] != "pyproject.toml"@[0]);
}

/// No two projects of `ps` share a directory.
pub open spec fn distinct_paths(ps: Seq<DetectedProject>) -> bool {
    forall|i: int, j: int| 0 <= i < j < ps.len() ==> (#[trigger] ps[i]).path@ != (#[trigger] ps[j]).path@
}

/// Some project of `ps` is in the directory `path`.
pub open spec fn has_project_at(ps: Seq<DetectedProject>, path: Seq<char>) -> bool {
    exists|i: int| 0 <= i < ps.len() && (#[trigger] ps[i]).path@ == path
}

/// The projects found so far while walking a directory tree, in the order
/// their manifests were met; a directory yields at most one project.
pub struct ProjectDetector {
    projects: Vec<DetectedProject>,
}

impl ProjectDetector {
    #[verifier::type_invariant]
    spec fn one_per_directory(self) -> bool {
        distinct_paths(self.projects@)
    }

    /// The projects found so far.
    pub closed spec fn found(&self) -> Seq<DetectedProject> {
        self.projects@
    }

    /// A detector that has found nothing.
    pub fn new() -> (r: Self)
        ensures
            r.found() == Seq::<DetectedProject>::empty(),
    {
        ProjectDetector { projects: Vec::new() }
    }

    /// Whether a project has been found in the directory `path`.
    pub fn knows(&self, path: &str) -> (r: bool)
        ensures
            r == has_project_at(self.found(), path@),
    {
        let mut i: usize = 0;
        while i < self.projects.len()
            invariant
                i <= self.projects@.len(),
                forall|j: int| 0 <= j < i ==> (#[trigger] self.projects@[j]).path@ != path@,
            decreases self.projects.len() - i,
        {
            if str_eq(self.projects[i].path.as_str(), path) {
                return true;
            }
            i = i + 1;
        }
        false
    }

    /// A manifest of `language` was met in the directory `dir`, and the
    /// language's plugin does (`detected`) or does not recognise the
    /// directory. The project is added when the plugin recognises it and the
    /// directory has no project yet; the result says whether it was added.
    pub fn offer(&mut self, dir: &str, language: Language, detected: bool) -> (added: bool)
        ensures
            added == (detected && !has_project_at(old(self).found(), dir@)),
            added ==> final(self).found() == old(self).found().push(DetectedProject { path: final(self).found().last().path, language })
                && final(self).found().last().path@ == dir@,
            !added ==> final(self).found() == old(self).found(),
            distinct_paths(final(self).found()),
    {
        proof {
            use_type_invariant(&*self);
        }
        if detected && !self.knows(dir) {
            let p = DetectedProject { path: String::from_str(dir), language };
            let mut projects = Vec::new();
            std::mem::swap(&mut projects, &mut self.projects);
            projects.push(p);
            self.projects = projects;
            true
        } else {
            false
        }
    }

    /// The projects found, in the order they were found.
    pub fn into_projects(self) -> (r: Vec<DetectedProject>)
        ensures
            r@ == self.found(),
            distinct_paths(r@),
    {
        proof {
            use_type_invariant(&self);
        }
        self.projects
    }
}

} // verus!
