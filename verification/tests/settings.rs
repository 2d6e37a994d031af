use poc::config::{
    config_warnings, default_biome, default_bun, default_clang, default_clippy, default_cmake, default_default, default_llama3,
    default_ollama, default_ollama_endpoint, default_ruff, default_uv, generate_config_text, table_warnings, Overrides, PocConfig,
};
use poc::types::{DetectedProject, Language};

#[test]
fn defaults() {
    let c = PocConfig::default();
    assert_eq!(c.ts.runtime, "bun");
    assert_eq!(c.ts.package_manager, "bun");
    assert_eq!(c.python.runner, "uv");
    assert_eq!(c.c.compiler, "clang");
    assert_eq!(c.c.build_system, "cmake");
    assert_eq!(c.rust.linker, "default");
    assert_eq!((c.lint.ts.as_str(), c.lint.python.as_str(), c.lint.rust.as_str()), ("biome", "ruff", "clippy"));
    assert_eq!((c.ai.provider.as_str(), c.ai.model.as_str(), c.ai.endpoint.as_str()), ("ollama", "llama3", "http://0.0.0.0:11434"));
    assert_eq!(
        vec![default_bun(), default_uv(), default_clang(), default_cmake(), default_default(), default_biome()],
        vec!["bun", "uv", "clang", "cmake", "default", "biome"]
    );
    assert_eq!(
        vec![default_ruff(), default_clippy(), default_ollama(), default_llama3(), default_ollama_endpoint()],
        vec!["ruff", "clippy", "ollama", "llama3", "http://0.0.0.0:11434"]
    );
}

#[test]
fn command_line_overrides() {
    let mut c = PocConfig::default();
    c.apply_overrides(&Overrides {
        runtime: Some("deno".to_string()),
        package_manager: None,
        compiler: Some("gcc".to_string()),
        linker: None,
        runner: None,
        linter: Some("eslint".to_string()),
    });
    assert_eq!(c.ts.runtime, "deno");
    assert_eq!(c.ts.package_manager, "bun");
    assert_eq!(c.c.compiler, "gcc");
    assert_eq!(c.rust.linker, "default");
    assert_eq!((c.lint.ts.as_str(), c.lint.python.as_str(), c.lint.rust.as_str()), ("eslint", "eslint", "eslint"));
}

#[test]
fn starting_configuration_for_the_languages_found() {
    let projects = vec![
        DetectedProject { path: "a".to_string(), language: Language::Rust },
        DetectedProject { path: "b".to_string(), language: Language::TypeScript },
        DetectedProject { path: "c".to_string(), language: Language::Go },
    ];
    assert_eq!(
        generate_config_text(&projects),
        "[ts]\nruntime = \"bun\"\npackage_manager = \"bun\"\n\n[rust]\nlinker = \"default\"\n\n[lint]\nts = \"biome\"\nrust = \"clippy\"\n\n[ai]\nprovider = \"ollama\"\nmodel = \"llama3\"\nendpoint = \"http://0.0.0.0:11434\""
    );
    assert_eq!(
        generate_config_text(&vec![]),
        "[ai]\nprovider = \"ollama\"\nmodel = \"llama3\"\nendpoint = \"http://0.0.0.0:11434\""
    );
}

#[test]
fn generated_configuration_has_no_warnings() {
    let projects = vec![
        DetectedProject { path: "a".to_string(), language: Language::C },
        DetectedProject { path: "b".to_string(), language: Language::Python },
    ];
    assert!(config_warnings(&generate_config_text(&projects)).is_empty());
}

#[test]
fn warnings_about_a_configuration_file() {
    let text = "[ts]\nruntime = \"bun\"\n[weird]\nx = 1\n[ai]\nprovider = \"gpt\"\n";
    assert_eq!(
        config_warnings(text),
        vec![
            "unknown section [weird] in .poc/config.toml".to_string(),
            "unknown AI provider 'gpt' \u{2014} expected one of: ollama, anthropic, openai".to_string()
        ]
    );
    assert!(config_warnings("").is_empty());
    assert!(config_warnings("[ai]\nprovider = \"anthropic\"\n").is_empty());
    let broken = config_warnings("[ts");
    assert_eq!(broken.len(), 1);
    assert!(broken[0].starts_with("failed to parse .poc/config.toml: "));
}

#[test]
fn warnings_about_a_parsed_table() {
    let table: toml::Table = "[extra]\n[ai]\nprovider = \"ollama\"\n".parse().unwrap();
    assert_eq!(table_warnings(&table), vec!["unknown section [extra] in .poc/config.toml".to_string()]);
    let table: toml::Table = "[ai]\nprovider = 3\n".parse().unwrap();
    assert!(table_warnings(&table).is_empty());
}
