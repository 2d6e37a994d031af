use vstd::prelude::*;
use crate::text::{str_eq, views};
use crate::types::{DetectedProject, Language};

verus! {

// ---------------------------------------------------------------------------
// Settings and their defaults
// ---------------------------------------------------------------------------

/// How TypeScript projects are run and their packages installed.
#[derive(Debug)]
pub struct TsConfig {
    pub runtime: String,
    pub package_manager: String,
}

/// How Python projects are installed and run.
#[derive(Debug)]
pub struct PythonConfig {
    pub runner: String,
}

/// How C and C++ projects are compiled.
#[derive(Debug)]
pub struct CConfig {
    pub compiler: String,
    pub build_system: String,
}

/// How Rust projects are linked.
#[derive(Debug)]
pub struct RustConfig {
    pub linker: String,
}

/// Which linter each language uses.
#[derive(Debug)]
pub struct LintConfig {
    pub ts: String,
    pub python: String,
    pub rust: String,
}

/// Which language model fixes errors, and where it is reached.
#[derive(Debug)]
pub struct AiConfig {
    pub provider: String,
    pub model: String,
    pub endpoint: String,
}

/// All settings.
#[derive(Debug)]
pub struct PocConfig {
    pub ts: TsConfig,
    pub python: PythonConfig,
    pub c: CConfig,
    pub rust: RustConfig,
    pub lint: LintConfig,
    pub ai: AiConfig,
}

/// `"bun"`.
pub fn default_bun() -> (r: String)
    ensures
        r@ == "bun"@,
{
    String::from_str("bun")
}

/// `"uv"`.
pub fn default_uv() -> (r: String)
    ensures
        r@ == "uv"@,
{
    String::from_str("uv")
}

/// `"clang"`.
pub fn default_clang() -> (r: String)
    ensures
        r@ == "clang"@,
{
    String::from_str("clang")
}

/// `"cmake"`.
pub fn default_cmake() -> (r: String)
    ensures
        r@ == "cmake"@,
{
    String::from_str("cmake")
}

/// `"default"`.
pub fn default_default() -> (r: String)
    ensures
        r@ == "default"@,
{
    String::from_str("default")
}

/// `"biome"`.
pub fn default_biome() -> (r: String)
    ensures
        r@ == "biome"@,
{
    String::from_str("biome")
}

/// `"ruff"`.
pub fn default_ruff() -> (r: String)
    ensures
        r@ == "ruff"@,
{
    String::from_str("ruff")
}

/// `"clippy"`.
pub fn default_clippy() -> (r: String)
    ensures
        r@ == "clippy"@,
{
    String::from_str("clippy")
}

/// `"ollama"`.
pub fn default_ollama() -> (r: String)
    ensures
        r@ == "ollama"@,
{
    String::from_str("ollama")
}

/// `"llama3"`.
pub fn default_llama3() -> (r: String)
    ensures
        r@ == "llama3"@,
{
    String::from_str("llama3")
}

/// The address of a local Ollama server.
pub fn default_ollama_endpoint() -> (r: String)
    ensures
        r@ == "http://0.0.0.0:11434"@,
{
    String::from_str("http://0.0.0.0:11434")
}

impl Default for TsConfig {
    fn default() -> (r: Self)
        ensures
            r.runtime@ == "bun"@,
            r.package_manager@ == "bun"@,
    {
        TsConfig { runtime: default_bun(), package_manager: default_bun() }
    }
}

impl Default for PythonConfig {
    fn default() -> (r: Self)
        ensures
            r.runner@ == "uv"@,
    {
        PythonConfig { runner: default_uv() }
    }
}

impl Default for CConfig {
    fn default() -> (r: Self)
        ensures
            r.compiler@ == "clang"@,
            r.build_system@ == "cmake"@,
    {
        CConfig { compiler: default_clang(), build_system: default_cmake() }
    }
}

impl Default for RustConfig {
    fn default() -> (r: Self)
        ensures
            r.linker@ == "default"@,
    {
        RustConfig { linker: default_default() }
    }
}

impl Default for LintConfig {
    fn default() -> (r: Self)
        ensures
            r.ts@ == "biome"@,
            r.python@ == "ruff"@,
            r.rust@ == "clippy"@,
    {
        LintConfig { ts: default_biome(), python: default_ruff(), rust: default_clippy() }
    }
}

impl Default for AiConfig {
    fn default() -> (r: Self)
        ensures
            r.provider@ == "ollama"@,
            r.model@ == "llama3"@,
            r.endpoint@ == "http://0.0.0.0:11434"@,
    {
        AiConfig { provider: default_ollama(), model: default_llama3(), endpoint: default_ollama_endpoint() }
    }
}

/// All settings at their defaults.
pub open spec fn is_default_config(c: PocConfig) -> bool {
    &&& c.ts.runtime@ == "bun"@ && c.ts.package_manager@ == "bun"@
    &&& c.python.runner@ == "uv"@
    &&& c.c.compiler@ == "clang"@ && c.c.build_system@ == "cmake"@
    &&& c.rust.linker@ == "default"@
    &&& c.lint.ts@ == "biome"@ && c.lint.python@ == "ruff"@ && c.lint.rust@ == "clippy"@
    &&& c.ai.provider@ == "ollama"@ && c.ai.model@ == "llama3"@ && c.ai.endpoint@ == "http://0.0.0.0:11434"@
}

impl Default for PocConfig {
    fn default() -> (r: Self)
        ensures
            is_default_config(r),
    {
        PocConfig {
            ts: TsConfig::default(),
            python: PythonConfig::default(),
            c: CConfig::default(),
            rust: RustConfig::default(),
            lint: LintConfig::default(),
            ai: AiConfig::default(),
        }
    }
}

impl Clone for AiConfig {
    fn clone(&self) -> (r: Self)
        ensures
            r == *self,
    {
        AiConfig { provider: self.provider.clone(), model: self.model.clone(), endpoint: self.endpoint.clone() }
    }
}

/// The settings given on the command line, each overriding the setting it
/// names when present.
#[derive(Debug)]
pub struct Overrides {
    pub runtime: Option<String>,
    pub package_manager: Option<String>,
    pub compiler: Option<String>,
    pub linker: Option<String>,
    pub runner: Option<String>,
    pub linter: Option<String>,
}

/// `v` when it is given, `current` otherwise.
pub open spec fn chosen(v: Option<String>, current: String) -> String {
    match v {
        Some(s) => s,
        None => current,
    }
}

/// Law: a setting given on the command line replaces the configured one,
/// and an absent one leaves it as it was.
pub proof fn lemma_override_chosen(v: Option<String>, current: String)
    ensures
        v matches Some(s) ==> chosen(v, current) == s,
        v is None ==> chosen(v, current) == current,
{
}

fn take_or_keep(v: &Option<String>, current: &mut String)
    ensures
        *final(current) == chosen(*v, *old(current)),
{
    match v {
        Some(s) => {
            *current = s.clone();
        },
        None => {},
    }
}

impl PocConfig {
    /// Applies command-line overrides: the linter override sets the linter of
    /// every language; everything else keeps its value.
    pub fn apply_overrides(&mut self, o: &Overrides)
        ensures
            final(self).ts.runtime == chosen(o.runtime, old(self).ts.runtime),
            final(self).ts.package_manager == chosen(o.package_manager, old(self).ts.package_manager),
            final(self).c.compiler == chosen(o.compiler, old(self).c.compiler),
            final(self).c.build_system == old(self).c.build_system,
            final(self).rust.linker == chosen(o.linker, old(self).rust.linker),
            final(self).python.runner == chosen(o.runner, old(self).python.runner),
            final(self).lint.ts == chosen(o.linter, old(self).lint.ts),
            final(self).lint.python == chosen(o.linter, old(self).lint.python),
            final(self).lint.rust == chosen(o.linter, old(self).lint.rust),
            final(self).ai == old(self).ai,
    {
        take_or_keep(&o.runtime, &mut self.ts.runtime);
        take_or_keep(&o.package_manager, &mut self.ts.package_manager);
        take_or_keep(&o.compiler, &mut self.c.compiler);
        take_or_keep(&o.linker, &mut self.rust.linker);
        take_or_keep(&o.runner, &mut self.python.runner);
        take_or_keep(&o.linter, &mut self.lint.ts);
        take_or_keep(&o.linter, &mut self.lint.python);
        take_or_keep(&o.linter, &mut self.lint.rust);
    }
}

// ---------------------------------------------------------------------------
// A starting configuration file
// ---------------------------------------------------------------------------

/// Some project is written in `lang`.
pub open spec fn has_language(projects: Seq<DetectedProject>, lang: Language) -> bool {
    exists|k: int| 0 <= k < projects.len() && (#[trigger] projects[k]).language == lang
}

/// The `[lint]` entries for the languages present.
pub open spec fn lint_entries(ts: bool, python: bool, rust: bool) -> Seq<Seq<char>> {
    (if ts { seq!["ts = \"biome\""@] } else { seq![] }) + (if python { seq!["python = \"ruff\""@] } else { seq![] })
        + (if rust { seq!["rust = \"clippy\""@] } else { seq![] })
}

/// The sections of the starting configuration: one per language present that
/// has settings, `[lint]` when some linted language is present, and `[ai]`.
pub open spec fn config_sections(ts: bool, python: bool, c: bool, rust: bool) -> Seq<Seq<char>> {
    let entries = lint_entries(ts, python, rust);
    (if ts { seq!["[ts]\nruntime = \"bun\"\npackage_manager = \"bun\""@] } else { seq![] })
        + (if python { seq!["[python]\nrunner = \"uv\""@] } else { seq![] })
        + (if c { seq!["[c]\ncompiler = \"clang\"\nbuild_system = \"cmake\""@] } else { seq![] })
        + (if rust { seq!["[rust]\nlinker = \"default\""@] } else { seq![] })
        + (if entries.len() > 0 { seq!["[lint]\n"@ + crate::text::join_lines(entries)] } else { seq![] })
        + seq!["[ai]\nprovider = \"ollama\"\nmodel = \"llama3\"\nendpoint = \"http://0.0.0.0:11434\""@]
}

/// The pieces of `ps` joined by blank lines.
pub open spec fn join_paragraphs(ps: Seq<Seq<char>>) -> Seq<char>
    decreases ps.len(),
{
    if ps.len() == 0 {
        seq![]
    } else if ps.len() == 1 {
        ps[0]
    } else {
        join_paragraphs(ps.drop_last()) + "\n\n"@ + ps.last()
    }
}

/// The text of the starting configuration for `projects`.
pub open spec fn spec_config_text(projects: Seq<DetectedProject>) -> Seq<char> {
    join_paragraphs(config_sections(
        has_language(projects, Language::TypeScript),
        has_language(projects, Language::Python),
        has_language(projects, Language::C),
        has_language(projects, Language::Rust),
    ))
}

fn any_language(projects: &Vec<DetectedProject>, lang: Language) -> (r: bool)
    ensures
        r == has_language(projects@, lang),
{
    let mut k: usize = 0;
    while k < projects.len()
        invariant
            k <= projects@.len(),
            forall|j: int| 0 <= j < k ==> (#[trigger] projects@[j]).language != lang,
        decreases projects.len() - k,
    {
        if projects[k].language == lang {
            return true;
        }
        k = k + 1;
    }
    false
}

fn push_str(v: &mut Vec<String>, s: &str)
    ensures
        views(final(v)@) == views(old(v)@).push(s@),
{
    let ghost prev = v@;
    v.push(String::from_str(s));
    assert(views(v@) =~= views(prev).push(s@));
}

fn join_with_blank_lines(ps: &Vec<String>) -> (r: String)
    ensures
        r@ == join_paragraphs(views(ps@)),
{
    let mut r = String::new();
    let mut i: usize = 0;
    while i < ps.len()
        invariant
            i <= ps@.len(),
            r@ == join_paragraphs(views(ps@).take(i as int)),
        decreases ps.len() - i,
    {
        let ghost next = views(ps@).take(i + 1);
        assert(next.drop_last() =~= views(ps@).take(i as int));
        if i > 0 {
            r.append("\n\n");
        }
        r.append(ps[i].as_str());
        i = i + 1;
    }
    assert(views(ps@).take(ps@.len() as int) =~= views(ps@));
    r
}

/// The starting configuration file for the projects found.
pub fn generate_config_text(projects: &Vec<DetectedProject>) -> (r: String)
    ensures
        r@ == spec_config_text(projects@),
{
    let ts = any_language(projects, Language::TypeScript);
    let python = any_language(projects, Language::Python);
    let c = any_language(projects, Language::C);
    let rust = any_language(projects, Language::Rust);
    let mut sections: Vec<String> = Vec::new();
    assert(views(sections@) =~= seq![]);
    if ts {
        push_str(&mut sections, "[ts]\nruntime = \"bun\"\npackage_manager = \"bun\"");
    }
    if python {
        push_str(&mut sections, "[python]\nrunner = \"uv\"");
    }
    if c {
        push_str(&mut sections, "[c]\ncompiler = \"clang\"\nbuild_system = \"cmake\"");
    }
    if rust {
        push_str(&mut sections, "[rust]\nlinker = \"default\"");
    }
    let mut entries: Vec<String> = Vec::new();
    assert(views(entries@) =~= seq![]);
    if ts {
        push_str(&mut entries, "ts = \"biome\"");
    }
    if python {
        push_str(&mut entries, "python = \"ruff\"");
    }
    if rust {
        push_str(&mut entries, "rust = \"clippy\"");
    }
    assert(views(entries@) =~= lint_entries(ts, python, rust));
    if entries.len() > 0 {
        let mut lint = String::from_str("[lint]\n");
        let body = crate::text::join(&entries);
        lint.append(body.as_str());
        let ghost prev = sections@;
        sections.push(lint);
        assert(views(sections@) =~= views(prev).push(lint@));
    }
    push_str(&mut sections, "[ai]\nprovider = \"ollama\"\nmodel = \"llama3\"\nendpoint = \"http://0.0.0.0:11434\"");
    assert(views(sections@) =~= config_sections(ts, python, c, rust));
    join_with_blank_lines(&sections)
}

// ---------------------------------------------------------------------------
// Checking a configuration file
// ---------------------------------------------------------------------------

/// A TOML value as plain values: a string, a table (its entries in the order
/// the table yields them), or anything else.
pub enum TomlModel {
    Str(Seq<char>),
    Table(Seq<(Seq<char>, TomlModel)>),
    Other,
}

#[verifier::external_type_specification]
#[verifier::external_body]
pub struct ExTomlValue(toml::Value);

#[verifier::external_type_specification]
#[verifier::external_body]
#[verifier::reject_recursive_types(K)]
#[verifier::reject_recursive_types(V)]
pub struct ExTomlMap<K, V>(toml::map::Map<K, V>);

/// What parsing a text as a TOML table gives: its entries, or the text of the
/// parse error.
pub uninterp spec fn toml_parse(text: Seq<char>) -> Result<Seq<(Seq<char>, TomlModel)>, Seq<char>>;

/// What a `toml::Value` holds.
pub uninterp spec fn toml_value_model(v: toml::Value) -> TomlModel;

/// The entries of a `toml::Table`, in the order the table yields them.
pub uninterp spec fn toml_table_model(t: toml::map::Map<String, toml::Value>) -> Seq<(Seq<char>, TomlModel)>;

/// `str::parse::<toml::Table>`, the error shown as text. The contract claims
/// only that the table, or the error's text, is what `toml_parse` names for
/// the text.
#[verifier::external_body]
fn parse_toml_table(text: &str) -> (r: Result<toml::map::Map<String, toml::Value>, String>)
    ensures
        match r {
            Ok(t) => toml_parse(text@) == Ok::<Seq<(Seq<char>, TomlModel)>, Seq<char>>(toml_table_model(t)),
            Err(e) => toml_parse(text@) == Err::<Seq<(Seq<char>, TomlModel)>, Seq<char>>(e@),
        },
{
    match text.parse::<toml::Table>() {
        Ok(t) => Ok(t),
        Err(e) => Err(e.to_string()),
    }
}

/// `toml::map::Map::keys`: the keys of a table, in the order of its entries.
#[verifier::external_body]
fn toml_keys(t: &toml::map::Map<String, toml::Value>) -> (r: Vec<String>)
    ensures
        views(r@) == toml_table_model(*t).map_values(|e: (Seq<char>, TomlModel)| e.0),
{
    t.keys().cloned().collect()
}

/// The value of the first entry of `entries` under `key`.
pub open spec fn lookup(entries: Seq<(Seq<char>, TomlModel)>, key: Seq<char>) -> Option<TomlModel>
    decreases entries.len(),
{
    if entries.len() == 0 {
        None
    } else if entries[0].0 == key {
        Some(entries[0].1)
    } else {
        lookup(entries.drop_first(), key)
    }
}

/// `toml::map::Map::get`: the value under `key`.
#[verifier::external_body]
fn toml_get<'a>(t: &'a toml::map::Map<String, toml::Value>, key: &str) -> (r: Option<&'a toml::Value>)
    ensures
        match r {
            Some(v) => lookup(toml_table_model(*t), key@) == Some(toml_value_model(*v)),
            None => lookup(toml_table_model(*t), key@) is None,
        },
{
    t.get(key)
}

/// `toml::Value::as_table`.
#[verifier::external_body]
fn toml_as_table<'a>(v: &'a toml::Value) -> (r: Option<&'a toml::map::Map<String, toml::Value>>)
    ensures
        match r {
            Some(t) => toml_value_model(*v) == TomlModel::Table(toml_table_model(*t)),
            None => !(toml_value_model(*v) is Table),
        },
{
    v.as_table()
}

/// `toml::Value::as_str`.
#[verifier::external_body]
fn toml_as_str<'a>(v: &'a toml::Value) -> (r: Option<&'a str>)
    ensures
        match r {
            Some(s) => toml_value_model(*v) == TomlModel::Str(s@),
            None => !(toml_value_model(*v) is Str),
        },
{
    v.as_str()
}

/// The sections a configuration file may have.
pub open spec fn known_section(key: Seq<char>) -> bool {
    key == "ts"@ || key == "python"@ || key == "c"@ || key == "rust"@ || key == "lint"@ || key == "ai"@
}

/// The AI providers that are known.
pub open spec fn known_provider(p: Seq<char>) -> bool {
    p == "ollama"@ || p == "anthropic"@ || p == "openai"@
}

/// One warning for each unknown section, in order.
pub open spec fn section_warnings(keys: Seq<Seq<char>>) -> Seq<Seq<char>>
    decreases keys.len(),
{
    if keys.len() == 0 {
        seq![]
    } else {
        section_warnings(keys.drop_last()) + if known_section(keys.last()) {
            seq![]
        } else {
            seq!["unknown section ["@ + keys.last() + "] in .poc/config.toml"@]
        }
    }
}

/// The provider named in the `[ai]` table, when it is a string.
pub open spec fn ai_provider(entries: Seq<(Seq<char>, TomlModel)>) -> Option<Seq<char>> {
    match lookup(entries, "ai"@) {
        Some(TomlModel::Table(ai)) => match lookup(ai, "provider"@) {
            Some(TomlModel::Str(p)) => Some(p),
            _ => None,
        },
        _ => None,
    }
}

/// The warnings about the entries of a configuration table: one per unknown
/// section, in order, then one for an unknown AI provider.
pub open spec fn spec_table_warnings(entries: Seq<(Seq<char>, TomlModel)>) -> Seq<Seq<char>> {
    section_warnings(entries.map_values(|e: (Seq<char>, TomlModel)| e.0)) + match ai_provider(entries) {
        Some(p) => if known_provider(p) {
            seq![]
        } else {
            seq!["unknown AI provider '"@ + p + "' \u{2014} expected one of: ollama, anthropic, openai"@]
        },
        None => seq![],
    }
}

/// The warnings about a configuration file's text: a parse failure, or the
/// warnings about its table.
pub open spec fn spec_config_warnings(text: Seq<char>) -> Seq<Seq<char>> {
    match toml_parse(text) {
        Err(e) => seq!["failed to parse .poc/config.toml: "@ + e],
        Ok(entries) => spec_table_warnings(entries),
    }
}

/// No section is warned about when every name is one of the six known ones.
proof fn lemma_all_known_no_section_warning(keys: Seq<Seq<char>>)
    requires
        forall|i: int| 0 <= i < keys.len() ==> {
            let k = #[trigger] keys[i];
            k == "ts"@ || k == "python"@ || k == "c"@ || k == "rust"@ || k == "lint"@ || k == "ai"@
        },
    ensures
        section_warnings(keys) == Seq::<Seq<char>>::empty(),
    decreases keys.len(),
{
    if keys.len() > 0 {
        lemma_all_known_no_section_warning(keys.drop_last());
        assert(keys.last() == keys[keys.len() - 1]);
        assert(Seq::<Seq<char>>::empty() + Seq::<Seq<char>>::empty() =~= Seq::<Seq<char>>::empty());
    }
}

proof fn lemma_unknown_section_warned(keys: Seq<Seq<char>>, i: int)
    requires
        0 <= i < keys.len(),
        !(keys[i] == "ts"@ || keys[i] == "python"@ || keys[i] == "c"@ || keys[i] == "rust"@ || keys[i] == "lint"@ || keys[i] == "ai"@),
    ensures
        section_warnings(keys).contains("unknown section ["@ + keys[i] + "] in .poc/config.toml"@),
    decreases keys.len(),
{
    let w = "unknown section ["@ + keys[i] + "] in .poc/config.toml"@;
    let before = section_warnings(keys.drop_last());
    if i == keys.len() - 1 {
        assert(keys.last() == keys[i]);
        let all = before + seq![w];
        assert(all[before.len() as int] == w);
        assert(section_warnings(keys) == all);
    } else {
        assert(keys.drop_last()[i] == keys[i]);
        lemma_unknown_section_warned(keys.drop_last(), i);
        let extra = if known_section(keys.last()) { Seq::<Seq<char>>::empty() } else { seq!["unknown section ["@ + keys.last() + "] in .poc/config.toml"@] };
        let j = choose|j: int| 0 <= j < before.len() && before[j] == w;
        assert((before + extra)[j] == w);
        assert(section_warnings(keys) == before + extra);
    }
}

/// Law: a configuration whose sections are all among `ts`, `python`, `c`,
/// `rust`, `lint` and `ai`, and whose `[ai]` provider, if it names one, is
/// `ollama`, `anthropic` or `openai`, gets no warning.
pub proof fn lemma_known_configuration_no_warning(entries: Seq<(Seq<char>, TomlModel)>)
    requires
        forall|i: int| 0 <= i < entries.len() ==> {
            let k = (#[trigger] entries[i]).0;
            k == "ts"@ || k == "python"@ || k == "c"@ || k == "rust"@ || k == "lint"@ || k == "ai"@
        },
        match lookup(entries, "ai"@) {
            Some(TomlModel::Table(ai)) => match lookup(ai, "provider"@) {
                Some(TomlModel::Str(p)) => p == "ollama"@ || p == "anthropic"@ || p == "openai"@,
                _ => true,
            },
            _ => true,
        },
    ensures
        spec_table_warnings(entries) == Seq::<Seq<char>>::empty(),
{
    let keys = entries.map_values(|e: (Seq<char>, TomlModel)| e.0);
    assert forall|i: int| 0 <= i < keys.len() implies {
        let k = #[trigger] keys[i];
        k == "ts"@ || k == "python"@ || k == "c"@ || k == "rust"@ || k == "lint"@ || k == "ai"@
    } by {
        assert(keys[i] == entries[i].0);
    }
    lemma_all_known_no_section_warning(keys);
    assert(Seq::<Seq<char>>::empty() + Seq::<Seq<char>>::empty() =~= Seq::<Seq<char>>::empty());
}

/// Law: every section whose name is not among `ts`, `python`, `c`, `rust`,
/// `lint` and `ai` is warned about by name.
pub proof fn lemma_unknown_section_warning(entries: Seq<(Seq<char>, TomlModel)>, i: int)
    requires
        0 <= i < entries.len(),
        !(entries[i].0 == "ts"@ || entries[i].0 == "python"@ || entries[i].0 == "c"@ || entries[i].0 == "rust"@
            || entries[i].0 == "lint"@ || entries[i].0 == "ai"@),
    ensures
        spec_table_warnings(entries).contains("unknown section ["@ + entries[i].0 + "] in .poc/config.toml"@),
{
    let keys = entries.map_values(|e: (Seq<char>, TomlModel)| e.0);
    assert(keys[i] == entries[i].0);
    lemma_unknown_section_warned(keys, i);
    let w = "unknown section ["@ + entries[i].0 + "] in .poc/config.toml"@;
    let sw = section_warnings(keys);
    let j = choose|j: int| 0 <= j < sw.len() && sw[j] == w;
    let rest = match ai_provider(entries) {
        Some(p) => if known_provider(p) {
            Seq::<Seq<char>>::empty()
        } else {
            seq!["unknown AI provider '"@ + p + "' \u{2014} expected one of: ollama, anthropic, openai"@]
        },
        None => Seq::<Seq<char>>::empty(),
    };
    assert(spec_table_warnings(entries) == sw + rest);
    assert((sw + rest)[j] == w);
}

/// Law: an `[ai]` provider other than `ollama`, `anthropic` and `openai`
/// gets a warning that names it, after those about sections.
pub proof fn lemma_unknown_provider_warning(entries: Seq<(Seq<char>, TomlModel)>, ai: Seq<(Seq<char>, TomlModel)>, p: Seq<char>)
    requires
        lookup(entries, "ai"@) == Some(TomlModel::Table(ai)),
        lookup(ai, "provider"@) == Some(TomlModel::Str(p)),
        !(p == "ollama"@ || p == "anthropic"@ || p == "openai"@),
    ensures
        spec_table_warnings(entries).len() > 0,
        spec_table_warnings(entries).last()
            == "unknown AI provider '"@ + p + "' \u{2014} expected one of: ollama, anthropic, openai"@,
{
}

fn is_known_section(key: &str) -> (r: bool)
    ensures
        r == known_section(key@),
{
    str_eq(key, "ts") || str_eq(key, "python") || str_eq(key, "c") || str_eq(key, "rust") || str_eq(key, "lint") || str_eq(key, "ai")
}

/// The warnings about the text of a configuration file.
pub fn config_warnings(text: &str) -> (r: Vec<String>)
    ensures
        views(r@) == spec_config_warnings(text@),
{
    match parse_toml_table(text) {
        Ok(table) => table_warnings(&table),
        Err(e) => {
            let mut warnings: Vec<String> = Vec::new();
            let mut w = String::from_str("failed to parse .poc/config.toml: ");
            w.append(e.as_str());
            warnings.push(w);
            assert(views(warnings@) =~= seq![w@]);
            warnings
        },
    }
}

/// The warnings about a parsed configuration table.
pub fn table_warnings(table: &toml::map::Map<String, toml::Value>) -> (r: Vec<String>)
    ensures
        views(r@) == spec_table_warnings(toml_table_model(*table)),
{
    let mut warnings: Vec<String> = Vec::new();
    let keys = toml_keys(table);
    let mut k: usize = 0;
    assert(views(warnings@) =~= seq![]);
    while k < keys.len()
        invariant
            k <= keys@.len(),
            views(warnings@) == section_warnings(views(keys@).take(k as int)),
        decreases keys.len() - k,
    {
        assert(views(keys@).take(k + 1).drop_last() =~= views(keys@).take(k as int));
        if !is_known_section(keys[k].as_str()) {
            let mut w = String::from_str("unknown section [");
            w.append(keys[k].as_str());
            w.append("] in .poc/config.toml");
            let ghost prev = warnings@;
            warnings.push(w);
            assert(views(warnings@) =~= views(prev).push(w@));
        } else {
            assert(views(warnings@) + seq![] =~= views(warnings@));
        }
        k = k + 1;
    }
    assert(views(keys@).take(keys@.len() as int) =~= views(keys@));
    let ghost before = views(warnings@);
    let provider: Option<&str> = match toml_get(table, "ai") {
        Some(v) => match toml_as_table(v) {
            Some(ai) => match toml_get(ai, "provider") {
                Some(pv) => toml_as_str(pv),
                None => None,
            },
            None => None,
        },
        None => None,
    };
    assert(match provider { Some(p) => ai_provider(toml_table_model(*table)) == Some(p@), None => ai_provider(toml_table_model(*table)) is None });
    match provider {
        Some(p) => {
            if !(str_eq(p, "ollama") || str_eq(p, "anthropic") || str_eq(p, "openai")) {
                let mut w = String::from_str("unknown AI provider '");
                w.append(p);
                w.append("' \u{2014} expected one of: ollama, anthropic, openai");
                let ghost prev = warnings@;
                warnings.push(w);
                assert(views(warnings@) =~= views(prev).push(w@));
            } else {
                assert(before + seq![] =~= before);
            }
        },
        None => {
            assert(before + seq![] =~= before);
        },
    }
    warnings
}

} // verus!
