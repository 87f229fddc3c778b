//! Project providers: the toolchain profiles that `dam.toml` is generated
//! from and that decide which setup commands are trusted on import.
use vstd::prelude::*;
use vstd::string::StringExecFns;
use crate::text::{
    all_ascii, ascii_lower, ascii_lower_char, eq_ignore_ascii_case, lower_text, owned, str_eq,
    string_views, to_lowercase,
};

verus! {

/// A project provider.
pub trait Provider {
    /// The provider's name.
    spec fn name_spec(&self) -> Seq<char>;

    /// The `dam.toml` the provider starts a project with.
    spec fn default_toml_spec(&self, project_name: Seq<char>) -> Seq<char>;

    /// The provider's name.
    fn name(&self) -> (r: &'static str)
        ensures
            r@ == self.name_spec(),
    ;

    /// The `dam.toml` the provider starts a project named `project_name` with.
    fn default_toml(&self, project_name: &str) -> (r: String)
        ensures
            r@ == self.default_toml_spec(project_name@),
    ;
}

/// The opening of every generated `dam.toml`, up to the project's name.
pub open spec fn toml_head() -> Seq<char> {
    "[project]\nname = \""@
}

fn toml_with(project_name: &str, tail: &str) -> (r: String)
    ensures
        r@ == toml_head() + project_name@ + tail@,
{
    let mut s = String::from_str("[project]\nname = \"");
    s.append(project_name);
    s.append(tail);
    s
}

/// Projects of no particular toolchain: environment checks are bypassed and setup scripts are relied on.
pub struct CustomProvider;

/// What follows the project's name in the `dam.toml` of CustomProvider.
pub open spec fn custom_toml_tail() -> Seq<char> {
    "\"\nprovider = \"custom\"\nenforce_password_on_project_import = false\ndescription = \"A custom project managed by Dam\"\n\n[setup]\n# Untrusted commands on import will be written to a reviewable setup script.\ncommands = [\n    \"echo 'Run your setup commands here'\"\n]\n\n[profiles.full]\ndescription = \"Full Admin Access\"\ninclude = [\"**/*\"]\nexclude = [\".git/**\", \".dam/**\"]\n\n[profiles.contributor]\ndescription = \"Basic Contributor Access\"\ninclude = [\"**/*\"]\nexclude = [\".git/**\", \".dam/**\", \"**/.env\", \"**/*.secret\"]\n\n# Helpful defaults so users know what sections are supported\nstreams = [\"main\"]\nreleases = []\nstable = []\n"@
}

impl Provider for CustomProvider {
    open spec fn name_spec(&self) -> Seq<char> {
        "custom"@
    }

    open spec fn default_toml_spec(&self, project_name: Seq<char>) -> Seq<char> {
        toml_head() + project_name + custom_toml_tail()
    }

    fn name(&self) -> (r: &'static str) {
        "custom"
    }

    fn default_toml(&self, project_name: &str) -> (r: String) {
        toml_with(project_name, "\"\nprovider = \"custom\"\nenforce_password_on_project_import = false\ndescription = \"A custom project managed by Dam\"\n\n[setup]\n# Untrusted commands on import will be written to a reviewable setup script.\ncommands = [\n    \"echo 'Run your setup commands here'\"\n]\n\n[profiles.full]\ndescription = \"Full Admin Access\"\ninclude = [\"**/*\"]\nexclude = [\".git/**\", \".dam/**\"]\n\n[profiles.contributor]\ndescription = \"Basic Contributor Access\"\ninclude = [\"**/*\"]\nexclude = [\".git/**\", \".dam/**\", \"**/.env\", \"**/*.secret\"]\n\n# Helpful defaults so users know what sections are supported\nstreams = [\"main\"]\nreleases = []\nstable = []\n")
    }
}

/// Firebase projects.
pub struct FirebaseProvider;

/// What follows the project's name in the `dam.toml` of FirebaseProvider.
pub open spec fn firebase_toml_tail() -> Seq<char> {
    "\"\nprovider = \"firebase\"\nenforce_password_on_project_import = false\ndescription = \"A Firebase project managed by Dam\"\n\n[setup]\ncommands = [\n    \"npm install firebase-tools -g\",\n    \"firebase use --add\"\n]\n\n[profiles.full]\ndescription = \"Full Admin Access\"\ninclude = [\"**/*\"]\nexclude = [\".git/**\", \"node_modules/**\", \".firebase/**\", \".dam/**\"]\n\n[profiles.contributor]\ndescription = \"Contributor Access (No env files or service accounts)\"\ninclude = [\"**/*\"]\nexclude = [\n    \".git/**\", \"node_modules/**\", \".firebase/**\", \".dam/**\",\n    \"**/.env\", \"**/serviceAccountKey.json\", \"firebase-debug.log\"\n]\n"@
}

impl Provider for FirebaseProvider {
    open spec fn name_spec(&self) -> Seq<char> {
        "firebase"@
    }

    open spec fn default_toml_spec(&self, project_name: Seq<char>) -> Seq<char> {
        toml_head() + project_name + firebase_toml_tail()
    }

    fn name(&self) -> (r: &'static str) {
        "firebase"
    }

    fn default_toml(&self, project_name: &str) -> (r: String) {
        toml_with(project_name, "\"\nprovider = \"firebase\"\nenforce_password_on_project_import = false\ndescription = \"A Firebase project managed by Dam\"\n\n[setup]\ncommands = [\n    \"npm install firebase-tools -g\",\n    \"firebase use --add\"\n]\n\n[profiles.full]\ndescription = \"Full Admin Access\"\ninclude = [\"**/*\"]\nexclude = [\".git/**\", \"node_modules/**\", \".firebase/**\", \".dam/**\"]\n\n[profiles.contributor]\ndescription = \"Contributor Access (No env files or service accounts)\"\ninclude = [\"**/*\"]\nexclude = [\n    \".git/**\", \"node_modules/**\", \".firebase/**\", \".dam/**\",\n    \"**/.env\", \"**/serviceAccountKey.json\", \"firebase-debug.log\"\n]\n")
    }
}

/// Flutter projects.
pub struct FlutterProvider;

/// What follows the project's name in the `dam.toml` of FlutterProvider.
pub open spec fn flutter_toml_tail() -> Seq<char> {
    "\"\nprovider = \"flutter\"\nenforce_password_on_project_import = false\ndescription = \"A Flutter project managed by Dam\"\n\n[setup]\ncommands = [\n    \"flutter pub get\",\n    \"flutter clean\"\n]\n\n[profiles.full]\ndescription = \"Full Admin Access\"\ninclude = [\"**/*\"]\nexclude = [\".git/**\", \"build/**\", \".dart_tool/**\", \".dam/**\"]\n\n[profiles.contributor]\ndescription = \"Contributor Access (No env files or key stores)\"\ninclude = [\"**/*\"]\nexclude = [\n    \".git/**\", \"build/**\", \".dart_tool/**\", \".dam/**\",\n    \"**/*.env\", \"**/key.properties\", \"android/app/*.jks\"\n]\n\nstreams = [\"main\"]\nreleases = []\nstable = []\n"@
}

impl Provider for FlutterProvider {
    open spec fn name_spec(&self) -> Seq<char> {
        "flutter"@
    }

    open spec fn default_toml_spec(&self, project_name: Seq<char>) -> Seq<char> {
        toml_head() + project_name + flutter_toml_tail()
    }

    fn name(&self) -> (r: &'static str) {
        "flutter"
    }

    fn default_toml(&self, project_name: &str) -> (r: String) {
        toml_with(project_name, "\"\nprovider = \"flutter\"\nenforce_password_on_project_import = false\ndescription = \"A Flutter project managed by Dam\"\n\n[setup]\ncommands = [\n    \"flutter pub get\",\n    \"flutter clean\"\n]\n\n[profiles.full]\ndescription = \"Full Admin Access\"\ninclude = [\"**/*\"]\nexclude = [\".git/**\", \"build/**\", \".dart_tool/**\", \".dam/**\"]\n\n[profiles.contributor]\ndescription = \"Contributor Access (No env files or key stores)\"\ninclude = [\"**/*\"]\nexclude = [\n    \".git/**\", \"build/**\", \".dart_tool/**\", \".dam/**\",\n    \"**/*.env\", \"**/key.properties\", \"android/app/*.jks\"\n]\n\nstreams = [\"main\"]\nreleases = []\nstable = []\n")
    }
}

/// JavaScript / Node projects.
pub struct JsProvider;

/// What follows the project's name in the `dam.toml` of JsProvider.
pub open spec fn js_toml_tail() -> Seq<char> {
    "\"\nprovider = \"js\"\nenforce_password_on_project_import = false\ndescription = \"A JavaScript/Node project managed by Dam\"\n\n[setup]\ncommands = [\n    \"npm install\",\n    \"npm run build\"\n]\n\n# Note: permitted commands are enforced in code; do not place them here.\n\n[profiles.full]\ndescription = \"Full Admin Access\"\ninclude = [\"**/*\"]\nexclude = [\".git/**\", \"node_modules/**\", \".dam/**\"]\n\n[profiles.contributor]\ndescription = \"Contributor Access (No secrets)\"\ninclude = [\"**/*\"]\nexclude = [\".git/**\", \"node_modules/**\", \".dam/**\", \"**/*.env\"]\n\nstreams = [\"main\"]\nreleases = []\nstable = []\n"@
}

impl Provider for JsProvider {
    open spec fn name_spec(&self) -> Seq<char> {
        "js"@
    }

    open spec fn default_toml_spec(&self, project_name: Seq<char>) -> Seq<char> {
        toml_head() + project_name + js_toml_tail()
    }

    fn name(&self) -> (r: &'static str) {
        "js"
    }

    fn default_toml(&self, project_name: &str) -> (r: String) {
        toml_with(project_name, "\"\nprovider = \"js\"\nenforce_password_on_project_import = false\ndescription = \"A JavaScript/Node project managed by Dam\"\n\n[setup]\ncommands = [\n    \"npm install\",\n    \"npm run build\"\n]\n\n# Note: permitted commands are enforced in code; do not place them here.\n\n[profiles.full]\ndescription = \"Full Admin Access\"\ninclude = [\"**/*\"]\nexclude = [\".git/**\", \"node_modules/**\", \".dam/**\"]\n\n[profiles.contributor]\ndescription = \"Contributor Access (No secrets)\"\ninclude = [\"**/*\"]\nexclude = [\".git/**\", \"node_modules/**\", \".dam/**\", \"**/*.env\"]\n\nstreams = [\"main\"]\nreleases = []\nstable = []\n")
    }
}

/// Python projects.
pub struct PythonProvider;

/// What follows the project's name in the `dam.toml` of PythonProvider.
pub open spec fn python_toml_tail() -> Seq<char> {
    "\"\nprovider = \"python\"\nenforce_password_on_project_import = false\ndescription = \"A Python project managed by Dam\"\n\n[setup]\ncommands = [\n    \"python3 -m venv venv\",\n    \"venv/bin/pip install -r requirements.txt\"\n]\n\n[profiles.full]\ndescription = \"Full Admin Access\"\ninclude = [\"**/*\"]\nexclude = [\".git/**\", \"__pycache__/**\", \"venv/**\", \".venv/**\", \".dam/**\"]\n\n[profiles.contributor]\ndescription = \"Contributor Access (No env files or private keys)\"\ninclude = [\"**/*\"]\nexclude = [\n    \".git/**\", \"__pycache__/**\", \"venv/**\", \".venv/**\", \".dam/**\",\n    \"**/.env\", \"**/*.pem\", \"**/*.key\"\n]\n\nstreams = [\"main\"]\nreleases = []\nstable = []\n"@
}

impl Provider for PythonProvider {
    open spec fn name_spec(&self) -> Seq<char> {
        "python"@
    }

    open spec fn default_toml_spec(&self, project_name: Seq<char>) -> Seq<char> {
        toml_head() + project_name + python_toml_tail()
    }

    fn name(&self) -> (r: &'static str) {
        "python"
    }

    fn default_toml(&self, project_name: &str) -> (r: String) {
        toml_with(project_name, "\"\nprovider = \"python\"\nenforce_password_on_project_import = false\ndescription = \"A Python project managed by Dam\"\n\n[setup]\ncommands = [\n    \"python3 -m venv venv\",\n    \"venv/bin/pip install -r requirements.txt\"\n]\n\n[profiles.full]\ndescription = \"Full Admin Access\"\ninclude = [\"**/*\"]\nexclude = [\".git/**\", \"__pycache__/**\", \"venv/**\", \".venv/**\", \".dam/**\"]\n\n[profiles.contributor]\ndescription = \"Contributor Access (No env files or private keys)\"\ninclude = [\"**/*\"]\nexclude = [\n    \".git/**\", \"__pycache__/**\", \"venv/**\", \".venv/**\", \".dam/**\",\n    \"**/.env\", \"**/*.pem\", \"**/*.key\"\n]\n\nstreams = [\"main\"]\nreleases = []\nstable = []\n")
    }
}

/// Rust projects.
pub struct RustProvider;

/// What follows the project's name in the `dam.toml` of RustProvider.
pub open spec fn rust_toml_tail() -> Seq<char> {
    "\"\nprovider = \"rust\"\nenforce_password_on_project_import = false\ndescription = \"A Rust project managed by Dam\"\n\n[setup]\ncommands = [\n    \"cargo build\",\n    \"cargo test\"\n]\n\n# Note: permitted commands are enforced in code; do not place them here.\n\n[profiles.full]\ndescription = \"Full Admin Access\"\ninclude = [\"**/*\"]\nexclude = [\".git/**\", \"target/**\", \".dam/**\"]\n\n[profiles.contributor]\ndescription = \"Contributor Access (No secrets)\"\ninclude = [\"**/*\"]\nexclude = [\".git/**\", \"target/**\", \".dam/**\", \"**/*.env\"]\n\nstreams = [\"main\"]\nreleases = []\nstable = []\n"@
}

impl Provider for RustProvider {
    open spec fn name_spec(&self) -> Seq<char> {
        "rust"@
    }

    open spec fn default_toml_spec(&self, project_name: Seq<char>) -> Seq<char> {
        toml_head() + project_name + rust_toml_tail()
    }

    fn name(&self) -> (r: &'static str) {
        "rust"
    }

    fn default_toml(&self, project_name: &str) -> (r: String) {
        toml_with(project_name, "\"\nprovider = \"rust\"\nenforce_password_on_project_import = false\ndescription = \"A Rust project managed by Dam\"\n\n[setup]\ncommands = [\n    \"cargo build\",\n    \"cargo test\"\n]\n\n# Note: permitted commands are enforced in code; do not place them here.\n\n[profiles.full]\ndescription = \"Full Admin Access\"\ninclude = [\"**/*\"]\nexclude = [\".git/**\", \"target/**\", \".dam/**\"]\n\n[profiles.contributor]\ndescription = \"Contributor Access (No secrets)\"\ninclude = [\"**/*\"]\nexclude = [\".git/**\", \"target/**\", \".dam/**\", \"**/*.env\"]\n\nstreams = [\"main\"]\nreleases = []\nstable = []\n")
    }
}

/// One of the known providers.
pub enum AnyProvider {
    Flutter(FlutterProvider),
    Firebase(FirebaseProvider),
    Python(PythonProvider),
    Rust(RustProvider),
    Js(JsProvider),
    Custom(CustomProvider),
}

impl Provider for AnyProvider {
    open spec fn name_spec(&self) -> Seq<char> {
        match self {
            AnyProvider::Flutter(p) => p.name_spec(),
            AnyProvider::Firebase(p) => p.name_spec(),
            AnyProvider::Python(p) => p.name_spec(),
            AnyProvider::Rust(p) => p.name_spec(),
            AnyProvider::Js(p) => p.name_spec(),
            AnyProvider::Custom(p) => p.name_spec(),
        }
    }

    open spec fn default_toml_spec(&self, project_name: Seq<char>) -> Seq<char> {
        match self {
            AnyProvider::Flutter(p) => p.default_toml_spec(project_name),
            AnyProvider::Firebase(p) => p.default_toml_spec(project_name),
            AnyProvider::Python(p) => p.default_toml_spec(project_name),
            AnyProvider::Rust(p) => p.default_toml_spec(project_name),
            AnyProvider::Js(p) => p.default_toml_spec(project_name),
            AnyProvider::Custom(p) => p.default_toml_spec(project_name),
        }
    }

    fn name(&self) -> (r: &'static str) {
        match self {
            AnyProvider::Flutter(p) => p.name(),
            AnyProvider::Firebase(p) => p.name(),
            AnyProvider::Python(p) => p.name(),
            AnyProvider::Rust(p) => p.name(),
            AnyProvider::Js(p) => p.name(),
            AnyProvider::Custom(p) => p.name(),
        }
    }

    fn default_toml(&self, project_name: &str) -> (r: String) {
        match self {
            AnyProvider::Flutter(p) => p.default_toml(project_name),
            AnyProvider::Firebase(p) => p.default_toml(project_name),
            AnyProvider::Python(p) => p.default_toml(project_name),
            AnyProvider::Rust(p) => p.default_toml(project_name),
            AnyProvider::Js(p) => p.default_toml(project_name),
            AnyProvider::Custom(p) => p.default_toml(project_name),
        }
    }
}

/// The names that select the JavaScript provider.
pub open spec fn is_js_name(lower: Seq<char>) -> bool {
    lower == "js"@ || lower == "javascript"@ || lower == "node"@ || lower == "nodejs"@
}

/// The provider that a lower-cased name selects; unknown names select the
/// custom provider.
pub open spec fn provider_spec(lower: Seq<char>) -> AnyProvider {
    if lower == "flutter"@ {
        AnyProvider::Flutter(FlutterProvider)
    } else if lower == "firebase"@ {
        AnyProvider::Firebase(FirebaseProvider)
    } else if lower == "python"@ {
        AnyProvider::Python(PythonProvider)
    } else if lower == "rust"@ {
        AnyProvider::Rust(RustProvider)
    } else if is_js_name(lower) {
        AnyProvider::Js(JsProvider)
    } else {
        AnyProvider::Custom(CustomProvider)
    }
}

fn is_js(lower: &str) -> (r: bool)
    ensures
        r == is_js_name(lower@),
{
    str_eq(lower, "js") || str_eq(lower, "javascript") || str_eq(lower, "node") || str_eq(
        lower,
        "nodejs",
    )
}

/// The provider that an already lower-cased name selects.
pub fn provider_for_lowercase(lower: &str) -> (r: AnyProvider)
    ensures
        r == provider_spec(lower@),
{
    if str_eq(lower, "flutter") {
        AnyProvider::Flutter(FlutterProvider)
    } else if str_eq(lower, "firebase") {
        AnyProvider::Firebase(FirebaseProvider)
    } else if str_eq(lower, "python") {
        AnyProvider::Python(PythonProvider)
    } else if str_eq(lower, "rust") {
        AnyProvider::Rust(RustProvider)
    } else if is_js(lower) {
        AnyProvider::Js(JsProvider)
    } else {
        AnyProvider::Custom(CustomProvider)
    }
}

/// The provider a name selects, matched without regard to case.
pub fn get_provider(name: &str) -> (r: AnyProvider)
    ensures
        r == provider_spec(lower_text(name@)),
{
    let lower = to_lowercase(name);
    provider_for_lowercase(lower.as_str())
}

/// The setup commands a lower-cased provider name trusts to run on import.
pub open spec fn allowed_commands_spec(lower: Seq<char>) -> Seq<Seq<char>> {
    if lower == "flutter"@ {
        seq!["flutter pub get"@, "flutter clean"@, "flutter build"@]
    } else if lower == "python"@ {
        seq!["pip install -r requirements.txt"@, "poetry install"@]
    } else if lower == "rust"@ {
        seq!["cargo build"@, "cargo test"@, "cargo fmt"@, "cargo check"@]
    } else if is_js_name(lower) {
        seq!["npm install"@, "npm run build"@, "yarn install"@, "yarn build"@]
    } else {
        seq![]
    }
}

fn strings_of(items: &[&str]) -> (r: Vec<String>)
    ensures
        string_views(r@) == items@.map_values(|s: &str| s@),
{
    let mut r: Vec<String> = Vec::new();
    let mut i: usize = 0;
    while i < items.len()
        invariant
            0 <= i <= items@.len(),
            string_views(r@) == items@.take(i as int).map_values(|s: &str| s@),
        decreases items@.len() - i,
    {
        r.push(owned(items[i]));
        assert(items@.take(i + 1).map_values(|s: &str| s@) =~= items@.take(i as int).map_values(
            |s: &str| s@,
        ).push(items@[i as int]@));
        assert(string_views(r@) =~= string_views(r@.drop_last()).push(r@.last()@));
        i = i + 1;
    }
    assert(items@.take(items@.len() as int) =~= items@);
    r
}

/// The trusted setup commands of an already lower-cased provider name.
pub fn allowed_commands_for_lowercase(lower: &str) -> (r: Vec<String>)
    ensures
        string_views(r@) == allowed_commands_spec(lower@),
{
    if str_eq(lower, "flutter") {
        let r = strings_of(&["flutter pub get", "flutter clean", "flutter build"]);
        assert(string_views(r@) =~= allowed_commands_spec(lower@));
        r
    } else if str_eq(lower, "python") {
        let r = strings_of(&["pip install -r requirements.txt", "poetry install"]);
        assert(string_views(r@) =~= allowed_commands_spec(lower@));
        r
    } else if str_eq(lower, "rust") {
        let r = strings_of(&["cargo build", "cargo test", "cargo fmt", "cargo check"]);
        assert(string_views(r@) =~= allowed_commands_spec(lower@));
        r
    } else if is_js(lower) {
        let r = strings_of(&["npm install", "npm run build", "yarn install", "yarn build"]);
        assert(string_views(r@) =~= allowed_commands_spec(lower@));
        r
    } else {
        let r: Vec<String> = Vec::new();
        assert(string_views(r@) =~= allowed_commands_spec(lower@));
        r
    }
}

/// The setup commands that a provider, named without regard to case, trusts
/// to run automatically on import.
pub fn allowed_commands_for(name: &str) -> (r: Vec<String>)
    ensures
        string_views(r@) == allowed_commands_spec(lower_text(name@)),
{
    let lower = to_lowercase(name);
    allowed_commands_for_lowercase(lower.as_str())
}

proof fn lemma_ascii_lower_twice(n: Seq<char>)
    requires
        all_ascii(n),
    ensures
        all_ascii(ascii_lower(n)),
        ascii_lower(ascii_lower(n)) == ascii_lower(n),
{
    let l = ascii_lower(n);
    assert forall|i: int| 0 <= i < l.len() implies (l[i] as u32) < 128 && ascii_lower_char(l[i])
        == l[i] by {
        let c = n[i];
        if 'A' <= c && c <= 'Z' {
            assert(((c as u32) + 32) as char == l[i]);
        }
    }
    assert(ascii_lower(l) =~= l);
}

/// Provider names are matched without regard to case: an ASCII name trusts
/// the same setup commands as its lower-cased form (and as any name that
/// differs from it only in case). A provider trusts no command exactly when
/// the name selects the custom or the Firebase provider, and every alias of
/// the JavaScript provider trusts what `js` trusts.
pub proof fn law_allowed_commands_ignore_case(n: Seq<char>, m: Seq<char>, lower: Seq<char>)
    ensures
        all_ascii(n) ==> allowed_commands_spec(lower_text(lower_text(n))) == allowed_commands_spec(
            lower_text(n),
        ),
        all_ascii(n) && all_ascii(m) && eq_ignore_ascii_case(n, m) ==> allowed_commands_spec(
            lower_text(n),
        ) == allowed_commands_spec(lower_text(m)),
        allowed_commands_spec(lower).len() == 0 <==> (provider_spec(lower) is Custom
            || provider_spec(lower) is Firebase),
        is_js_name(lower) ==> allowed_commands_spec(lower) == allowed_commands_spec("js"@),
{
    if all_ascii(n) {
        lemma_ascii_lower_twice(n);
    }
    reveal_strlit("js");
    reveal_strlit("javascript");
    reveal_strlit("node");
    reveal_strlit("nodejs");
    reveal_strlit("flutter");
    reveal_strlit("firebase");
    reveal_strlit("python");
    reveal_strlit("rust");
    assert("firebase"@ != "flutter"@ && "firebase"@ != "python"@ && "firebase"@ != "rust"@) by {
        assert("firebase"@[1] != "flutter"@[1]);
    }
    assert(!is_js_name("firebase"@)) by {
        assert("firebase"@.len() == 8 && "js"@.len() == 2 && "javascript"@.len() == 10
            && "node"@.len() == 4 && "nodejs"@.len() == 6);
    }
    assert(!is_js_name("flutter"@) && !is_js_name("python"@)) by {
        assert("python"@[0] != "nodejs"@[0]);
    }
    assert(!is_js_name("rust"@)) by {
        assert("rust"@[0] != "node"@[0]);
    }
    assert(is_js_name("js"@));
    assert("js"@ != "flutter"@ && "js"@ != "python"@ && "js"@ != "rust"@);
    if is_js_name(lower) {
        assert(lower != "flutter"@ && lower != "python"@ && lower != "rust"@ && lower != "firebase"@)
            by {
            assert("node"@[0] != "rust"@[0]);
            assert("nodejs"@[0] != "python"@[0]);
        }
    }
}

} // verus!
