//! The languages that can be parsed, and their names.
use vstd::prelude::*;

verus! {

/// A language with a grammar.
#[derive(Clone, Copy, Debug, PartialEq, Eq, Structural)]
pub enum Language {
    Kotlin,
    Php,
    Bash,
    Json,
    Dockerfile,
    Python,
    Java,
    Rust,
    Lua,
    Toml,
    Groovy,
    Css,
    Html,
    Javascript,
}

/// The language that goes by `name`, if any.
pub open spec fn language_named(name: Seq<char>) -> Option<Language> {
    if name == "kotlin"@ {
        Some(Language::Kotlin)
    } else if name == "php"@ {
        Some(Language::Php)
    } else if name == "bash"@ {
        Some(Language::Bash)
    } else if name == "json"@ {
        Some(Language::Json)
    } else if name == "dockerfile"@ {
        Some(Language::Dockerfile)
    } else if name == "python"@ {
        Some(Language::Python)
    } else if name == "java"@ {
        Some(Language::Java)
    } else if name == "rust"@ {
        Some(Language::Rust)
    } else if name == "lua"@ {
        Some(Language::Lua)
    } else if name == "toml"@ {
        Some(Language::Toml)
    } else if name == "groovy"@ {
        Some(Language::Groovy)
    } else if name == "css"@ {
        Some(Language::Css)
    } else if name == "html"@ {
        Some(Language::Html)
    } else if name == "javascript"@ {
        Some(Language::Javascript)
    } else {
        None
    }
}

/// Whether two strings hold the same characters.
fn same_text(a: &str, b: &str) -> (r: bool)
    ensures
        r == (a@ == b@),
{
    let a = a.to_owned();
    let b = b.to_owned();
    a == b
}

/// The language that goes by `name`, or `None` for a name that no grammar has.
pub fn lookup_language(name: &str) -> (r: Option<Language>)
    ensures
        r == language_named(name@),
{
    if same_text(name, "kotlin") {
        Some(Language::Kotlin)
    } else if same_text(name, "php") {
        Some(Language::Php)
    } else if same_text(name, "bash") {
        Some(Language::Bash)
    } else if same_text(name, "json") {
        Some(Language::Json)
    } else if same_text(name, "dockerfile") {
        Some(Language::Dockerfile)
    } else if same_text(name, "python") {
        Some(Language::Python)
    } else if same_text(name, "java") {
        Some(Language::Java)
    } else if same_text(name, "rust") {
        Some(Language::Rust)
    } else if same_text(name, "lua") {
        Some(Language::Lua)
    } else if same_text(name, "toml") {
        Some(Language::Toml)
    } else if same_text(name, "groovy") {
        Some(Language::Groovy)
    } else if same_text(name, "css") {
        Some(Language::Css)
    } else if same_text(name, "html") {
        Some(Language::Html)
    } else if same_text(name, "javascript") {
        Some(Language::Javascript)
    } else {
        None
    }
}

/// The language that goes by `language`, which must be one of the supported
/// names.
pub fn map_language_to_enum(language: &str) -> (r: Language)
    requires
        language_named(language@) is Some,
    ensures
        language_named(language@) == Some(r),
{
    let found = lookup_language(language);
    found.unwrap()
}

} // verus!
