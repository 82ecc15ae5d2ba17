use ts_highlight::highlight::process_query;
use ts_highlight::languages::lookup_language;
use ts_highlight::syntax::parse_code;

// The Kotlin, emoji (Kotlin) and Groovy highlight cases need a highlights
// query that the Kotlin and Groovy grammar crates used here do not export, and
// Dockerfile has no grammar here; they are not carried over.

fn run_test_with_highlights(code: &str, language: &str, highlights_query: &str, expected_output: &str) {
    let code = code.to_string();
    let language = lookup_language(language).expect("the language should be supported");
    let tree = parse_code(&code, language).expect("the code should parse");
    let output = process_query(language, highlights_query, &tree, &code).expect("the query should run");
    assert_eq!(expected_output, output);
}

#[test]
fn languages_test_php() {
    run_test_with_highlights(
        "<?php $test = 1;",
        "php",
        tree_sitter_php::HIGHLIGHTS_QUERY,
        r#"tag 0 5
variable 6 11
operator 6 7
number 14 15
"#,
    )
}

#[test]
fn languages_test_bash() {
    run_test_with_highlights(
        "echo 'hi'",
        "bash",
        tree_sitter_bash::HIGHLIGHT_QUERY,
        r#"function 0 4
string 5 9
"#,
    )
}

#[test]
fn languages_test_json() {
    run_test_with_highlights(
        "{\"test\": 1}",
        "json",
        tree_sitter_json::HIGHLIGHTS_QUERY,
        r#"string.special.key 1 7
string 1 7
number 9 10
"#,
    )
}

#[test]
fn languages_test_python() {
    run_test_with_highlights(
        "test = 1",
        "python",
        tree_sitter_python::HIGHLIGHTS_QUERY,
        r#"variable 0 4
operator 5 6
number 7 8
"#,
    )
}

#[test]
fn languages_test_java() {
    run_test_with_highlights(
        "package test",
        "java",
        tree_sitter_java::HIGHLIGHTS_QUERY,
        r#"keyword 0 7
variable 8 12
"#,
    )
}

#[test]
fn languages_test_rust() {
    run_test_with_highlights(
        "static TEST: i32 = 1;",
        "rust",
        tree_sitter_rust::HIGHLIGHTS_QUERY,
        r#"keyword 0 6
constructor 7 11
punctuation.delimiter 11 12
type.builtin 13 16
constant.builtin 19 20
punctuation.delimiter 20 21
"#,
    )
}

#[test]
fn languages_test_lua() {
    run_test_with_highlights(
        "test = 1",
        "lua",
        tree_sitter_lua::HIGHLIGHTS_QUERY,
        r#"variable 0 4
operator 5 6
number 7 8
"#,
    )
}


/// The TOML grammar crate's own highlights query captures a table's key as
/// `type`, where the older query captured it as `property`.
#[test]
fn languages_test_toml() {
    run_test_with_highlights(
        "[package]",
        "toml",
        tree_sitter_toml_ng::HIGHLIGHTS_QUERY,
        r#"punctuation.bracket 0 1
type 1 8
punctuation.bracket 8 9
"#,
    )
}

#[test]
fn languages_test_css() {
    run_test_with_highlights(
        ".test { color: red; }",
        "css",
        tree_sitter_css::HIGHLIGHTS_QUERY,
        r#"property 1 5
property 8 13
punctuation.delimiter 13 14
"#,
    )
}

#[test]
fn languages_test_html() {
    run_test_with_highlights(
        "<!DOCTYPE html><p>hi</p>",
        "html",
        tree_sitter_html::HIGHLIGHTS_QUERY,
        r#"constant 0 15
punctuation.bracket 14 15
punctuation.bracket 15 16
tag 16 17
punctuation.bracket 17 18
punctuation.bracket 20 22
tag 22 23
punctuation.bracket 23 24
"#,
    )
}

#[test]
fn languages_test_javascript() {
    run_test_with_highlights(
        "const test = 1;",
        "javascript",
        tree_sitter_javascript::HIGHLIGHT_QUERY,
        r#"keyword 0 5
variable 6 10
operator 11 12
number 13 14
punctuation.delimiter 14 15
"#,
    )
}

#[test]
fn languages_test_string_byte_count() {
    assert_eq!("val test =\"😄😄😄\"".len(), 24);
    assert_eq!("val".len(), 3);
    assert_eq!("😄".len(), 4);
}

#[test]
fn test_languages_test_php() {
    run_test_with_highlights(
        "<?php $test = 1;",
        "php",
        tree_sitter_php::HIGHLIGHTS_QUERY,
        r#"tag 0 5
variable 6 11
operator 6 7
number 14 15
"#,
    )
}

#[test]
fn test_languages_test_bash() {
    run_test_with_highlights(
        "echo 'hi'",
        "bash",
        tree_sitter_bash::HIGHLIGHT_QUERY,
        r#"function 0 4
string 5 9
"#,
    )
}

#[test]
fn test_languages_test_json() {
    run_test_with_highlights(
        "{\"test\": 1}",
        "json",
        tree_sitter_json::HIGHLIGHTS_QUERY,
        r#"string.special.key 1 7
string 1 7
number 9 10
"#,
    )
}

#[test]
fn test_languages_test_python() {
    run_test_with_highlights(
        "test = 1",
        "python",
        tree_sitter_python::HIGHLIGHTS_QUERY,
        r#"variable 0 4
operator 5 6
number 7 8
"#,
    )
}

#[test]
fn test_languages_test_java() {
    run_test_with_highlights(
        "package test",
        "java",
        tree_sitter_java::HIGHLIGHTS_QUERY,
        r#"keyword 0 7
variable 8 12
"#,
    )
}

#[test]
fn test_languages_test_rust() {
    run_test_with_highlights(
        "static TEST: i32 = 1;",
        "rust",
        tree_sitter_rust::HIGHLIGHTS_QUERY,
        r#"keyword 0 6
constructor 7 11
punctuation.delimiter 11 12
type.builtin 13 16
constant.builtin 19 20
punctuation.delimiter 20 21
"#,
    )
}

#[test]
fn test_languages_test_lua() {
    run_test_with_highlights(
        "test = 1",
        "lua",
        tree_sitter_lua::HIGHLIGHTS_QUERY,
        r#"variable 0 4
operator 5 6
number 7 8
"#,
    )
}


/// The TOML grammar crate's own highlights query captures a table's key as
/// `type`, where the older query captured it as `property`.
#[test]
fn test_languages_test_toml() {
    run_test_with_highlights(
        "[package]",
        "toml",
        tree_sitter_toml_ng::HIGHLIGHTS_QUERY,
        r#"punctuation.bracket 0 1
type 1 8
punctuation.bracket 8 9
"#,
    )
}

#[test]
fn test_languages_test_css() {
    run_test_with_highlights(
        ".test { color: red; }",
        "css",
        tree_sitter_css::HIGHLIGHTS_QUERY,
        r#"property 1 5
property 8 13
punctuation.delimiter 13 14
"#,
    )
}

#[test]
fn test_languages_test_html() {
    run_test_with_highlights(
        "<!DOCTYPE html><p>hi</p>",
        "html",
        tree_sitter_html::HIGHLIGHTS_QUERY,
        r#"constant 0 15
punctuation.bracket 14 15
punctuation.bracket 15 16
tag 16 17
punctuation.bracket 17 18
punctuation.bracket 20 22
tag 22 23
punctuation.bracket 23 24
"#,
    )
}

#[test]
fn test_languages_test_javascript() {
    run_test_with_highlights(
        "const test = 1;",
        "javascript",
        tree_sitter_javascript::HIGHLIGHT_QUERY,
        r#"keyword 0 5
variable 6 10
operator 11 12
number 13 14
punctuation.delimiter 14 15
"#,
    )
}

#[test]
fn test_languages_test_string_byte_count() {
    assert_eq!("val test =\"😄😄😄\"".len(), 24);
    assert_eq!("val".len(), 3);
    assert_eq!("😄".len(), 4);
}
