use ts_highlight::highlight::{process_query, QueryFailure};
use ts_highlight::languages::{lookup_language, map_language_to_enum, Language};
use ts_highlight::syntax::{parse_code, GrammarError, ParseError};

#[test]
fn every_supported_name_maps_to_its_language() {
    let pairs = [
        ("kotlin", Language::Kotlin),
        ("php", Language::Php),
        ("bash", Language::Bash),
        ("json", Language::Json),
        ("dockerfile", Language::Dockerfile),
        ("python", Language::Python),
        ("java", Language::Java),
        ("rust", Language::Rust),
        ("lua", Language::Lua),
        ("toml", Language::Toml),
        ("groovy", Language::Groovy),
        ("css", Language::Css),
        ("html", Language::Html),
        ("javascript", Language::Javascript),
    ];
    for (name, language) in pairs {
        assert_eq!(lookup_language(name), Some(language));
        assert_eq!(map_language_to_enum(name), language);
    }
}

#[test]
fn unknown_names_have_no_language() {
    assert_eq!(lookup_language("cobol"), None);
    assert_eq!(lookup_language("Python"), None);
    assert_eq!(lookup_language(""), None);
}

#[test]
fn dockerfile_has_no_grammar() {
    let code = "FROM apache:latest".to_string();
    assert!(matches!(
        parse_code(&code, Language::Dockerfile),
        Err(ParseError::Grammar(GrammarError::Unavailable))
    ));
}

#[test]
fn an_invalid_query_is_reported() {
    let code = "test = 1".to_string();
    let tree = parse_code(&code, Language::Python).expect("the code should parse");
    assert_eq!(
        process_query(Language::Python, "((identifier", &tree, &code),
        Err(QueryFailure::InvalidQuery)
    );
}

#[test]
fn a_query_lists_its_captures() {
    let code = "test = 1".to_string();
    let tree = parse_code(&code, Language::Python).expect("the code should parse");
    let out = process_query(Language::Python, "(identifier) @name (integer) @num", &tree, &code);
    assert_eq!(out, Ok("name 0 4\nnum 7 8\n".to_string()));
}

#[test]
fn every_grammar_at_hand_is_accepted() {
    let code = "x".to_string();
    for name in [
        "kotlin", "php", "bash", "json", "python", "java", "rust", "lua", "toml", "groovy", "css",
        "html", "javascript",
    ] {
        let language = lookup_language(name).unwrap();
        assert!(parse_code(&code, language).is_ok(), "{} should parse", name);
    }
}

#[test]
fn a_query_over_another_grammar_is_invalid() {
    let code = "test = 1".to_string();
    let tree = parse_code(&code, Language::Python).expect("the code should parse");
    assert_eq!(
        process_query(Language::Json, "(identifier) @name", &tree, &code),
        Err(QueryFailure::InvalidQuery)
    );
}

#[test]
fn an_unknown_field_at_the_start_of_a_query_is_invalid() {
    let code = "test = 1".to_string();
    let tree = parse_code(&code, Language::Python).expect("the code should parse");
    assert_eq!(
        process_query(Language::Python, "nosuchfield: (identifier)", &tree, &code),
        Err(QueryFailure::InvalidQuery)
    );
}

#[test]
fn a_tree_longer_than_the_code_is_refused() {
    let code = "test = 1".to_string();
    let tree = parse_code(&code, Language::Python).expect("the code should parse");
    let shorter = "x".to_string();
    assert_eq!(
        process_query(Language::Python, "((identifier) @id (#eq? @id \"test\"))", &tree, &shorter),
        Err(QueryFailure::TreeOutsideCode)
    );
}

#[test]
fn a_text_predicate_filters_captures() {
    let code = "test = other".to_string();
    let tree = parse_code(&code, Language::Python).expect("the code should parse");
    let out = process_query(Language::Python, "((identifier) @id (#eq? @id \"other\"))", &tree, &code);
    assert_eq!(out, Ok("id 7 12\n".to_string()));
}
