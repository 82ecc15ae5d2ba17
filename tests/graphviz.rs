use ts_highlight::languages::Language;
use ts_highlight::syntax::{generate_dot_graph, parse_code};

fn dot_graph_of(code: &str, language: Language) -> String {
    let code = code.to_string();
    let tree = parse_code(&code, language).expect("the code should parse");
    generate_dot_graph(&tree, &code).expect("the graph should render")
}

fn declared_ids(output: &str) -> Vec<usize> {
    output
        .lines()
        .filter(|line| line.starts_with("node_") && !line.contains("->"))
        .map(|line| {
            line.split('[')
                .next()
                .unwrap()
                .trim()
                .strip_prefix("node_")
                .expect("Node ID should start with 'node_'")
                .parse::<usize>()
                .expect("Node ID should be a valid number")
        })
        .collect()
}

#[test]
fn graphviz_test_dot_graph_simple() {
    // test with quotes for correct escaping
    let output = dot_graph_of("test = \"1\"", Language::Python);
    println!("{}", output);
    assert!(output.starts_with("digraph name {\n"));
    assert!(output.ends_with("\n}"));
    assert_eq!(output.lines().count(), 28);
}

#[test]
fn graphviz_test_dot_graph_stable_ids() {
    let code = r#"let x = 1;"#;
    let output1 = dot_graph_of(code, Language::Rust);
    let output2 = dot_graph_of(code, Language::Rust);
    assert_eq!(output1, output2);

    // Check that IDs start at 1 and are sequential
    let mut expected_id = 1;
    for &id in declared_ids(&output1).iter() {
        assert_eq!(id, expected_id, "Node IDs should be sequential starting from 1");
        expected_id += 1;
    }
}

#[test]
fn test_graphviz_test_dot_graph_simple() {
    // test with quotes for correct escaping
    let output = dot_graph_of("test = \"1\"", Language::Python);
    println!("{}", output);
    assert!(output.starts_with("digraph name {\n"));
    assert!(output.ends_with("\n}"));
    assert_eq!(output.lines().count(), 28);
}

#[test]
fn test_graphviz_test_dot_graph_stable_ids() {
    let code = r#"let x = 1;"#;
    let output1 = dot_graph_of(code, Language::Rust);
    let output2 = dot_graph_of(code, Language::Rust);
    assert_eq!(output1, output2);

    // Check that IDs start at 1 and are sequential
    let mut expected_id = 1;
    for &id in declared_ids(&output1).iter() {
        assert_eq!(id, expected_id, "Node IDs should be sequential starting from 1");
        expected_id += 1;
    }
}

#[test]
fn dot_graph_root_is_node_one_and_ids_are_dense() {
    let output = dot_graph_of("test = \"1\"", Language::Python);
    assert!(output.lines().nth(1).unwrap().starts_with("node_1[label=\"module 0 10"));
    let ids = declared_ids(&output);
    let expected: Vec<usize> = (1..=ids.len()).collect();
    assert_eq!(ids, expected);
    // two lines per declaration, one per edge, and the two envelope lines
    assert_eq!(2 * ids.len() + (ids.len() - 1) + 2, output.lines().count());
}

#[test]
fn dot_graph_escapes_source_quotes() {
    let output = dot_graph_of("test = \"1\"", Language::Python);
    assert!(output.contains("test = \\\"1\\\""));
}
