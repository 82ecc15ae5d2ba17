use ts_highlight::graph::{render_dot_graph, ParseNode};
use ts_highlight::highlight::{format_captures, Capture};
use ts_highlight::label::MAX_SNIPPET_BYTES;

fn node(kind: &str, start: usize, end: usize, children: Vec<ParseNode>) -> ParseNode {
    ParseNode { kind: kind.to_string(), start, end, children }
}

fn render(root: &ParseNode, code: &str) -> Option<String> {
    render_dot_graph(root, &code.to_string())
}

#[test]
fn renders_a_single_node() {
    let root = node("module", 0, 5, vec![]);
    let out = render(&root, "x = 1").unwrap();
    assert_eq!(out, "digraph name {\nnode_1[label=\"module 0 5\nx = 1\"];\n}");
}

#[test]
fn renders_edges_before_children_in_pre_order() {
    let root = node(
        "expr",
        0,
        5,
        vec![
            node("lhs", 0, 1, vec![node("id", 0, 1, vec![])]),
            node("op", 2, 3, vec![]),
            node("rhs", 4, 5, vec![]),
        ],
    );
    let out = render(&root, "x = 1").unwrap();
    let expected = "digraph name {\n\
node_1[label=\"expr 0 5\nx = 1\"];\n\
node_1 -> node_2[label=\"\"];\n\
node_2[label=\"lhs 0 1\nx\"];\n\
node_2 -> node_3[label=\"\"];\n\
node_3[label=\"id 0 1\nx\"];\n\
node_1 -> node_4[label=\"\"];\n\
node_4[label=\"op 2 3\n=\"];\n\
node_1 -> node_5[label=\"\"];\n\
node_5[label=\"rhs 4 5\n1\"];\n\
}";
    assert_eq!(out, expected);
}

#[test]
fn rendering_twice_gives_identical_text() {
    let root = node("pair", 0, 3, vec![node("a", 0, 1, vec![]), node("b", 2, 3, vec![])]);
    let first = render(&root, "a b").unwrap();
    let second = render(&root, "a b").unwrap();
    assert_eq!(first, second);
}

#[test]
fn ids_past_nine_have_several_digits() {
    let children: Vec<ParseNode> = (0..11).map(|i| node("c", i, i + 1, vec![])).collect();
    let root = node("list", 0, 11, children);
    let out = render(&root, "abcdefghijk").unwrap();
    assert!(out.contains("node_1 -> node_12[label=\"\"];\nnode_12[label=\"c 10 11\nk\"];\n}"));
    assert!(out.contains("node_10[label=\"c 8 9\ni\"];"));
}

#[test]
fn escapes_quote_backslash_and_control_characters() {
    let code = "a\"b\\c\nd\re\tf\u{8}g\u{c}h";
    let root = node("s", 0, code.len(), vec![]);
    let out = render(&root, code).unwrap();
    let label = "a\\\"b\\\\c\\nd\\re\\tf\\bg\\fh";
    assert_eq!(out, format!("digraph name {{\nnode_1[label=\"s 0 15\n{}\"];\n}}", label));
    assert!(!out.lines().nth(2).unwrap().contains('\t'));
}

#[test]
fn escapes_quotes_in_the_kind() {
    let root = node("\"", 0, 1, vec![]);
    let out = render(&root, "\"").unwrap();
    assert_eq!(out, "digraph name {\nnode_1[label=\"\\\" 0 1\n\\\"\"];\n}");
}

#[test]
fn sixty_bytes_are_shown_whole() {
    let code = "x".repeat(MAX_SNIPPET_BYTES);
    let root = node("s", 0, 60, vec![]);
    let out = render(&root, &code).unwrap();
    assert_eq!(out, format!("digraph name {{\nnode_1[label=\"s 0 60\n{}\"];\n}}", code));
}

#[test]
fn sixty_one_bytes_are_cut_to_sixty_with_an_ellipsis() {
    let code = format!("{}y", "x".repeat(60));
    let root = node("s", 0, 61, vec![]);
    let out = render(&root, &code).unwrap();
    assert_eq!(out, format!("digraph name {{\nnode_1[label=\"s 0 61\n{}...\"];\n}}", "x".repeat(60)));
}

#[test]
fn truncation_counts_bytes_before_escaping() {
    let code = "\"".repeat(70);
    let root = node("s", 0, 70, vec![]);
    let out = render(&root, &code).unwrap();
    assert_eq!(out, format!("digraph name {{\nnode_1[label=\"s 0 70\n{}...\"];\n}}", "\\\"".repeat(60)));
}

#[test]
fn offsets_are_bytes_not_characters() {
    let code = "val test = \"\u{1F604}\"";
    let root = node("string", 11, 17, vec![]);
    let out = render(&root, code).unwrap();
    assert_eq!(out, "digraph name {\nnode_1[label=\"string 11 17\n\\\"\u{1F604}\\\"\"];\n}");
}

#[test]
fn a_range_past_the_source_fails() {
    let root = node("s", 0, 2, vec![node("t", 1, 3, vec![])]);
    assert_eq!(render(&root, "ab"), None);
}

#[test]
fn a_reversed_range_fails() {
    let root = node("s", 2, 1, vec![]);
    assert_eq!(render(&root, "abc"), None);
}

#[test]
fn a_range_inside_a_character_fails() {
    let root = node("s", 1, 4, vec![]);
    assert_eq!(render(&root, "\u{1F604}"), None);
}

#[test]
fn a_cut_inside_a_character_fails() {
    let code = format!("{}\u{1F604}", "x".repeat(58));
    let root = node("s", 0, code.len(), vec![]);
    assert_eq!(render(&root, &code), None);
}

#[test]
fn lists_captures_one_line_each() {
    let names = vec!["keyword".to_string(), "variable".to_string()];
    let captures = vec![
        Capture { name_index: 0, start: 0, end: 3 },
        Capture { name_index: 1, start: 4, end: 8 },
        Capture { name_index: 0, start: 118, end: 121 },
    ];
    let out = format_captures(&names, &captures).unwrap();
    assert_eq!(out, "keyword 0 3\nvariable 4 8\nkeyword 118 121\n");
}

#[test]
fn no_captures_give_empty_text() {
    let names = vec!["keyword".to_string()];
    assert_eq!(format_captures(&names, &vec![]), Some(String::new()));
}

#[test]
fn a_capture_with_an_unknown_name_fails() {
    let names = vec!["keyword".to_string()];
    let captures = vec![Capture { name_index: 1, start: 0, end: 3 }];
    assert_eq!(format_captures(&names, &captures), None);
}
