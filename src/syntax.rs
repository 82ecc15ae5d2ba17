//! Parsing with tree-sitter, and reading its trees into `ParseNode`s.
use vstd::prelude::*;
use vstd::utf8::{encode_utf8, valid_utf8};
use crate::graph::{
    dot_graph_bytes, fits, forest_size, lemma_forest_size_prefix, lemma_same_shape_renders_alike,
    render_dot_graph, same_forest, same_shape, subtree_size, ParseNode,
};
use crate::languages::Language;
use tree_sitter::Language as TsGrammar;

verus! {

broadcast use {vstd::std_specs::vec::group_vec_axioms, vstd::seq::group_seq_axioms};

#[verifier::external_type_specification]
#[verifier::external_body]
pub struct ExTree(tree_sitter::Tree);

#[verifier::external_type_specification]
#[verifier::external_body]
pub struct ExNode<'tree>(tree_sitter::Node<'tree>);

#[verifier::external_type_specification]
#[verifier::external_body]
pub struct ExParser(tree_sitter::Parser);

#[verifier::external_type_specification]
#[verifier::external_body]
pub struct ExGrammar(TsGrammar);

#[verifier::external_type_specification]
#[verifier::external_body]
pub struct ExLanguageError(tree_sitter::LanguageError);

/// The grammar that the grammar crate of `language` provides.
pub uninterp spec fn grammar_of(language: Language) -> TsGrammar;

/// The ABI version of a grammar (`tree_sitter::Language::version`).
pub uninterp spec fn abi_version(grammar: TsGrammar) -> nat;

/// The grammar set on a parser, if any.
pub uninterp spec fn parser_grammar(parser: tree_sitter::Parser) -> Option<TsGrammar>;

/// The parser has no timeout, no cancellation flag and no included ranges set:
/// it parses the whole text and gives up only where it has no grammar.
pub uninterp spec fn parser_plain(parser: tree_sitter::Parser) -> bool;

/// The tree that the parser builds for `code` with `grammar`.
pub uninterp spec fn parsed_shape(grammar: TsGrammar, code: Seq<char>) -> ParseNode;

/// The whole tree that a tree-sitter tree holds.
pub uninterp spec fn tree_shape(tree: tree_sitter::Tree) -> ParseNode;

/// The subtree that a tree-sitter node stands for.
pub uninterp spec fn node_shape(node: tree_sitter::Node) -> ParseNode;

/// Oldest grammar ABI version that the parser accepts
/// (`tree_sitter::MIN_COMPATIBLE_LANGUAGE_VERSION`).
pub const MIN_ABI_VERSION: usize = 13;

/// Newest grammar ABI version that the parser accepts
/// (`tree_sitter::LANGUAGE_VERSION`).
pub const MAX_ABI_VERSION: usize = 14;

/// Relies on `tree_sitter_kotlin_ng::LANGUAGE`: the Kotlin grammar. The
/// `tree-sitter-kotlin` crate is built on an older tree-sitter, whose grammars
/// a parser of this release does not take.
#[verifier::external_body]
fn kotlin_grammar() -> (r: TsGrammar)
    ensures
        r == grammar_of(Language::Kotlin),
        abi_version(r) == 14,
{
    tree_sitter_kotlin_ng::LANGUAGE.into()
}

/// Relies on `tree_sitter_php::LANGUAGE_PHP`: the PHP grammar.
#[verifier::external_body]
fn php_grammar() -> (r: TsGrammar)
    ensures
        r == grammar_of(Language::Php),
        abi_version(r) == 14,
{
    tree_sitter_php::LANGUAGE_PHP.into()
}

/// Relies on `tree_sitter_bash::LANGUAGE`: the Bash grammar.
#[verifier::external_body]
fn bash_grammar() -> (r: TsGrammar)
    ensures
        r == grammar_of(Language::Bash),
        abi_version(r) == 14,
{
    tree_sitter_bash::LANGUAGE.into()
}

/// Relies on `tree_sitter_json::LANGUAGE`: the JSON grammar.
#[verifier::external_body]
fn json_grammar() -> (r: TsGrammar)
    ensures
        r == grammar_of(Language::Json),
        abi_version(r) == 14,
{
    tree_sitter_json::LANGUAGE.into()
}

/// Relies on `tree_sitter_python::LANGUAGE`: the Python grammar.
#[verifier::external_body]
fn python_grammar() -> (r: TsGrammar)
    ensures
        r == grammar_of(Language::Python),
        abi_version(r) == 14,
{
    tree_sitter_python::LANGUAGE.into()
}

/// Relies on `tree_sitter_java::LANGUAGE`: the Java grammar.
#[verifier::external_body]
fn java_grammar() -> (r: TsGrammar)
    ensures
        r == grammar_of(Language::Java),
        abi_version(r) == 14,
{
    tree_sitter_java::LANGUAGE.into()
}

/// Relies on `tree_sitter_rust::LANGUAGE`: the Rust grammar.
#[verifier::external_body]
fn rust_grammar() -> (r: TsGrammar)
    ensures
        r == grammar_of(Language::Rust),
        abi_version(r) == 14,
{
    tree_sitter_rust::LANGUAGE.into()
}

/// Relies on `tree_sitter_lua::LANGUAGE`: the Lua grammar.
#[verifier::external_body]
fn lua_grammar() -> (r: TsGrammar)
    ensures
        r == grammar_of(Language::Lua),
        abi_version(r) == 14,
{
    tree_sitter_lua::LANGUAGE.into()
}

/// Relies on `tree_sitter_toml_ng::LANGUAGE`: the TOML grammar. The
/// `tree-sitter-toml` crate is built on tree-sitter 0.20, whose grammars a
/// parser of this release does not take.
#[verifier::external_body]
fn toml_grammar() -> (r: TsGrammar)
    ensures
        r == grammar_of(Language::Toml),
        abi_version(r) == 14,
{
    tree_sitter_toml_ng::LANGUAGE.into()
}

/// Relies on `tree_sitter_groovy::LANGUAGE`: the Groovy grammar.
#[verifier::external_body]
fn groovy_grammar() -> (r: TsGrammar)
    ensures
        r == grammar_of(Language::Groovy),
        abi_version(r) == 14,
{
    tree_sitter_groovy::LANGUAGE.into()
}

/// Relies on `tree_sitter_css::LANGUAGE`: the CSS grammar.
#[verifier::external_body]
fn css_grammar() -> (r: TsGrammar)
    ensures
        r == grammar_of(Language::Css),
        abi_version(r) == 14,
{
    tree_sitter_css::LANGUAGE.into()
}

/// Relies on `tree_sitter_html::LANGUAGE`: the HTML grammar.
#[verifier::external_body]
fn html_grammar() -> (r: TsGrammar)
    ensures
        r == grammar_of(Language::Html),
        abi_version(r) == 14,
{
    tree_sitter_html::LANGUAGE.into()
}

/// Relies on `tree_sitter_javascript::LANGUAGE`: the JavaScript grammar.
#[verifier::external_body]
fn javascript_grammar() -> (r: TsGrammar)
    ensures
        r == grammar_of(Language::Javascript),
        abi_version(r) == 14,
{
    tree_sitter_javascript::LANGUAGE.into()
}

/// Why a grammar could not be had for a language.
#[derive(Clone, Copy, Debug, PartialEq, Eq, Structural)]
pub enum GrammarError {
    /// No grammar for the language is at hand.
    Unavailable,
    /// The parser refused the grammar (its ABI version is not supported); no
    /// grammar at hand gives this.
    Incompatible,
}

/// Whether a grammar for `language` is at hand. There is none for Dockerfile:
/// the only Dockerfile grammar crate is built on tree-sitter 0.20, whose
/// grammars a parser of this tree-sitter release does not take.
pub open spec fn has_grammar(language: Language) -> bool {
    language != Language::Dockerfile
}

/// The grammar of `language`, where one is at hand.
pub fn grammar(language: Language) -> (r: Option<TsGrammar>)
    ensures
        r is Some <==> has_grammar(language),
        r matches Some(g) ==> g == grammar_of(language) && abi_version(g) == 14,
{
    match language {
        Language::Kotlin => Some(kotlin_grammar()),
        Language::Php => Some(php_grammar()),
        Language::Bash => Some(bash_grammar()),
        Language::Json => Some(json_grammar()),
        Language::Dockerfile => None,
        Language::Python => Some(python_grammar()),
        Language::Java => Some(java_grammar()),
        Language::Rust => Some(rust_grammar()),
        Language::Lua => Some(lua_grammar()),
        Language::Toml => Some(toml_grammar()),
        Language::Groovy => Some(groovy_grammar()),
        Language::Css => Some(css_grammar()),
        Language::Html => Some(html_grammar()),
        Language::Javascript => Some(javascript_grammar()),
    }
}

/// Relies on `tree_sitter::Parser::new`: a parser without a grammar.
#[verifier::external_body]
fn new_parser() -> (r: tree_sitter::Parser)
    ensures
        parser_grammar(r) is None,
        parser_plain(r),
{
    tree_sitter::Parser::new()
}

/// Relies on `tree_sitter::Parser::set_language`: it sets the grammar exactly
/// where the grammar's ABI version lies between
/// `MIN_COMPATIBLE_LANGUAGE_VERSION` and `LANGUAGE_VERSION`, and otherwise
/// leaves the parser as it was. It touches no other setting of the parser.
#[verifier::external_body]
fn set_grammar(parser: &mut tree_sitter::Parser, grammar: &TsGrammar) -> (r: Result<
    (),
    tree_sitter::LanguageError,
>)
    ensures
        r is Ok <==> MIN_ABI_VERSION <= abi_version(*grammar) <= MAX_ABI_VERSION,
        r is Ok ==> parser_grammar(*final(parser)) == Some(*grammar),
        r is Err ==> parser_grammar(*final(parser)) == parser_grammar(*old(parser)),
        parser_plain(*final(parser)) == parser_plain(*old(parser)),
{
    parser.set_language(grammar)
}

/// Relies on `tree_sitter::Parser::parse`: with no timeout, no cancellation
/// flag and no included ranges set, it returns a tree exactly where the parser
/// has a grammar, and that tree depends on the grammar and the text alone.
#[verifier::external_body]
fn parse_text(parser: &mut tree_sitter::Parser, code: &String) -> (r: Option<tree_sitter::Tree>)
    requires
        parser_plain(*old(parser)),
    ensures
        parser_plain(*final(parser)),
        r is Some <==> parser_grammar(*old(parser)) is Some,
        parser_grammar(*final(parser)) == parser_grammar(*old(parser)),
        r matches Some(t) ==> tree_shape(t) == parsed_shape(
            parser_grammar(*old(parser))->Some_0,
            code@,
        ),
{
    parser.parse(code, None)
}

/// Sets the grammar of `language` on `parser`.
///
/// Fails with `Unavailable` exactly where no grammar for `language` is at hand;
/// every grammar at hand has an ABI version that the parser supports, so it
/// succeeds otherwise, and the parser then holds the grammar of `language`.
pub fn set_parser_language(parser: &mut tree_sitter::Parser, language: Language) -> (r: Result<
    (),
    GrammarError,
>)
    ensures
        r == Err::<(), GrammarError>(GrammarError::Unavailable) <==> !has_grammar(language),
        r is Ok <==> has_grammar(language),
        r is Ok ==> parser_grammar(*final(parser)) == Some(grammar_of(language)),
        parser_plain(*final(parser)) == parser_plain(*old(parser)),
{
    match grammar(language) {
        None => Err(GrammarError::Unavailable),
        Some(g) => match set_grammar(parser, &g) {
            Ok(()) => Ok(()),
            Err(_) => Err(GrammarError::Incompatible),
        },
    }
}

/// Why source text could not be parsed.
#[derive(Clone, Copy, Debug, PartialEq, Eq, Structural)]
pub enum ParseError {
    /// The language's grammar could not be had.
    Grammar(GrammarError),
    /// The parser gave no tree.
    NoTree,
}

/// Parses `code` as `language`.
///
/// Succeeds exactly where a grammar for `language` is at hand, with the tree
/// that this grammar gives for `code`; fails with `Grammar(Unavailable)`
/// otherwise.
pub fn parse_code(code: &String, language: Language) -> (r: Result<tree_sitter::Tree, ParseError>)
    ensures
        (r matches Err(ParseError::Grammar(GrammarError::Unavailable))) <==> !has_grammar(
            language,
        ),
        r is Ok <==> has_grammar(language),
        r matches Ok(t) ==> tree_shape(t) == parsed_shape(grammar_of(language), code@),
{
    let mut parser = new_parser();
    match set_parser_language(&mut parser, language) {
        Err(e) => Err(ParseError::Grammar(e)),
        Ok(()) => match parse_text(&mut parser, code) {
            Some(tree) => Ok(tree),
            None => Err(ParseError::NoTree),
        },
    }
}

/// Relies on `tree_sitter::Tree::root_node`: the root, which stands for the
/// whole tree.
#[verifier::external_body]
fn root_of(tree: &tree_sitter::Tree) -> (r: tree_sitter::Node<'_>)
    ensures
        node_shape(r) == tree_shape(*tree),
{
    tree.root_node()
}

/// Relies on `tree_sitter::Node::kind`: the node's grammar kind.
#[verifier::external_body]
fn node_kind(node: &tree_sitter::Node) -> (r: String)
    ensures
        r@ == node_shape(*node).kind@,
{
    node.kind().to_string()
}

/// Relies on `tree_sitter::Node::start_byte`: where the node starts.
#[verifier::external_body]
fn node_start(node: &tree_sitter::Node) -> (r: usize)
    ensures
        r == node_shape(*node).start,
{
    node.start_byte()
}

/// Relies on `tree_sitter::Node::end_byte`: where the node ends.
#[verifier::external_body]
fn node_end(node: &tree_sitter::Node) -> (r: usize)
    ensures
        r == node_shape(*node).end,
{
    node.end_byte()
}

/// Relies on `tree_sitter::Node::child_count`: how many children the node has,
/// a `u32` count.
#[verifier::external_body]
fn node_child_count(node: &tree_sitter::Node) -> (r: usize)
    ensures
        r == node_shape(*node).children@.len(),
        r <= u32::MAX,
{
    node.child_count()
}

/// Relies on `tree_sitter::Node::child`: the child at index `i`, or `None`
/// past the last child. It passes `i` on as a `u32`.
#[verifier::external_body]
fn node_child<'tree>(node: &tree_sitter::Node<'tree>, i: usize) -> (r: Option<
    tree_sitter::Node<'tree>,
>)
    requires
        i <= u32::MAX,
    ensures
        i < node_shape(*node).children@.len() ==> r is Some && node_shape(r->Some_0)
            == node_shape(*node).children@[i as int],
        i >= node_shape(*node).children@.len() ==> r is None,
{
    node.child(i)
}

/// Relies on `tree_sitter::Node::descendant_count`: how many nodes the subtree
/// holds, the node itself included.
#[verifier::external_body]
fn node_descendant_count(node: &tree_sitter::Node) -> (r: usize)
    ensures
        r == subtree_size(node_shape(*node)),
{
    node.descendant_count()
}

/// Reads the subtree at `node` into a `ParseNode`, with its number of nodes,
/// where that number is at most `budget`.
fn read_subtree(node: &tree_sitter::Node, budget: usize) -> (r: Option<(ParseNode, usize)>)
    ensures
        r is Some <==> subtree_size(node_shape(*node)) <= budget,
        r matches Some((t, size)) ==> same_shape(t, node_shape(*node)) && size == subtree_size(
            t,
        ),
    decreases budget,
{
    let ghost shape = node_shape(*node);
    let ghost kids = shape.children@;
    if budget == 0 {
        return None;
    }
    let kind = node_kind(node);
    let start = node_start(node);
    let end = node_end(node);
    let count = node_child_count(node);
    let mut children: Vec<ParseNode> = Vec::new();
    let mut used: usize = 1;
    let mut i: usize = 0;
    proof {
        assert(kids.subrange(0, 0) =~= Seq::<ParseNode>::empty());
    }
    while i < count
        invariant
            shape == node_shape(*node),
            kids == shape.children@,
            count == kids.len(),
            count <= u32::MAX,
            i <= count,
            1 <= used <= budget,
            used == 1 + forest_size(children@),
            forest_size(children@) == forest_size(kids.subrange(0, i as int)),
            same_forest(children@, kids.subrange(0, i as int)),
            subtree_size(shape) == 1 + forest_size(kids),
        decreases count - i,
    {
        let found = node_child(node, i);
        assert(found is Some);
        let child = found.unwrap();
        assert(node_shape(child) == kids[i as int]);
        let ghost prefix = kids.subrange(0, i as int);
        let ghost longer = kids.subrange(0, i as int + 1);
        proof {
            assert(longer.drop_last() =~= prefix);
            assert(longer[i as int] == kids[i as int]);
            lemma_forest_size_prefix(kids, i as int + 1);
        }
        let (sub, size) = match read_subtree(&child, budget - used) {
            Some(p) => p,
            None => {
                return None;
            },
        };
        let ghost before = children@;
        children.push(sub);
        proof {
            assert(children@.drop_last() =~= before);
            lemma_same_shape_renders_alike(sub, node_shape(child), 1, Seq::empty());
        }
        used = used + size;
        i = i + 1;
    }
    proof {
        assert(kids.subrange(0, count as int) =~= kids);
    }
    let t = ParseNode { kind, start, end, children };
    Some((t, used))
}

/// Reads a whole tree into a `ParseNode` of the same shape. `None` exactly
/// where the tree has `usize::MAX` nodes, too many to number.
pub fn tree_model(tree: &tree_sitter::Tree) -> (r: Option<ParseNode>)
    ensures
        r is Some <==> subtree_size(tree_shape(*tree)) < usize::MAX,
        r matches Some(t) ==> same_shape(t, tree_shape(*tree)) && subtree_size(t) < usize::MAX,
{
    let root = root_of(tree);
    let total = node_descendant_count(&root);
    if total == usize::MAX {
        return None;
    }
    match read_subtree(&root, total) {
        Some((t, _)) => {
            proof {
                lemma_same_shape_renders_alike(t, tree_shape(*tree), 1, Seq::empty());
            }
            Some(t)
        },
        None => None,
    }
}

/// Renders a tree-sitter tree of `code` as `dot` text: the rendering of the
/// tree's shape (see `render_dot_graph`).
///
/// Returns `None` exactly where the tree has too many nodes to number, where a
/// node's range does not fit in `code`, or where a range, or the cut of a long
/// snippet, splits a character.
pub fn generate_dot_graph(tree: &tree_sitter::Tree, code: &String) -> (r: Option<String>)
    ensures
        r is Some <==> subtree_size(tree_shape(*tree)) < usize::MAX && fits(
            tree_shape(*tree),
            encode_utf8(code@).len(),
        ) && valid_utf8(dot_graph_bytes(tree_shape(*tree), encode_utf8(code@))),
        r matches Some(s) ==> encode_utf8(s@) == dot_graph_bytes(
            tree_shape(*tree),
            encode_utf8(code@),
        ),
{
    match tree_model(tree) {
        None => None,
        Some(t) => {
            proof {
                lemma_same_shape_renders_alike(t, tree_shape(*tree), 1, encode_utf8(code@));
            }
            render_dot_graph(&t, code)
        },
    }
}

} // verus!
