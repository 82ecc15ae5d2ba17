//! The parse-tree model and its rendering as `dot` text with pre-order ids.
use vstd::prelude::*;
use vstd::utf8::{encode_utf8, valid_utf8};
use crate::label::{
    decimal, escape, escape_quotes, push_decimal, push_quote_escaped, push_snippet, shown,
    string_from_utf8,
};

verus! {

broadcast use {vstd::std_specs::vec::group_vec_axioms, vstd::seq::group_seq_axioms};

/// A node of a parse tree: its kind, its byte range `[start, end)` in the
/// source text, and its children in order.
pub struct ParseNode {
    pub kind: String,
    pub start: usize,
    pub end: usize,
    pub children: Vec<ParseNode>,
}

/// Number of nodes in the tree rooted at `n`.
pub open spec fn subtree_size(n: ParseNode) -> nat
    decreases n,
{
    1 + forest_size(n.children@)
}

/// Number of nodes in a sequence of trees.
pub open spec fn forest_size(cs: Seq<ParseNode>) -> nat
    decreases cs,
{
    if cs.len() == 0 {
        0
    } else {
        forest_size(cs.drop_last()) + subtree_size(cs.last())
    }
}

/// Every node of the tree has `start <= end <= len`.
pub open spec fn fits(n: ParseNode, len: nat) -> bool
    decreases n,
{
    n.start <= n.end <= len && forest_fits(n.children@, len)
}

/// Every tree of the sequence fits.
pub open spec fn forest_fits(cs: Seq<ParseNode>, len: nat) -> bool
    decreases cs,
{
    cs.len() == 0 || (forest_fits(cs.drop_last(), len) && fits(cs.last(), len))
}

/// `a` and `b` hold the same kinds, ranges and children, node for node.
pub open spec fn same_shape(a: ParseNode, b: ParseNode) -> bool
    decreases a,
{
    a.kind@ == b.kind@ && a.start == b.start && a.end == b.end && same_forest(
        a.children@,
        b.children@,
    )
}

/// Two sequences of trees of the same shape, tree for tree.
pub open spec fn same_forest(xs: Seq<ParseNode>, ys: Seq<ParseNode>) -> bool
    decreases xs,
{
    xs.len() == ys.len() && (xs.len() == 0 || (same_forest(xs.drop_last(), ys.drop_last())
        && same_shape(xs.last(), ys.last())))
}

/// One statement of the graph text.
pub enum Statement {
    /// A node declared under its id.
    Declare { id: nat, node: ParseNode },
    /// An edge from the node with id `parent` to the node with id `child`.
    Link { parent: nat, child: nat },
}

/// The statements for the tree rooted at `n` when `n` gets the id `id`: its
/// declaration, then for each child the edge to it followed by the child's own
/// statements. Ids are handed out in pre-order.
pub open spec fn statements(n: ParseNode, id: nat) -> Seq<Statement>
    decreases n,
{
    seq![Statement::Declare { id, node: n }] + child_statements(id, n.children@, id + 1)
}

/// The statements for the children `cs` of the node `parent`, the first child
/// getting the id `first`.
pub open spec fn child_statements(parent: nat, cs: Seq<ParseNode>, first: nat) -> Seq<Statement>
    decreases cs,
{
    if cs.len() == 0 {
        seq![]
    } else {
        let init = cs.drop_last();
        let child = first + forest_size(init);
        child_statements(parent, init, first) + seq![Statement::Link { parent, child }]
            + statements(cs.last(), child)
    }
}

/// The bytes `node_`.
pub open spec fn node_word() -> Seq<u8> {
    seq![110u8, 111u8, 100u8, 101u8, 95u8]
}

/// The bytes `[label="`.
pub open spec fn label_open() -> Seq<u8> {
    seq![91u8, 108u8, 97u8, 98u8, 101u8, 108u8, 61u8, 34u8]
}

/// The bytes `"];` and a newline.
pub open spec fn declaration_close() -> Seq<u8> {
    seq![34u8, 93u8, 59u8, 10u8]
}

/// The bytes ` -> `.
pub open spec fn arrow() -> Seq<u8> {
    seq![32u8, 45u8, 62u8, 32u8]
}

/// The bytes `[label=""];` and a newline.
pub open spec fn edge_close() -> Seq<u8> {
    seq![91u8, 108u8, 97u8, 98u8, 101u8, 108u8, 61u8, 34u8, 34u8, 93u8, 59u8, 10u8]
}

/// The bytes `digraph name {` and a newline.
pub open spec fn graph_open() -> Seq<u8> {
    seq![
        100u8, 105u8, 103u8, 114u8, 97u8, 112u8, 104u8, 32u8, 110u8, 97u8, 109u8, 101u8, 32u8,
        123u8, 10u8,
    ]
}

/// The byte `}`.
pub open spec fn graph_close() -> Seq<u8> {
    seq![125u8]
}

/// The UTF-8 bytes of a node's kind.
pub open spec fn kind_bytes(n: ParseNode) -> Seq<u8> {
    encode_utf8(n.kind@)
}

/// The source text of a node, before truncation.
pub open spec fn snippet(n: ParseNode, src: Seq<u8>) -> Seq<u8> {
    src.subrange(n.start as int, n.end as int)
}

/// `node_<id>[label="<kind> <start> <end>\n<snippet>"];` and a newline.
pub open spec fn declaration_bytes(n: ParseNode, id: nat, src: Seq<u8>) -> Seq<u8> {
    node_word() + decimal(id) + label_open() + escape_quotes(kind_bytes(n)) + seq![32u8]
        + decimal(n.start as nat) + seq![32u8] + decimal(n.end as nat) + seq![10u8]
        + escape(shown(snippet(n, src))) + declaration_close()
}

/// `node_<parent> -> node_<child>[label=""];` and a newline.
pub open spec fn edge_bytes(parent: nat, child: nat) -> Seq<u8> {
    node_word() + decimal(parent) + arrow() + node_word() + decimal(child) + edge_close()
}

/// The text of one statement.
pub open spec fn statement_bytes(s: Statement, src: Seq<u8>) -> Seq<u8> {
    match s {
        Statement::Declare { id, node } => declaration_bytes(node, id, src),
        Statement::Link { parent, child } => edge_bytes(parent, child),
    }
}

/// The text of a sequence of statements, one after the other.
pub open spec fn text_of(ss: Seq<Statement>, src: Seq<u8>) -> Seq<u8>
    decreases ss.len(),
{
    if ss.len() == 0 {
        seq![]
    } else {
        text_of(ss.drop_last(), src) + statement_bytes(ss.last(), src)
    }
}

/// The whole graph for the tree rooted at `root` over the source bytes `src`:
/// the root gets id 1 and the body is wrapped in `digraph name {\n ... }`.
pub open spec fn dot_graph_bytes(root: ParseNode, src: Seq<u8>) -> Seq<u8> {
    graph_open() + text_of(statements(root, 1), src) + graph_close()
}

/// The text of two sequences of statements is the text of each in turn.
pub proof fn lemma_text_concat(a: Seq<Statement>, b: Seq<Statement>, src: Seq<u8>)
    ensures
        text_of(a + b, src) == text_of(a, src) + text_of(b, src),
    decreases b.len(),
{
    if b.len() == 0 {
        assert(a + b =~= a);
        assert(text_of(a, src) + text_of(b, src) =~= text_of(a, src));
    } else {
        assert((a + b).drop_last() =~= a + b.drop_last());
        assert((a + b).last() == b.last());
        lemma_text_concat(a, b.drop_last(), src);
        assert(text_of(a + b, src) =~= text_of(a, src) + text_of(b, src));
    }
}

/// The text of a single statement.
pub proof fn lemma_text_single(s: Statement, src: Seq<u8>)
    ensures
        text_of(seq![s], src) == statement_bytes(s, src),
{
    let empty = Seq::<Statement>::empty();
    assert(seq![s].drop_last() =~= empty);
    assert(text_of(empty, src) =~= Seq::<u8>::empty());
    assert(text_of(empty, src) + statement_bytes(s, src) =~= statement_bytes(s, src));
    assert(text_of(seq![s], src) =~= statement_bytes(s, src));
}

/// A prefix of a forest is no larger than the forest.
pub proof fn lemma_forest_size_prefix(cs: Seq<ParseNode>, i: int)
    requires
        0 <= i <= cs.len(),
    ensures
        forest_size(cs.subrange(0, i)) <= forest_size(cs),
    decreases cs.len() - i,
{
    if i < cs.len() {
        lemma_forest_size_prefix(cs, i + 1);
        assert(cs.subrange(0, i + 1).drop_last() =~= cs.subrange(0, i));
    } else {
        assert(cs.subrange(0, i) =~= cs);
    }
}

/// Appends `node_<id>`.
fn push_node_name(out: &mut Vec<u8>, id: usize)
    ensures
        final(out)@ == old(out)@ + node_word() + decimal(id as nat),
{
    out.push(110u8);
    out.push(111u8);
    out.push(100u8);
    out.push(101u8);
    out.push(95u8);
    let ghost mid = out@;
    push_decimal(out, id);
    assert(mid =~= old(out)@ + node_word());
}

/// Appends `[label="`.
fn push_label_open(out: &mut Vec<u8>)
    ensures
        final(out)@ == old(out)@ + label_open(),
{
    out.push(91u8);
    out.push(108u8);
    out.push(97u8);
    out.push(98u8);
    out.push(101u8);
    out.push(108u8);
    out.push(61u8);
    out.push(34u8);
    assert(final(out)@ =~= old(out)@ + label_open());
}

/// Appends `"];` and a newline.
fn push_declaration_close(out: &mut Vec<u8>)
    ensures
        final(out)@ == old(out)@ + declaration_close(),
{
    out.push(34u8);
    out.push(93u8);
    out.push(59u8);
    out.push(10u8);
    assert(final(out)@ =~= old(out)@ + declaration_close());
}

/// Appends a byte.
fn push_byte(out: &mut Vec<u8>, b: u8)
    ensures
        final(out)@ == old(out)@ + seq![b],
{
    out.push(b);
    assert(final(out)@ =~= old(out)@ + seq![b]);
}

/// Appends the declaration of `n` under the id `id`.
#[verifier::rlimit(30)]
fn push_declaration(out: &mut Vec<u8>, n: &ParseNode, id: usize, src: &[u8])
    requires
        n.start <= n.end <= src@.len(),
    ensures
        final(out)@ == old(out)@ + declaration_bytes(*n, id as nat, src@),
{
    let ghost o = old(out)@;
    let ghost p1 = node_word() + decimal(id as nat);
    let ghost p2 = p1 + label_open();
    let ghost p3 = p2 + escape_quotes(kind_bytes(*n));
    let ghost p4 = p3 + seq![32u8];
    let ghost p5 = p4 + decimal(n.start as nat);
    let ghost p6 = p5 + seq![32u8];
    let ghost p7 = p6 + decimal(n.end as nat);
    let ghost p8 = p7 + seq![10u8];
    let ghost p9 = p8 + escape(shown(snippet(*n, src@)));
    push_node_name(out, id);
    assert(out@ =~= o + p1);
    push_label_open(out);
    assert(out@ =~= o + p2);
    push_quote_escaped(out, n.kind.as_str().as_bytes());
    assert(out@ =~= o + p3);
    push_byte(out, 32u8);
    assert(out@ =~= o + p4);
    push_decimal(out, n.start);
    assert(out@ =~= o + p5);
    push_byte(out, 32u8);
    assert(out@ =~= o + p6);
    push_decimal(out, n.end);
    assert(out@ =~= o + p7);
    push_byte(out, 10u8);
    assert(out@ =~= o + p8);
    push_snippet(out, src, n.start, n.end);
    assert(out@ =~= o + p9);
    push_declaration_close(out);
    assert(out@ =~= o + (p9 + declaration_close()));
}

/// Appends the edge from `parent` to `child`.
fn push_edge(out: &mut Vec<u8>, parent: usize, child: usize)
    ensures
        final(out)@ == old(out)@ + edge_bytes(parent as nat, child as nat),
{
    push_node_name(out, parent);
    let ghost a = out@;
    out.push(32u8);
    out.push(45u8);
    out.push(62u8);
    out.push(32u8);
    let ghost b = out@;
    push_node_name(out, child);
    let ghost c = out@;
    out.push(91u8);
    out.push(108u8);
    out.push(97u8);
    out.push(98u8);
    out.push(101u8);
    out.push(108u8);
    out.push(61u8);
    out.push(34u8);
    out.push(34u8);
    out.push(93u8);
    out.push(59u8);
    out.push(10u8);
    assert(b =~= a + arrow());
    assert(final(out)@ =~= c + edge_close());
    assert(final(out)@ =~= old(out)@ + edge_bytes(parent as nat, child as nat));
}

/// Appends the statements of the tree rooted at `n`, whose root gets the id
/// `id`. Returns the first id after the tree's own, or `None` where a node's
/// range does not fit in `src`.
fn push_tree(out: &mut Vec<u8>, n: &ParseNode, id: usize, src: &[u8]) -> (r: Option<usize>)
    requires
        id + subtree_size(*n) <= usize::MAX,
    ensures
        r is Some <==> fits(*n, src@.len()),
        r is Some ==> r == Some((id + subtree_size(*n)) as usize),
        r is Some ==> final(out)@ == old(out)@ + text_of(statements(*n, id as nat), src@),
    decreases n,
{
    if !(n.start <= n.end && n.end <= src.len()) {
        return None;
    }
    push_declaration(out, n, id, src);
    let ghost cs = n.children@;
    let ghost head = seq![Statement::Declare { id: id as nat, node: *n }];
    proof {
        lemma_text_single(head[0], src@);
        assert(child_statements(id as nat, cs.subrange(0, 0), id as nat + 1) =~= Seq::<
            Statement,
        >::empty());
        assert(head + Seq::<Statement>::empty() =~= head);
        assert(cs.subrange(0, 0) =~= Seq::<ParseNode>::empty());
    }
    let mut next: usize = id + 1;
    let mut i: usize = 0;
    while i < n.children.len()
        invariant
            cs == n.children@,
            i <= cs.len(),
            id + subtree_size(*n) <= usize::MAX,
            subtree_size(*n) == 1 + forest_size(cs),
            next == id + 1 + forest_size(cs.subrange(0, i as int)),
            forest_fits(cs.subrange(0, i as int), src@.len()),
            out@ == old(out)@ + text_of(
                head + child_statements(id as nat, cs.subrange(0, i as int), id as nat + 1),
                src@,
            ),
        decreases cs.len() - i,
    {
        let c = &n.children[i];
        let ghost prefix = cs.subrange(0, i as int);
        let ghost longer = cs.subrange(0, i as int + 1);
        proof {
            assert(longer.drop_last() =~= prefix);
            assert(longer.last() == *c);
            lemma_forest_size_prefix(cs, i as int + 1);
        }
        let ghost before = out@;
        push_edge(out, id, next);
        let ghost mid = out@;
        let r = push_tree(out, c, next, src);
        match r {
            None => {
                proof {
                    assert(!fits(*c, src@.len()));
                    assert(!forest_fits(longer, src@.len()));
                    assert(!forest_fits(cs, src@.len())) by {
                        if forest_fits(cs, src@.len()) {
                            lemma_forest_fits_prefix(cs, i as int + 1, src@.len());
                        }
                    }
                }
                return None;
            },
            Some(after) => {
                proof {
                    let link = Statement::Link { parent: id as nat, child: next as nat };
                    let sub = statements(*c, next as nat);
                    let earlier = head + child_statements(id as nat, prefix, id as nat + 1);
                    assert(head + child_statements(id as nat, longer, id as nat + 1) =~= earlier
                        + seq![link] + sub);
                    lemma_text_concat(earlier, seq![link], src@);
                    lemma_text_concat(earlier + seq![link], sub, src@);
                    lemma_text_single(link, src@);
                }
                next = after;
                i = i + 1;
            },
        }
    }
    proof {
        assert(cs.subrange(0, cs.len() as int) =~= cs);
    }
    Some(next)
}

/// Fitting is inherited by the prefixes of a forest.
pub proof fn lemma_forest_fits_prefix(cs: Seq<ParseNode>, i: int, len: nat)
    requires
        0 <= i <= cs.len(),
        forest_fits(cs, len),
    ensures
        forest_fits(cs.subrange(0, i), len),
    decreases cs.len() - i,
{
    if i == cs.len() {
        assert(cs.subrange(0, i) =~= cs);
    } else {
        lemma_forest_fits_prefix(cs, i + 1, len);
        assert(cs.subrange(0, i + 1).drop_last() =~= cs.subrange(0, i));
    }
}

/// Appends `digraph name {` and a newline.
fn push_graph_open(out: &mut Vec<u8>)
    ensures
        final(out)@ == old(out)@ + graph_open(),
{
    out.push(100u8);
    out.push(105u8);
    out.push(103u8);
    out.push(114u8);
    out.push(97u8);
    out.push(112u8);
    out.push(104u8);
    out.push(32u8);
    out.push(110u8);
    out.push(97u8);
    out.push(109u8);
    out.push(101u8);
    out.push(32u8);
    out.push(123u8);
    out.push(10u8);
    assert(final(out)@ =~= old(out)@ + graph_open());
}

/// Renders the tree rooted at `root` over the source text `code` as `dot`
/// text. The root gets id 1 and every other node the next id in pre-order.
///
/// Returns `None` exactly when a node's range does not fit in the source, or
/// when a range, or the cut of a long snippet, splits a character, so that the
/// text would not be valid UTF-8.
pub fn render_dot_graph(root: &ParseNode, code: &String) -> (r: Option<String>)
    requires
        subtree_size(*root) < usize::MAX,
    ensures
        r is Some <==> fits(*root, encode_utf8(code@).len()) && valid_utf8(
            dot_graph_bytes(*root, encode_utf8(code@)),
        ),
        r matches Some(s) ==> encode_utf8(s@) == dot_graph_bytes(*root, encode_utf8(code@)),
{
    let src = code.as_str().as_bytes();
    let mut out: Vec<u8> = Vec::new();
    push_graph_open(&mut out);
    match push_tree(&mut out, root, 1, src) {
        None => None,
        Some(_) => {
            out.push(125u8);
            proof {
                assert(out@ =~= dot_graph_bytes(*root, src@));
                if valid_utf8(out@) {
                    vstd::utf8::decode_utf8_encode_utf8(out@);
                }
            }
            string_from_utf8(out)
        },
    }
}

/// Trees of the same shape have the same size, fit alike, and render alike.
pub proof fn lemma_same_shape_renders_alike(a: ParseNode, b: ParseNode, id: nat, src: Seq<u8>)
    requires
        same_shape(a, b),
    ensures
        subtree_size(a) == subtree_size(b),
        fits(a, src.len()) == fits(b, src.len()),
        text_of(statements(a, id), src) == text_of(statements(b, id), src),
    decreases a,
{
    lemma_same_forest_renders_alike(id, a.children@, b.children@, id + 1, src);
    let da = Statement::Declare { id, node: a };
    let db = Statement::Declare { id, node: b };
    lemma_text_concat(seq![da], child_statements(id, a.children@, id + 1), src);
    lemma_text_concat(seq![db], child_statements(id, b.children@, id + 1), src);
    lemma_text_single(da, src);
    lemma_text_single(db, src);
    assert(declaration_bytes(a, id, src) == declaration_bytes(b, id, src));
}

/// Forests of the same shape have the same size, fit alike, and render alike.
pub proof fn lemma_same_forest_renders_alike(
    parent: nat,
    xs: Seq<ParseNode>,
    ys: Seq<ParseNode>,
    first: nat,
    src: Seq<u8>,
)
    requires
        same_forest(xs, ys),
    ensures
        forest_size(xs) == forest_size(ys),
        forest_fits(xs, src.len()) == forest_fits(ys, src.len()),
        text_of(child_statements(parent, xs, first), src) == text_of(
            child_statements(parent, ys, first),
            src,
        ),
    decreases xs,
{
    if xs.len() > 0 {
        let (xi, yi) = (xs.drop_last(), ys.drop_last());
        lemma_same_forest_renders_alike(parent, xi, yi, first, src);
        let child = first + forest_size(xi);
        lemma_same_shape_renders_alike(xs.last(), ys.last(), child, src);
        let link = Statement::Link { parent, child };
        let (ax, ay) = (child_statements(parent, xi, first), child_statements(parent, yi, first));
        lemma_text_concat(ax + seq![link], statements(xs.last(), child), src);
        lemma_text_concat(ax, seq![link], src);
        lemma_text_concat(ay + seq![link], statements(ys.last(), child), src);
        lemma_text_concat(ay, seq![link], src);
    }
}

/// Whether every node of the tree rooted at `n` has `start <= end <= len`.
pub fn tree_fits(n: &ParseNode, len: usize) -> (r: bool)
    ensures
        r == fits(*n, len as nat),
    decreases n,
{
    if !(n.start <= n.end && n.end <= len) {
        return false;
    }
    let ghost cs = n.children@;
    let mut i: usize = 0;
    assert(cs.subrange(0, 0) =~= Seq::<ParseNode>::empty());
    while i < n.children.len()
        invariant
            cs == n.children@,
            i <= cs.len(),
            forest_fits(cs.subrange(0, i as int), len as nat),
        decreases cs.len() - i,
    {
        let ghost longer = cs.subrange(0, i as int + 1);
        assert(longer.drop_last() =~= cs.subrange(0, i as int));
        if !tree_fits(&n.children[i], len) {
            proof {
                if forest_fits(cs, len as nat) {
                    lemma_forest_fits_prefix(cs, i as int + 1, len as nat);
                }
            }
            return false;
        }
        i = i + 1;
    }
    assert(cs.subrange(0, cs.len() as int) =~= cs);
    true
}

} // verus!
