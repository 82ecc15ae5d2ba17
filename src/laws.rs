//! Properties of the rendered graph text, proved over the model of `graph`.
use vstd::prelude::*;
use vstd::utf8::encode_utf8;
use crate::graph::{
    child_statements, declaration_bytes, declaration_close, dot_graph_bytes, edge_bytes,
    edge_close, fits, forest_fits, forest_size, graph_close, graph_open, snippet,
    statement_bytes, statements, subtree_size, text_of,
    ParseNode, Statement,
};
use crate::label::{
    ellipsis, escape, escape_byte, lemma_escape_concat, shown, BACKSLASH, BACKSPACE, CARRIAGE_RETURN,
    DOUBLE_QUOTE, FORM_FEED, MAX_SNIPPET_BYTES, NEWLINE, TAB,
};

verus! {

broadcast use {vstd::std_specs::vec::group_vec_axioms, vstd::seq::group_seq_axioms};

/// The ids of the declarations among `ss`, in order.
pub open spec fn declared_ids(ss: Seq<Statement>) -> Seq<nat>
    decreases ss.len(),
{
    if ss.len() == 0 {
        seq![]
    } else {
        match ss.last() {
            Statement::Declare { id, node } => declared_ids(ss.drop_last()).push(id),
            Statement::Link { .. } => declared_ids(ss.drop_last()),
        }
    }
}

/// The integers `from, from + 1, ..., from + count - 1`.
pub open spec fn id_run(from: nat, count: nat) -> Seq<nat> {
    Seq::new(count, |k: int| (from + k) as nat)
}

/// Every declared node among `ss` has `start <= end <= len`.
pub open spec fn declared_nodes_fit(ss: Seq<Statement>, len: nat) -> bool {
    forall|k: int|
        0 <= k < ss.len() ==> match #[trigger] ss[k] {
            Statement::Declare { id, node } => node.start <= node.end <= len,
            Statement::Link { .. } => true,
        }
}

proof fn lemma_declared_ids_concat(a: Seq<Statement>, b: Seq<Statement>)
    ensures
        declared_ids(a + b) == declared_ids(a) + declared_ids(b),
    decreases b.len(),
{
    if b.len() == 0 {
        assert(a + b =~= a);
        assert(declared_ids(a) + declared_ids(b) =~= declared_ids(a));
    } else {
        assert((a + b).drop_last() =~= a + b.drop_last());
        assert((a + b).last() == b.last());
        lemma_declared_ids_concat(a, b.drop_last());
        assert(declared_ids(a + b) =~= declared_ids(a) + declared_ids(b));
    }
}

proof fn lemma_declared_ids_single(s: Statement)
    ensures
        declared_ids(seq![s]) == match s {
            Statement::Declare { id, node } => seq![id],
            Statement::Link { .. } => Seq::<nat>::empty(),
        },
{
    let empty = Seq::<Statement>::empty();
    assert(seq![s].drop_last() =~= empty);
    assert(declared_ids(empty) =~= Seq::<nat>::empty());
    match s {
        Statement::Declare { id, node } => {
            assert(declared_ids(seq![s]) =~= seq![id]);
        },
        Statement::Link { .. } => {},
    }
}

proof fn lemma_tree_ids(n: ParseNode, id: nat)
    ensures
        declared_ids(statements(n, id)) == id_run(id, subtree_size(n)),
    decreases n,
{
    let decl = Statement::Declare { id, node: n };
    lemma_declared_ids_concat(seq![decl], child_statements(id, n.children@, id + 1));
    lemma_declared_ids_single(decl);
    lemma_children_ids(id, n.children@, id + 1);
    assert(seq![id] + id_run(id + 1, forest_size(n.children@)) =~= id_run(id, subtree_size(n)));
}

proof fn lemma_children_ids(parent: nat, cs: Seq<ParseNode>, first: nat)
    ensures
        declared_ids(child_statements(parent, cs, first)) == id_run(first, forest_size(cs)),
    decreases cs,
{
    if cs.len() == 0 {
        assert(id_run(first, 0) =~= Seq::<nat>::empty());
    } else {
        let init = cs.drop_last();
        let child = first + forest_size(init);
        let link = Statement::Link { parent, child };
        let a = child_statements(parent, init, first);
        let b = statements(cs.last(), child);
        lemma_declared_ids_concat(a + seq![link], b);
        lemma_declared_ids_concat(a, seq![link]);
        lemma_declared_ids_single(link);
        lemma_children_ids(parent, init, first);
        lemma_tree_ids(cs.last(), child);
        assert(id_run(first, forest_size(init)) + id_run(child, subtree_size(cs.last()))
            =~= id_run(first, forest_size(cs)));
        assert(declared_ids(a) + Seq::<nat>::empty() =~= declared_ids(a));
    }
}

/// Node ids are dense and in order: read in the order of the declarations,
/// they are `1, 2, ..., N`, where `N` is the number of nodes in the tree.
pub proof fn law_ids_dense_in_order(root: ParseNode)
    ensures
        declared_ids(statements(root, 1)) == id_run(1, subtree_size(root)),
{
    lemma_tree_ids(root, 1);
}

/// Rendering is deterministic: equal trees over equal sources give the same
/// bytes, and so the same string.
pub proof fn law_render_deterministic(
    a: ParseNode,
    b: ParseNode,
    src: Seq<u8>,
    text_a: Seq<char>,
    text_b: Seq<char>,
)
    requires
        a == b,
        encode_utf8(text_a) == dot_graph_bytes(a, src),
        encode_utf8(text_b) == dot_graph_bytes(b, src),
    ensures
        dot_graph_bytes(a, src) == dot_graph_bytes(b, src),
        text_a == text_b,
{
    vstd::utf8::encode_utf8_decode_utf8(text_a);
    vstd::utf8::encode_utf8_decode_utf8(text_b);
}

proof fn lemma_statement_ends_with_newline(s: Statement, src: Seq<u8>)
    ensures
        statement_bytes(s, src).len() > 0,
        statement_bytes(s, src).last() == 10u8,
{
    match s {
        Statement::Declare { id, node } => {
            let d = declaration_bytes(node, id, src);
            assert(d[d.len() - 1] == declaration_close()[3]);
        },
        Statement::Link { parent, child } => {
            let e = edge_bytes(parent, child);
            assert(e[e.len() - 1] == edge_close()[11]);
        },
    }
}

/// The graph text starts with `digraph name {` and a newline, and ends with a
/// newline and `}`.
pub proof fn law_envelope(root: ParseNode, src: Seq<u8>)
    ensures
        dot_graph_bytes(root, src).len() >= graph_open().len() + 2,
        dot_graph_bytes(root, src).subrange(0, graph_open().len() as int) == graph_open(),
        dot_graph_bytes(root, src).subrange(
            dot_graph_bytes(root, src).len() - 2,
            dot_graph_bytes(root, src).len() as int,
        ) == seq![10u8, 125u8],
{
    let ss = statements(root, 1);
    let body = text_of(ss, src);
    let all = dot_graph_bytes(root, src);
    assert(ss.len() > 0);
    lemma_statement_ends_with_newline(ss.last(), src);
    assert(body.len() > 0 && body.last() == 10u8) by {
        let tail = statement_bytes(ss.last(), src);
        assert(body == text_of(ss.drop_last(), src) + tail);
        assert(body[body.len() - 1] == tail[tail.len() - 1]);
    }
    assert(all =~= graph_open() + body + graph_close());
    assert(all.subrange(0, graph_open().len() as int) =~= graph_open());
    assert(all[all.len() - 2] == body[body.len() - 1]);
    assert(all.subrange(all.len() - 2, all.len() as int) =~= seq![10u8, 125u8]);
}

proof fn lemma_declared_fit_concat(a: Seq<Statement>, b: Seq<Statement>, len: nat)
    requires
        declared_nodes_fit(a, len),
        declared_nodes_fit(b, len),
    ensures
        declared_nodes_fit(a + b, len),
{
    assert forall|k: int| 0 <= k < (a + b).len() implies match #[trigger] (a + b)[k] {
        Statement::Declare { id, node } => node.start <= node.end <= len,
        Statement::Link { .. } => true,
    } by {
        if k < a.len() {
            assert((a + b)[k] == a[k]);
        } else {
            assert((a + b)[k] == b[k - a.len()]);
        }
    }
}

proof fn lemma_tree_fits(n: ParseNode, id: nat, len: nat)
    requires
        fits(n, len),
    ensures
        declared_nodes_fit(statements(n, id), len),
    decreases n,
{
    let decl = Statement::Declare { id, node: n };
    assert(declared_nodes_fit(seq![decl], len)) by {
        assert forall|k: int| 0 <= k < seq![decl].len() implies match #[trigger] seq![decl][k] {
            Statement::Declare { id, node } => node.start <= node.end <= len,
            Statement::Link { .. } => true,
        } by {
            assert(seq![decl][k] == decl);
        }
    }
    lemma_children_fit(id, n.children@, id + 1, len);
    lemma_declared_fit_concat(seq![decl], child_statements(id, n.children@, id + 1), len);
}

proof fn lemma_children_fit(parent: nat, cs: Seq<ParseNode>, first: nat, len: nat)
    requires
        forest_fits(cs, len),
    ensures
        declared_nodes_fit(child_statements(parent, cs, first), len),
    decreases cs,
{
    if cs.len() > 0 {
        let init = cs.drop_last();
        let child = first + forest_size(init);
        let link = Statement::Link { parent, child };
        let a = child_statements(parent, init, first);
        lemma_children_fit(parent, init, first, len);
        lemma_tree_fits(cs.last(), child, len);
        assert(declared_nodes_fit(seq![link], len)) by {
            assert forall|k: int| 0 <= k < seq![link].len() implies match #[trigger] seq![
                link,
            ][k] {
                Statement::Declare { id, node } => node.start <= node.end <= len,
                Statement::Link { .. } => true,
            } by {
                assert(seq![link][k] == link);
            }
        }
        lemma_declared_fit_concat(a, seq![link], len);
        lemma_declared_fit_concat(a + seq![link], statements(cs.last(), child), len);
    }
}

/// Byte offsets are exact: where the tree fits in the source, every declared
/// node's `end - start` is the byte length of its snippet before truncation.
pub proof fn law_byte_offsets(root: ParseNode, src: Seq<u8>)
    requires
        fits(root, src.len()),
    ensures
        forall|k: int|
            0 <= k < statements(root, 1).len() ==> match #[trigger] statements(root, 1)[k] {
                Statement::Declare { id, node } => node.end - node.start == snippet(
                    node,
                    src,
                ).len(),
                Statement::Link { .. } => true,
            },
{
    lemma_tree_fits(root, 1, src.len());
    let ss = statements(root, 1);
    assert forall|k: int| 0 <= k < ss.len() implies match #[trigger] ss[k] {
        Statement::Declare { id, node } => node.end - node.start == snippet(node, src).len(),
        Statement::Link { .. } => true,
    } by {
        match ss[k] {
            Statement::Declare { id, node } => {},
            Statement::Link { .. } => {},
        }
    }
}

/// A snippet of at most `MAX_SNIPPET_BYTES` bytes is shown whole; a longer one
/// is cut to its first `MAX_SNIPPET_BYTES` bytes followed by `...`.
pub proof fn law_truncation_boundary(s: Seq<u8>)
    ensures
        s.len() <= MAX_SNIPPET_BYTES ==> shown(s) == s,
        s.len() > MAX_SNIPPET_BYTES ==> shown(s) == s.subrange(0, MAX_SNIPPET_BYTES as int)
            + ellipsis(),
        s.len() > MAX_SNIPPET_BYTES ==> shown(s).len() == MAX_SNIPPET_BYTES + 3,
{
}

/// The byte that the escape `\c` stands for, where `c` is a valid escape letter.
pub open spec fn escaped_meaning(c: u8) -> Option<u8> {
    if c == BACKSLASH {
        Some(BACKSLASH)
    } else if c == DOUBLE_QUOTE {
        Some(DOUBLE_QUOTE)
    } else if c == 110u8 {
        Some(NEWLINE)
    } else if c == 114u8 {
        Some(CARRIAGE_RETURN)
    } else if c == 116u8 {
        Some(TAB)
    } else if c == 98u8 {
        Some(BACKSPACE)
    } else if c == 102u8 {
        Some(FORM_FEED)
    } else {
        None
    }
}

/// Bytes that may not stand bare inside a label: backslash, double quote,
/// newline, carriage return, tab, backspace and form feed.
pub open spec fn must_escape(b: u8) -> bool {
    b == BACKSLASH || b == DOUBLE_QUOTE || b == NEWLINE || b == CARRIAGE_RETURN || b == TAB || b == BACKSPACE || b == FORM_FEED
}

/// Reads label text back: a backslash and an escape letter stand for one byte,
/// any other byte that need not be escaped stands for itself. `None` where the
/// text holds a bare byte that must be escaped, or a backslash not followed by
/// an escape letter.
pub open spec fn unescape(t: Seq<u8>) -> Option<Seq<u8>>
    decreases t.len(),
{
    if t.len() == 0 {
        Some(seq![])
    } else if t[0] == BACKSLASH {
        if t.len() >= 2 && escaped_meaning(t[1]) is Some {
            match unescape(t.subrange(2, t.len() as int)) {
                Some(rest) => Some(seq![escaped_meaning(t[1])->Some_0] + rest),
                None => None,
            }
        } else {
            None
        }
    } else if must_escape(t[0]) {
        None
    } else {
        match unescape(t.drop_first()) {
            Some(rest) => Some(seq![t[0]] + rest),
            None => None,
        }
    }
}

proof fn lemma_escape_first(s: Seq<u8>)
    requires
        s.len() > 0,
    ensures
        escape(s) == escape_byte(s[0]) + escape(s.drop_first()),
{
    assert(s =~= seq![s[0]] + s.drop_first());
    lemma_escape_concat(seq![s[0]], s.drop_first());
    let one = seq![s[0]];
    assert(one.drop_last() =~= Seq::<u8>::empty());
    assert(escape(Seq::<u8>::empty()) =~= Seq::<u8>::empty());
    assert(escape(one) =~= escape_byte(s[0]));
}

/// Escaping is sound: the escaped text holds no bare quote, backslash or
/// control byte, and reading it back gives the snippet unchanged.
pub proof fn law_escape_round_trip(s: Seq<u8>)
    ensures
        unescape(escape(s)) == Some(s),
    decreases s.len(),
{
    if s.len() > 0 {
        lemma_escape_first(s);
        law_escape_round_trip(s.drop_first());
        let b = s[0];
        let rest = escape(s.drop_first());
        let t = escape(s);
        if must_escape(b) {
            assert(t[0] == BACKSLASH);
            assert(t.subrange(2, t.len() as int) =~= rest);
            assert(seq![escaped_meaning(t[1])->Some_0] + s.drop_first() =~= s);
        } else {
            assert(t[0] == b);
            assert(t.drop_first() =~= rest);
            assert(seq![b] + s.drop_first() =~= s);
        }
    } else {
        assert(escape(s) =~= Seq::<u8>::empty());
    }
}

} // verus!
