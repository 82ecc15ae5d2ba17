//! Running a highlighting query and listing its captures as text lines.
use vstd::prelude::*;
use vstd::utf8::{
    encode_utf8, encode_utf8_valid_utf8, partial_valid_utf8, partial_valid_utf8_extend_ascii_block,
    valid_utf8, valid_utf8_concat,
};
use vstd::string::StringExecFns;
use crate::graph::{fits, lemma_same_shape_renders_alike, subtree_size, tree_fits};
use crate::label::{decimal, lemma_decimal_ascii, push_bytes, push_decimal, string_from_utf8};
use crate::languages::Language;
use crate::syntax::{grammar, grammar_of, has_grammar, tree_model, tree_shape, GrammarError};
use streaming_iterator::StreamingIterator;
use tree_sitter::Language as TsGrammar;

verus! {

broadcast use {vstd::std_specs::vec::group_vec_axioms, vstd::seq::group_seq_axioms};

#[verifier::external_type_specification]
#[verifier::external_body]
pub struct ExQuery(tree_sitter::Query);

#[verifier::external_type_specification]
#[verifier::external_body]
pub struct ExQueryError(tree_sitter::QueryError);

/// A capture of a query match: the index of its name among the query's
/// capture names, and the byte range of the captured node.
#[derive(Clone, Copy, Debug, PartialEq, Eq, Structural)]
pub struct Capture {
    pub name_index: usize,
    pub start: usize,
    pub end: usize,
}

/// The UTF-8 bytes of each name.
pub open spec fn name_bytes(names: Seq<String>) -> Seq<Seq<u8>> {
    names.map_values(|s: String| encode_utf8(s@))
}

/// Every capture names one of `count` names.
pub open spec fn names_in_range(count: nat, captures: Seq<Capture>) -> bool {
    forall|k: int| 0 <= k < captures.len() ==> (#[trigger] captures[k]).name_index < count
}

/// The line `<name> <start> <end>` and a newline.
pub open spec fn capture_line(name: Seq<u8>, c: Capture) -> Seq<u8> {
    name + seq![32u8] + decimal(c.start as nat) + seq![32u8] + decimal(c.end as nat) + seq![10u8]
}

/// One line for each capture, in order.
pub open spec fn capture_lines(names: Seq<Seq<u8>>, captures: Seq<Capture>) -> Seq<u8>
    decreases captures.len(),
{
    if captures.len() == 0 {
        seq![]
    } else {
        capture_lines(names, captures.drop_last()) + capture_line(
            names[captures.last().name_index as int],
            captures.last(),
        )
    }
}

/// Appends the line of one capture.
fn push_capture_line(out: &mut Vec<u8>, name: &String, c: Capture)
    ensures
        final(out)@ == old(out)@ + capture_line(encode_utf8(name@), c),
{
    let ghost o = old(out)@;
    let ghost p1 = encode_utf8(name@) + seq![32u8];
    let ghost p2 = p1 + decimal(c.start as nat);
    let ghost p3 = p2 + seq![32u8];
    let ghost p4 = p3 + decimal(c.end as nat);
    push_bytes(out, name.as_str().as_bytes());
    out.push(32u8);
    assert(out@ =~= o + p1);
    push_decimal(out, c.start);
    assert(out@ =~= o + p2);
    out.push(32u8);
    assert(out@ =~= o + p3);
    push_decimal(out, c.end);
    assert(out@ =~= o + p4);
    out.push(10u8);
    assert(out@ =~= o + capture_line(encode_utf8(name@), c));
}

/// Bytes below 128 are valid UTF-8.
proof fn lemma_ascii_valid(s: Seq<u8>)
    requires
        forall|i: int| 0 <= i < s.len() ==> #[trigger] s[i] <= 127,
    ensures
        valid_utf8(s),
{
    assert(s.subrange(0, 0) =~= Seq::<u8>::empty());
    assert(partial_valid_utf8(s, 0));
    partial_valid_utf8_extend_ascii_block(s, 0, s.len() as int);
    assert(s.subrange(0, s.len() as int) =~= s);
}

/// The line of a capture is valid UTF-8.
proof fn lemma_capture_line_valid(name: Seq<char>, c: Capture)
    ensures
        valid_utf8(capture_line(encode_utf8(name), c)),
{
    let space = seq![32u8];
    let newline = seq![10u8];
    lemma_decimal_ascii(c.start as nat);
    lemma_decimal_ascii(c.end as nat);
    lemma_ascii_valid(space);
    lemma_ascii_valid(newline);
    lemma_ascii_valid(decimal(c.start as nat));
    lemma_ascii_valid(decimal(c.end as nat));
    encode_utf8_valid_utf8(name);
    let p1 = encode_utf8(name) + space;
    valid_utf8_concat(encode_utf8(name), space);
    valid_utf8_concat(p1, decimal(c.start as nat));
    valid_utf8_concat(p1 + decimal(c.start as nat), space);
    valid_utf8_concat(p1 + decimal(c.start as nat) + space, decimal(c.end as nat));
    valid_utf8_concat(
        p1 + decimal(c.start as nat) + space + decimal(c.end as nat),
        newline,
    );
}

/// Capture lines are valid UTF-8 where every capture names one of the names.
proof fn lemma_capture_lines_valid(names: Seq<String>, captures: Seq<Capture>)
    requires
        names_in_range(names.len(), captures),
    ensures
        valid_utf8(capture_lines(name_bytes(names), captures)),
    decreases captures.len(),
{
    if captures.len() > 0 {
        let init = captures.drop_last();
        assert forall|k: int| 0 <= k < init.len() implies (#[trigger] init[k]).name_index
            < names.len() by {
            assert(init[k] == captures[k]);
        }
        lemma_capture_lines_valid(names, init);
        let c = captures.last();
        assert(c == captures[captures.len() - 1]);
        assert(name_bytes(names)[c.name_index as int] == encode_utf8(names[c.name_index as int]@));
        lemma_capture_line_valid(names[c.name_index as int]@, c);
        valid_utf8_concat(
            capture_lines(name_bytes(names), init),
            capture_line(encode_utf8(names[c.name_index as int]@), c),
        );
    }
}

/// Lists the captures, one line `<name> <start> <end>` each, in order.
///
/// Returns `None` exactly where a capture's name index is out of range.
pub fn format_captures(names: &Vec<String>, captures: &Vec<Capture>) -> (r: Option<String>)
    ensures
        r is Some <==> names_in_range(names@.len(), captures@),
        r matches Some(s) ==> encode_utf8(s@) == capture_lines(name_bytes(names@), captures@),
{
    let mut out: Vec<u8> = Vec::new();
    let mut i: usize = 0;
    assert(captures@.subrange(0, 0) =~= Seq::<Capture>::empty());
    while i < captures.len()
        invariant
            i <= captures@.len(),
            names_in_range(names@.len(), captures@.subrange(0, i as int)),
            out@ == capture_lines(name_bytes(names@), captures@.subrange(0, i as int)),
        decreases captures@.len() - i,
    {
        let c = captures[i];
        if c.name_index >= names.len() {
            assert(!names_in_range(names@.len(), captures@)) by {
                assert(captures@[i as int] == c);
            }
            return None;
        }
        push_capture_line(&mut out, &names[c.name_index], c);
        proof {
            let longer = captures@.subrange(0, i as int + 1);
            assert(longer.drop_last() =~= captures@.subrange(0, i as int));
            assert(longer.last() == c);
            assert(name_bytes(names@)[c.name_index as int] == encode_utf8(
                names@[c.name_index as int]@,
            ));
            assert forall|k: int| 0 <= k < longer.len() implies (#[trigger] longer[k]).name_index
                < names@.len() by {
                if k < i {
                    assert(longer[k] == captures@.subrange(0, i as int)[k]);
                }
            }
        }
        i = i + 1;
    }
    proof {
        assert(captures@.subrange(0, captures@.len() as int) =~= captures@);
        lemma_capture_lines_valid(names@, captures@);
        vstd::utf8::decode_utf8_encode_utf8(out@);
    }
    string_from_utf8(out)
}

/// Whether `source` is a valid query for `grammar`.
pub uninterp spec fn query_compiles(grammar: TsGrammar, source: Seq<char>) -> bool;

/// The grammar and the source text that a query was built from.
pub uninterp spec fn query_origin(query: tree_sitter::Query) -> (TsGrammar, Seq<char>);

/// The capture names of the query that `source` describes for `grammar`, in
/// the order that capture indices refer to.
pub uninterp spec fn capture_names_of(grammar: TsGrammar, source: Seq<char>) -> Seq<String>;

/// The captures, in match order, of the query that `source` describes for
/// `grammar`, run over the whole of `tree`, the tree of `code`.
pub uninterp spec fn captures_of(
    grammar: TsGrammar,
    source: Seq<char>,
    tree: tree_sitter::Tree,
    code: Seq<char>,
) -> Seq<Capture>;

/// Relies on `tree_sitter::Query::new`: the query that `source` describes for
/// the grammar, where it is a valid query, else the error that makes it
/// invalid. For an unknown name it reads the byte before the name's offset, so
/// `source` must not start with a name: here it starts with a space.
#[verifier::external_body]
fn new_query(grammar: &TsGrammar, source: &str) -> (r: Result<
    tree_sitter::Query,
    tree_sitter::QueryError,
>)
    requires
        source@.len() > 0 && source@[0] == ' ',
    ensures
        r is Ok <==> query_compiles(*grammar, source@),
        r matches Ok(q) ==> query_origin(q) == (*grammar, source@),
{
    tree_sitter::Query::new(grammar, source)
}

/// Relies on `tree_sitter::Query::capture_names`: the query's capture names,
/// in the order that capture indices refer to.
#[verifier::external_body]
fn query_capture_names(query: &tree_sitter::Query) -> (r: Vec<String>)
    ensures
        r@ == capture_names_of(query_origin(*query).0, query_origin(*query).1),
{
    query.capture_names().iter().map(|n| n.to_string()).collect()
}

/// Relies on `tree_sitter::QueryCursor::matches`: the captures of every match
/// of the query over the whole tree, in match order. Each capture's index is
/// an index into the query's capture names. Text predicates slice `code` by
/// each node's byte range, so every node must lie within `code`.
#[verifier::external_body]
fn query_captures(query: &tree_sitter::Query, tree: &tree_sitter::Tree, code: &String) -> (r: Vec<
    Capture,
>)
    requires
        fits(tree_shape(*tree), encode_utf8(code@).len()),
    ensures
        r@ == captures_of(query_origin(*query).0, query_origin(*query).1, *tree, code@),
        names_in_range(
            capture_names_of(query_origin(*query).0, query_origin(*query).1).len(),
            r@,
        ),
{
    let mut cursor = tree_sitter::QueryCursor::new();
    let mut matches = cursor.matches(query, tree.root_node(), code.as_bytes());
    let mut found = Vec::new();
    while let Some(m) = matches.next() {
        for c in m.captures {
            let (start, end) = (c.node.start_byte(), c.node.end_byte());
            found.push(Capture { name_index: c.index as usize, start, end });
        }
    }
    found
}

/// Why a query's captures could not be listed.
#[derive(Clone, Copy, Debug, PartialEq, Eq, Structural)]
pub enum QueryFailure {
    /// The language's grammar could not be had.
    Grammar(GrammarError),
    /// The query text is not a valid query for the grammar.
    InvalidQuery,
    /// The tree has too many nodes to read, or a node's range lies outside the
    /// code.
    TreeOutsideCode,
}

/// The query text handed to tree-sitter: `highlights` after a space, so that
/// no name in it starts at the first byte.
pub open spec fn query_text(highlights: Seq<char>) -> Seq<char> {
    seq![' '] + highlights
}

/// Whether the tree lies within the code, so that a query can read its text.
pub open spec fn tree_within(tree: tree_sitter::Tree, code: Seq<char>) -> bool {
    subtree_size(tree_shape(tree)) < usize::MAX && fits(tree_shape(tree), encode_utf8(code).len())
}

/// The lines that the query `highlights` of `language` gives over `tree`, the
/// tree of `code`.
pub open spec fn highlight_lines(
    language: Language,
    highlights: Seq<char>,
    tree: tree_sitter::Tree,
    code: Seq<char>,
) -> Seq<u8> {
    capture_lines(
        name_bytes(capture_names_of(grammar_of(language), query_text(highlights))),
        captures_of(grammar_of(language), query_text(highlights), tree, code),
    )
}

/// Runs the highlighting query `highlights` of `language` over `tree`, the
/// tree of `code`, and lists its captures, one line `<name> <start> <end>`
/// each, in match order.
///
/// Fails with `Grammar(Unavailable)` exactly where no grammar for `language` is
/// at hand; else with `InvalidQuery` exactly where `highlights` is not a valid
/// query for it; else with `TreeOutsideCode` exactly where the tree does not
/// lie within `code`.
pub fn process_query(language: Language, highlights: &str, tree: &tree_sitter::Tree, code: &String) -> (r: Result<
    String,
    QueryFailure,
>)
    ensures
        (r matches Err(QueryFailure::Grammar(GrammarError::Unavailable))) <==> !has_grammar(
            language,
        ),
        has_grammar(language) ==> ((r == Err::<String, QueryFailure>(QueryFailure::InvalidQuery))
            <==> !query_compiles(grammar_of(language), query_text(highlights@))),
        has_grammar(language) && query_compiles(grammar_of(language), query_text(highlights@))
            ==> ((r == Err::<String, QueryFailure>(QueryFailure::TreeOutsideCode)) <==> !tree_within(
            *tree,
            code@,
        )),
        r is Ok <==> has_grammar(language) && query_compiles(
            grammar_of(language),
            query_text(highlights@),
        ) && tree_within(*tree, code@),
        r matches Ok(s) ==> encode_utf8(s@) == highlight_lines(language, highlights@, *tree, code@),
{
    let g = match grammar(language) {
        Some(g) => g,
        None => {
            return Err(QueryFailure::Grammar(GrammarError::Unavailable));
        },
    };
    let source = String::from_str(" ").concat(highlights);
    proof {
        reveal_strlit(" ");
        assert(source@ =~= query_text(highlights@));
    }
    let query = match new_query(&g, source.as_str()) {
        Ok(q) => q,
        Err(_) => {
            return Err(QueryFailure::InvalidQuery);
        },
    };
    let mut within = false;
    match tree_model(tree) {
        None => {},
        Some(t) => {
            let len = code.as_str().as_bytes().len();
            proof {
                lemma_same_shape_renders_alike(t, tree_shape(*tree), 1, encode_utf8(code@));
                assert(len == encode_utf8(code@).len());
            }
            within = tree_fits(&t, len);
        },
    }
    assert(within == tree_within(*tree, code@));
    if !within {
        return Err(QueryFailure::TreeOutsideCode);
    }
    let names = query_capture_names(&query);
    let captures = query_captures(&query, tree, code);
    let lines = format_captures(&names, &captures);
    Ok(lines.unwrap())
}

} // verus!
