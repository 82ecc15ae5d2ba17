//! Byte-level pieces of a node label: decimal numbers, escaping and truncation.
use vstd::prelude::*;
use vstd::utf8::{decode_utf8, valid_utf8};

verus! {

/// Longest snippet, in bytes, that a label shows before it is cut short.
pub const MAX_SNIPPET_BYTES: usize = 60;

pub const BACKSLASH: u8 = 92;
pub const DOUBLE_QUOTE: u8 = 34;
pub const NEWLINE: u8 = 10;
pub const CARRIAGE_RETURN: u8 = 13;
pub const TAB: u8 = 9;
pub const BACKSPACE: u8 = 8;
pub const FORM_FEED: u8 = 12;

/// The ASCII digit for `d < 10`.
pub open spec fn digit(d: nat) -> u8 {
    (48 + d) as u8
}

/// Decimal notation of `n`, most significant digit first, without leading zeros.
pub open spec fn decimal(n: nat) -> Seq<u8>
    decreases n,
{
    if n < 10 {
        seq![digit(n)]
    } else {
        decimal(n / 10).push(digit(n % 10))
    }
}

/// How a single byte of a snippet is written inside a quoted label: a
/// backslash, double quote, newline, carriage return, tab, backspace or form
/// feed becomes a backslash followed by `\\`, `"`, `n`, `r`, `t`, `b` or `f`.
pub open spec fn escape_byte(b: u8) -> Seq<u8> {
    if b == BACKSLASH {
        seq![BACKSLASH, BACKSLASH]
    } else if b == DOUBLE_QUOTE {
        seq![BACKSLASH, DOUBLE_QUOTE]
    } else if b == NEWLINE {
        seq![BACKSLASH, 110u8]
    } else if b == CARRIAGE_RETURN {
        seq![BACKSLASH, 114u8]
    } else if b == TAB {
        seq![BACKSLASH, 116u8]
    } else if b == BACKSPACE {
        seq![BACKSLASH, 98u8]
    } else if b == FORM_FEED {
        seq![BACKSLASH, 102u8]
    } else {
        seq![b]
    }
}

/// A snippet with every byte escaped.
pub open spec fn escape(s: Seq<u8>) -> Seq<u8>
    decreases s.len(),
{
    if s.len() == 0 {
        seq![]
    } else {
        escape(s.drop_last()) + escape_byte(s.last())
    }
}

/// How a single byte of a node kind is written: only double quotes are escaped.
pub open spec fn quote_byte(b: u8) -> Seq<u8> {
    if b == DOUBLE_QUOTE {
        seq![BACKSLASH, DOUBLE_QUOTE]
    } else {
        seq![b]
    }
}

/// A node kind with its double quotes escaped.
pub open spec fn escape_quotes(s: Seq<u8>) -> Seq<u8>
    decreases s.len(),
{
    if s.len() == 0 {
        seq![]
    } else {
        escape_quotes(s.drop_last()) + quote_byte(s.last())
    }
}

/// The ellipsis appended to a snippet that was cut short.
pub open spec fn ellipsis() -> Seq<u8> {
    seq![46u8, 46u8, 46u8]
}

/// The part of a snippet that a label shows: the first `MAX_SNIPPET_BYTES`
/// bytes followed by an ellipsis when it is longer, else all of it.
pub open spec fn shown(s: Seq<u8>) -> Seq<u8> {
    if s.len() > MAX_SNIPPET_BYTES {
        s.subrange(0, MAX_SNIPPET_BYTES as int) + ellipsis()
    } else {
        s
    }
}

/// Decimal notation is made of ASCII digits.
pub proof fn lemma_decimal_ascii(n: nat)
    ensures
        forall|i: int| 0 <= i < decimal(n).len() ==> 48 <= #[trigger] decimal(n)[i] <= 57,
    decreases n,
{
    let d = decimal(n);
    if n >= 10 {
        lemma_decimal_ascii(n / 10);
        let head = decimal(n / 10);
        assert(d == head.push(digit(n % 10)));
        assert forall|i: int| 0 <= i < d.len() implies 48 <= #[trigger] d[i] <= 57 by {
            if i < head.len() {
                assert(d[i] == head[i]);
            }
        }
    } else {
        assert(d == seq![digit(n)]);
    }
}

/// Escaping distributes over concatenation.
pub proof fn lemma_escape_concat(a: Seq<u8>, b: Seq<u8>)
    ensures
        escape(a + b) == escape(a) + escape(b),
    decreases b.len(),
{
    if b.len() == 0 {
        assert(a + b =~= a);
        assert(escape(b) =~= Seq::<u8>::empty());
        assert(escape(a) + escape(b) =~= escape(a));
    } else {
        let ab = a + b;
        assert(ab.drop_last() =~= a + b.drop_last());
        assert(ab.last() == b.last());
        lemma_escape_concat(a, b.drop_last());
        assert(escape(a + b) =~= escape(a) + escape(b));
    }
}

/// Dots are written as they are.
pub proof fn lemma_escape_ellipsis()
    ensures
        escape(ellipsis()) == ellipsis(),
{
    let e = ellipsis();
    assert(e.drop_last().drop_last().drop_last() =~= Seq::<u8>::empty());
    assert(escape(e.drop_last().drop_last()) =~= seq![46u8]) by {
        assert(e.drop_last().drop_last().drop_last() =~= Seq::<u8>::empty());
        reveal_with_fuel(escape, 2);
    }
    assert(escape(e.drop_last()) =~= seq![46u8, 46u8]);
    assert(escape(e) =~= e);
}

/// Appends the decimal notation of `n`.
pub fn push_decimal(out: &mut Vec<u8>, n: usize)
    ensures
        final(out)@ == old(out)@ + decimal(n as nat),
    decreases n,
{
    if n >= 10 {
        push_decimal(out, n / 10);
    }
    let d: u8 = (n % 10) as u8;
    out.push(48u8 + d);
    assert(final(out)@ =~= old(out)@ + decimal(n as nat));
}

/// Appends `escape_byte(b)`.
fn push_escaped_byte(out: &mut Vec<u8>, b: u8)
    ensures
        final(out)@ == old(out)@ + escape_byte(b),
{
    if b == BACKSLASH {
        out.push(BACKSLASH);
        out.push(BACKSLASH);
    } else if b == DOUBLE_QUOTE {
        out.push(BACKSLASH);
        out.push(DOUBLE_QUOTE);
    } else if b == NEWLINE {
        out.push(BACKSLASH);
        out.push(110u8);
    } else if b == CARRIAGE_RETURN {
        out.push(BACKSLASH);
        out.push(114u8);
    } else if b == TAB {
        out.push(BACKSLASH);
        out.push(116u8);
    } else if b == BACKSPACE {
        out.push(BACKSLASH);
        out.push(98u8);
    } else if b == FORM_FEED {
        out.push(BACKSLASH);
        out.push(102u8);
    } else {
        out.push(b);
    }
    assert(final(out)@ =~= old(out)@ + escape_byte(b));
}

/// Appends the escaped bytes `src[from..to]`.
pub fn push_escaped(out: &mut Vec<u8>, src: &[u8], from: usize, to: usize)
    requires
        from <= to <= src@.len(),
    ensures
        final(out)@ == old(out)@ + escape(src@.subrange(from as int, to as int)),
{
    let mut i: usize = from;
    assert(src@.subrange(from as int, from as int) =~= Seq::<u8>::empty());
    while i < to
        invariant
            from <= i <= to <= src@.len(),
            out@ == old(out)@ + escape(src@.subrange(from as int, i as int)),
        decreases to - i,
    {
        push_escaped_byte(out, src[i]);
        proof {
            let s = src@.subrange(from as int, i as int + 1);
            assert(s.drop_last() =~= src@.subrange(from as int, i as int));
            assert(s.last() == src@[i as int]);
        }
        i = i + 1;
        assert(out@ =~= old(out)@ + escape(src@.subrange(from as int, i as int)));
    }
}

/// Appends `s` with its double quotes escaped.
pub fn push_quote_escaped(out: &mut Vec<u8>, s: &[u8])
    ensures
        final(out)@ == old(out)@ + escape_quotes(s@),
{
    let mut i: usize = 0;
    assert(s@.subrange(0, 0) =~= Seq::<u8>::empty());
    while i < s.len()
        invariant
            i <= s@.len(),
            out@ == old(out)@ + escape_quotes(s@.subrange(0, i as int)),
        decreases s@.len() - i,
    {
        let b = s[i];
        if b == DOUBLE_QUOTE {
            out.push(BACKSLASH);
            out.push(DOUBLE_QUOTE);
        } else {
            out.push(b);
        }
        proof {
            let t = s@.subrange(0, i as int + 1);
            assert(t.drop_last() =~= s@.subrange(0, i as int));
            assert(t.last() == b);
        }
        i = i + 1;
        assert(out@ =~= old(out)@ + escape_quotes(s@.subrange(0, i as int)));
    }
    assert(s@.subrange(0, s@.len() as int) =~= s@);
}

/// Appends the shown part of the snippet `src[start..end]`, escaped.
pub fn push_snippet(out: &mut Vec<u8>, src: &[u8], start: usize, end: usize)
    requires
        start <= end <= src@.len(),
    ensures
        final(out)@ == old(out)@ + escape(shown(src@.subrange(start as int, end as int))),
{
    let s = Ghost(src@.subrange(start as int, end as int));
    if end - start > MAX_SNIPPET_BYTES {
        push_escaped(out, src, start, start + MAX_SNIPPET_BYTES);
        out.push(46u8);
        out.push(46u8);
        out.push(46u8);
        proof {
            let head = src@.subrange(start as int, start as int + MAX_SNIPPET_BYTES as int);
            assert(s@.subrange(0, MAX_SNIPPET_BYTES as int) =~= head);
            lemma_escape_concat(head, ellipsis());
            lemma_escape_ellipsis();
            assert(final(out)@ =~= old(out)@ + escape(shown(s@)));
        }
    } else {
        push_escaped(out, src, start, end);
    }
}

/// Relies on `String::from_utf8`: it accepts exactly the valid UTF-8 byte
/// sequences, and the string it returns holds the characters they encode.
#[verifier::external_body]
pub(crate) fn string_from_utf8(bytes: Vec<u8>) -> (r: Option<String>)
    ensures
        r is Some <==> valid_utf8(bytes@),
        r matches Some(s) ==> s@ == decode_utf8(bytes@),
{
    String::from_utf8(bytes).ok()
}

/// Appends the bytes of `s`.
pub fn push_bytes(out: &mut Vec<u8>, s: &[u8])
    ensures
        final(out)@ == old(out)@ + s@,
{
    let mut i: usize = 0;
    while i < s.len()
        invariant
            i <= s@.len(),
            out@ == old(out)@ + s@.subrange(0, i as int),
        decreases s@.len() - i,
    {
        out.push(s[i]);
        i = i + 1;
        assert(out@ =~= old(out)@ + s@.subrange(0, i as int));
    }
    assert(s@.subrange(0, s@.len() as int) =~= s@);
}

} // verus!
