//! Escaping text for a double-quoted JavaScript string literal.
use vstd::prelude::*;

verus! {

/// The byte `\`.
pub const BACKSLASH: u8 = 92;

/// The byte `"`.
pub const QUOTE: u8 = 34;

/// Line feed.
pub const LF: u8 = 10;

/// Carriage return.
pub const CR: u8 = 13;

/// What one byte becomes inside the literal: CR, LF and `"` turn into the
/// two-byte sequences `\r`, `\n` and `\"`; every other byte, backslash
/// included, stands for itself.
pub open spec fn escape_byte(b: u8) -> Seq<u8> {
    if b == LF {
        seq![BACKSLASH, 110u8]
    } else if b == CR {
        seq![BACKSLASH, 114u8]
    } else if b == QUOTE {
        seq![BACKSLASH, QUOTE]
    } else {
        seq![b]
    }
}

/// The escaped form of a text: each byte replaced by its escape, independently.
pub open spec fn escape_js(s: Seq<u8>) -> Seq<u8>
    decreases s.len(),
{
    if s.len() == 0 {
        Seq::empty()
    } else {
        escape_byte(s[0]) + escape_js(s.drop_first())
    }
}

/// How a JavaScript string literal reads the three escapes that `escape_js`
/// writes; every other byte reads as itself.
pub open spec fn unescape_js(s: Seq<u8>) -> Seq<u8>
    decreases s.len(),
{
    if s.len() >= 2 && s[0] == BACKSLASH && s[1] == 110u8 {
        seq![LF] + unescape_js(s.skip(2))
    } else if s.len() >= 2 && s[0] == BACKSLASH && s[1] == 114u8 {
        seq![CR] + unescape_js(s.skip(2))
    } else if s.len() >= 2 && s[0] == BACKSLASH && s[1] == QUOTE {
        seq![QUOTE] + unescape_js(s.skip(2))
    } else if s.len() >= 1 {
        seq![s[0]] + unescape_js(s.skip(1))
    } else {
        Seq::empty()
    }
}

/// Escaping distributes over concatenation.
pub proof fn lemma_escape_append(a: Seq<u8>, b: Seq<u8>)
    ensures
        escape_js(a + b) == escape_js(a) + escape_js(b),
    decreases a.len(),
{
    if a.len() == 0 {
        assert(a + b =~= b);
    } else {
        assert((a + b).drop_first() =~= a.drop_first() + b);
        lemma_escape_append(a.drop_first(), b);
    }
}

/// Reading back the escaped literal gives the text again, as long as the
/// text holds no backslash (the one byte the escape leaves ambiguous).
pub proof fn lemma_unescape_escape(s: Seq<u8>)
    requires
        !s.contains(BACKSLASH),
    ensures
        unescape_js(escape_js(s)) == s,
    decreases s.len(),
{
    if s.len() > 0 {
        let rest = s.drop_first();
        assert forall|i: int| 0 <= i < rest.len() implies rest[i] != BACKSLASH by {
            assert(s[i + 1] == rest[i]);
        }
        lemma_unescape_escape(rest);
        let e = escape_js(s);
        assert(e == escape_byte(s[0]) + escape_js(rest));
        if s[0] == LF || s[0] == CR || s[0] == QUOTE {
            assert(e.skip(2) =~= escape_js(rest));
        } else {
            assert(s[0] != BACKSLASH);
            assert(e.skip(1) =~= escape_js(rest));
        }
        assert(seq![s[0]] + rest =~= s);
    } else {
        assert(s =~= Seq::empty());
    }
}

/// Escapes `s` for embedding inside a double-quoted JavaScript string literal.
pub fn escape_for_js_string(s: &[u8]) -> (r: Vec<u8>)
    ensures
        r@ == escape_js(s@),
{
    let mut out: Vec<u8> = Vec::new();
    let mut i: usize = 0;
    while i < s.len()
        invariant
            i <= s@.len(),
            out@ == escape_js(s@.subrange(0, i as int)),
        decreases s@.len() - i,
    {
        let b = s[i];
        if b == LF {
            out.push(BACKSLASH);
            out.push(110u8);
        } else if b == CR {
            out.push(BACKSLASH);
            out.push(114u8);
        } else if b == QUOTE {
            out.push(BACKSLASH);
            out.push(QUOTE);
        } else {
            out.push(b);
        }
        proof {
            let head = s@.subrange(0, i as int);
            lemma_escape_append(head, seq![b]);
            assert(s@.subrange(0, i + 1) =~= head + seq![b]);
            assert(escape_js(seq![b]) =~= escape_byte(b)) by {
                assert(seq![b].drop_first() =~= Seq::<u8>::empty());
                assert(escape_js(Seq::<u8>::empty()) == Seq::<u8>::empty());
                assert(escape_byte(b) + Seq::<u8>::empty() =~= escape_byte(b));
            }
        }
        i = i + 1;
    }
    assert(s@.subrange(0, s@.len() as int) =~= s@);
    out
}

} // verus!
