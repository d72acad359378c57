//! Writing tokens as the bytes of a document, without whitespace between
//! them and with every attribute value in double quotes.

use vstd::prelude::*;
use crate::chars::{EQUALS, GT, LT, QUOT, SLASH, SPACE};
use crate::escape::{escape, push_escaped};
use crate::token::{Attribute, AttributeView, Token, TokenView};

verus! {

/// One attribute as it is written: the name, `="`, the escaped value, `"`.
pub open spec fn render_attribute(a: AttributeView) -> Seq<u8> {
    a.name + (seq![EQUALS, QUOT] + (escape(a.value) + seq![QUOT]))
}

/// The attributes of a start tag as they are written: a space before each.
pub open spec fn render_attributes(attrs: Seq<AttributeView>) -> Seq<u8>
    decreases attrs.len(),
{
    if attrs.len() == 0 {
        Seq::empty()
    } else {
        seq![SPACE] + (render_attribute(attrs[0]) + render_attributes(attrs.skip(1)))
    }
}

/// How a start tag ends: `/>` where it is empty, `>` where it is not.
pub open spec fn render_close(empty: bool) -> Seq<u8> {
    if empty {
        seq![SLASH, GT]
    } else {
        seq![GT]
    }
}

/// One token as it is written.
pub open spec fn render_token(t: TokenView) -> Seq<u8> {
    match t {
        TokenView::Start { name, attributes, empty } => seq![LT] + (name + (render_attributes(
            attributes,
        ) + render_close(empty))),
        TokenView::End { name } => seq![LT, SLASH] + (name + seq![GT]),
        TokenView::Text { content } => escape(content),
    }
}

/// A sequence of tokens as it is written: one after the other.
pub open spec fn render(tokens: Seq<TokenView>) -> Seq<u8>
    decreases tokens.len(),
{
    if tokens.len() == 0 {
        Seq::empty()
    } else {
        render_token(tokens[0]) + render(tokens.skip(1))
    }
}

/// Appends the bytes of `word` to `out`.
pub fn push_bytes(out: &mut Vec<u8>, word: &[u8])
    ensures
        final(out)@ == old(out)@ + word@,
{
    let mut k: usize = 0;
    while k < word.len()
        invariant
            k <= word@.len(),
            out@ == old(out)@ + word@.take(k as int),
        decreases word@.len() - k,
    {
        out.push(word[k]);
        proof {
            assert(word@.take(k + 1) =~= word@.take(k as int).push(word@[k as int]));
            assert(out@ =~= old(out)@ + word@.take(k + 1));
        }
        k += 1;
    }
    proof {
        assert(word@.take(k as int) =~= word@);
    }
}

/// Appends one attribute to `out` as it is written.
pub fn write_attribute(out: &mut Vec<u8>, a: &Attribute)
    ensures
        final(out)@ == old(out)@ + render_attribute(a.deep_view()),
{
    push_bytes(out, a.name.as_slice());
    out.push(EQUALS);
    out.push(QUOT);
    push_escaped(out, a.value.as_slice());
    out.push(QUOT);
    proof {
        assert(out@ =~= old(out)@ + render_attribute(a.deep_view()));
    }
}

/// Appends the attributes of a start tag to `out` as they are written.
pub fn write_attributes(out: &mut Vec<u8>, attrs: &Vec<Attribute>)
    ensures
        final(out)@ == old(out)@ + render_attributes(attrs.deep_view()),
{
    let ghost all = attrs.deep_view();
    let mut k: usize = 0;
    proof {
        assert(all.skip(0) =~= all);
    }
    while k < attrs.len()
        invariant
            k <= attrs@.len(),
            all == attrs.deep_view(),
            out@ + render_attributes(all.skip(k as int)) == old(out)@ + render_attributes(all),
        decreases attrs@.len() - k,
    {
        let ghost before = out@;
        out.push(SPACE);
        write_attribute(out, &attrs[k]);
        proof {
            let rest = all.skip(k as int);
            assert(rest.skip(1) =~= all.skip(k + 1));
            assert(rest[0] == attrs@[k as int].deep_view());
            assert(out@ + render_attributes(rest.skip(1)) =~= before + render_attributes(rest));
        }
        k += 1;
    }
    proof {
        assert(render_attributes(all.skip(k as int)) =~= Seq::<u8>::empty());
        assert(out@ + Seq::<u8>::empty() =~= out@);
    }
}

/// Appends one token to `out` as it is written.
pub fn write_token(out: &mut Vec<u8>, t: &Token)
    ensures
        final(out)@ == old(out)@ + render_token(t.deep_view()),
{
    match t {
        Token::Start { name, attributes, empty } => {
            out.push(LT);
            push_bytes(out, name.as_slice());
            write_attributes(out, attributes);
            if *empty {
                out.push(SLASH);
            }
            out.push(GT);
            proof {
                assert(out@ =~= old(out)@ + render_token(t.deep_view()));
            }
        },
        Token::End { name } => {
            out.push(LT);
            out.push(SLASH);
            push_bytes(out, name.as_slice());
            out.push(GT);
            proof {
                assert(out@ =~= old(out)@ + render_token(t.deep_view()));
            }
        },
        Token::Text { content } => {
            push_escaped(out, content.as_slice());
        },
    }
}

/// Writes a sequence of tokens as the bytes of a document.
pub fn write_tokens(tokens: &Vec<Token>) -> (out: Vec<u8>)
    ensures
        out@ == render(tokens.deep_view()),
{
    let mut out: Vec<u8> = Vec::new();
    let ghost all = tokens.deep_view();
    let mut k: usize = 0;
    proof {
        assert(all.skip(0) =~= all);
        assert(out@ + render(all) =~= render(all));
    }
    while k < tokens.len()
        invariant
            k <= tokens@.len(),
            all == tokens.deep_view(),
            out@ + render(all.skip(k as int)) == render(all),
        decreases tokens@.len() - k,
    {
        let ghost before = out@;
        write_token(&mut out, &tokens[k]);
        proof {
            let rest = all.skip(k as int);
            assert(rest.skip(1) =~= all.skip(k + 1));
            assert(rest[0] == tokens@[k as int].deep_view());
            assert(out@ + render(rest.skip(1)) =~= before + render(rest));
        }
        k += 1;
    }
    proof {
        assert(render(all.skip(k as int)) =~= Seq::<u8>::empty());
        assert(out@ + Seq::<u8>::empty() =~= out@);
    }
    out
}

} // verus!
