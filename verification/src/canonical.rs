//! Reading back what was written: the tokens that the writer puts out are
//! the tokens that the reader finds.

use vstd::prelude::*;
use crate::chars::{
    lemma_run_end_bounds, lemma_run_end_is, run_end, spec_in_class, spec_is_name_byte,
    spec_is_name_start, ByteClass, EQUALS, GT, LT, QUOT, SLASH, SPACE,
};
use crate::escape::{
    escape, has_at, lemma_escape_is_plain, lemma_escape_len, lemma_unescape_escape, unescape,
};
use crate::names::{ascii, text_of};
use crate::stand::{lemma_stands_item, lemma_stands_split, stands_at};
use crate::token::{
    aside_at, attribute_at, attributes_at, comment_open, instruction_open, lemma_aside_at_bounds,
    lemma_attribute_at_bounds, lemma_token_at_bounds, name_end, token_at, tokenize, tokens_at,
    AttributeView, TokenView, XmlError,
};
use crate::writer::{render, render_attribute, render_attributes, render_close, render_token};

verus! {

/// A name: a name start, then name bytes.
pub open spec fn is_name(n: Seq<u8>) -> bool {
    &&& n.len() > 0
    &&& spec_is_name_start(n[0])
    &&& forall|k: int| 0 <= k < n.len() ==> spec_is_name_byte(#[trigger] n[k])
}

/// Every attribute has a name.
pub open spec fn attributes_well_formed(attrs: Seq<AttributeView>) -> bool {
    forall|k: int| 0 <= k < attrs.len() ==> is_name((#[trigger] attrs[k]).name)
}

/// A token that reads back as it was written: tags and attributes have
/// names, and character data is not empty.
pub open spec fn token_well_formed(t: TokenView) -> bool {
    match t {
        TokenView::Start { name, attributes, empty } => is_name(name) && attributes_well_formed(
            attributes,
        ),
        TokenView::End { name } => is_name(name),
        TokenView::Text { content } => content.len() > 0,
    }
}

/// A sequence of tokens that reads back as it was written: each token
/// does, and no character data follows character data.
pub open spec fn tokens_well_formed(tokens: Seq<TokenView>) -> bool {
    forall|k: int|
        0 <= k < tokens.len() ==> {
            &&& token_well_formed(#[trigger] tokens[k])
            &&& (tokens[k] is Text && k + 1 < tokens.len() ==> !(tokens[k + 1] is Text))
        }
}

/// A name that stands before a byte that cannot continue it, or at the
/// end, is the name that the reader finds there.
proof fn lemma_name_stands(s: Seq<u8>, i: int, name: Seq<u8>)
    requires
        stands_at(s, i, name),
        is_name(name),
        i + name.len() < s.len() ==> !spec_is_name_byte(s[i + name.len()]),
    ensures
        name_end(s, i) == i + name.len(),
{
    lemma_stands_item(s, i, name, 0);
    assert forall|k: int| i + 1 <= k < i + name.len() implies spec_is_name_byte(
        #[trigger] s[k],
    ) by {
        lemma_stands_item(s, i, name, k - i);
    }
    lemma_run_end_is(s, i + 1, i + name.len(), ByteClass::Name);
}

/// An attribute as it is written, wherever it stands, is the attribute
/// that the reader finds there.
proof fn lemma_attribute_stands(s: Seq<u8>, i: int, a: AttributeView)
    requires
        stands_at(s, i, render_attribute(a)),
        is_name(a.name),
    ensures
        attribute_at(s, i) == Ok::<(AttributeView, int), XmlError>(
            (a, i + render_attribute(a).len()),
        ),
{
    let mark = seq![EQUALS, QUOT];
    let value = escape(a.value);
    let close = seq![QUOT];
    let n = i + a.name.len();
    lemma_stands_split(s, i, a.name, mark + (value + close));
    lemma_stands_split(s, n, mark, value + close);
    lemma_stands_split(s, n + 2, value, close);
    let v = n + 2 + value.len();
    lemma_stands_item(s, n, mark, 0);
    lemma_stands_item(s, n, mark, 1);
    lemma_stands_item(s, v, close, 0);
    lemma_name_stands(s, i, a.name);
    assert(run_end(s, n, ByteClass::Space) == n);
    assert(run_end(s, n + 1, ByteClass::Space) == n + 1);
    lemma_escape_is_plain(a.value);
    assert forall|k: int| n + 2 <= k < v implies spec_in_class(
        ByteClass::Quoted(QUOT),
        #[trigger] s[k],
    ) by {
        lemma_stands_item(s, n + 2, value, k - (n + 2));
    }
    lemma_run_end_is(s, n + 2, v, ByteClass::Quoted(QUOT));
    lemma_unescape_escape(s, n + 2, v, a.value);
}

/// Attributes as they are written, wherever they stand before `>` or `/`,
/// are the attributes that the reader finds there.
proof fn lemma_attributes_stand(s: Seq<u8>, i: int, attrs: Seq<AttributeView>)
    requires
        stands_at(s, i, render_attributes(attrs)),
        attributes_well_formed(attrs),
        i + render_attributes(attrs).len() < s.len(),
        s[i + render_attributes(attrs).len()] == GT || s[i + render_attributes(attrs).len()]
            == SLASH,
    ensures
        attributes_at(s, i) == Ok::<(Seq<AttributeView>, int), XmlError>(
            (attrs, i + render_attributes(attrs).len()),
        ),
    decreases attrs.len(),
{
    if attrs.len() == 0 {
        assert(run_end(s, i, ByteClass::Space) == i);
        assert(attrs =~= Seq::empty());
    } else {
        let first = render_attribute(attrs[0]);
        let rest = attrs.skip(1);
        lemma_stands_split(s, i, seq![SPACE], first + render_attributes(rest));
        lemma_stands_split(s, i + 1, first, render_attributes(rest));
        lemma_stands_item(s, i, seq![SPACE], 0);
        assert(attrs[0].name + first.skip(attrs[0].name.len() as int) =~= first);
        lemma_stands_split(s, i + 1, attrs[0].name, first.skip(attrs[0].name.len() as int));
        lemma_stands_item(s, i + 1, attrs[0].name, 0);
        lemma_run_end_is(s, i, i + 1, ByteClass::Space);
        lemma_attribute_stands(s, i + 1, attrs[0]);
        let j = i + 1 + first.len();
        assert(attributes_well_formed(rest)) by {
            assert forall|k: int| 0 <= k < rest.len() implies is_name(
                (#[trigger] rest[k]).name,
            ) by {
                assert(rest[k] == attrs[k + 1]);
            }
        }
        lemma_attributes_stand(s, j, rest);
        assert(seq![attrs[0]] + rest =~= attrs);
    }
}

/// A token as it is written, wherever it stands, is the token that the
/// reader finds there; character data must stand before `<` or at the end.
proof fn lemma_token_stands(s: Seq<u8>, i: int, t: TokenView)
    requires
        stands_at(s, i, render_token(t)),
        token_well_formed(t),
        t is Text ==> i + render_token(t).len() == s.len() || s[i + render_token(t).len()] == LT,
    ensures
        token_at(s, i) == Ok::<(TokenView, int), XmlError>((t, i + render_token(t).len())),
        render_token(t).len() > 0,
        aside_at(s, i) is None,
{
    if has_at(s, i, s.len() as int, instruction_open()) {
        assert(s.subrange(i, i + 2)[0] == s[i]);
        assert(s.subrange(i, i + 2)[1] == s[i + 1]);
    }
    if has_at(s, i, s.len() as int, comment_open()) {
        assert(s.subrange(i, i + 4)[0] == s[i]);
        assert(s.subrange(i, i + 4)[1] == s[i + 1]);
    }
    match t {
        TokenView::Text { content } => {
            let text = escape(content);
            let end = i + text.len();
            lemma_escape_len(content);
            lemma_escape_is_plain(content);
            lemma_stands_item(s, i, text, 0);
            assert forall|k: int| i <= k < end implies spec_in_class(
                ByteClass::Text,
                #[trigger] s[k],
            ) by {
                lemma_stands_item(s, i, text, k - i);
            }
            lemma_run_end_is(s, i, end, ByteClass::Text);
            lemma_unescape_escape(s, i, end, content);
        },
        TokenView::End { name } => {
            let open = seq![LT, SLASH];
            lemma_stands_split(s, i, open, name + seq![GT]);
            lemma_stands_split(s, i + 2, name, seq![GT]);
            lemma_stands_item(s, i, open, 0);
            lemma_stands_item(s, i, open, 1);
            let n = i + 2 + name.len();
            lemma_stands_item(s, n, seq![GT], 0);
            lemma_name_stands(s, i + 2, name);
            assert(run_end(s, n, ByteClass::Space) == n);
        },
        TokenView::Start { name, attributes, empty } => {
            let attrs = render_attributes(attributes);
            let close = render_close(empty);
            lemma_stands_split(s, i, seq![LT], name + (attrs + close));
            lemma_stands_split(s, i + 1, name, attrs + close);
            let n = i + 1 + name.len();
            lemma_stands_split(s, n, attrs, close);
            let k = n + attrs.len();
            lemma_stands_item(s, i, seq![LT], 0);
            lemma_stands_item(s, i + 1, name, 0);
            lemma_stands_item(s, k, close, 0);
            if empty {
                lemma_stands_item(s, k, close, 1);
            }
            if attributes.len() > 0 {
                lemma_stands_item(s, n, attrs, 0);
            }
            lemma_name_stands(s, i + 1, name);
            lemma_attributes_stand(s, n, attributes);
        },
    }
}

/// Tokens as they are written, where they stand up to the end, are the
/// tokens that the reader finds from there on.
proof fn lemma_tokens_stand(s: Seq<u8>, i: int, tokens: Seq<TokenView>)
    requires
        0 <= i <= s.len(),
        s.subrange(i, s.len() as int) == render(tokens),
        tokens_well_formed(tokens),
    ensures
        tokens_at(s, i) == Ok::<Seq<TokenView>, XmlError>(tokens),
    decreases tokens.len(),
{
    if tokens.len() == 0 {
        assert(s.subrange(i, s.len() as int).len() == 0);
        assert(tokens =~= Seq::empty());
    } else {
        let first = render_token(tokens[0]);
        let rest = tokens.skip(1);
        assert(stands_at(s, i, first + render(rest)));
        lemma_stands_split(s, i, first, render(rest));
        let j = i + first.len();
        assert(token_well_formed(tokens[0]));
        if rest.len() > 0 {
            assert(rest[0] == tokens[1]);
            assert(token_well_formed(tokens[1]));
            let next = render_token(rest[0]);
            lemma_stands_split(s, j, next, render(rest.skip(1)));
            if tokens[0] is Text {
                assert(!(tokens[1] is Text));
                lemma_stands_item(s, j, next, 0);
            }
        }
        lemma_token_stands(s, i, tokens[0]);
        assert(tokens_well_formed(rest)) by {
            assert forall|k: int| 0 <= k < rest.len() implies {
                &&& token_well_formed(#[trigger] rest[k])
                &&& (rest[k] is Text && k + 1 < rest.len() ==> !(rest[k + 1] is Text))
            } by {
                assert(rest[k] == tokens[k + 1]);
                if k + 1 < rest.len() {
                    assert(rest[k + 1] == tokens[k + 2]);
                }
            }
        }
        assert(s.subrange(j, s.len() as int) =~= s.subrange(j, j + render(rest).len()));
        lemma_tokens_stand(s, j, rest);
        assert(seq![tokens[0]] + rest =~= tokens);
    }
}

/// Reading what the writer wrote gives back the tokens that were written,
/// for every well-formed sequence of tokens.
pub proof fn lemma_tokenize_render(tokens: Seq<TokenView>)
    requires
        tokens_well_formed(tokens),
    ensures
        tokenize(render(tokens)) == Ok::<Seq<TokenView>, XmlError>(tokens),
{
    let s = render(tokens);
    assert(s.subrange(0, s.len() as int) =~= s);
    lemma_tokens_stand(s, 0, tokens);
}

/// Every token of `tokens` is well formed.
pub open spec fn each_well_formed(tokens: Seq<TokenView>) -> bool {
    forall|k: int| 0 <= k < tokens.len() ==> token_well_formed(#[trigger] tokens[k])
}

/// The name that the reader finds is a name.
proof fn lemma_name_found(s: Seq<u8>, i: int)
    requires
        0 <= i <= s.len(),
        name_end(s, i) != i,
    ensures
        is_name(s.subrange(i, name_end(s, i))),
        i < name_end(s, i) <= s.len(),
{
    lemma_run_end_bounds(s, i + 1, ByteClass::Name);
    let name = s.subrange(i, name_end(s, i));
    assert forall|k: int| 0 <= k < name.len() implies spec_is_name_byte(#[trigger] name[k]) by {
        assert(name[k] == s[i + k]);
    }
}

/// The attributes that the reader finds have names.
proof fn lemma_attributes_found(s: Seq<u8>, i: int)
    requires
        0 <= i <= s.len(),
    ensures
        attributes_at(s, i) matches Ok((attrs, _)) ==> attributes_well_formed(attrs),
    decreases s.len() - i,
{
    lemma_run_end_bounds(s, i, ByteClass::Space);
    let k = run_end(s, i, ByteClass::Space);
    if k < s.len() && !(s[k] == GT || s[k] == SLASH) && k != i {
        lemma_attribute_at_bounds(s, k);
        if let Ok((a, j)) = attribute_at(s, k) {
            lemma_name_found(s, k);
            lemma_attributes_found(s, j);
            if let Ok((rest, end)) = attributes_at(s, j) {
                let attrs = seq![a] + rest;
                assert forall|n: int| 0 <= n < attrs.len() implies is_name(
                    (#[trigger] attrs[n]).name,
                ) by {
                    if n > 0 {
                        assert(attrs[n] == rest[n - 1]);
                    }
                }
            }
        }
    }
}

/// What stands escaped in a stretch that is not empty is not empty.
proof fn lemma_unescape_some(s: Seq<u8>, i: int, j: int)
    requires
        0 <= i < j <= s.len(),
    ensures
        unescape(s, i, j) matches Some(v) ==> v.len() > 0,
{
}

/// The token that the reader finds is well formed.
proof fn lemma_token_found(s: Seq<u8>, i: int)
    requires
        0 <= i < s.len(),
    ensures
        token_at(s, i) matches Ok((t, _)) ==> token_well_formed(t),
{
    if s[i] != LT {
        lemma_run_end_bounds(s, i, ByteClass::Text);
        lemma_unescape_some(s, i, run_end(s, i, ByteClass::Text));
    } else if i + 1 < s.len() && s[i + 1] == SLASH {
        if name_end(s, i + 2) != i + 2 {
            lemma_name_found(s, i + 2);
        }
    } else {
        if name_end(s, i + 1) != i + 1 {
            lemma_name_found(s, i + 1);
            lemma_attributes_found(s, name_end(s, i + 1));
        }
    }
}

/// The tokens that the reader finds from `i` on are well formed.
proof fn lemma_tokens_found(s: Seq<u8>, i: int)
    requires
        0 <= i,
    ensures
        tokens_at(s, i) matches Ok(tokens) ==> each_well_formed(tokens),
    decreases s.len() - i,
{
    if i < s.len() {
        match aside_at(s, i) {
            Some(Err(_)) => {},
            Some(Ok(j)) => {
                lemma_aside_at_bounds(s, i);
                lemma_tokens_found(s, j);
            },
            None => {
                if let Ok((t, j)) = token_at(s, i) {
                    lemma_token_at_bounds(s, i);
                    lemma_token_found(s, i);
                    lemma_tokens_found(s, j);
                    if let Ok(rest) = tokens_at(s, j) {
                        let tokens = seq![t] + rest;
                        assert forall|n: int| 0 <= n < tokens.len() implies token_well_formed(
                            #[trigger] tokens[n],
                        ) by {
                            if n > 0 {
                                assert(tokens[n] == rest[n - 1]);
                            }
                        }
                    }
                }
            },
        }
    }
}

/// The tokens that the reader finds in a document are well formed: tags
/// and attributes have names, and character data is not empty.
pub proof fn lemma_tokenize_well_formed(s: Seq<u8>)
    ensures
        tokenize(s) matches Ok(tokens) ==> each_well_formed(tokens),
{
    lemma_tokens_found(s, 0);
}

/// The text that stands for a name spells the name.
pub proof fn lemma_name_text(name: Seq<u8>)
    requires
        is_name(name),
    ensures
        ascii(text_of(name)) == name,
{
    assert forall|k: int| 0 <= k < name.len() implies ascii(text_of(name))[k] == name[k] by {
        assert(spec_is_name_byte(name[k]));
    }
    assert(ascii(text_of(name)) =~= name);
}

} // verus!
