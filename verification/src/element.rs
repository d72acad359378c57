//! What payloads share: finding the next start tag among the tokens, the
//! end of an element without content, and the `uri` and `hash` attributes.

use vstd::prelude::*;
use vstd::slice::slice_to_vec;
use vstd::string::is_ascii;
use crate::attrs::{find_unexpected, find_value, keys_view, lookup, same_bytes, unexpected};
use crate::chars::{all_of, spec_all_of, ByteClass};
use crate::error::{MessageError, MessageErrorView, PayloadError};
use crate::names::{ascii, text_of, to_text, word_bytes};
use crate::token::{Attribute, AttributeView, Token, TokenView, XmlError};
use crate::uri::{check_uri, uri_fault};

verus! {

/// Character data that is whitespace only.
pub open spec fn is_blank(t: TokenView) -> bool {
    match t {
        TokenView::Text { content } => spec_all_of(content, ByteClass::Space),
        _ => false,
    }
}

/// The position of the first token at or after `i` that is not whitespace.
pub open spec fn skip_blank(ts: Seq<TokenView>, i: int) -> int
    decreases ts.len() - i,
{
    if 0 <= i < ts.len() && is_blank(ts[i]) {
        skip_blank(ts, i + 1)
    } else {
        i
    }
}

/// The position of the start tag that is next at `i`, whitespace aside;
/// `None` where something else is next, or nothing.
pub open spec fn next_start(ts: Seq<TokenView>, i: int) -> Option<int> {
    let j = skip_blank(ts, i);
    if 0 <= j < ts.len() && ts[j] is Start {
        Some(j)
    } else {
        None
    }
}

/// The name of the tag at `j`.
pub open spec fn name_at(ts: Seq<TokenView>, j: int) -> Seq<u8> {
    match ts[j] {
        TokenView::Start { name, .. } => name,
        TokenView::End { name } => name,
        TokenView::Text { .. } => Seq::empty(),
    }
}

/// The attributes of the start tag at `j`.
pub open spec fn attributes_of(ts: Seq<TokenView>, j: int) -> Seq<AttributeView> {
    match ts[j] {
        TokenView::Start { attributes, .. } => attributes,
        _ => Seq::empty(),
    }
}

/// Whether the start tag at `j` is its own end.
pub open spec fn is_empty_tag(ts: Seq<TokenView>, j: int) -> bool {
    match ts[j] {
        TokenView::Start { empty, .. } => empty,
        _ => false,
    }
}

/// Whether the end tag of the element `name` is next at `i`, whitespace
/// aside; if so, the position after it.
pub open spec fn end_after(ts: Seq<TokenView>, i: int, name: Seq<u8>) -> Option<int> {
    let k = skip_blank(ts, i);
    if 0 <= k < ts.len() && ts[k] == (TokenView::End { name }) {
        Some(k + 1)
    } else {
        None
    }
}

/// The position after the element that starts at `j`, where it has no
/// content: the start tag is its own end, or its end tag is next,
/// whitespace aside.
pub open spec fn element_end(ts: Seq<TokenView>, j: int) -> Option<int> {
    if is_empty_tag(ts, j) {
        Some(j + 1)
    } else {
        end_after(ts, j + 1, name_at(ts, j))
    }
}

/// A hash as payloads accept it: hexadecimal digits, at least one.
pub open spec fn hash_ok(h: Seq<u8>) -> bool {
    h.len() > 0 && spec_all_of(h, ByteClass::Hex)
}

/// The `uri` attribute, which must be there and hold an accepted URI.
pub open spec fn uri_of(attrs: Seq<AttributeView>) -> Result<Seq<u8>, MessageErrorView> {
    match lookup(attrs, ascii("uri"@)) {
        None => Err(MessageErrorView::MissingAttribute("uri"@)),
        Some(u) => match uri_fault(u) {
            Some(e) => Err(MessageErrorView::MalformedUri(e)),
            None => Ok(u),
        },
    }
}

/// The `hash` attribute, which holds an accepted hash where it is there.
pub open spec fn optional_hash_of(attrs: Seq<AttributeView>) -> Result<
    Option<Seq<u8>>,
    MessageErrorView,
> {
    match lookup(attrs, ascii("hash"@)) {
        None => Ok(None),
        Some(h) => if hash_ok(h) {
            Ok(Some(h))
        } else {
            Err(MessageErrorView::PayloadError(PayloadError::InvalidHash))
        },
    }
}

/// The `hash` attribute, which must be there and hold an accepted hash.
pub open spec fn hash_of(attrs: Seq<AttributeView>) -> Result<Seq<u8>, MessageErrorView> {
    match optional_hash_of(attrs) {
        Err(e) => Err(e),
        Ok(None) => Err(MessageErrorView::MissingAttribute("hash"@)),
        Ok(Some(h)) => Ok(h),
    }
}

/// What an optional byte string holds.
pub open spec fn opt_bytes(o: Option<Vec<u8>>) -> Option<Seq<u8>> {
    match o {
        None => None,
        Some(v) => Some(v@),
    }
}

/// Whether `t` is whitespace only.
pub fn token_is_blank(t: &Token) -> (r: bool)
    ensures
        r == is_blank(t.deep_view()),
{
    match t {
        Token::Text { content } => all_of(content.as_slice(), ByteClass::Space),
        _ => false,
    }
}

/// Passes the whitespace at `i`.
pub fn pass_blank(tokens: &Vec<Token>, i: usize) -> (j: usize)
    requires
        i <= tokens@.len(),
    ensures
        j == skip_blank(tokens.deep_view(), i as int),
        i <= j <= tokens@.len(),
{
    let mut j: usize = i;
    while j < tokens.len() && token_is_blank(&tokens[j])
        invariant
            i <= j <= tokens@.len(),
            skip_blank(tokens.deep_view(), i as int) == skip_blank(tokens.deep_view(), j as int),
        decreases tokens@.len() - j,
    {
        j += 1;
    }
    j
}

/// Finds the start tag that is next at `i`, whitespace aside.
pub fn find_start(tokens: &Vec<Token>, i: usize) -> (r: Option<usize>)
    requires
        i <= tokens@.len(),
    ensures
        match r {
            None => next_start(tokens.deep_view(), i as int) is None,
            Some(j) => next_start(tokens.deep_view(), i as int) == Some(j as int) && i <= j
                < tokens.len() && tokens@[j as int] is Start,
        },
{
    let j = pass_blank(tokens, i);
    if j < tokens.len() {
        match &tokens[j] {
            Token::Start { .. } => Some(j),
            _ => None,
        }
    } else {
        None
    }
}

/// Finds the end tag of the element `name` that is next at `i`, whitespace
/// aside, and gives the position after it.
pub fn find_end(tokens: &Vec<Token>, i: usize, name: &[u8]) -> (r: Option<usize>)
    requires
        i <= tokens@.len(),
    ensures
        match r {
            None => end_after(tokens.deep_view(), i as int, name@) is None,
            Some(end) => end_after(tokens.deep_view(), i as int, name@) == Some(end as int) && i
                < end <= tokens@.len(),
        },
{
    let k = pass_blank(tokens, i);
    if k < tokens.len() {
        match &tokens[k] {
            Token::End { name: found } => {
                if same_bytes(found.as_slice(), name) {
                    Some(k + 1)
                } else {
                    None
                }
            },
            _ => None,
        }
    } else {
        None
    }
}

/// Finds the position after the element that starts at `j`, where it has
/// no content.
pub fn find_element_end(tokens: &Vec<Token>, j: usize) -> (r: Option<usize>)
    requires
        j < tokens.len(),
        tokens@[j as int] is Start,
    ensures
        match r {
            None => element_end(tokens.deep_view(), j as int) is None,
            Some(end) => element_end(tokens.deep_view(), j as int) == Some(end as int) && j < end
                <= tokens@.len(),
        },
{
    match &tokens[j] {
        Token::Start { name, empty, .. } => {
            if *empty {
                Some(j + 1)
            } else {
                find_end(tokens, j + 1, name.as_slice())
            }
        },
        _ => None,
    }
}

/// Reads the `uri` attribute.
pub fn read_uri(attrs: &Vec<Attribute>) -> (r: Result<Vec<u8>, MessageError>)
    ensures
        match r {
            Ok(u) => uri_of(attrs.deep_view()) == Ok::<Seq<u8>, MessageErrorView>(u@),
            Err(e) => uri_of(attrs.deep_view()) == Err::<Seq<u8>, MessageErrorView>(e@),
        },
{
    proof {
        reveal_strlit("uri");
    }
    let key = word_bytes("uri");
    match find_value(attrs, key.as_slice()) {
        None => Err(MessageError::MissingAttribute("uri".to_owned())),
        Some(u) => match check_uri(u.as_slice()) {
            Some(e) => Err(MessageError::MalformedUri(e)),
            None => Ok(u),
        },
    }
}

/// Reads the `hash` attribute, where it is there.
pub fn read_optional_hash(attrs: &Vec<Attribute>) -> (r: Result<Option<Vec<u8>>, MessageError>)
    ensures
        match r {
            Ok(h) => optional_hash_of(attrs.deep_view()) == Ok::<
                Option<Seq<u8>>,
                MessageErrorView,
            >(opt_bytes(h)),
            Err(e) => optional_hash_of(attrs.deep_view()) == Err::<
                Option<Seq<u8>>,
                MessageErrorView,
            >(e@),
        },
{
    proof {
        reveal_strlit("hash");
    }
    let key = word_bytes("hash");
    match find_value(attrs, key.as_slice()) {
        None => Ok(None),
        Some(h) => {
            if h.len() > 0 && all_of(h.as_slice(), ByteClass::Hex) {
                Ok(Some(h))
            } else {
                Err(MessageError::PayloadError(PayloadError::InvalidHash))
            }
        },
    }
}

/// Reads the `hash` attribute, which must be there.
pub fn read_hash(attrs: &Vec<Attribute>) -> (r: Result<Vec<u8>, MessageError>)
    ensures
        match r {
            Ok(h) => hash_of(attrs.deep_view()) == Ok::<Seq<u8>, MessageErrorView>(h@),
            Err(e) => hash_of(attrs.deep_view()) == Err::<Seq<u8>, MessageErrorView>(e@),
        },
{
    proof {
        reveal_strlit("hash");
    }
    match read_optional_hash(attrs) {
        Err(e) => Err(e),
        Ok(None) => Err(MessageError::MissingAttribute("hash".to_owned())),
        Ok(Some(h)) => Ok(h),
    }
}

/// `skip_blank` stops at or after where it began, inside the tokens.
pub proof fn lemma_skip_blank_bounds(ts: Seq<TokenView>, i: int)
    requires
        0 <= i <= ts.len(),
    ensures
        i <= skip_blank(ts, i) <= ts.len(),
    decreases ts.len() - i,
{
    if i < ts.len() && is_blank(ts[i]) {
        lemma_skip_blank_bounds(ts, i + 1);
    }
}

/// An element without content ends after it began, inside the tokens.
pub proof fn lemma_element_end_bounds(ts: Seq<TokenView>, j: int)
    requires
        0 <= j < ts.len(),
    ensures
        element_end(ts, j) matches Some(end) ==> j < end <= ts.len(),
{
    lemma_skip_blank_bounds(ts, j + 1);
}

/// The position after the element that starts at `j`, where it has neither
/// attributes of its own nor content.
pub open spec fn bare_element_at(ts: Seq<TokenView>, j: int) -> Result<int, MessageErrorView> {
    match unexpected(attributes_of(ts, j), Seq::empty()) {
        Some(n) => Err(MessageErrorView::UnexpectedAttribute(text_of(n))),
        None => match element_end(ts, j) {
            None => Err(MessageErrorView::MalformedXml(XmlError::ExpectedEnd)),
            Some(end) => Ok(end),
        },
    }
}

/// Reads the element that starts at `j`, which has neither attributes of
/// its own nor content, and gives the position after it.
pub fn read_bare_element(tokens: &Vec<Token>, j: usize) -> (r: Result<usize, MessageError>)
    requires
        j < tokens.len(),
        tokens@[j as int] is Start,
    ensures
        match r {
            Ok(end) => bare_element_at(tokens.deep_view(), j as int) == Ok::<
                int,
                MessageErrorView,
            >(end as int) && j < end <= tokens@.len(),
            Err(e) => bare_element_at(tokens.deep_view(), j as int) == Err::<
                int,
                MessageErrorView,
            >(e@),
        },
{
    match &tokens[j] {
        Token::Start { attributes, .. } => {
            let keys: Vec<Vec<u8>> = Vec::new();
            proof {
                assert(keys_view(keys@) =~= Seq::empty());
            }
            match find_unexpected(attributes, &keys) {
                Some(n) => Err(MessageError::UnexpectedAttribute(to_text(n.as_slice()))),
                None => match find_element_end(tokens, j) {
                    None => Err(MessageError::MalformedXml(XmlError::ExpectedEnd)),
                    Some(end) => Ok(end),
                },
            }
        },
        _ => Err(MessageError::MalformedXml(XmlError::ExpectedEnd)),
    }
}

/// The attribute `name` with the value `value`.
pub open spec fn attribute(name: Seq<char>, value: Seq<u8>) -> AttributeView {
    AttributeView { name: ascii(name), value }
}

/// The attribute `name` where it has a value, and no attribute where it
/// has none.
pub open spec fn optional_attribute(name: Seq<char>, value: Option<Seq<u8>>) -> Seq<
    AttributeView,
> {
    match value {
        None => Seq::empty(),
        Some(v) => seq![attribute(name, v)],
    }
}

/// The start tag of the element `name`; `empty` where it is its own end.
pub open spec fn start_tag(
    name: Seq<char>,
    attributes: Seq<AttributeView>,
    empty: bool,
) -> TokenView {
    TokenView::Start { name: ascii(name), attributes, empty }
}

/// The end tag of the element `name`.
pub open spec fn end_tag(name: Seq<char>) -> TokenView {
    TokenView::End { name: ascii(name) }
}

/// Appends the attribute `name` with the value `value` to `attrs`.
pub fn push_attribute(attrs: &mut Vec<Attribute>, name: &str, value: &[u8])
    requires
        is_ascii(name),
    ensures
        final(attrs).deep_view() == old(attrs).deep_view() + seq![attribute(name@, value@)],
{
    let ghost before = attrs.deep_view();
    let a = Attribute { name: word_bytes(name), value: slice_to_vec(value) };
    attrs.push(a);
    proof {
        assert(attrs.deep_view() =~= before + seq![attribute(name@, value@)]);
    }
}

/// Appends the attribute `name` to `attrs` where it has a value.
pub fn push_optional_attribute(attrs: &mut Vec<Attribute>, name: &str, value: &Option<Vec<u8>>)
    requires
        is_ascii(name),
    ensures
        final(attrs).deep_view() == old(attrs).deep_view() + optional_attribute(
            name@,
            opt_bytes(*value),
        ),
{
    match value {
        None => {
            proof {
                assert(attrs.deep_view() + Seq::<AttributeView>::empty() =~= attrs.deep_view());
            }
        },
        Some(v) => {
            push_attribute(attrs, name, v.as_slice());
        },
    }
}

/// Appends the start tag of the element `name` to `out`.
pub fn push_start(out: &mut Vec<Token>, name: &str, attributes: Vec<Attribute>, empty: bool)
    requires
        is_ascii(name),
    ensures
        final(out).deep_view() == old(out).deep_view() + seq![
            start_tag(name@, attributes.deep_view(), empty),
        ],
{
    let ghost before = out.deep_view();
    let t = Token::Start { name: word_bytes(name), attributes, empty };
    let ghost tv = t.deep_view();
    out.push(t);
    proof {
        assert(out.deep_view() =~= before + seq![tv]);
    }
}

/// Appends the end tag of the element `name` to `out`.
pub fn push_end(out: &mut Vec<Token>, name: &str)
    requires
        is_ascii(name),
    ensures
        final(out).deep_view() == old(out).deep_view() + seq![end_tag(name@)],
{
    let ghost before = out.deep_view();
    let t = Token::End { name: word_bytes(name) };
    let ghost tv = t.deep_view();
    out.push(t);
    proof {
        assert(out.deep_view() =~= before + seq![tv]);
    }
}

/// Appends character data to `out`.
pub fn push_text(out: &mut Vec<Token>, content: &[u8])
    ensures
        final(out).deep_view() == old(out).deep_view() + seq![
            TokenView::Text { content: content@ },
        ],
{
    let ghost before = out.deep_view();
    let t = Token::Text { content: slice_to_vec(content) };
    let ghost tv = t.deep_view();
    out.push(t);
    proof {
        assert(out.deep_view() =~= before + seq![tv]);
    }
}

/// Whether `h` is a hash as payloads accept it.
pub fn check_hash(h: &[u8]) -> (r: bool)
    ensures
        r == hash_ok(h@),
{
    h.len() > 0 && all_of(h, ByteClass::Hex)
}

} // verus!
