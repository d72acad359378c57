//! The payloads of queries: the list query, and the query that publishes
//! and withdraws objects.

use vstd::prelude::*;
use vstd::slice::slice_to_vec;
use crate::attrs::{find_unexpected, find_value, keys_view, lookup, same_bytes, unexpected};
use crate::chars::{all_of, spec_all_of, ByteClass};
use crate::element::{
    attribute, attributes_of, bare_element_at, check_hash, element_end, end_tag, find_element_end,
    find_start, hash_of, hash_ok, is_empty_tag, lemma_element_end_bounds, lemma_skip_blank_bounds,
    name_at, next_start, opt_bytes, optional_attribute, optional_hash_of, push_attribute, push_end,
    push_optional_attribute, push_start, push_text, read_bare_element, read_hash,
    read_optional_hash, read_uri, start_tag, uri_of,
};
use crate::error::{MessageError, MessageErrorView, PayloadError};
use crate::names::{ascii, is_word, text_of, to_text, word_bytes};
use crate::token::{Attribute, AttributeView, Token, TokenView, XmlError};
use crate::uri::{check_uri, uri_fault};

verus! {

/// The list query: it asks for everything that the client has published.
#[derive(Clone, Copy, Debug, PartialEq, Eq)]
pub struct ListQuery {}

/// One object to publish. `hash` is the hash of the object that this one
/// replaces, where it replaces one. `content` is the object in base64, as
/// it stands in the document.
#[derive(Clone, Debug, PartialEq, Eq)]
pub struct Publish {
    pub tag: Option<Vec<u8>>,
    pub uri: Vec<u8>,
    pub hash: Option<Vec<u8>>,
    pub content: Vec<u8>,
}

/// One object to withdraw, with its hash.
#[derive(Clone, Debug, PartialEq, Eq)]
pub struct Withdraw {
    pub tag: Option<Vec<u8>>,
    pub uri: Vec<u8>,
    pub hash: Vec<u8>,
}

/// One element of a publish query.
#[derive(Clone, Debug, PartialEq, Eq)]
pub enum PublishElement {
    Publish(Publish),
    Withdraw(Withdraw),
}

/// The query that publishes and withdraws objects, in the order of its
/// elements.
#[derive(Clone, Debug, PartialEq, Eq)]
pub struct PublishQuery {
    pub elements: Vec<PublishElement>,
}

/// What a `publish` element holds.
pub struct PublishView {
    pub tag: Option<Seq<u8>>,
    pub uri: Seq<u8>,
    pub hash: Option<Seq<u8>>,
    pub content: Seq<u8>,
}

/// What a `withdraw` element holds.
pub struct WithdrawView {
    pub tag: Option<Seq<u8>>,
    pub uri: Seq<u8>,
    pub hash: Seq<u8>,
}

/// What an element of a publish query holds.
pub enum PublishElementView {
    Publish(PublishView),
    Withdraw(WithdrawView),
}

impl DeepView for Publish {
    type V = PublishView;

    open spec fn deep_view(&self) -> PublishView {
        PublishView {
            tag: opt_bytes(self.tag),
            uri: self.uri@,
            hash: opt_bytes(self.hash),
            content: self.content@,
        }
    }
}

impl DeepView for Withdraw {
    type V = WithdrawView;

    open spec fn deep_view(&self) -> WithdrawView {
        WithdrawView { tag: opt_bytes(self.tag), uri: self.uri@, hash: self.hash@ }
    }
}

impl DeepView for PublishElement {
    type V = PublishElementView;

    open spec fn deep_view(&self) -> PublishElementView {
        match self {
            PublishElement::Publish(p) => PublishElementView::Publish(p.deep_view()),
            PublishElement::Withdraw(w) => PublishElementView::Withdraw(w.deep_view()),
        }
    }
}

impl DeepView for PublishQuery {
    type V = Seq<PublishElementView>;

    open spec fn deep_view(&self) -> Seq<PublishElementView> {
        self.elements.deep_view()
    }
}

/// The names of the attributes that a `publish` or `withdraw` element may
/// have.
pub open spec fn publish_keys() -> Seq<Seq<u8>> {
    seq![ascii("tag"@), ascii("uri"@), ascii("hash"@)]
}

/// The content of the element that starts at `j`, and the position after
/// the element: nothing where the start tag is its own end or the end tag
/// follows at once, else the character data before the end tag.
pub open spec fn content_at(ts: Seq<TokenView>, j: int) -> Option<(Seq<u8>, int)> {
    let end = TokenView::End { name: name_at(ts, j) };
    if is_empty_tag(ts, j) {
        Some((Seq::empty(), j + 1))
    } else if j + 1 < ts.len() && ts[j + 1] == end {
        Some((Seq::empty(), j + 2))
    } else if j + 2 < ts.len() && ts[j + 2] == end {
        match ts[j + 1] {
            TokenView::Text { content } => Some((content, j + 3)),
            _ => None,
        }
    } else {
        None
    }
}

/// The `publish` element that starts at `j`, and the position after it.
pub open spec fn publish_at(ts: Seq<TokenView>, j: int) -> Result<
    (PublishView, int),
    MessageErrorView,
> {
    let attrs = attributes_of(ts, j);
    match uri_of(attrs) {
        Err(e) => Err(e),
        Ok(uri) => match optional_hash_of(attrs) {
            Err(e) => Err(e),
            Ok(hash) => match unexpected(attrs, publish_keys()) {
                Some(n) => Err(MessageErrorView::UnexpectedAttribute(text_of(n))),
                None => match content_at(ts, j) {
                    None => Err(MessageErrorView::MalformedXml(XmlError::ExpectedEnd)),
                    Some((content, end)) => if spec_all_of(content, ByteClass::Base64) {
                        Ok(
                            (
                                PublishView {
                                    tag: lookup(attrs, ascii("tag"@)),
                                    uri,
                                    hash,
                                    content,
                                },
                                end,
                            ),
                        )
                    } else {
                        Err(MessageErrorView::PayloadError(PayloadError::InvalidContent))
                    },
                },
            },
        },
    }
}

/// The `withdraw` element that starts at `j`, and the position after it.
pub open spec fn withdraw_at(ts: Seq<TokenView>, j: int) -> Result<
    (WithdrawView, int),
    MessageErrorView,
> {
    let attrs = attributes_of(ts, j);
    match uri_of(attrs) {
        Err(e) => Err(e),
        Ok(uri) => match hash_of(attrs) {
            Err(e) => Err(e),
            Ok(hash) => match unexpected(attrs, publish_keys()) {
                Some(n) => Err(MessageErrorView::UnexpectedAttribute(text_of(n))),
                None => match element_end(ts, j) {
                    None => Err(MessageErrorView::MalformedXml(XmlError::ExpectedEnd)),
                    Some(end) => Ok(
                        (WithdrawView { tag: lookup(attrs, ascii("tag"@)), uri, hash }, end),
                    ),
                },
            },
        },
    }
}

/// Whether `name` is the name of an element of a publish query.
pub open spec fn is_publish_name(name: Seq<u8>) -> bool {
    name == ascii("publish"@) || name == ascii("withdraw"@)
}

/// The element of a publish query that starts at `j`, and the position
/// after it: a `publish` element where that is the name, else a `withdraw`
/// element.
pub open spec fn publish_element_at(ts: Seq<TokenView>, j: int) -> Result<
    (PublishElementView, int),
    MessageErrorView,
> {
    if name_at(ts, j) == ascii("publish"@) {
        match publish_at(ts, j) {
            Err(e) => Err(e),
            Ok((p, end)) => Ok((PublishElementView::Publish(p), end)),
        }
    } else {
        match withdraw_at(ts, j) {
            Err(e) => Err(e),
            Ok((w, end)) => Ok((PublishElementView::Withdraw(w), end)),
        }
    }
}

/// An element of a publish query ends after it began, inside the tokens.
pub proof fn lemma_publish_element_bounds(ts: Seq<TokenView>, j: int)
    requires
        0 <= j < ts.len(),
    ensures
        publish_element_at(ts, j) matches Ok((_, end)) ==> j < end <= ts.len(),
{
    lemma_element_end_bounds(ts, j);
}

/// The position of the start tag of the next element of a publish query at
/// `i`, whitespace aside; `None` where something else is next.
pub open spec fn next_publish_element(ts: Seq<TokenView>, i: int) -> Option<int> {
    match next_start(ts, i) {
        Some(k) => if is_publish_name(name_at(ts, k)) {
            Some(k)
        } else {
            None
        },
        None => None,
    }
}

/// The elements of the publish query whose first element starts at `j`,
/// and the position after the last: one element, and then every `publish`
/// or `withdraw` element that follows, whitespace aside.
pub open spec fn publish_query_at(ts: Seq<TokenView>, j: int) -> Result<
    (Seq<PublishElementView>, int),
    MessageErrorView,
>
    decreases ts.len() - j,
    when 0 <= j < ts.len()
{
    match publish_element_at(ts, j) {
        Err(e) => Err(e),
        Ok((first, end)) => {
            proof {
                lemma_publish_element_bounds(ts, j);
                lemma_skip_blank_bounds(ts, end);
            }
            match next_publish_element(ts, end) {
                None => Ok((seq![first], end)),
                Some(k) => match publish_query_at(ts, k) {
                    Err(e) => Err(e),
                    Ok((rest, last)) => Ok((seq![first] + rest, last)),
                },
            }
        },
    }
}

/// `found` with `pre` put before the elements it holds.
pub open spec fn after_elements(
    pre: Seq<PublishElementView>,
    found: Result<(Seq<PublishElementView>, int), MessageErrorView>,
) -> Result<(Seq<PublishElementView>, int), MessageErrorView> {
    match found {
        Err(e) => Err(e),
        Ok((rest, last)) => Ok((pre + rest, last)),
    }
}

/// Whether `t` is the end tag of the element `name`.
pub fn is_end_tag(t: &Token, name: &[u8]) -> (r: bool)
    ensures
        r == (t.deep_view() == TokenView::End { name: name@ }),
{
    match t {
        Token::End { name: found } => same_bytes(found.as_slice(), name),
        _ => false,
    }
}

/// The names of the attributes that a `publish` or `withdraw` element may
/// have.
pub fn publish_key_list() -> (keys: Vec<Vec<u8>>)
    ensures
        keys_view(keys@) == publish_keys(),
{
    proof {
        reveal_strlit("tag");
        reveal_strlit("uri");
        reveal_strlit("hash");
    }
    let mut keys: Vec<Vec<u8>> = Vec::new();
    keys.push(word_bytes("tag"));
    keys.push(word_bytes("uri"));
    keys.push(word_bytes("hash"));
    proof {
        assert(keys_view(keys@) =~= publish_keys());
    }
    keys
}

/// Reads the `tag` attribute, where it is there.
pub fn read_tag(attrs: &Vec<Attribute>) -> (r: Option<Vec<u8>>)
    ensures
        opt_bytes(r) == lookup(attrs.deep_view(), ascii("tag"@)),
{
    proof {
        reveal_strlit("tag");
    }
    let key = word_bytes("tag");
    find_value(attrs, key.as_slice())
}

/// Reads the content of the element that starts at `j`.
pub fn read_content(tokens: &Vec<Token>, j: usize) -> (r: Option<(Vec<u8>, usize)>)
    requires
        j < tokens.len(),
        tokens@[j as int] is Start,
    ensures
        match r {
            None => content_at(tokens.deep_view(), j as int) is None,
            Some((content, end)) => content_at(tokens.deep_view(), j as int) == Some(
                (content@, end as int),
            ) && j < end <= tokens@.len(),
        },
{
    match &tokens[j] {
        Token::Start { name, empty, .. } => {
            if *empty {
                Some((Vec::new(), j + 1))
            } else if j + 1 >= tokens.len() {
                None
            } else if is_end_tag(&tokens[j + 1], name.as_slice()) {
                Some((Vec::new(), j + 2))
            } else if j + 2 < tokens.len() && is_end_tag(&tokens[j + 2], name.as_slice()) {
                match &tokens[j + 1] {
                    Token::Text { content } => Some((slice_to_vec(content.as_slice()), j + 3)),
                    _ => None,
                }
            } else {
                None
            }
        },
        _ => None,
    }
}

impl ListQuery {
    /// Reads the list query whose element starts at `j`, and gives the
    /// position after it.
    pub fn decode(tokens: &Vec<Token>, j: usize) -> (r: Result<(ListQuery, usize), MessageError>)
        requires
            j < tokens.len(),
            tokens@[j as int] is Start,
        ensures
            match r {
                Ok((_, end)) => bare_element_at(tokens.deep_view(), j as int) == Ok::<
                    int,
                    MessageErrorView,
                >(end as int) && j < end <= tokens@.len(),
                Err(e) => bare_element_at(tokens.deep_view(), j as int) == Err::<
                    int,
                    MessageErrorView,
                >(e@),
            },
    {
        match read_bare_element(tokens, j) {
            Err(e) => Err(e),
            Ok(end) => Ok((ListQuery {  }, end)),
        }
    }
}

impl Publish {
    /// Reads the `publish` element that starts at `j`, and gives the
    /// position after it.
    pub fn decode(tokens: &Vec<Token>, j: usize) -> (r: Result<(Publish, usize), MessageError>)
        requires
            j < tokens.len(),
            tokens@[j as int] is Start,
        ensures
            match r {
                Ok((p, end)) => publish_at(tokens.deep_view(), j as int) == Ok::<
                    (PublishView, int),
                    MessageErrorView,
                >((p.deep_view(), end as int)) && j < end <= tokens@.len(),
                Err(e) => publish_at(tokens.deep_view(), j as int) == Err::<
                    (PublishView, int),
                    MessageErrorView,
                >(e@),
            },
    {
        match &tokens[j] {
            Token::Start { attributes, .. } => {
                let uri = match read_uri(attributes) {
                    Err(e) => {
                        return Err(e);
                    },
                    Ok(uri) => uri,
                };
                let hash = match read_optional_hash(attributes) {
                    Err(e) => {
                        return Err(e);
                    },
                    Ok(hash) => hash,
                };
                let keys = publish_key_list();
                match find_unexpected(attributes, &keys) {
                    Some(n) => {
                        return Err(MessageError::UnexpectedAttribute(to_text(n.as_slice())));
                    },
                    None => {},
                }
                match read_content(tokens, j) {
                    None => Err(MessageError::MalformedXml(XmlError::ExpectedEnd)),
                    Some((content, end)) => {
                        if all_of(content.as_slice(), ByteClass::Base64) {
                            let tag = read_tag(attributes);
                            Ok((Publish { tag, uri, hash, content }, end))
                        } else {
                            Err(MessageError::PayloadError(PayloadError::InvalidContent))
                        }
                    },
                }
            },
            _ => Err(MessageError::MalformedXml(XmlError::ExpectedEnd)),
        }
    }
}

impl Withdraw {
    /// Reads the `withdraw` element that starts at `j`, and gives the
    /// position after it.
    pub fn decode(tokens: &Vec<Token>, j: usize) -> (r: Result<(Withdraw, usize), MessageError>)
        requires
            j < tokens.len(),
            tokens@[j as int] is Start,
        ensures
            match r {
                Ok((w, end)) => withdraw_at(tokens.deep_view(), j as int) == Ok::<
                    (WithdrawView, int),
                    MessageErrorView,
                >((w.deep_view(), end as int)) && j < end <= tokens@.len(),
                Err(e) => withdraw_at(tokens.deep_view(), j as int) == Err::<
                    (WithdrawView, int),
                    MessageErrorView,
                >(e@),
            },
    {
        match &tokens[j] {
            Token::Start { attributes, .. } => {
                let uri = match read_uri(attributes) {
                    Err(e) => {
                        return Err(e);
                    },
                    Ok(uri) => uri,
                };
                let hash = match read_hash(attributes) {
                    Err(e) => {
                        return Err(e);
                    },
                    Ok(hash) => hash,
                };
                let keys = publish_key_list();
                match find_unexpected(attributes, &keys) {
                    Some(n) => {
                        return Err(MessageError::UnexpectedAttribute(to_text(n.as_slice())));
                    },
                    None => {},
                }
                match find_element_end(tokens, j) {
                    None => Err(MessageError::MalformedXml(XmlError::ExpectedEnd)),
                    Some(end) => {
                        let tag = read_tag(attributes);
                        Ok((Withdraw { tag, uri, hash }, end))
                    },
                }
            },
            _ => Err(MessageError::MalformedXml(XmlError::ExpectedEnd)),
        }
    }
}

impl PublishElement {
    /// Reads the element of a publish query that starts at `j`, and gives
    /// the position after it.
    pub fn decode(tokens: &Vec<Token>, j: usize) -> (r: Result<
        (PublishElement, usize),
        MessageError,
    >)
        requires
            j < tokens.len(),
            tokens@[j as int] is Start,
        ensures
            match r {
                Ok((el, end)) => publish_element_at(tokens.deep_view(), j as int) == Ok::<
                    (PublishElementView, int),
                    MessageErrorView,
                >((el.deep_view(), end as int)) && j < end <= tokens@.len(),
                Err(e) => publish_element_at(tokens.deep_view(), j as int) == Err::<
                    (PublishElementView, int),
                    MessageErrorView,
                >(e@),
            },
    {
        proof {
            reveal_strlit("publish");
        }
        let is_publish = match &tokens[j] {
            Token::Start { name, .. } => is_word(name.as_slice(), "publish"),
            _ => false,
        };
        if is_publish {
            match Publish::decode(tokens, j) {
                Err(e) => Err(e),
                Ok((p, end)) => Ok((PublishElement::Publish(p), end)),
            }
        } else {
            match Withdraw::decode(tokens, j) {
                Err(e) => Err(e),
                Ok((w, end)) => Ok((PublishElement::Withdraw(w), end)),
            }
        }
    }
}

/// Finds the start tag of the next element of a publish query at `i`,
/// whitespace aside.
pub fn find_publish_element(tokens: &Vec<Token>, i: usize) -> (r: Option<usize>)
    requires
        i <= tokens@.len(),
    ensures
        match r {
            None => next_publish_element(tokens.deep_view(), i as int) is None,
            Some(k) => next_publish_element(tokens.deep_view(), i as int) == Some(k as int) && i
                <= k < tokens@.len() && tokens@[k as int] is Start,
        },
{
    proof {
        reveal_strlit("publish");
        reveal_strlit("withdraw");
    }
    match find_start(tokens, i) {
        None => None,
        Some(k) => match &tokens[k] {
            Token::Start { name, .. } => {
                if is_word(name.as_slice(), "publish") || is_word(name.as_slice(), "withdraw") {
                    Some(k)
                } else {
                    None
                }
            },
            _ => None,
        },
    }
}

impl PublishQuery {
    /// Reads the publish query whose first element starts at `j`, and
    /// gives the position after its last element.
    pub fn decode(tokens: &Vec<Token>, j: usize) -> (r: Result<
        (PublishQuery, usize),
        MessageError,
    >)
        requires
            j < tokens.len(),
            tokens@[j as int] is Start,
        ensures
            match r {
                Ok((q, end)) => publish_query_at(tokens.deep_view(), j as int) == Ok::<
                    (Seq<PublishElementView>, int),
                    MessageErrorView,
                >((q.deep_view(), end as int)) && j < end <= tokens@.len(),
                Err(e) => publish_query_at(tokens.deep_view(), j as int) == Err::<
                    (Seq<PublishElementView>, int),
                    MessageErrorView,
                >(e@),
            },
    {
        let mut elements: Vec<PublishElement> = Vec::new();
        let mut pos: usize = j;
        proof {
            assert(elements.deep_view() =~= Seq::empty());
            match publish_query_at(tokens.deep_view(), j as int) {
                Ok((rest, last)) => {
                    assert(Seq::<PublishElementView>::empty() + rest =~= rest);
                },
                Err(e) => {},
            }
        }
        loop
            invariant
                j <= pos < tokens@.len(),
                tokens@[pos as int] is Start,
                publish_query_at(tokens.deep_view(), j as int) == after_elements(
                    elements.deep_view(),
                    publish_query_at(tokens.deep_view(), pos as int),
                ),
            decreases tokens@.len() - pos,
        {
            match PublishElement::decode(tokens, pos) {
                Err(e) => {
                    return Err(e);
                },
                Ok((el, end)) => {
                    let ghost before = elements.deep_view();
                    let ghost ev = el.deep_view();
                    elements.push(el);
                    proof {
                        assert(elements.deep_view() =~= before.push(ev));
                        assert(before + seq![ev] =~= before.push(ev));
                    }
                    match find_publish_element(tokens, end) {
                        None => {
                            return Ok((PublishQuery { elements }, end));
                        },
                        Some(k) => {
                            proof {
                                match publish_query_at(tokens.deep_view(), k as int) {
                                    Ok((rest, last)) => {
                                        assert(before + (seq![ev] + rest) =~= before.push(ev)
                                            + rest);
                                    },
                                    Err(e) => {},
                                }
                            }
                            pos = k;
                        },
                    }
                },
            }
        }
    }
}

/// The tokens of the list query: one `list` element without attributes.
pub open spec fn list_query_tokens() -> Seq<TokenView> {
    seq![start_tag("list"@, Seq::empty(), true)]
}

/// The attributes of a `publish` element, in the order in which they are
/// written: `tag` where there is one, `uri`, `hash` where there is one.
pub open spec fn publish_attributes(p: PublishView) -> Seq<AttributeView> {
    optional_attribute("tag"@, p.tag) + seq![attribute("uri"@, p.uri)] + optional_attribute(
        "hash"@,
        p.hash,
    )
}

/// The tokens of a `publish` element: a start tag that is its own end
/// where there is no content, else start tag, content and end tag.
pub open spec fn publish_tokens(p: PublishView) -> Seq<TokenView> {
    if p.content.len() == 0 {
        seq![start_tag("publish"@, publish_attributes(p), true)]
    } else {
        seq![
            start_tag("publish"@, publish_attributes(p), false),
            TokenView::Text { content: p.content },
            end_tag("publish"@),
        ]
    }
}

/// The attributes of a `withdraw` element, in the order in which they are
/// written: `tag` where there is one, `uri`, `hash`.
pub open spec fn withdraw_attributes(w: WithdrawView) -> Seq<AttributeView> {
    optional_attribute("tag"@, w.tag) + seq![attribute("uri"@, w.uri), attribute("hash"@, w.hash)]
}

/// The tokens of a `withdraw` element: a start tag that is its own end.
pub open spec fn withdraw_tokens(w: WithdrawView) -> Seq<TokenView> {
    seq![start_tag("withdraw"@, withdraw_attributes(w), true)]
}

/// The tokens of one element of a publish query.
pub open spec fn publish_element_tokens(e: PublishElementView) -> Seq<TokenView> {
    match e {
        PublishElementView::Publish(p) => publish_tokens(p),
        PublishElementView::Withdraw(w) => withdraw_tokens(w),
    }
}

/// The tokens of a publish query: those of its elements, in order.
pub open spec fn publish_query_tokens(es: Seq<PublishElementView>) -> Seq<TokenView>
    decreases es.len(),
{
    if es.len() == 0 {
        Seq::empty()
    } else {
        publish_element_tokens(es[0]) + publish_query_tokens(es.skip(1))
    }
}

impl ListQuery {
    /// Appends the tokens of the list query to `out`.
    pub fn encode(&self, out: &mut Vec<Token>)
        ensures
            final(out).deep_view() == old(out).deep_view() + list_query_tokens(),
    {
        proof {
            reveal_strlit("list");
        }
        let attrs: Vec<Attribute> = Vec::new();
        proof {
            assert(attrs.deep_view() =~= Seq::empty());
        }
        push_start(out, "list", attrs, true);
    }
}

impl Publish {
    /// Appends the tokens of this `publish` element to `out`.
    pub fn encode(&self, out: &mut Vec<Token>)
        ensures
            final(out).deep_view() == old(out).deep_view() + publish_tokens(self.deep_view()),
    {
        proof {
            reveal_strlit("publish");
            reveal_strlit("tag");
            reveal_strlit("uri");
            reveal_strlit("hash");
        }
        let ghost before = out.deep_view();
        let mut attrs: Vec<Attribute> = Vec::new();
        proof {
            assert(attrs.deep_view() =~= Seq::empty());
        }
        push_optional_attribute(&mut attrs, "tag", &self.tag);
        push_attribute(&mut attrs, "uri", self.uri.as_slice());
        push_optional_attribute(&mut attrs, "hash", &self.hash);
        proof {
            assert(attrs.deep_view() =~= publish_attributes(self.deep_view()));
        }
        if self.content.len() == 0 {
            push_start(out, "publish", attrs, true);
        } else {
            push_start(out, "publish", attrs, false);
            push_text(out, self.content.as_slice());
            push_end(out, "publish");
            proof {
                assert(out.deep_view() =~= before + publish_tokens(self.deep_view()));
            }
        }
    }
}

impl Withdraw {
    /// Appends the tokens of this `withdraw` element to `out`.
    pub fn encode(&self, out: &mut Vec<Token>)
        ensures
            final(out).deep_view() == old(out).deep_view() + withdraw_tokens(self.deep_view()),
    {
        proof {
            reveal_strlit("withdraw");
            reveal_strlit("tag");
            reveal_strlit("uri");
            reveal_strlit("hash");
        }
        let mut attrs: Vec<Attribute> = Vec::new();
        proof {
            assert(attrs.deep_view() =~= Seq::empty());
        }
        push_optional_attribute(&mut attrs, "tag", &self.tag);
        push_attribute(&mut attrs, "uri", self.uri.as_slice());
        push_attribute(&mut attrs, "hash", self.hash.as_slice());
        proof {
            assert(attrs.deep_view() =~= withdraw_attributes(self.deep_view()));
        }
        push_start(out, "withdraw", attrs, true);
    }
}

impl PublishElement {
    /// Appends the tokens of this element to `out`.
    pub fn encode(&self, out: &mut Vec<Token>)
        ensures
            final(out).deep_view() == old(out).deep_view() + publish_element_tokens(
                self.deep_view(),
            ),
    {
        match self {
            PublishElement::Publish(p) => p.encode(out),
            PublishElement::Withdraw(w) => w.encode(out),
        }
    }
}

impl PublishQuery {
    /// Appends the tokens of this publish query to `out`.
    pub fn encode(&self, out: &mut Vec<Token>)
        ensures
            final(out).deep_view() == old(out).deep_view() + publish_query_tokens(
                self.deep_view(),
            ),
    {
        let ghost all = self.elements.deep_view();
        let mut k: usize = 0;
        proof {
            assert(all.skip(0) =~= all);
        }
        while k < self.elements.len()
            invariant
                k <= self.elements@.len(),
                all == self.elements.deep_view(),
                out.deep_view() + publish_query_tokens(all.skip(k as int)) == old(
                    out,
                ).deep_view() + publish_query_tokens(all),
            decreases self.elements@.len() - k,
        {
            let ghost before = out.deep_view();
            self.elements[k].encode(out);
            proof {
                let rest = all.skip(k as int);
                assert(rest.skip(1) =~= all.skip(k + 1));
                assert(rest[0] == self.elements@[k as int].deep_view());
                assert(out.deep_view() + publish_query_tokens(rest.skip(1)) =~= before
                    + publish_query_tokens(rest));
            }
            k += 1;
        }
        proof {
            assert(publish_query_tokens(all.skip(k as int)) =~= Seq::<TokenView>::empty());
            assert(out.deep_view() + Seq::<TokenView>::empty() =~= out.deep_view());
        }
    }
}

/// A `publish` element as decoding yields it: an accepted URI, an
/// accepted hash where there is one, and base64 text as content.
pub open spec fn publish_well_formed(p: PublishView) -> bool {
    &&& uri_fault(p.uri) is None
    &&& (p.hash matches Some(h) ==> hash_ok(h))
    &&& spec_all_of(p.content, ByteClass::Base64)
}

/// A `withdraw` element as decoding yields it: an accepted URI and an
/// accepted hash.
pub open spec fn withdraw_well_formed(w: WithdrawView) -> bool {
    uri_fault(w.uri) is None && hash_ok(w.hash)
}

/// An element of a publish query as decoding yields it.
pub open spec fn publish_element_well_formed(e: PublishElementView) -> bool {
    match e {
        PublishElementView::Publish(p) => publish_well_formed(p),
        PublishElementView::Withdraw(w) => withdraw_well_formed(w),
    }
}

/// A publish query as decoding yields it: at least one element, and each
/// as decoding yields it.
pub open spec fn publish_query_well_formed(es: Seq<PublishElementView>) -> bool {
    es.len() > 0 && forall|k: int|
        0 <= k < es.len() ==> publish_element_well_formed(#[trigger] es[k])
}

impl Publish {
    /// Whether this element is as decoding yields it.
    pub fn is_well_formed(&self) -> (r: bool)
        ensures
            r == publish_well_formed(self.deep_view()),
    {
        let hash_fits = match &self.hash {
            None => true,
            Some(h) => check_hash(h.as_slice()),
        };
        check_uri(self.uri.as_slice()).is_none() && hash_fits && all_of(
            self.content.as_slice(),
            ByteClass::Base64,
        )
    }
}

impl Withdraw {
    /// Whether this element is as decoding yields it.
    pub fn is_well_formed(&self) -> (r: bool)
        ensures
            r == withdraw_well_formed(self.deep_view()),
    {
        check_uri(self.uri.as_slice()).is_none() && check_hash(self.hash.as_slice())
    }
}

impl PublishElement {
    /// Whether this element is as decoding yields it.
    pub fn is_well_formed(&self) -> (r: bool)
        ensures
            r == publish_element_well_formed(self.deep_view()),
    {
        match self {
            PublishElement::Publish(p) => p.is_well_formed(),
            PublishElement::Withdraw(w) => w.is_well_formed(),
        }
    }
}

impl PublishQuery {
    /// Whether this query is as decoding yields it.
    pub fn is_well_formed(&self) -> (r: bool)
        ensures
            r == publish_query_well_formed(self.deep_view()),
    {
        if self.elements.len() == 0 {
            return false;
        }
        let mut k: usize = 0;
        while k < self.elements.len()
            invariant
                k <= self.elements@.len(),
                forall|n: int|
                    0 <= n < k ==> publish_element_well_formed(
                        #[trigger] self.elements.deep_view()[n],
                    ),
            decreases self.elements@.len() - k,
        {
            if !self.elements[k].is_well_formed() {
                proof {
                    assert(!publish_element_well_formed(self.elements.deep_view()[k as int]));
                }
                return false;
            }
            k += 1;
        }
        true
    }
}

} // verus!
