//! The payloads of replies: the success reply, and the reply that lists
//! what the client has published.

use vstd::prelude::*;
use crate::attrs::{find_unexpected, keys_view, unexpected};
use crate::element::{
    attribute, attributes_of, bare_element_at, check_hash, element_end, find_element_end,
    find_start, hash_of, hash_ok, lemma_element_end_bounds, lemma_skip_blank_bounds, name_at,
    next_start, push_attribute, push_start, read_bare_element, read_hash, read_uri, start_tag,
    uri_of,
};
use crate::error::{MessageError, MessageErrorView};
use crate::names::{ascii, is_word, text_of, to_text, word_bytes};
use crate::token::{Attribute, AttributeView, Token, TokenView, XmlError};
use crate::uri::{check_uri, uri_fault};

verus! {

/// The success reply: the query was carried out.
#[derive(Clone, Copy, Debug, PartialEq, Eq)]
pub struct SuccessReply {}

/// One published object: its URI and its hash.
#[derive(Clone, Debug, PartialEq, Eq)]
pub struct ListElement {
    pub uri: Vec<u8>,
    pub hash: Vec<u8>,
}

/// The reply to a list query: the published objects, in the order of its
/// elements.
#[derive(Clone, Debug, PartialEq, Eq)]
pub struct ListReply {
    pub elements: Vec<ListElement>,
}

/// What a `list` element of a reply holds.
pub struct ListElementView {
    pub uri: Seq<u8>,
    pub hash: Seq<u8>,
}

impl DeepView for ListElement {
    type V = ListElementView;

    open spec fn deep_view(&self) -> ListElementView {
        ListElementView { uri: self.uri@, hash: self.hash@ }
    }
}

impl DeepView for ListReply {
    type V = Seq<ListElementView>;

    open spec fn deep_view(&self) -> Seq<ListElementView> {
        self.elements.deep_view()
    }
}

/// The names of the attributes that a `list` element of a reply has.
pub open spec fn list_keys() -> Seq<Seq<u8>> {
    seq![ascii("uri"@), ascii("hash"@)]
}

/// The `list` element of a reply that starts at `j`, and the position
/// after it.
pub open spec fn list_element_at(ts: Seq<TokenView>, j: int) -> Result<
    (ListElementView, int),
    MessageErrorView,
> {
    let attrs = attributes_of(ts, j);
    match uri_of(attrs) {
        Err(e) => Err(e),
        Ok(uri) => match hash_of(attrs) {
            Err(e) => Err(e),
            Ok(hash) => match unexpected(attrs, list_keys()) {
                Some(n) => Err(MessageErrorView::UnexpectedAttribute(text_of(n))),
                None => match element_end(ts, j) {
                    None => Err(MessageErrorView::MalformedXml(XmlError::ExpectedEnd)),
                    Some(end) => Ok((ListElementView { uri, hash }, end)),
                },
            },
        },
    }
}

/// A `list` element ends after it began, inside the tokens.
pub proof fn lemma_list_element_bounds(ts: Seq<TokenView>, j: int)
    requires
        0 <= j < ts.len(),
    ensures
        list_element_at(ts, j) matches Ok((_, end)) ==> j < end <= ts.len(),
{
    lemma_element_end_bounds(ts, j);
}

/// The position of the start tag of the next `list` element at `i`,
/// whitespace aside; `None` where something else is next.
pub open spec fn next_list_element(ts: Seq<TokenView>, i: int) -> Option<int> {
    match next_start(ts, i) {
        Some(k) => if name_at(ts, k) == ascii("list"@) {
            Some(k)
        } else {
            None
        },
        None => None,
    }
}

/// The elements of the list reply whose first element starts at `j`, and
/// the position after the last: one element, and then every `list` element
/// that follows, whitespace aside.
pub open spec fn list_reply_at(ts: Seq<TokenView>, j: int) -> Result<
    (Seq<ListElementView>, int),
    MessageErrorView,
>
    decreases ts.len() - j,
    when 0 <= j < ts.len()
{
    match list_element_at(ts, j) {
        Err(e) => Err(e),
        Ok((first, end)) => {
            proof {
                lemma_list_element_bounds(ts, j);
                lemma_skip_blank_bounds(ts, end);
            }
            match next_list_element(ts, end) {
                None => Ok((seq![first], end)),
                Some(k) => match list_reply_at(ts, k) {
                    Err(e) => Err(e),
                    Ok((rest, last)) => Ok((seq![first] + rest, last)),
                },
            }
        },
    }
}

/// `found` with `pre` put before the elements it holds.
pub open spec fn after_list_elements(
    pre: Seq<ListElementView>,
    found: Result<(Seq<ListElementView>, int), MessageErrorView>,
) -> Result<(Seq<ListElementView>, int), MessageErrorView> {
    match found {
        Err(e) => Err(e),
        Ok((rest, last)) => Ok((pre + rest, last)),
    }
}

/// The names of the attributes that a `list` element of a reply has.
pub fn list_key_list() -> (keys: Vec<Vec<u8>>)
    ensures
        keys_view(keys@) == list_keys(),
{
    proof {
        reveal_strlit("uri");
        reveal_strlit("hash");
    }
    let mut keys: Vec<Vec<u8>> = Vec::new();
    keys.push(word_bytes("uri"));
    keys.push(word_bytes("hash"));
    proof {
        assert(keys_view(keys@) =~= list_keys());
    }
    keys
}

impl SuccessReply {
    /// Reads the success reply whose element starts at `j`, and gives the
    /// position after it.
    pub fn decode(tokens: &Vec<Token>, j: usize) -> (r: Result<(SuccessReply, usize), MessageError>)
        requires
            j < tokens.len(),
            tokens@[j as int] is Start,
        ensures
            match r {
                Ok((_, end)) => bare_element_at(tokens.deep_view(), j as int) == Ok::<
                    int,
                    MessageErrorView,
                >(end as int) && j < end <= tokens@.len(),
                Err(e) => bare_element_at(tokens.deep_view(), j as int) == Err::<
                    int,
                    MessageErrorView,
                >(e@),
            },
    {
        match read_bare_element(tokens, j) {
            Err(e) => Err(e),
            Ok(end) => Ok((SuccessReply {  }, end)),
        }
    }
}

impl ListElement {
    /// Reads the `list` element of a reply that starts at `j`, and gives
    /// the position after it.
    pub fn decode(tokens: &Vec<Token>, j: usize) -> (r: Result<(ListElement, usize), MessageError>)
        requires
            j < tokens.len(),
            tokens@[j as int] is Start,
        ensures
            match r {
                Ok((el, end)) => list_element_at(tokens.deep_view(), j as int) == Ok::<
                    (ListElementView, int),
                    MessageErrorView,
                >((el.deep_view(), end as int)) && j < end <= tokens@.len(),
                Err(e) => list_element_at(tokens.deep_view(), j as int) == Err::<
                    (ListElementView, int),
                    MessageErrorView,
                >(e@),
            },
    {
        match &tokens[j] {
            Token::Start { attributes, .. } => {
                let uri = match read_uri(attributes) {
                    Err(e) => {
                        return Err(e);
                    },
                    Ok(uri) => uri,
                };
                let hash = match read_hash(attributes) {
                    Err(e) => {
                        return Err(e);
                    },
                    Ok(hash) => hash,
                };
                let keys = list_key_list();
                match find_unexpected(attributes, &keys) {
                    Some(n) => {
                        return Err(MessageError::UnexpectedAttribute(to_text(n.as_slice())));
                    },
                    None => {},
                }
                match find_element_end(tokens, j) {
                    None => Err(MessageError::MalformedXml(XmlError::ExpectedEnd)),
                    Some(end) => Ok((ListElement { uri, hash }, end)),
                }
            },
            _ => Err(MessageError::MalformedXml(XmlError::ExpectedEnd)),
        }
    }
}

/// Finds the start tag of the next `list` element at `i`, whitespace aside.
pub fn find_list_element(tokens: &Vec<Token>, i: usize) -> (r: Option<usize>)
    requires
        i <= tokens@.len(),
    ensures
        match r {
            None => next_list_element(tokens.deep_view(), i as int) is None,
            Some(k) => next_list_element(tokens.deep_view(), i as int) == Some(k as int) && i <= k
                < tokens@.len() && tokens@[k as int] is Start,
        },
{
    proof {
        reveal_strlit("list");
    }
    match find_start(tokens, i) {
        None => None,
        Some(k) => match &tokens[k] {
            Token::Start { name, .. } => {
                if is_word(name.as_slice(), "list") {
                    Some(k)
                } else {
                    None
                }
            },
            _ => None,
        },
    }
}

impl ListReply {
    /// Reads the list reply whose first element starts at `j`, and gives
    /// the position after its last element.
    pub fn decode(tokens: &Vec<Token>, j: usize) -> (r: Result<(ListReply, usize), MessageError>)
        requires
            j < tokens.len(),
            tokens@[j as int] is Start,
        ensures
            match r {
                Ok((l, end)) => list_reply_at(tokens.deep_view(), j as int) == Ok::<
                    (Seq<ListElementView>, int),
                    MessageErrorView,
                >((l.deep_view(), end as int)) && j < end <= tokens@.len(),
                Err(e) => list_reply_at(tokens.deep_view(), j as int) == Err::<
                    (Seq<ListElementView>, int),
                    MessageErrorView,
                >(e@),
            },
    {
        let mut elements: Vec<ListElement> = Vec::new();
        let mut pos: usize = j;
        proof {
            assert(elements.deep_view() =~= Seq::empty());
            match list_reply_at(tokens.deep_view(), j as int) {
                Ok((rest, last)) => {
                    assert(Seq::<ListElementView>::empty() + rest =~= rest);
                },
                Err(e) => {},
            }
        }
        loop
            invariant
                j <= pos < tokens@.len(),
                tokens@[pos as int] is Start,
                list_reply_at(tokens.deep_view(), j as int) == after_list_elements(
                    elements.deep_view(),
                    list_reply_at(tokens.deep_view(), pos as int),
                ),
            decreases tokens@.len() - pos,
        {
            match ListElement::decode(tokens, pos) {
                Err(e) => {
                    return Err(e);
                },
                Ok((el, end)) => {
                    let ghost before = elements.deep_view();
                    let ghost ev = el.deep_view();
                    elements.push(el);
                    proof {
                        assert(elements.deep_view() =~= before.push(ev));
                        assert(before + seq![ev] =~= before.push(ev));
                    }
                    match find_list_element(tokens, end) {
                        None => {
                            return Ok((ListReply { elements }, end));
                        },
                        Some(k) => {
                            proof {
                                match list_reply_at(tokens.deep_view(), k as int) {
                                    Ok((rest, last)) => {
                                        assert(before + (seq![ev] + rest) =~= before.push(ev)
                                            + rest);
                                    },
                                    Err(e) => {},
                                }
                            }
                            pos = k;
                        },
                    }
                },
            }
        }
    }
}

/// The tokens of the success reply: one `success` element without
/// attributes.
pub open spec fn success_reply_tokens() -> Seq<TokenView> {
    seq![start_tag("success"@, Seq::empty(), true)]
}

/// The attributes of a `list` element of a reply, in the order in which
/// they are written: `uri`, `hash`.
pub open spec fn list_attributes(e: ListElementView) -> Seq<AttributeView> {
    seq![attribute("uri"@, e.uri), attribute("hash"@, e.hash)]
}

/// The tokens of a `list` element of a reply: a start tag that is its own
/// end.
pub open spec fn list_element_tokens(e: ListElementView) -> Seq<TokenView> {
    seq![start_tag("list"@, list_attributes(e), true)]
}

/// The tokens of a list reply: those of its elements, in order.
pub open spec fn list_reply_tokens(es: Seq<ListElementView>) -> Seq<TokenView>
    decreases es.len(),
{
    if es.len() == 0 {
        Seq::empty()
    } else {
        list_element_tokens(es[0]) + list_reply_tokens(es.skip(1))
    }
}

impl SuccessReply {
    /// Appends the tokens of the success reply to `out`.
    pub fn encode(&self, out: &mut Vec<Token>)
        ensures
            final(out).deep_view() == old(out).deep_view() + success_reply_tokens(),
    {
        proof {
            reveal_strlit("success");
        }
        let attrs: Vec<Attribute> = Vec::new();
        proof {
            assert(attrs.deep_view() =~= Seq::empty());
        }
        push_start(out, "success", attrs, true);
    }
}

impl ListElement {
    /// Appends the tokens of this `list` element to `out`.
    pub fn encode(&self, out: &mut Vec<Token>)
        ensures
            final(out).deep_view() == old(out).deep_view() + list_element_tokens(
                self.deep_view(),
            ),
    {
        proof {
            reveal_strlit("list");
            reveal_strlit("uri");
            reveal_strlit("hash");
        }
        let mut attrs: Vec<Attribute> = Vec::new();
        proof {
            assert(attrs.deep_view() =~= Seq::empty());
        }
        push_attribute(&mut attrs, "uri", self.uri.as_slice());
        push_attribute(&mut attrs, "hash", self.hash.as_slice());
        proof {
            assert(attrs.deep_view() =~= list_attributes(self.deep_view()));
        }
        push_start(out, "list", attrs, true);
    }
}

impl ListReply {
    /// Appends the tokens of this list reply to `out`.
    pub fn encode(&self, out: &mut Vec<Token>)
        ensures
            final(out).deep_view() == old(out).deep_view() + list_reply_tokens(self.deep_view()),
    {
        let ghost all = self.elements.deep_view();
        let mut k: usize = 0;
        proof {
            assert(all.skip(0) =~= all);
        }
        while k < self.elements.len()
            invariant
                k <= self.elements@.len(),
                all == self.elements.deep_view(),
                out.deep_view() + list_reply_tokens(all.skip(k as int)) == old(out).deep_view()
                    + list_reply_tokens(all),
            decreases self.elements@.len() - k,
        {
            let ghost before = out.deep_view();
            self.elements[k].encode(out);
            proof {
                let rest = all.skip(k as int);
                assert(rest.skip(1) =~= all.skip(k + 1));
                assert(rest[0] == self.elements@[k as int].deep_view());
                assert(out.deep_view() + list_reply_tokens(rest.skip(1)) =~= before
                    + list_reply_tokens(rest));
            }
            k += 1;
        }
        proof {
            assert(list_reply_tokens(all.skip(k as int)) =~= Seq::<TokenView>::empty());
            assert(out.deep_view() + Seq::<TokenView>::empty() =~= out.deep_view());
        }
    }
}

/// A `list` element of a reply as decoding yields it: an accepted URI and
/// an accepted hash.
pub open spec fn list_element_well_formed(e: ListElementView) -> bool {
    uri_fault(e.uri) is None && hash_ok(e.hash)
}

/// A list reply as decoding yields it: at least one element, and each as
/// decoding yields it.
pub open spec fn list_reply_well_formed(es: Seq<ListElementView>) -> bool {
    es.len() > 0 && forall|k: int| 0 <= k < es.len() ==> list_element_well_formed(#[trigger] es[k])
}

impl ListElement {
    /// Whether this element is as decoding yields it.
    pub fn is_well_formed(&self) -> (r: bool)
        ensures
            r == list_element_well_formed(self.deep_view()),
    {
        check_uri(self.uri.as_slice()).is_none() && check_hash(self.hash.as_slice())
    }
}

impl ListReply {
    /// Whether this reply is as decoding yields it.
    pub fn is_well_formed(&self) -> (r: bool)
        ensures
            r == list_reply_well_formed(self.deep_view()),
    {
        if self.elements.len() == 0 {
            return false;
        }
        let mut k: usize = 0;
        while k < self.elements.len()
            invariant
                k <= self.elements@.len(),
                forall|n: int|
                    0 <= n < k ==> list_element_well_formed(
                        #[trigger] self.elements.deep_view()[n],
                    ),
            decreases self.elements@.len() - k,
        {
            if !self.elements[k].is_well_formed() {
                proof {
                    assert(!list_element_well_formed(self.elements.deep_view()[k as int]));
                }
                return false;
            }
            k += 1;
        }
        true
    }
}

} // verus!
