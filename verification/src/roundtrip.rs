//! Decoding what was encoded: the message that was encoded comes back.

use vstd::prelude::*;
use crate::attrs::{
    index_from, is_accepted, lemma_extra_from_is, lemma_index_from_is, lookup, spec_is_namespace,
    unexpected,
};
use crate::canonical::{
    attributes_well_formed, lemma_tokenize_render, token_well_formed, tokens_well_formed,
};
use crate::element::{
    attribute, end_tag, hash_of, lemma_skip_blank_bounds, name_at, next_start, optional_hash_of,
    skip_blank, start_tag, uri_of,
};
use crate::error::MessageErrorView;
use crate::names::ascii;
use crate::pubmsg::{
    class_of, decoding, encoding, envelope_attributes, envelope_class, envelope_keys, message_of,
    message_tokens, message_well_formed, payload_at, payload_tokens, MessageClass, MessageView,
};
use crate::query::{
    is_publish_name, lemma_publish_element_bounds, list_query_tokens, next_publish_element,
    publish_attributes, publish_element_at, publish_element_tokens, publish_element_well_formed,
    publish_keys, publish_query_at, publish_query_tokens, publish_query_well_formed,
    publish_well_formed, withdraw_attributes, withdraw_well_formed, PublishElementView, PublishView,
    WithdrawView,
};
use crate::reply::{
    lemma_list_element_bounds, list_attributes, list_element_at, list_element_tokens,
    list_element_well_formed, list_keys, list_reply_at, list_reply_tokens, list_reply_well_formed,
    next_list_element, success_reply_tokens, ListElementView,
};
use crate::stand::{lemma_stands_item, lemma_stands_split, stands_at};
use crate::token::{tokenize, AttributeView, TokenView};
use crate::vocabulary::{lemma_attribute_names, lemma_element_names};

verus! {

/// Attributes as an encoder writes them: no two have one name, and each is
/// a namespace declaration or has a name among `keys`.
pub open spec fn is_record(attrs: Seq<AttributeView>, keys: Seq<Seq<u8>>) -> bool {
    &&& forall|i: int, j: int|
        0 <= i < j < attrs.len() ==> (#[trigger] attrs[i]).name != (#[trigger] attrs[j]).name
    &&& forall|k: int|
        0 <= k < attrs.len() ==> spec_is_namespace((#[trigger] attrs[k]).name) || keys.contains(
            attrs[k].name,
        )
}

/// In a record every attribute is found under its name, and none is
/// unexpected.
pub proof fn lemma_record(attrs: Seq<AttributeView>, keys: Seq<Seq<u8>>)
    requires
        is_record(attrs, keys),
    ensures
        unexpected(attrs, keys) is None,
        forall|k: int|
            0 <= k < attrs.len() ==> lookup(attrs, (#[trigger] attrs[k]).name) == Some(
                attrs[k].value,
            ),
{
    assert forall|k: int| 0 <= k < attrs.len() implies index_from(
        attrs,
        (#[trigger] attrs[k]).name,
        0,
    ) == k by {
        lemma_index_from_is(attrs, attrs[k].name, 0, k);
    }
    assert forall|k: int| 0 <= k < attrs.len() implies is_accepted(attrs, keys, k) by {
        assert(index_from(attrs, attrs[k].name, 0) == k);
    }
    lemma_extra_from_is(attrs, keys, 0, attrs.len() as int);
}

/// An attribute that is not there is not found.
pub proof fn lemma_absent(attrs: Seq<AttributeView>, key: Seq<u8>)
    requires
        forall|k: int| 0 <= k < attrs.len() ==> (#[trigger] attrs[k]).name != key,
    ensures
        lookup(attrs, key) is None,
{
    lemma_index_from_is(attrs, key, 0, attrs.len() as int);
}

/// What decoding reads from the attributes of a `publish` element is what
/// encoding wrote.
pub proof fn lemma_publish_attributes(p: PublishView)
    requires
        publish_well_formed(p),
    ensures
        uri_of(publish_attributes(p)) == Ok::<Seq<u8>, MessageErrorView>(p.uri),
        optional_hash_of(publish_attributes(p)) == Ok::<
            Option<Seq<u8>>,
            MessageErrorView,
        >(p.hash),
        lookup(publish_attributes(p), ascii("tag"@)) == p.tag,
        unexpected(publish_attributes(p), publish_keys()) is None,
        attributes_well_formed(publish_attributes(p)),
{
    lemma_attribute_names();
    let attrs = publish_attributes(p);
    let keys = publish_keys();
    assert(keys[0] == ascii("tag"@) && keys[1] == ascii("uri"@) && keys[2] == ascii("hash"@));
    let uri = attribute("uri"@, p.uri);
    match (p.tag, p.hash) {
        (None, None) => {
            assert(attrs =~= seq![uri]);
        },
        (Some(t), None) => {
            assert(attrs =~= seq![attribute("tag"@, t), uri]);
        },
        (None, Some(h)) => {
            assert(attrs =~= seq![uri, attribute("hash"@, h)]);
        },
        (Some(t), Some(h)) => {
            assert(attrs =~= seq![attribute("tag"@, t), uri, attribute("hash"@, h)]);
        },
    }
    assert(is_record(attrs, keys));
    lemma_record(attrs, keys);
    if p.tag is None {
        lemma_absent(attrs, ascii("tag"@));
    } else {
        assert(attrs[0].name == ascii("tag"@));
    }
    if p.hash is None {
        lemma_absent(attrs, ascii("hash"@));
    } else {
        assert(attrs[attrs.len() - 1].name == ascii("hash"@));
    }
    let at = if p.tag is None {
        0int
    } else {
        1int
    };
    assert(attrs[at].name == ascii("uri"@));
}

/// What decoding reads from the attributes of a `withdraw` element is what
/// encoding wrote.
pub proof fn lemma_withdraw_attributes(w: WithdrawView)
    requires
        withdraw_well_formed(w),
    ensures
        uri_of(withdraw_attributes(w)) == Ok::<Seq<u8>, MessageErrorView>(w.uri),
        hash_of(withdraw_attributes(w)) == Ok::<Seq<u8>, MessageErrorView>(w.hash),
        lookup(withdraw_attributes(w), ascii("tag"@)) == w.tag,
        unexpected(withdraw_attributes(w), publish_keys()) is None,
        attributes_well_formed(withdraw_attributes(w)),
{
    lemma_attribute_names();
    let attrs = withdraw_attributes(w);
    let keys = publish_keys();
    assert(keys[0] == ascii("tag"@) && keys[1] == ascii("uri"@) && keys[2] == ascii("hash"@));
    let uri = attribute("uri"@, w.uri);
    let hash = attribute("hash"@, w.hash);
    match w.tag {
        None => {
            assert(attrs =~= seq![uri, hash]);
        },
        Some(t) => {
            assert(attrs =~= seq![attribute("tag"@, t), uri, hash]);
        },
    }
    assert(is_record(attrs, keys));
    lemma_record(attrs, keys);
    if w.tag is None {
        lemma_absent(attrs, ascii("tag"@));
    } else {
        assert(attrs[0].name == ascii("tag"@));
    }
    let at = if w.tag is None {
        0int
    } else {
        1int
    };
    assert(attrs[at].name == ascii("uri"@));
    assert(attrs[at + 1].name == ascii("hash"@));
}

/// What decoding reads from the attributes of a `list` element of a reply
/// is what encoding wrote.
pub proof fn lemma_list_attributes(e: ListElementView)
    requires
        list_element_well_formed(e),
    ensures
        uri_of(list_attributes(e)) == Ok::<Seq<u8>, MessageErrorView>(e.uri),
        hash_of(list_attributes(e)) == Ok::<Seq<u8>, MessageErrorView>(e.hash),
        unexpected(list_attributes(e), list_keys()) is None,
        attributes_well_formed(list_attributes(e)),
{
    lemma_attribute_names();
    let attrs = list_attributes(e);
    let keys = list_keys();
    assert(keys[0] == ascii("uri"@) && keys[1] == ascii("hash"@));
    assert(is_record(attrs, keys));
    lemma_record(attrs, keys);
    assert(attrs[0].name == ascii("uri"@));
    assert(attrs[1].name == ascii("hash"@));
}

/// Decoding the tokens of one element of a publish query, wherever they
/// stand, gives the element back.
pub proof fn lemma_publish_element_stands(ts: Seq<TokenView>, j: int, e: PublishElementView)
    requires
        stands_at(ts, j, publish_element_tokens(e)),
        publish_element_well_formed(e),
    ensures
        publish_element_at(ts, j) == Ok::<(PublishElementView, int), MessageErrorView>(
            (e, j + publish_element_tokens(e).len()),
        ),
        ts[j] is Start,
        is_publish_name(name_at(ts, j)),
{
    lemma_element_names();
    let w = publish_element_tokens(e);
    lemma_stands_item(ts, j, w, 0);
    match e {
        PublishElementView::Publish(p) => {
            lemma_publish_attributes(p);
            if p.content.len() == 0 {
                assert(p.content =~= Seq::empty());
            } else {
                lemma_stands_item(ts, j, w, 1);
                lemma_stands_item(ts, j, w, 2);
            }
        },
        PublishElementView::Withdraw(wd) => {
            lemma_withdraw_attributes(wd);
        },
    }
}

/// Decoding the tokens of a publish query, wherever they stand before
/// something that is neither whitespace nor a start tag, gives the query
/// back.
pub proof fn lemma_publish_query_stands(ts: Seq<TokenView>, j: int, es: Seq<PublishElementView>)
    requires
        stands_at(ts, j, publish_query_tokens(es)),
        publish_query_well_formed(es),
        j + publish_query_tokens(es).len() < ts.len(),
        ts[j + publish_query_tokens(es).len()] is End,
    ensures
        publish_query_at(ts, j) == Ok::<(Seq<PublishElementView>, int), MessageErrorView>(
            (es, j + publish_query_tokens(es).len()),
        ),
        ts[j] is Start,
        is_publish_name(name_at(ts, j)),
    decreases es.len(),
{
    let first = publish_element_tokens(es[0]);
    let rest = es.skip(1);
    lemma_stands_split(ts, j, first, publish_query_tokens(rest));
    lemma_publish_element_stands(ts, j, es[0]);
    let end = j + first.len();
    if rest.len() == 0 {
        assert(publish_query_tokens(rest) =~= Seq::empty());
        assert(seq![es[0]] =~= es);
    } else {
        assert(publish_query_well_formed(rest)) by {
            assert forall|k: int| 0 <= k < rest.len() implies publish_element_well_formed(
                #[trigger] rest[k],
            ) by {
                assert(rest[k] == es[k + 1]);
            }
        }
        lemma_publish_query_stands(ts, end, rest);
        assert(seq![es[0]] + rest =~= es);
    }
}

/// Decoding the tokens of one `list` element of a reply, wherever they
/// stand, gives the element back.
pub proof fn lemma_list_element_stands(ts: Seq<TokenView>, j: int, e: ListElementView)
    requires
        stands_at(ts, j, list_element_tokens(e)),
        list_element_well_formed(e),
    ensures
        list_element_at(ts, j) == Ok::<(ListElementView, int), MessageErrorView>((e, j + 1)),
        ts[j] is Start,
        name_at(ts, j) == ascii("list"@),
{
    lemma_list_attributes(e);
    lemma_stands_item(ts, j, list_element_tokens(e), 0);
}

/// Decoding the tokens of a list reply, wherever they stand before
/// something that is neither whitespace nor a start tag, gives the reply
/// back.
pub proof fn lemma_list_reply_stands(ts: Seq<TokenView>, j: int, es: Seq<ListElementView>)
    requires
        stands_at(ts, j, list_reply_tokens(es)),
        list_reply_well_formed(es),
        j + list_reply_tokens(es).len() < ts.len(),
        ts[j + list_reply_tokens(es).len()] is End,
    ensures
        list_reply_at(ts, j) == Ok::<(Seq<ListElementView>, int), MessageErrorView>(
            (es, j + list_reply_tokens(es).len()),
        ),
        ts[j] is Start,
        name_at(ts, j) == ascii("list"@),
    decreases es.len(),
{
    let first = list_element_tokens(es[0]);
    let rest = es.skip(1);
    lemma_stands_split(ts, j, first, list_reply_tokens(rest));
    lemma_list_element_stands(ts, j, es[0]);
    let end = j + first.len();
    if rest.len() == 0 {
        assert(list_reply_tokens(rest) =~= Seq::empty());
        assert(seq![es[0]] =~= es);
    } else {
        assert(list_reply_well_formed(rest)) by {
            assert forall|k: int| 0 <= k < rest.len() implies list_element_well_formed(
                #[trigger] rest[k],
            ) by {
                assert(rest[k] == es[k + 1]);
            }
        }
        lemma_list_reply_stands(ts, end, rest);
        assert(seq![es[0]] + rest =~= es);
    }
}

/// The attributes that encoding writes on the `msg` element state the
/// class that was encoded.
pub proof fn lemma_envelope_attributes(c: MessageClass)
    ensures
        envelope_class(envelope_attributes(c)) == Ok::<MessageClass, MessageErrorView>(c),
        attributes_well_formed(envelope_attributes(c)),
{
    lemma_attribute_names();
    let attrs = envelope_attributes(c);
    let keys = envelope_keys();
    assert(keys[0] == ascii("version"@) && keys[1] == ascii("type"@));
    assert(is_record(attrs, keys));
    lemma_record(attrs, keys);
    assert(attrs[1].name == ascii("version"@));
    assert(attrs[2].name == ascii("type"@));
}

/// Decoding the tokens of the payload of a message, wherever they stand
/// before an end tag, gives the message back.
pub proof fn lemma_payload_stands(ts: Seq<TokenView>, j: int, m: MessageView)
    requires
        stands_at(ts, j, payload_tokens(m)),
        message_well_formed(m),
        j + payload_tokens(m).len() < ts.len(),
        ts[j + payload_tokens(m).len()] is End,
    ensures
        payload_at(ts, j, class_of(m)) == Ok::<(MessageView, int), MessageErrorView>(
            (m, j + payload_tokens(m).len()),
        ),
{
    lemma_element_names();
    lemma_attribute_names();
    match m {
        MessageView::PublishQuery(es) => {
            lemma_publish_query_stands(ts, j, es);
        },
        MessageView::ListQuery => {
            lemma_stands_item(ts, j, list_query_tokens(), 0);
            lemma_record(Seq::<AttributeView>::empty(), Seq::<Seq<u8>>::empty());
        },
        MessageView::SuccessReply => {
            lemma_stands_item(ts, j, success_reply_tokens(), 0);
            lemma_record(Seq::<AttributeView>::empty(), Seq::<Seq<u8>>::empty());
        },
        MessageView::ListReply(es) => {
            lemma_list_reply_stands(ts, j, es);
        },
    }
}

/// Decoding the tokens of a message gives the message back.
pub proof fn lemma_message_tokens(m: MessageView)
    requires
        message_well_formed(m),
    ensures
        message_of(message_tokens(m)) == Ok::<MessageView, MessageErrorView>(m),
{
    lemma_element_names();
    let c = class_of(m);
    let ts = message_tokens(m);
    let head = seq![start_tag("msg"@, envelope_attributes(c), false)];
    let body = payload_tokens(m);
    let tail = seq![end_tag("msg"@)];
    assert(ts.subrange(0, ts.len() as int) =~= ts);
    assert(ts == (head + body) + tail);
    lemma_stands_split(ts, 0, head + body, tail);
    lemma_stands_split(ts, 0, head, body);
    lemma_stands_item(ts, 0, head, 0);
    let end = 1 + body.len() as int;
    lemma_stands_item(ts, end, tail, 0);
    lemma_envelope_attributes(c);
    lemma_payload_stands(ts, 1, m);
    assert(skip_blank(ts, ts.len() as int) == ts.len());
}

/// Tokens that can stand before and after other such tokens and read back
/// as written: each is well formed, and character data is followed by
/// something that is not character data.
pub open spec fn is_closed(tokens: Seq<TokenView>) -> bool {
    forall|k: int|
        0 <= k < tokens.len() ==> {
            &&& token_well_formed(#[trigger] tokens[k])
            &&& (tokens[k] is Text ==> k + 1 < tokens.len() && !(tokens[k + 1] is Text))
        }
}

/// Closed tokens followed by closed tokens are closed.
pub proof fn lemma_closed_concat(a: Seq<TokenView>, b: Seq<TokenView>)
    requires
        is_closed(a),
        is_closed(b),
    ensures
        is_closed(a + b),
{
    assert forall|k: int| 0 <= k < (a + b).len() implies {
        &&& token_well_formed(#[trigger] (a + b)[k])
        &&& ((a + b)[k] is Text ==> k + 1 < (a + b).len() && !((a + b)[k + 1] is Text))
    } by {
        if k < a.len() {
            assert((a + b)[k] == a[k]);
            if a[k] is Text {
                assert((a + b)[k + 1] == a[k + 1]);
            }
        } else {
            assert((a + b)[k] == b[k - a.len()]);
            if b[k - a.len()] is Text {
                assert((a + b)[k + 1] == b[k + 1 - a.len()]);
            }
        }
    }
}

/// The tokens of a publish query are closed.
pub proof fn lemma_publish_query_closed(es: Seq<PublishElementView>)
    requires
        forall|k: int| 0 <= k < es.len() ==> publish_element_well_formed(#[trigger] es[k]),
    ensures
        is_closed(publish_query_tokens(es)),
    decreases es.len(),
{
    if es.len() > 0 {
        lemma_element_names();
        let rest = es.skip(1);
        assert forall|k: int| 0 <= k < rest.len() implies publish_element_well_formed(
            #[trigger] rest[k],
        ) by {
            assert(rest[k] == es[k + 1]);
        }
        lemma_publish_query_closed(rest);
        match es[0] {
            PublishElementView::Publish(p) => {
                lemma_publish_attributes(p);
            },
            PublishElementView::Withdraw(w) => {
                lemma_withdraw_attributes(w);
            },
        }
        assert(is_closed(publish_element_tokens(es[0])));
        lemma_closed_concat(publish_element_tokens(es[0]), publish_query_tokens(rest));
    }
}

/// The tokens of a list reply are closed.
pub proof fn lemma_list_reply_closed(es: Seq<ListElementView>)
    requires
        forall|k: int| 0 <= k < es.len() ==> list_element_well_formed(#[trigger] es[k]),
    ensures
        is_closed(list_reply_tokens(es)),
    decreases es.len(),
{
    if es.len() > 0 {
        lemma_element_names();
        let rest = es.skip(1);
        assert forall|k: int| 0 <= k < rest.len() implies list_element_well_formed(
            #[trigger] rest[k],
        ) by {
            assert(rest[k] == es[k + 1]);
        }
        lemma_list_reply_closed(rest);
        lemma_list_attributes(es[0]);
        assert(is_closed(list_element_tokens(es[0])));
        lemma_closed_concat(list_element_tokens(es[0]), list_reply_tokens(rest));
    }
}

/// The tokens of a message read back as they were written.
pub proof fn lemma_message_tokens_well_formed(m: MessageView)
    requires
        message_well_formed(m),
    ensures
        tokens_well_formed(message_tokens(m)),
{
    lemma_element_names();
    let c = class_of(m);
    let head = seq![start_tag("msg"@, envelope_attributes(c), false)];
    let body = payload_tokens(m);
    let tail = seq![end_tag("msg"@)];
    lemma_envelope_attributes(c);
    assert(is_closed(head));
    assert(is_closed(tail));
    match m {
        MessageView::PublishQuery(es) => {
            lemma_publish_query_closed(es);
        },
        MessageView::ListQuery => {
            assert(attributes_well_formed(Seq::<AttributeView>::empty()));
        },
        MessageView::SuccessReply => {
            assert(attributes_well_formed(Seq::<AttributeView>::empty()));
        },
        MessageView::ListReply(es) => {
            lemma_list_reply_closed(es);
        },
    }
    assert(is_closed(body));
    lemma_closed_concat(head, body);
    lemma_closed_concat(head + body, tail);
}

/// Decoding the bytes of a message gives the message back, for every
/// message as decoding yields it.
pub proof fn lemma_decode_encode(m: MessageView)
    requires
        message_well_formed(m),
    ensures
        decoding(encoding(m)) == Ok::<MessageView, MessageErrorView>(m),
{
    lemma_message_tokens_well_formed(m);
    lemma_tokenize_render(message_tokens(m));
    lemma_message_tokens(m);
}

/// A publish query that decoding yields is well formed.
pub proof fn lemma_publish_query_at_well_formed(ts: Seq<TokenView>, j: int)
    requires
        0 <= j < ts.len(),
    ensures
        publish_query_at(ts, j) matches Ok((es, _)) ==> publish_query_well_formed(es),
    decreases ts.len() - j,
{
    if let Ok((first, end)) = publish_element_at(ts, j) {
        lemma_publish_element_bounds(ts, j);
        lemma_skip_blank_bounds(ts, end);
        assert(publish_element_well_formed(first));
        match next_publish_element(ts, end) {
            None => {},
            Some(k) => {
                lemma_publish_query_at_well_formed(ts, k);
                if let Ok((rest, last)) = publish_query_at(ts, k) {
                    let es = seq![first] + rest;
                    assert forall|n: int| 0 <= n < es.len() implies publish_element_well_formed(
                        #[trigger] es[n],
                    ) by {
                        if n > 0 {
                            assert(es[n] == rest[n - 1]);
                        }
                    }
                }
            },
        }
    }
}

/// A list reply that decoding yields is well formed.
pub proof fn lemma_list_reply_at_well_formed(ts: Seq<TokenView>, j: int)
    requires
        0 <= j < ts.len(),
    ensures
        list_reply_at(ts, j) matches Ok((es, _)) ==> list_reply_well_formed(es),
    decreases ts.len() - j,
{
    if let Ok((first, end)) = list_element_at(ts, j) {
        lemma_list_element_bounds(ts, j);
        lemma_skip_blank_bounds(ts, end);
        assert(list_element_well_formed(first));
        match next_list_element(ts, end) {
            None => {},
            Some(k) => {
                lemma_list_reply_at_well_formed(ts, k);
                if let Ok((rest, last)) = list_reply_at(ts, k) {
                    let es = seq![first] + rest;
                    assert forall|n: int| 0 <= n < es.len() implies list_element_well_formed(
                        #[trigger] es[n],
                    ) by {
                        if n > 0 {
                            assert(es[n] == rest[n - 1]);
                        }
                    }
                }
            },
        }
    }
}

/// A message that decoding yields from tokens is well formed.
pub proof fn lemma_message_of_well_formed(ts: Seq<TokenView>)
    ensures
        message_of(ts) matches Ok(m) ==> message_well_formed(m),
{
    if let Some(r) = next_start(ts, 0) {
        lemma_skip_blank_bounds(ts, 0);
        lemma_skip_blank_bounds(ts, r + 1);
        if let Some(j) = next_start(ts, r + 1) {
            lemma_publish_query_at_well_formed(ts, j);
            lemma_list_reply_at_well_formed(ts, j);
        }
    }
}

/// A message that decoding yields is well formed.
pub proof fn lemma_decoding_well_formed(s: Seq<u8>)
    ensures
        decoding(s) matches Ok(m) ==> message_well_formed(m),
{
    if let Ok(ts) = tokenize(s) {
        lemma_message_of_well_formed(ts);
    }
}

} // verus!
