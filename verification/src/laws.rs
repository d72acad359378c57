//! What holds of decoding and encoding, for every document and every
//! message.

use vstd::prelude::*;
use crate::attrs::{
    extra_from, is_accepted, lemma_extra_from_bounds, lookup, spec_is_namespace, unexpected,
};
use crate::canonical::{is_name, lemma_name_text, lemma_tokenize_well_formed, token_well_formed};
use crate::element::{attributes_of, is_empty_tag, lemma_skip_blank_bounds, name_at, next_start};
use crate::error::{MessageErrorView, PayloadError};
use crate::names::{ascii, text_of};
use crate::pubmsg::{
    class_of, decoding, encoding, envelope_class, envelope_keys, kind_of, message_well_formed,
    payload_kind, MessageClass, MessageView, PayloadKind,
};
use crate::roundtrip::{lemma_decode_encode, lemma_decoding_well_formed};
use crate::token::{tokenize, AttributeView, TokenView};
use crate::vocabulary::lemma_element_names;

verus! {

/// The position of the `msg` element among the tokens of a document:
/// `None` where the bytes are no document, or where its first start tag,
/// whitespace aside, is not that of `msg`.
pub open spec fn root_of(s: Seq<u8>) -> Option<int> {
    match tokenize(s) {
        Err(_) => None,
        Ok(ts) => match next_start(ts, 0) {
            None => None,
            Some(r) => if name_at(ts, r) == ascii("msg"@) {
                Some(r)
            } else {
                None
            },
        },
    }
}

/// The tokens of a document that has tokens.
pub open spec fn tokens_of(s: Seq<u8>) -> Seq<TokenView> {
    match tokenize(s) {
        Err(_) => Seq::empty(),
        Ok(ts) => ts,
    }
}

/// The attributes of the `msg` element of a document that has one.
pub open spec fn envelope_of(s: Seq<u8>) -> Seq<AttributeView> {
    match root_of(s) {
        None => Seq::empty(),
        Some(r) => attributes_of(tokens_of(s), r),
    }
}

/// The position of the first start tag inside the `msg` element of a
/// document, whitespace aside: `None` where the document has no `msg`
/// element, where that element is empty, or where something else comes
/// first inside it.
pub open spec fn first_child_of(s: Seq<u8>) -> Option<int> {
    match root_of(s) {
        None => None,
        Some(r) => if is_empty_tag(tokens_of(s), r) {
            None
        } else {
            next_start(tokens_of(s), r + 1)
        },
    }
}

/// Decoding the bytes of a message gives the message back, and encoding
/// that gives the same bytes again.
pub proof fn law_encode_decode(m: MessageView)
    requires
        message_well_formed(m),
    ensures
        decoding(encoding(m)) == Ok::<MessageView, MessageErrorView>(m),
        decoding(encoding(m)) matches Ok(n) && encoding(n) == encoding(m),
{
    lemma_decode_encode(m);
}

/// Where a document decodes to a message, the bytes of that message decode
/// to the same message.
pub proof fn law_decode_encode_decode(s: Seq<u8>)
    ensures
        decoding(s) matches Ok(m) ==> decoding(encoding(m)) == decoding(s),
{
    lemma_decoding_well_formed(s);
    if let Ok(m) = decoding(s) {
        lemma_decode_encode(m);
    }
}

/// A document whose `msg` element has no `version` attribute is refused
/// for the missing `version`.
pub proof fn law_version_required(s: Seq<u8>)
    requires
        root_of(s) is Some,
        lookup(envelope_of(s), ascii("version"@)) is None,
    ensures
        decoding(s) == Err::<MessageView, MessageErrorView>(
            MessageErrorView::MissingAttribute("version"@),
        ),
{
}

/// A document whose `msg` element has the supported version and no `type`
/// attribute is refused for the missing `type`.
pub proof fn law_type_required(s: Seq<u8>)
    requires
        root_of(s) is Some,
        lookup(envelope_of(s), ascii("version"@)) == Some(ascii("4"@)),
        lookup(envelope_of(s), ascii("type"@)) is None,
    ensures
        decoding(s) == Err::<MessageView, MessageErrorView>(
            MessageErrorView::MissingAttribute("type"@),
        ),
{
}

/// A document whose `msg` element has a `version` other than the supported
/// one is refused as of an invalid version, whatever else it holds.
pub proof fn law_version_rejected(s: Seq<u8>, v: Seq<u8>)
    requires
        root_of(s) is Some,
        lookup(envelope_of(s), ascii("version"@)) == Some(v),
        v != ascii("4"@),
    ensures
        decoding(s) == Err::<MessageView, MessageErrorView>(MessageErrorView::InvalidVersion),
{
}

/// A document whose `msg` element has the supported version and a `type`,
/// and an attribute that is neither of the two nor a namespace
/// declaration, is refused for an unexpected attribute: the first that the
/// element does not accept.
pub proof fn law_extra_attribute_rejected(s: Seq<u8>, k: int)
    requires
        root_of(s) is Some,
        lookup(envelope_of(s), ascii("version"@)) == Some(ascii("4"@)),
        lookup(envelope_of(s), ascii("type"@)) is Some,
        0 <= k < envelope_of(s).len(),
        !spec_is_namespace(envelope_of(s)[k].name),
        envelope_of(s)[k].name != ascii("version"@),
        envelope_of(s)[k].name != ascii("type"@),
    ensures
        unexpected(envelope_of(s), envelope_keys()) is Some,
        decoding(s) == Err::<MessageView, MessageErrorView>(
            MessageErrorView::UnexpectedAttribute(
                text_of(unexpected(envelope_of(s), envelope_keys())->Some_0),
            ),
        ),
        ascii(text_of(unexpected(envelope_of(s), envelope_keys())->Some_0)) == unexpected(
            envelope_of(s),
            envelope_keys(),
        )->Some_0,
{
    let attrs = envelope_of(s);
    let keys = envelope_keys();
    lemma_extra_from_bounds(attrs, keys, 0);
    assert(!keys.contains(attrs[k].name));
    assert(!is_accepted(attrs, keys, k));
    let first = extra_from(attrs, keys, 0);
    assert(first <= k);
    lemma_tokenize_well_formed(s);
    lemma_skip_blank_bounds(tokens_of(s), 0);
    assert(token_well_formed(tokens_of(s)[root_of(s)->Some_0]));
    assert(is_name(attrs[first].name));
    lemma_name_text(attrs[first].name);
}

/// A document whose `msg` element has the supported version, no attribute
/// that it does not accept, and a `type` that is neither `query` nor
/// `reply`, is refused as of an unknown message type.
pub proof fn law_type_rejected(s: Seq<u8>, t: Seq<u8>)
    requires
        root_of(s) is Some,
        lookup(envelope_of(s), ascii("version"@)) == Some(ascii("4"@)),
        lookup(envelope_of(s), ascii("type"@)) == Some(t),
        unexpected(envelope_of(s), envelope_keys()) is None,
        t != ascii("query"@),
        t != ascii("reply"@),
    ensures
        decoding(s) == Err::<MessageView, MessageErrorView>(MessageErrorView::UnknownMessageType),
{
}

/// Where a document decodes to a message, the class of the message is
/// the class that the `msg` element states.
pub proof fn law_class_agrees(s: Seq<u8>)
    ensures
        decoding(s) matches Ok(m) ==> root_of(s) is Some && envelope_class(envelope_of(s)) == Ok::<
            MessageClass,
            MessageErrorView,
        >(class_of(m)),
{
    lemma_element_names();
}

/// The name of the first start tag inside `msg` decides the payload: where
/// the document decodes, it decodes to the payload that the name begins in
/// a message of its class.
pub proof fn law_dispatch(s: Seq<u8>, c: MessageClass, j: int, kind: PayloadKind)
    requires
        root_of(s) is Some,
        envelope_class(envelope_of(s)) == Ok::<MessageClass, MessageErrorView>(c),
        first_child_of(s) == Some(j),
        payload_kind(c, name_at(tokens_of(s), j)) == Some(kind),
    ensures
        decoding(s) matches Ok(m) ==> kind_of(m) == kind,
{
}

/// In a query `withdraw` and `publish` begin a publish query, and `list` a
/// list query; in a reply `success` begins a success reply and `list` a
/// list reply.
pub proof fn law_payload_names()
    ensures
        payload_kind(MessageClass::Query, ascii("withdraw"@)) == Some(PayloadKind::PublishQuery),
        payload_kind(MessageClass::Query, ascii("publish"@)) == Some(PayloadKind::PublishQuery),
        payload_kind(MessageClass::Query, ascii("list"@)) == Some(PayloadKind::ListQuery),
        payload_kind(MessageClass::Reply, ascii("success"@)) == Some(PayloadKind::SuccessReply),
        payload_kind(MessageClass::Reply, ascii("list"@)) == Some(PayloadKind::ListReply),
        payload_kind(MessageClass::Reply, ascii("report_error"@)) == Some(PayloadKind::ErrorReply),
{
    lemma_element_names();
}

/// A first start tag inside `msg` whose name begins no payload of the
/// class of the message is refused as unexpected, with its name: the text
/// in the error spells the name as it stands in the document.
pub proof fn law_unexpected_start(s: Seq<u8>, c: MessageClass, j: int)
    requires
        root_of(s) is Some,
        envelope_class(envelope_of(s)) == Ok::<MessageClass, MessageErrorView>(c),
        first_child_of(s) == Some(j),
        payload_kind(c, name_at(tokens_of(s), j)) is None,
    ensures
        decoding(s) == Err::<MessageView, MessageErrorView>(
            MessageErrorView::UnexpectedStart(text_of(name_at(tokens_of(s), j))),
        ),
        ascii(text_of(name_at(tokens_of(s), j))) == name_at(tokens_of(s), j),
{
    lemma_tokenize_well_formed(s);
    assert(token_well_formed(tokens_of(s)[j]));
    lemma_name_text(name_at(tokens_of(s), j));
}

/// In a reply, a first start tag named `report_error` is refused as an
/// error reply, which is not supported.
pub proof fn law_error_reply_unsupported(s: Seq<u8>, j: int)
    requires
        root_of(s) is Some,
        envelope_class(envelope_of(s)) == Ok::<MessageClass, MessageErrorView>(
            MessageClass::Reply,
        ),
        first_child_of(s) == Some(j),
        name_at(tokens_of(s), j) == ascii("report_error"@),
    ensures
        decoding(s) == Err::<MessageView, MessageErrorView>(
            MessageErrorView::PayloadError(PayloadError::UnsupportedErrorReply),
        ),
{
    lemma_element_names();
}

} // verus!
