//! The publication message: one `msg` element that carries the protocol
//! version, the class of the message and one payload.

use vstd::prelude::*;
use crate::attrs::{find_unexpected, find_value, keys_view, lookup, unexpected};
use crate::element::{
    attribute, attributes_of, bare_element_at, end_after, end_tag, find_end, find_start,
    is_empty_tag, name_at, next_start, pass_blank, push_attribute, push_end, push_start, skip_blank,
    start_tag,
};
pub use crate::error::{MessageError, MessageErrorView, PayloadError};
use crate::lexer::read_tokens;
use crate::names::{ascii, is_word, text_of, to_text, word_bytes};
use crate::query::{
    is_publish_name, list_query_tokens, publish_query_at, publish_query_tokens,
    publish_query_well_formed, ListQuery, PublishElementView, PublishQuery,
};
use crate::reply::{
    list_reply_at, list_reply_tokens, list_reply_well_formed, success_reply_tokens, ListElementView,
    ListReply, SuccessReply,
};
use crate::roundtrip::{
    lemma_decode_encode, lemma_decoding_well_formed, lemma_message_of_well_formed,
};
use crate::token::{tokenize, Attribute, AttributeView, Token, TokenView, XmlError};
use crate::writer::{render, write_tokens};

verus! {

/// The protocol version that this library speaks.
pub const VERSION: &'static str = "4";

/// The namespace of the protocol's elements.
pub const NS: &'static str = "http://www.hactrn.net/uris/rpki/publication-spec/";

/// The two classes of messages.
#[derive(Clone, Copy, Debug, PartialEq, Eq)]
pub enum MessageClass {
    Query,
    Reply,
}

/// A publication message: one of the four payloads.
#[derive(Clone, Debug, PartialEq, Eq)]
pub enum Message {
    PublishQuery(PublishQuery),
    ListQuery(ListQuery),
    SuccessReply(SuccessReply),
    ListReply(ListReply),
}

/// What a message holds: the elements of its payload, where the payload
/// has elements.
pub enum MessageView {
    PublishQuery(Seq<PublishElementView>),
    ListQuery,
    SuccessReply,
    ListReply(Seq<ListElementView>),
}

impl View for Message {
    type V = MessageView;

    open spec fn view(&self) -> MessageView {
        match self {
            Message::PublishQuery(q) => MessageView::PublishQuery(q.deep_view()),
            Message::ListQuery(_) => MessageView::ListQuery,
            Message::SuccessReply(_) => MessageView::SuccessReply,
            Message::ListReply(l) => MessageView::ListReply(l.deep_view()),
        }
    }
}

/// What the result of decoding holds.
pub open spec fn result_view(r: Result<Message, MessageError>) -> Result<
    MessageView,
    MessageErrorView,
> {
    match r {
        Ok(m) => Ok(m@),
        Err(e) => Err(e@),
    }
}

/// What the result of decoding a payload holds.
pub open spec fn payload_view(r: Result<(Message, usize), MessageError>) -> Result<
    (MessageView, int),
    MessageErrorView,
> {
    match r {
        Ok((m, end)) => Ok((m@, end as int)),
        Err(e) => Err(e@),
    }
}

/// The class of a message: a query where the payload is one, a reply where
/// the payload is one.
pub open spec fn class_of(m: MessageView) -> MessageClass {
    match m {
        MessageView::PublishQuery(_) => MessageClass::Query,
        MessageView::ListQuery => MessageClass::Query,
        MessageView::SuccessReply => MessageClass::Reply,
        MessageView::ListReply(_) => MessageClass::Reply,
    }
}

/// The value of the `type` attribute for a class.
pub open spec fn class_name(c: MessageClass) -> Seq<char> {
    match c {
        MessageClass::Query => "query"@,
        MessageClass::Reply => "reply"@,
    }
}

/// The start tags that may begin the payload of a message of a class, as
/// the error for their absence describes them.
pub open spec fn expected_payload(c: MessageClass) -> Seq<char> {
    match c {
        MessageClass::Query => "list, publish, or withdraw"@,
        MessageClass::Reply => "success, list, or report_error"@,
    }
}

/// The names of the attributes that the `msg` element must have.
pub open spec fn envelope_keys() -> Seq<Seq<u8>> {
    seq![ascii("version"@), ascii("type"@)]
}

/// The class that the attributes of a `msg` element state. The checks are
/// made in this order: `version` is there; it is the supported version;
/// `type` is there; no other attribute is there; `type` names a class.
pub open spec fn envelope_class(attrs: Seq<AttributeView>) -> Result<
    MessageClass,
    MessageErrorView,
> {
    match lookup(attrs, ascii("version"@)) {
        None => Err(MessageErrorView::MissingAttribute("version"@)),
        Some(v) => if v != ascii("4"@) {
            Err(MessageErrorView::InvalidVersion)
        } else {
            match lookup(attrs, ascii("type"@)) {
                None => Err(MessageErrorView::MissingAttribute("type"@)),
                Some(t) => match unexpected(attrs, envelope_keys()) {
                    Some(n) => Err(MessageErrorView::UnexpectedAttribute(text_of(n))),
                    None => if t == ascii("query"@) {
                        Ok(MessageClass::Query)
                    } else if t == ascii("reply"@) {
                        Ok(MessageClass::Reply)
                    } else {
                        Err(MessageErrorView::UnknownMessageType)
                    },
                },
            }
        },
    }
}

/// The payloads that the protocol defines.
#[derive(Clone, Copy, Debug, PartialEq, Eq)]
pub enum PayloadKind {
    PublishQuery,
    ListQuery,
    SuccessReply,
    ListReply,
    /// The error reply, which this library does not decode.
    ErrorReply,
}

/// The payload that a start tag named `name` begins in a message of class
/// `c`; `None` where no payload of that class begins with that name.
///
/// | class | name                  | payload       |
/// |-------|-----------------------|---------------|
/// | query | `list`                | list query    |
/// | query | `publish`, `withdraw` | publish query |
/// | reply | `success`             | success reply |
/// | reply | `list`                | list reply    |
/// | reply | `report_error`        | error reply   |
pub open spec fn payload_kind(c: MessageClass, name: Seq<u8>) -> Option<PayloadKind> {
    match c {
        MessageClass::Query => if name == ascii("list"@) {
            Some(PayloadKind::ListQuery)
        } else if is_publish_name(name) {
            Some(PayloadKind::PublishQuery)
        } else {
            None
        },
        MessageClass::Reply => if name == ascii("success"@) {
            Some(PayloadKind::SuccessReply)
        } else if name == ascii("list"@) {
            Some(PayloadKind::ListReply)
        } else if name == ascii("report_error"@) {
            Some(PayloadKind::ErrorReply)
        } else {
            None
        },
    }
}

/// The class of the messages that carry a payload.
pub open spec fn kind_class(kind: PayloadKind) -> MessageClass {
    match kind {
        PayloadKind::PublishQuery => MessageClass::Query,
        PayloadKind::ListQuery => MessageClass::Query,
        PayloadKind::SuccessReply => MessageClass::Reply,
        PayloadKind::ListReply => MessageClass::Reply,
        PayloadKind::ErrorReply => MessageClass::Reply,
    }
}

/// The payload of a message.
pub open spec fn kind_of(m: MessageView) -> PayloadKind {
    match m {
        MessageView::PublishQuery(_) => PayloadKind::PublishQuery,
        MessageView::ListQuery => PayloadKind::ListQuery,
        MessageView::SuccessReply => PayloadKind::SuccessReply,
        MessageView::ListReply(_) => PayloadKind::ListReply,
    }
}

/// The message whose payload, of the kind `kind`, starts at `j`, and the
/// position after the payload. An error reply is refused as unsupported.
pub open spec fn payload_of(ts: Seq<TokenView>, j: int, kind: PayloadKind) -> Result<
    (MessageView, int),
    MessageErrorView,
> {
    match kind {
        PayloadKind::PublishQuery => match publish_query_at(ts, j) {
            Err(e) => Err(e),
            Ok((elements, end)) => Ok((MessageView::PublishQuery(elements), end)),
        },
        PayloadKind::ListQuery => match bare_element_at(ts, j) {
            Err(e) => Err(e),
            Ok(end) => Ok((MessageView::ListQuery, end)),
        },
        PayloadKind::SuccessReply => match bare_element_at(ts, j) {
            Err(e) => Err(e),
            Ok(end) => Ok((MessageView::SuccessReply, end)),
        },
        PayloadKind::ListReply => match list_reply_at(ts, j) {
            Err(e) => Err(e),
            Ok((elements, end)) => Ok((MessageView::ListReply(elements), end)),
        },
        PayloadKind::ErrorReply => Err(
            MessageErrorView::PayloadError(PayloadError::UnsupportedErrorReply),
        ),
    }
}

/// The payload of a message of class `c` whose content begins at `i`, and
/// the position after the payload. The name of the first start tag,
/// whitespace aside, decides which payload it is; a name that begins no
/// payload of the class is refused as unexpected, and the absence of a
/// start tag is refused with a description of those that may stand there.
pub open spec fn payload_at(ts: Seq<TokenView>, i: int, c: MessageClass) -> Result<
    (MessageView, int),
    MessageErrorView,
> {
    match next_start(ts, i) {
        None => Err(MessageErrorView::ExpectedStart(expected_payload(c))),
        Some(j) => match payload_kind(c, name_at(ts, j)) {
            None => Err(MessageErrorView::UnexpectedStart(text_of(name_at(ts, j)))),
            Some(kind) => payload_of(ts, j, kind),
        },
    }
}

/// The message that a sequence of tokens holds: the `msg` element, whose
/// attributes state the class, with one payload of that class as its
/// content, and nothing but whitespace around either.
pub open spec fn message_of(ts: Seq<TokenView>) -> Result<MessageView, MessageErrorView> {
    match next_start(ts, 0) {
        None => Err(MessageErrorView::ExpectedStart("msg"@)),
        Some(r) => if name_at(ts, r) != ascii("msg"@) {
            Err(MessageErrorView::ExpectedStart("msg"@))
        } else {
            match envelope_class(attributes_of(ts, r)) {
                Err(e) => Err(e),
                Ok(c) => if is_empty_tag(ts, r) {
                    Err(MessageErrorView::ExpectedStart(expected_payload(c)))
                } else {
                    match payload_at(ts, r + 1, c) {
                        Err(e) => Err(e),
                        Ok((m, end)) => match end_after(ts, end, ascii("msg"@)) {
                            None => Err(MessageErrorView::MalformedXml(XmlError::ExpectedEnd)),
                            Some(k) => if skip_blank(ts, k) < ts.len() {
                                Err(MessageErrorView::MalformedXml(XmlError::TrailingContent))
                            } else {
                                Ok(m)
                            },
                        },
                    }
                },
            }
        },
    }
}

/// A message as decoding yields it: its payload is as decoding yields it.
pub open spec fn message_well_formed(m: MessageView) -> bool {
    match m {
        MessageView::PublishQuery(elements) => publish_query_well_formed(elements),
        MessageView::ListQuery => true,
        MessageView::SuccessReply => true,
        MessageView::ListReply(elements) => list_reply_well_formed(elements),
    }
}

/// The message that a sequence of bytes holds: the message that its tokens
/// hold, where it has tokens.
pub open spec fn decoding(s: Seq<u8>) -> Result<MessageView, MessageErrorView> {
    match tokenize(s) {
        Err(e) => Err(MessageErrorView::MalformedXml(e)),
        Ok(ts) => message_of(ts),
    }
}

/// The attributes of the `msg` element, in the order in which they are
/// written: `xmlns`, `version`, `type`.
pub open spec fn envelope_attributes(c: MessageClass) -> Seq<AttributeView> {
    seq![
        attribute("xmlns"@, ascii("http://www.hactrn.net/uris/rpki/publication-spec/"@)),
        attribute("version"@, ascii("4"@)),
        attribute("type"@, ascii(class_name(c))),
    ]
}

/// The tokens of the payload of a message.
pub open spec fn payload_tokens(m: MessageView) -> Seq<TokenView> {
    match m {
        MessageView::PublishQuery(elements) => publish_query_tokens(elements),
        MessageView::ListQuery => list_query_tokens(),
        MessageView::SuccessReply => success_reply_tokens(),
        MessageView::ListReply(elements) => list_reply_tokens(elements),
    }
}

/// The tokens of a message: the start tag of `msg` with its attributes,
/// the payload, the end tag of `msg`.
pub open spec fn message_tokens(m: MessageView) -> Seq<TokenView> {
    seq![start_tag("msg"@, envelope_attributes(class_of(m)), false)] + payload_tokens(m) + seq![
        end_tag("msg"@),
    ]
}

/// The bytes of a message: its tokens as they are written.
pub open spec fn encoding(m: MessageView) -> Seq<u8> {
    render(message_tokens(m))
}

/// The names of the attributes that the `msg` element must have.
pub fn envelope_key_list() -> (keys: Vec<Vec<u8>>)
    ensures
        keys_view(keys@) == envelope_keys(),
{
    proof {
        reveal_strlit("version");
        reveal_strlit("type");
    }
    let mut keys: Vec<Vec<u8>> = Vec::new();
    keys.push(word_bytes("version"));
    keys.push(word_bytes("type"));
    proof {
        assert(keys_view(keys@) =~= envelope_keys());
    }
    keys
}

/// Reads the class that the attributes of a `msg` element state.
pub fn read_envelope(attrs: &Vec<Attribute>) -> (r: Result<MessageClass, MessageError>)
    ensures
        match r {
            Ok(c) => envelope_class(attrs.deep_view()) == Ok::<MessageClass, MessageErrorView>(c),
            Err(e) => envelope_class(attrs.deep_view()) == Err::<MessageClass, MessageErrorView>(
                e@,
            ),
        },
{
    proof {
        reveal_strlit("version");
        reveal_strlit("type");
        reveal_strlit("4");
        reveal_strlit("query");
        reveal_strlit("reply");
    }
    let version_key = word_bytes("version");
    let version = match find_value(attrs, version_key.as_slice()) {
        None => {
            return Err(MessageError::MissingAttribute("version".to_owned()));
        },
        Some(v) => v,
    };
    if !is_word(version.as_slice(), VERSION) {
        return Err(MessageError::InvalidVersion);
    }
    let type_key = word_bytes("type");
    let msg_type = match find_value(attrs, type_key.as_slice()) {
        None => {
            return Err(MessageError::MissingAttribute("type".to_owned()));
        },
        Some(t) => t,
    };
    let keys = envelope_key_list();
    match find_unexpected(attrs, &keys) {
        Some(n) => {
            return Err(MessageError::UnexpectedAttribute(to_text(n.as_slice())));
        },
        None => {},
    }
    if is_word(msg_type.as_slice(), "query") {
        Ok(MessageClass::Query)
    } else if is_word(msg_type.as_slice(), "reply") {
        Ok(MessageClass::Reply)
    } else {
        Err(MessageError::UnknownMessageType)
    }
}

/// The start tags that may begin the payload of a message of class `c`.
pub fn describe_payload(c: MessageClass) -> (d: String)
    ensures
        d@ == expected_payload(c),
{
    match c {
        MessageClass::Query => "list, publish, or withdraw".to_owned(),
        MessageClass::Reply => "success, list, or report_error".to_owned(),
    }
}

/// Finds the payload that a start tag named `name` begins in a message of
/// class `class`.
pub fn find_payload_kind(class: MessageClass, name: &[u8]) -> (r: Option<PayloadKind>)
    ensures
        r == payload_kind(class, name@),
        r matches Some(kind) ==> kind_class(kind) == class,
{
    proof {
        reveal_strlit("list");
        reveal_strlit("publish");
        reveal_strlit("withdraw");
        reveal_strlit("success");
        reveal_strlit("report_error");
    }
    match class {
        MessageClass::Query => {
            if is_word(name, "list") {
                Some(PayloadKind::ListQuery)
            } else if is_word(name, "publish") || is_word(name, "withdraw") {
                Some(PayloadKind::PublishQuery)
            } else {
                None
            }
        },
        MessageClass::Reply => {
            if is_word(name, "success") {
                Some(PayloadKind::SuccessReply)
            } else if is_word(name, "list") {
                Some(PayloadKind::ListReply)
            } else if is_word(name, "report_error") {
                Some(PayloadKind::ErrorReply)
            } else {
                None
            }
        },
    }
}

impl Message {
    /// The payload of this message.
    pub fn kind(&self) -> (k: PayloadKind)
        ensures
            k == kind_of(self@),
            kind_class(k) == class_of(self@),
    {
        match self {
            Message::PublishQuery(_) => PayloadKind::PublishQuery,
            Message::ListQuery(_) => PayloadKind::ListQuery,
            Message::SuccessReply(_) => PayloadKind::SuccessReply,
            Message::ListReply(_) => PayloadKind::ListReply,
        }
    }

    /// The class of this message.
    pub fn class(&self) -> (c: MessageClass)
        ensures
            c == class_of(self@),
    {
        match self {
            Message::PublishQuery(_) => MessageClass::Query,
            Message::ListQuery(_) => MessageClass::Query,
            Message::SuccessReply(_) => MessageClass::Reply,
            Message::ListReply(_) => MessageClass::Reply,
        }
    }

    /// Whether this message is as decoding yields it, which is whether
    /// decoding its bytes gives it back.
    pub fn is_well_formed(&self) -> (r: bool)
        ensures
            r == message_well_formed(self@),
            r == (decoding(encoding(self@)) == Ok::<MessageView, MessageErrorView>(self@)),
    {
        proof {
            lemma_decoding_well_formed(encoding(self@));
            if message_well_formed(self@) {
                lemma_decode_encode(self@);
            }
        }
        match self {
            Message::PublishQuery(q) => q.is_well_formed(),
            Message::ListQuery(_) => true,
            Message::SuccessReply(_) => true,
            Message::ListReply(l) => l.is_well_formed(),
        }
    }

    /// Reads the payload of a message of class `class` whose content
    /// begins at `i`, and gives the position after the payload.
    pub fn decode_payload(tokens: &Vec<Token>, i: usize, class: MessageClass) -> (r: Result<
        (Message, usize),
        MessageError,
    >)
        requires
            i <= tokens@.len(),
        ensures
            payload_view(r) == payload_at(tokens.deep_view(), i as int, class),
            r matches Ok((m, end)) ==> i < end <= tokens@.len() && class_of(m@) == class,
    {
        let j = match find_start(tokens, i) {
            None => {
                return Err(MessageError::ExpectedStart(describe_payload(class)));
            },
            Some(j) => j,
        };
        let name = match &tokens[j] {
            Token::Start { name, .. } => name,
            _ => {
                return Err(MessageError::ExpectedStart(describe_payload(class)));
            },
        };
        match find_payload_kind(class, name.as_slice()) {
            None => Err(MessageError::UnexpectedStart(to_text(name.as_slice()))),
            Some(PayloadKind::PublishQuery) => match PublishQuery::decode(tokens, j) {
                Err(e) => Err(e),
                Ok((q, end)) => Ok((Message::PublishQuery(q), end)),
            },
            Some(PayloadKind::ListQuery) => match ListQuery::decode(tokens, j) {
                Err(e) => Err(e),
                Ok((l, end)) => Ok((Message::ListQuery(l), end)),
            },
            Some(PayloadKind::SuccessReply) => match SuccessReply::decode(tokens, j) {
                Err(e) => Err(e),
                Ok((s, end)) => Ok((Message::SuccessReply(s), end)),
            },
            Some(PayloadKind::ListReply) => match ListReply::decode(tokens, j) {
                Err(e) => Err(e),
                Ok((l, end)) => Ok((Message::ListReply(l), end)),
            },
            Some(PayloadKind::ErrorReply) => Err(
                MessageError::PayloadError(PayloadError::UnsupportedErrorReply),
            ),
        }
    }

    /// Reads the payload of a query whose content begins at `i`, and gives
    /// the position after the payload.
    pub fn decode_query(tokens: &Vec<Token>, i: usize) -> (r: Result<
        (Message, usize),
        MessageError,
    >)
        requires
            i <= tokens@.len(),
        ensures
            payload_view(r) == payload_at(tokens.deep_view(), i as int, MessageClass::Query),
            r matches Ok((m, end)) ==> i < end <= tokens@.len() && class_of(m@)
                == MessageClass::Query,
    {
        Message::decode_payload(tokens, i, MessageClass::Query)
    }

    /// Reads the payload of a reply whose content begins at `i`, and gives
    /// the position after the payload.
    pub fn decode_reply(tokens: &Vec<Token>, i: usize) -> (r: Result<
        (Message, usize),
        MessageError,
    >)
        requires
            i <= tokens@.len(),
        ensures
            payload_view(r) == payload_at(tokens.deep_view(), i as int, MessageClass::Reply),
            r matches Ok((m, end)) ==> i < end <= tokens@.len() && class_of(m@)
                == MessageClass::Reply,
    {
        Message::decode_payload(tokens, i, MessageClass::Reply)
    }

    /// Reads the message that a sequence of tokens holds.
    pub fn decode_tokens(tokens: &Vec<Token>) -> (r: Result<Message, MessageError>)
        ensures
            result_view(r) == message_of(tokens.deep_view()),
            r matches Ok(m) ==> message_well_formed(m@),
    {
        proof {
            reveal_strlit("msg");
            lemma_message_of_well_formed(tokens.deep_view());
        }
        let root = match find_start(tokens, 0) {
            None => {
                return Err(MessageError::ExpectedStart("msg".to_owned()));
            },
            Some(root) => root,
        };
        match &tokens[root] {
            Token::Start { name, attributes, empty } => {
                if !is_word(name.as_slice(), "msg") {
                    return Err(MessageError::ExpectedStart("msg".to_owned()));
                }
                let class = match read_envelope(attributes) {
                    Err(e) => {
                        return Err(e);
                    },
                    Ok(class) => class,
                };
                if *empty {
                    return Err(MessageError::ExpectedStart(describe_payload(class)));
                }
                let payload = match class {
                    MessageClass::Query => Message::decode_query(tokens, root + 1),
                    MessageClass::Reply => Message::decode_reply(tokens, root + 1),
                };
                match payload {
                    Err(e) => Err(e),
                    Ok((message, end)) => match find_end(tokens, end, name.as_slice()) {
                        None => Err(MessageError::MalformedXml(XmlError::ExpectedEnd)),
                        Some(k) => {
                            if pass_blank(tokens, k) < tokens.len() {
                                Err(MessageError::MalformedXml(XmlError::TrailingContent))
                            } else {
                                Ok(message)
                            }
                        },
                    },
                }
            },
            _ => Err(MessageError::ExpectedStart("msg".to_owned())),
        }
    }

    /// Decodes a message from the bytes of a document.
    pub fn decode(bytes: &[u8]) -> (r: Result<Message, MessageError>)
        ensures
            result_view(r) == decoding(bytes@),
            r matches Ok(m) ==> message_well_formed(m@),
    {
        proof {
            lemma_decoding_well_formed(bytes@);
        }
        match read_tokens(bytes) {
            Err(e) => Err(MessageError::MalformedXml(e)),
            Ok(tokens) => Message::decode_tokens(&tokens),
        }
    }

    /// The tokens of this message.
    pub fn encode_tokens(&self) -> (tokens: Vec<Token>)
        ensures
            tokens.deep_view() == message_tokens(self@),
    {
        proof {
            reveal_strlit("msg");
            reveal_strlit("xmlns");
            reveal_strlit("version");
            reveal_strlit("type");
            reveal_strlit("4");
            reveal_strlit("query");
            reveal_strlit("reply");
            reveal_strlit("http://www.hactrn.net/uris/rpki/publication-spec/");
        }
        let msg_type = match self.class() {
            MessageClass::Query => "query",
            MessageClass::Reply => "reply",
        };
        let ns = word_bytes(NS);
        let version = word_bytes(VERSION);
        let class = word_bytes(msg_type);
        let mut attrs: Vec<Attribute> = Vec::new();
        proof {
            assert(attrs.deep_view() =~= Seq::empty());
        }
        push_attribute(&mut attrs, "xmlns", ns.as_slice());
        push_attribute(&mut attrs, "version", version.as_slice());
        push_attribute(&mut attrs, "type", class.as_slice());
        proof {
            assert(attrs.deep_view() =~= envelope_attributes(class_of(self@)));
        }
        let mut tokens: Vec<Token> = Vec::new();
        proof {
            assert(tokens.deep_view() =~= Seq::empty());
        }
        push_start(&mut tokens, "msg", attrs, false);
        match self {
            Message::PublishQuery(q) => q.encode(&mut tokens),
            Message::ListQuery(l) => l.encode(&mut tokens),
            Message::SuccessReply(s) => s.encode(&mut tokens),
            Message::ListReply(l) => l.encode(&mut tokens),
        }
        push_end(&mut tokens, "msg");
        proof {
            assert(tokens.deep_view() =~= message_tokens(self@));
        }
        tokens
    }

    /// Encodes this message as the bytes of a document.
    pub fn encode_vec(&self) -> (bytes: Vec<u8>)
        ensures
            bytes@ == encoding(self@),
            message_well_formed(self@) == (decoding(bytes@) == Ok::<
                MessageView,
                MessageErrorView,
            >(self@)),
    {
        proof {
            lemma_decoding_well_formed(encoding(self@));
            if message_well_formed(self@) {
                lemma_decode_encode(self@);
            }
        }
        let tokens = self.encode_tokens();
        write_tokens(&tokens)
    }
}

} // verus!
