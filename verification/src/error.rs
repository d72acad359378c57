//! What can be wrong with a message.

use vstd::prelude::*;
use crate::token::XmlError;

verus! {

/// Why a URI is not accepted.
#[derive(Clone, Copy, Debug, PartialEq, Eq)]
pub enum UriError {
    /// It does not begin with `rsync://`.
    BadScheme,
    /// Nothing follows `rsync://`.
    NoHost,
    /// It holds a byte that is not a visible ASCII character.
    BadByte,
}

/// Why a payload is not accepted, where its attributes and its URI are in
/// order.
#[derive(Clone, Copy, Debug, PartialEq, Eq)]
pub enum PayloadError {
    /// A hash that is empty or holds something other than hexadecimal
    /// digits.
    InvalidHash,
    /// Content that holds something other than base64 text.
    InvalidContent,
    /// A `report_error` reply: the protocol defines it, this library does
    /// not decode it.
    UnsupportedErrorReply,
}

/// Why a sequence of bytes is not a publication message.
#[derive(Clone, Debug, PartialEq, Eq)]
pub enum MessageError {
    /// The `version` attribute is there and is not the supported version.
    InvalidVersion,
    /// The `type` attribute is there and is neither `query` nor `reply`.
    UnknownMessageType,
    /// A start tag that is none of those that may stand there, with its
    /// name.
    UnexpectedStart(String),
    /// No start tag where one is due, with a description of those that may
    /// stand there.
    ExpectedStart(String),
    /// An element lacks an attribute that it must have, with the name of
    /// the attribute.
    MissingAttribute(String),
    /// An element has an attribute that it has no use for, with the name
    /// of the attribute.
    UnexpectedAttribute(String),
    /// The bytes are no document, or the document's elements do not end
    /// where they must.
    MalformedXml(XmlError),
    /// A payload holds a URI that is not accepted.
    MalformedUri(UriError),
    /// A payload is not accepted for a reason of its own.
    PayloadError(PayloadError),
}

/// What an error holds.
pub enum MessageErrorView {
    InvalidVersion,
    UnknownMessageType,
    UnexpectedStart(Seq<char>),
    ExpectedStart(Seq<char>),
    MissingAttribute(Seq<char>),
    UnexpectedAttribute(Seq<char>),
    MalformedXml(XmlError),
    MalformedUri(UriError),
    PayloadError(PayloadError),
}

impl View for MessageError {
    type V = MessageErrorView;

    open spec fn view(&self) -> MessageErrorView {
        match self {
            MessageError::InvalidVersion => MessageErrorView::InvalidVersion,
            MessageError::UnknownMessageType => MessageErrorView::UnknownMessageType,
            MessageError::UnexpectedStart(n) => MessageErrorView::UnexpectedStart(n@),
            MessageError::ExpectedStart(d) => MessageErrorView::ExpectedStart(d@),
            MessageError::MissingAttribute(n) => MessageErrorView::MissingAttribute(n@),
            MessageError::UnexpectedAttribute(n) => MessageErrorView::UnexpectedAttribute(n@),
            MessageError::MalformedXml(e) => MessageErrorView::MalformedXml(*e),
            MessageError::MalformedUri(e) => MessageErrorView::MalformedUri(*e),
            MessageError::PayloadError(e) => MessageErrorView::PayloadError(*e),
        }
    }
}

impl From<XmlError> for MessageError {
    /// A document that is malformed is a message that is.
    fn from(e: XmlError) -> (r: MessageError) {
        MessageError::MalformedXml(e)
    }
}

impl vstd::std_specs::convert::FromSpecImpl<XmlError> for MessageError {
    open spec fn obeys_from_spec() -> bool {
        true
    }

    open spec fn from_spec(e: XmlError) -> MessageError {
        MessageError::MalformedXml(e)
    }
}

impl From<UriError> for MessageError {
    /// A URI that is not accepted makes a message that is malformed.
    fn from(e: UriError) -> (r: MessageError) {
        MessageError::MalformedUri(e)
    }
}

impl vstd::std_specs::convert::FromSpecImpl<UriError> for MessageError {
    open spec fn obeys_from_spec() -> bool {
        true
    }

    open spec fn from_spec(e: UriError) -> MessageError {
        MessageError::MalformedUri(e)
    }
}

impl From<PayloadError> for MessageError {
    /// A payload that is not accepted makes a message that is not.
    fn from(e: PayloadError) -> (r: MessageError) {
        MessageError::PayloadError(e)
    }
}

impl vstd::std_specs::convert::FromSpecImpl<PayloadError> for MessageError {
    open spec fn obeys_from_spec() -> bool {
        true
    }

    open spec fn from_spec(e: PayloadError) -> MessageError {
        MessageError::PayloadError(e)
    }
}

} // verus!
