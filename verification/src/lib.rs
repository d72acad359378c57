//! Messages of the RPKI publication protocol (RFC 8181): one `msg` element
//! that carries the protocol version, the class of the message, `query` or
//! `reply`, and one payload.
//!
//! [`pubmsg::Message::decode`] reads a message from the bytes of a document
//! and [`pubmsg::Message::encode_vec`] writes one. What each returns is
//! stated over [`pubmsg::decoding`] and [`pubmsg::encoding`], and [`laws`]
//! holds what is proved of the two: decoding the bytes of a message gives
//! the message back, and the envelope is refused exactly where its version,
//! its type or its attributes are not in order.
//!
//! The reader understands the XML that the protocol uses: elements with
//! ASCII names, attributes in double or single quotes, character data, the
//! five predefined entity references, and whitespace between markup.
//! Comments, processing instructions and the XML declaration are passed
//! over. Document type declarations, CDATA sections and character
//! references are refused as malformed. Attribute values and character
//! data are bytes: the reader hands them on as they stand, unescaped, and
//! does not ask what encoding they are in. The writer puts no whitespace
//! between markup, writes attribute values in double quotes, and writes an
//! element without content as one tag.

pub mod chars;
pub mod escape;
pub mod token;
pub mod lexer;
pub mod writer;
pub mod stand;
pub mod canonical;
pub mod names;
pub mod attrs;
pub mod error;
pub mod uri;
pub mod element;
pub mod query;
pub mod reply;
pub mod pubmsg;
pub mod vocabulary;
pub mod roundtrip;
pub mod laws;
