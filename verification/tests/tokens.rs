use rfc8181::lexer::read_tokens;
use rfc8181::pubmsg::{Message, MessageError};
use rfc8181::query::ListQuery;
use rfc8181::reply::{ListElement, ListReply};
use rfc8181::token::{Attribute, Token, XmlError};
use rfc8181::writer::write_tokens;

fn b(s: &str) -> Vec<u8> {
    s.as_bytes().to_vec()
}

fn start(name: &str, attributes: Vec<(&str, &str)>, empty: bool) -> Token {
    Token::Start {
        name: b(name),
        attributes: attributes
            .into_iter()
            .map(|(n, v)| Attribute { name: b(n), value: b(v) })
            .collect(),
        empty,
    }
}

fn end(name: &str) -> Token {
    Token::End { name: b(name) }
}

fn text(content: &str) -> Token {
    Token::Text { content: b(content) }
}

#[test]
fn tokens_are_read_in_order() {
    let xml = "<a x=\"1\" y='&lt;2&gt;'>t &amp; u<b/></a >\n";
    let expected = vec![
        start("a", vec![("x", "1"), ("y", "<2>")], false),
        text("t & u"),
        start("b", vec![], true),
        end("a"),
        text("\n"),
    ];
    assert_eq!(read_tokens(xml.as_bytes()), Ok(expected));
    assert_eq!(read_tokens(b""), Ok(Vec::new()));
}

#[test]
fn tokens_are_written_without_whitespace() {
    let tokens = vec![
        start("a", vec![("x", "1"), ("y", "<2>'\"")], false),
        text("t & u > v"),
        start("b", vec![], true),
        end("a"),
    ];
    let written = write_tokens(&tokens);
    assert_eq!(
        String::from_utf8(written.clone()).unwrap(),
        "<a x=\"1\" y=\"&lt;2&gt;&apos;&quot;\">t &amp; u &gt; v<b/></a>"
    );
    assert_eq!(read_tokens(&written), Ok(tokens));
}

#[test]
fn names_are_ascii() {
    assert_eq!(read_tokens("<\u{e9}/>".as_bytes()), Err(XmlError::InvalidName));
    assert_eq!(
        read_tokens(b"<_a:b-c.d9/>"),
        Ok(vec![start("_a:b-c.d9", vec![], true)])
    );
    assert_eq!(read_tokens(b"<-a/>"), Err(XmlError::InvalidName));
}

#[test]
fn values_are_bytes() {
    let xml = "<a v=\"\u{e9}\">\u{4e16}\u{754c}</a>";
    assert_eq!(
        read_tokens(xml.as_bytes()),
        Ok(vec![start("a", vec![("v", "\u{e9}")], false), text("\u{4e16}\u{754c}"), end("a")])
    );
}

#[test]
fn messages_decode_from_tokens() {
    let tokens = vec![
        text(" "),
        start("msg", vec![("version", "4"), ("type", "query")], false),
        start("list", vec![], false),
        text("\n"),
        end("list"),
        end("msg"),
        text("\r\n"),
    ];
    assert_eq!(Message::decode_tokens(&tokens), Ok(Message::ListQuery(ListQuery {})));
    assert_eq!(Message::decode_tokens(&Vec::new()), Err(MessageError::ExpectedStart("msg".to_string())));
    let unbalanced = vec![
        start("msg", vec![("version", "4"), ("type", "query")], false),
        start("list", vec![], false),
        end("msg"),
    ];
    assert_eq!(
        Message::decode_tokens(&unbalanced),
        Err(MessageError::MalformedXml(XmlError::ExpectedEnd))
    );
}

#[test]
fn messages_encode_to_tokens() {
    let m = Message::ListReply(ListReply {
        elements: vec![ListElement { uri: b("rsync://h/a"), hash: b("0a") }],
    });
    let expected = vec![
        start(
            "msg",
            vec![
                ("xmlns", "http://www.hactrn.net/uris/rpki/publication-spec/"),
                ("version", "4"),
                ("type", "reply"),
            ],
            false,
        ),
        start("list", vec![("uri", "rsync://h/a"), ("hash", "0a")], true),
        end("msg"),
    ];
    assert_eq!(m.encode_tokens(), expected);
    assert_eq!(Message::decode_tokens(&expected), Ok(m));
}

#[test]
fn payload_positions_are_those_after_the_payload() {
    let tokens = vec![
        start("msg", vec![("version", "4"), ("type", "query")], false),
        text("  "),
        start("list", vec![], true),
        end("msg"),
    ];
    assert_eq!(Message::decode_query(&tokens, 1), Ok((Message::ListQuery(ListQuery {}), 3)));
    assert_eq!(
        Message::decode_reply(&tokens, 1),
        Err(MessageError::MissingAttribute("uri".to_string()))
    );
    assert_eq!(
        Message::decode_query(&tokens, 3),
        Err(MessageError::ExpectedStart("list, publish, or withdraw".to_string()))
    );
    assert_eq!(
        Message::decode_reply(&tokens, 4),
        Err(MessageError::ExpectedStart("success, list, or report_error".to_string()))
    );
}

#[test]
fn names_from_tokens_are_shown_byte_by_byte() {
    let tokens = vec![
        start("msg", vec![("version", "4"), ("type", "query")], false),
        Token::Start { name: vec![b'a', 0xc3, 0xa9, b' ', b'~', 0x7f, 0x1f], attributes: Vec::new(), empty: true },
        end("msg"),
    ];
    assert_eq!(
        Message::decode_tokens(&tokens),
        Err(MessageError::UnexpectedStart("a\u{fffd}\u{fffd} ~\u{fffd}\u{fffd}".to_string()))
    );
    assert_eq!(rfc8181::names::to_text(b""), String::new());
    assert_eq!(
        rfc8181::names::to_text(b" !\"#$%&'()*+,-./0123456789:;<=>?@ABCDEFGHIJKLMNOPQRSTUVWXYZ[\\]^_`abcdefghijklmnopqrstuvwxyz{|}~"),
        " !\"#$%&'()*+,-./0123456789:;<=>?@ABCDEFGHIJKLMNOPQRSTUVWXYZ[\\]^_`abcdefghijklmnopqrstuvwxyz{|}~"
    );
}
