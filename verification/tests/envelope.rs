use rfc8181::pubmsg::{Message, MessageError, PayloadError};
use rfc8181::error::UriError;
use rfc8181::query::{ListQuery, Publish, PublishElement, PublishQuery, Withdraw};
use rfc8181::reply::SuccessReply;
use rfc8181::token::XmlError;

fn decode(xml: &str) -> Result<Message, MessageError> {
    Message::decode(xml.as_bytes())
}

fn name(s: &str) -> Vec<u8> {
    s.as_bytes().to_vec()
}

#[test]
fn other_version_is_invalid() {
    let xml = "<msg xmlns=\"http://www.hactrn.net/uris/rpki/publication-spec/\" version=\"3\" type=\"query\"><list/></msg>";
    assert_eq!(decode(xml), Err(MessageError::InvalidVersion));
    let xml = "<msg version=\"5\" type=\"query\"><list/></msg>";
    assert_eq!(decode(xml), Err(MessageError::InvalidVersion));
    let xml = "<msg version=\"\" type=\"query\"><list/></msg>";
    assert_eq!(decode(xml), Err(MessageError::InvalidVersion));
    let xml = "<msg version=\"44\" type=\"query\"><list/></msg>";
    assert_eq!(decode(xml), Err(MessageError::InvalidVersion));
}

#[test]
fn invalid_version_comes_before_other_envelope_faults() {
    assert_eq!(decode("<msg version=\"3\" type=\"notify\"/>"), Err(MessageError::InvalidVersion));
    assert_eq!(decode("<msg version=\"3\"/>"), Err(MessageError::InvalidVersion));
    assert_eq!(
        decode("<msg version=\"3\" type=\"query\" foo=\"bar\"><list/></msg>"),
        Err(MessageError::InvalidVersion)
    );
}

#[test]
fn other_type_is_unknown() {
    let xml = "<msg xmlns=\"http://www.hactrn.net/uris/rpki/publication-spec/\" version=\"4\" type=\"notify\"><list/></msg>";
    assert_eq!(decode(xml), Err(MessageError::UnknownMessageType));
    assert_eq!(decode("<msg version=\"4\" type=\"Query\"><list/></msg>"), Err(MessageError::UnknownMessageType));
    assert_eq!(decode("<msg version=\"4\" type=\"\"/>"), Err(MessageError::UnknownMessageType));
}

#[test]
fn missing_version_is_named() {
    let xml = "<msg xmlns=\"http://www.hactrn.net/uris/rpki/publication-spec/\" type=\"query\"><list/></msg>";
    assert_eq!(decode(xml), Err(MessageError::MissingAttribute("version".to_string())));
}

#[test]
fn missing_type_is_named() {
    let xml = "<msg xmlns=\"http://www.hactrn.net/uris/rpki/publication-spec/\" version=\"4\"><list/></msg>";
    assert_eq!(decode(xml), Err(MessageError::MissingAttribute("type".to_string())));
}

#[test]
fn extra_attribute_is_unexpected() {
    let xml = "<msg xmlns=\"http://www.hactrn.net/uris/rpki/publication-spec/\" version=\"4\" type=\"query\" foo=\"bar\"><list/></msg>";
    assert_eq!(decode(xml), Err(MessageError::UnexpectedAttribute("foo".to_string())));
    let xml = "<msg foo=\"bar\" version=\"4\" type=\"notify\" baz=\"\"><list/></msg>";
    assert_eq!(decode(xml), Err(MessageError::UnexpectedAttribute("foo".to_string())));
}

#[test]
fn repeated_attribute_is_unexpected() {
    let xml = "<msg version=\"4\" type=\"query\" type=\"reply\"><list/></msg>";
    assert_eq!(decode(xml), Err(MessageError::UnexpectedAttribute("type".to_string())));
}

#[test]
fn namespace_declarations_are_no_attributes() {
    assert_eq!(decode("<msg version=\"4\" type=\"query\"><list/></msg>"), Ok(Message::ListQuery(ListQuery {})));
    let xml = "<msg xmlns:p=\"urn:x\" version=\"4\" xmlns=\"urn:y\" type=\"reply\"><success xmlns=\"urn:z\"/></msg>";
    assert_eq!(decode(xml), Ok(Message::SuccessReply(SuccessReply {})));
    assert_eq!(
        decode("<msg xmlnsx=\"urn:x\" version=\"4\" type=\"query\"><list/></msg>"),
        Err(MessageError::UnexpectedAttribute("xmlnsx".to_string()))
    );
}

#[test]
fn other_root_is_refused() {
    assert_eq!(decode("<message version=\"4\" type=\"query\"><list/></message>"), Err(MessageError::ExpectedStart("msg".to_string())));
    assert_eq!(decode(""), Err(MessageError::ExpectedStart("msg".to_string())));
    assert_eq!(decode("  \n "), Err(MessageError::ExpectedStart("msg".to_string())));
    assert_eq!(decode("hello"), Err(MessageError::ExpectedStart("msg".to_string())));
    assert_eq!(decode("</msg>"), Err(MessageError::ExpectedStart("msg".to_string())));
}

#[test]
fn withdraw_leads_to_a_publish_query() {
    let xml = "<msg version=\"4\" type=\"query\"><withdraw uri=\"rsync://host/a\" hash=\"00ff\"/></msg>";
    let expected = Message::PublishQuery(PublishQuery {
        elements: vec![PublishElement::Withdraw(Withdraw {
            tag: None,
            uri: name("rsync://host/a"),
            hash: name("00ff"),
        })],
    });
    assert_eq!(decode(xml), Ok(expected));
}

#[test]
fn other_start_tag_in_a_query_is_unexpected() {
    let xml = "<msg version=\"4\" type=\"query\"><delete/></msg>";
    assert_eq!(decode(xml), Err(MessageError::UnexpectedStart("delete".to_string())));
    let xml = "<msg version=\"4\" type=\"query\"><success/></msg>";
    assert_eq!(decode(xml), Err(MessageError::UnexpectedStart("success".to_string())));
    let xml = "<msg version=\"4\" type=\"query\"><report_error/></msg>";
    assert_eq!(decode(xml), Err(MessageError::UnexpectedStart("report_error".to_string())));
}

#[test]
fn other_start_tag_in_a_reply_is_unexpected() {
    let xml = "<msg version=\"4\" type=\"reply\"><publish uri=\"rsync://host/a\"/></msg>";
    assert_eq!(decode(xml), Err(MessageError::UnexpectedStart("publish".to_string())));
    let xml = "<msg version=\"4\" type=\"reply\"><withdraw/></msg>";
    assert_eq!(decode(xml), Err(MessageError::UnexpectedStart("withdraw".to_string())));
}

#[test]
fn absent_payload_is_described() {
    let query = MessageError::ExpectedStart("list, publish, or withdraw".to_string());
    assert_eq!(decode("<msg version=\"4\" type=\"query\"></msg>"), Err(query.clone()));
    assert_eq!(decode("<msg version=\"4\" type=\"query\"/>"), Err(query.clone()));
    assert_eq!(decode("<msg version=\"4\" type=\"query\">text<list/></msg>"), Err(query.clone()));
    assert_eq!(decode("<msg version=\"4\" type=\"query\">"), Err(query));
    let reply = MessageError::ExpectedStart("success, list, or report_error".to_string());
    assert_eq!(decode("<msg version=\"4\" type=\"reply\"></msg>"), Err(reply.clone()));
    assert_eq!(decode("<msg version=\"4\" type=\"reply\"/>"), Err(reply));
}

#[test]
fn msg_must_end_after_the_payload() {
    let expected_end = Err(MessageError::MalformedXml(XmlError::ExpectedEnd));
    assert_eq!(decode("<msg version=\"4\" type=\"query\"><list/><list/></msg>"), expected_end);
    assert_eq!(decode("<msg version=\"4\" type=\"query\"><list/>"), expected_end);
    assert_eq!(decode("<msg version=\"4\" type=\"query\"><list/></message>"), expected_end);
    assert_eq!(decode("<msg version=\"4\" type=\"query\"><list/>x</msg>"), expected_end);
    assert_eq!(decode("<msg version=\"4\" type=\"reply\"><success><a/></success></msg>"), expected_end);
    assert_eq!(decode("<msg version=\"4\" type=\"reply\"><success/><list uri=\"rsync://h/a\" hash=\"00\"/></msg>"), expected_end);
    assert_eq!(
        decode("<msg version=\"4\" type=\"query\"><list/></msg><msg/>"),
        Err(MessageError::MalformedXml(XmlError::TrailingContent))
    );
    assert_eq!(
        decode("<msg version=\"4\" type=\"query\"><list/></msg>trailer"),
        Err(MessageError::MalformedXml(XmlError::TrailingContent))
    );
}

#[test]
fn whitespace_and_quoting_are_free() {
    let xml = "\n<msg\n    xmlns = 'http://www.hactrn.net/uris/rpki/publication-spec/'\n    version='4'\ttype = \"query\" >\r\n  <list ></list >\n</msg >\n";
    assert_eq!(decode(xml), Ok(Message::ListQuery(ListQuery {})));
    let xml = "<msg version=\"4\" type=\"reply\">\n  <success>\n  </success>\n</msg>";
    assert_eq!(decode(xml), Ok(Message::SuccessReply(SuccessReply {})));
}

#[test]
fn bytes_that_are_no_document_are_malformed() {
    assert_eq!(decode("<msg version=\"4\" type=\"query\""), Err(MessageError::MalformedXml(XmlError::UnexpectedEof)));
    assert_eq!(decode("<"), Err(MessageError::MalformedXml(XmlError::UnexpectedEof)));
    assert_eq!(decode("</"), Err(MessageError::MalformedXml(XmlError::UnexpectedEof)));
    assert_eq!(decode("<msg version"), Err(MessageError::MalformedXml(XmlError::UnexpectedEof)));
    assert_eq!(decode("<msg version="), Err(MessageError::MalformedXml(XmlError::UnexpectedEof)));
    assert_eq!(decode("<msg version=\"4"), Err(MessageError::MalformedXml(XmlError::UnexpectedEof)));
    assert_eq!(decode("<msg /"), Err(MessageError::MalformedXml(XmlError::UnexpectedEof)));
    assert_eq!(decode("<msg></msg"), Err(MessageError::MalformedXml(XmlError::UnexpectedEof)));
    assert_eq!(decode("<1msg/>"), Err(MessageError::MalformedXml(XmlError::InvalidName)));
    assert_eq!(decode("< msg/>"), Err(MessageError::MalformedXml(XmlError::InvalidName)));
    assert_eq!(decode("<msg></ msg>"), Err(MessageError::MalformedXml(XmlError::InvalidName)));
    assert_eq!(decode("<msg 4=\"4\"/>"), Err(MessageError::MalformedXml(XmlError::InvalidName)));
    assert_eq!(decode("<!DOCTYPE msg><msg/>"), Err(MessageError::MalformedXml(XmlError::InvalidName)));
    assert_eq!(decode("<![CDATA[x]]>"), Err(MessageError::MalformedXml(XmlError::InvalidName)));
    assert_eq!(decode("<?xml version=\"1.0\"><msg/>"), Err(MessageError::MalformedXml(XmlError::UnexpectedEof)));
    assert_eq!(decode("<msg><!-- no end -></msg>"), Err(MessageError::MalformedXml(XmlError::UnexpectedEof)));
    assert_eq!(decode("<msg><!- x --></msg>"), Err(MessageError::MalformedXml(XmlError::InvalidName)));
    assert_eq!(decode("<msg?>"), Err(MessageError::MalformedXml(XmlError::InvalidTag)));
    assert_eq!(decode("<msg / >"), Err(MessageError::MalformedXml(XmlError::InvalidTag)));
    assert_eq!(decode("<msg></msg x>"), Err(MessageError::MalformedXml(XmlError::InvalidTag)));
    assert_eq!(decode("<msg version=\"4\"type=\"query\"/>"), Err(MessageError::MalformedXml(XmlError::InvalidTag)));
    assert_eq!(decode("<msg version>"), Err(MessageError::MalformedXml(XmlError::InvalidAttribute)));
    assert_eq!(decode("<msg version=4>"), Err(MessageError::MalformedXml(XmlError::InvalidAttribute)));
    assert_eq!(decode("<msg version=\"<4\">"), Err(MessageError::MalformedXml(XmlError::InvalidAttribute)));
    assert_eq!(decode("<msg version=\"&four;\"/>"), Err(MessageError::MalformedXml(XmlError::InvalidReference)));
    assert_eq!(decode("<msg version=\"4\" type=\"query\">a & b</msg>"), Err(MessageError::MalformedXml(XmlError::InvalidReference)));
    assert_eq!(decode("<msg>&amp</msg>"), Err(MessageError::MalformedXml(XmlError::InvalidReference)));
}

#[test]
fn malformed_bytes_come_before_envelope_faults() {
    assert_eq!(
        decode("<msg version=\"3\" type=\"query\"><list/></msg><"),
        Err(MessageError::MalformedXml(XmlError::UnexpectedEof))
    );
}

#[test]
fn uri_must_be_an_rsync_uri() {
    let with = |uri: &str| {
        let xml = format!("<msg version=\"4\" type=\"query\"><withdraw uri=\"{}\" hash=\"00\"/></msg>", uri);
        Message::decode(xml.as_bytes())
    };
    assert_eq!(with("https://host/a"), Err(MessageError::MalformedUri(UriError::BadScheme)));
    assert_eq!(with("rsync:/host/a"), Err(MessageError::MalformedUri(UriError::BadScheme)));
    assert_eq!(with("RSYNC://host/a"), Err(MessageError::MalformedUri(UriError::BadScheme)));
    assert_eq!(with(""), Err(MessageError::MalformedUri(UriError::BadScheme)));
    assert_eq!(with("rsync://"), Err(MessageError::MalformedUri(UriError::NoHost)));
    assert_eq!(with("rsync://host/a b"), Err(MessageError::MalformedUri(UriError::BadByte)));
    assert_eq!(with("rsync://host/\u{e9}"), Err(MessageError::MalformedUri(UriError::BadByte)));
    assert!(with("rsync://h").is_ok());
    assert!(with("rsync://host/module/~!$&amp;'()*+,;=:@-._").is_ok());
}

#[test]
fn payload_attributes_are_checked() {
    let q = |body: &str| {
        let xml = format!("<msg version=\"4\" type=\"query\">{}</msg>", body);
        Message::decode(xml.as_bytes())
    };
    let r = |body: &str| {
        let xml = format!("<msg version=\"4\" type=\"reply\">{}</msg>", body);
        Message::decode(xml.as_bytes())
    };
    assert_eq!(q("<publish/>"), Err(MessageError::MissingAttribute("uri".to_string())));
    assert_eq!(q("<withdraw hash=\"00\"/>"), Err(MessageError::MissingAttribute("uri".to_string())));
    assert_eq!(q("<withdraw uri=\"rsync://h/a\"/>"), Err(MessageError::MissingAttribute("hash".to_string())));
    assert_eq!(r("<list uri=\"rsync://h/a\"/>"), Err(MessageError::MissingAttribute("hash".to_string())));
    assert_eq!(r("<list hash=\"00\"/>"), Err(MessageError::MissingAttribute("uri".to_string())));
    assert_eq!(q("<list tag=\"t\"/>"), Err(MessageError::UnexpectedAttribute("tag".to_string())));
    assert_eq!(r("<success tag=\"t\"/>"), Err(MessageError::UnexpectedAttribute("tag".to_string())));
    assert_eq!(
        r("<list tag=\"t\" uri=\"rsync://h/a\" hash=\"00\"/>"),
        Err(MessageError::UnexpectedAttribute("tag".to_string()))
    );
    assert_eq!(
        q("<publish uri=\"rsync://h/a\" size=\"3\">AAAA</publish>"),
        Err(MessageError::UnexpectedAttribute("size".to_string()))
    );
    assert_eq!(
        q("<withdraw uri=\"rsync://h/a\" hash=\"00\" uri=\"rsync://h/b\"/>"),
        Err(MessageError::UnexpectedAttribute("uri".to_string()))
    );
}

#[test]
fn hash_and_content_are_checked() {
    let q = |body: &str| {
        let xml = format!("<msg version=\"4\" type=\"query\">{}</msg>", body);
        Message::decode(xml.as_bytes())
    };
    let invalid_hash = Err(MessageError::PayloadError(PayloadError::InvalidHash));
    assert_eq!(q("<withdraw uri=\"rsync://h/a\" hash=\"\"/>"), invalid_hash);
    assert_eq!(q("<withdraw uri=\"rsync://h/a\" hash=\"xyz\"/>"), invalid_hash);
    assert_eq!(q("<publish uri=\"rsync://h/a\" hash=\"12 34\">AAAA</publish>"), invalid_hash);
    let invalid_content = Err(MessageError::PayloadError(PayloadError::InvalidContent));
    assert_eq!(q("<publish uri=\"rsync://h/a\">AA*A</publish>"), invalid_content);
    assert_eq!(q("<publish uri=\"rsync://h/a\">AA&amp;A</publish>"), invalid_content);
    let expected_end = Err(MessageError::MalformedXml(XmlError::ExpectedEnd));
    assert_eq!(q("<publish uri=\"rsync://h/a\"><b/></publish>"), expected_end);
    assert_eq!(q("<publish uri=\"rsync://h/a\">AAAA<b/></publish>"), expected_end);
    assert_eq!(q("<withdraw uri=\"rsync://h/a\" hash=\"00\">AAAA</withdraw>"), expected_end);
}

#[test]
fn publish_content_is_kept_as_written() {
    let xml = "<msg version=\"4\" type=\"query\"><publish uri=\"rsync://h/a\">\n  AAAA\n  BB==\n</publish><publish uri='rsync://h/b'></publish> <publish uri='rsync://h/c'/></msg>";
    let expected = Message::PublishQuery(PublishQuery {
        elements: vec![
            PublishElement::Publish(Publish {
                tag: None,
                uri: name("rsync://h/a"),
                hash: None,
                content: name("\n  AAAA\n  BB==\n"),
            }),
            PublishElement::Publish(Publish {
                tag: None,
                uri: name("rsync://h/b"),
                hash: None,
                content: Vec::new(),
            }),
            PublishElement::Publish(Publish {
                tag: None,
                uri: name("rsync://h/c"),
                hash: None,
                content: Vec::new(),
            }),
        ],
    });
    let decoded = decode(xml).unwrap();
    assert_eq!(decoded, expected);
    let encoded = decoded.encode_vec();
    assert_eq!(
        String::from_utf8(encoded.clone()).unwrap(),
        "<msg xmlns=\"http://www.hactrn.net/uris/rpki/publication-spec/\" version=\"4\" type=\"query\"><publish uri=\"rsync://h/a\">\n  AAAA\n  BB==\n</publish><publish uri=\"rsync://h/b\"/><publish uri=\"rsync://h/c\"/></msg>"
    );
    assert_eq!(Message::decode(&encoded), Ok(expected));
}

#[test]
fn escaped_tag_round_trips() {
    let xml = "<msg version='4' type='query'><withdraw tag='&lt;&gt;&amp;&quot;&apos;\"x' uri='rsync://h/a' hash='0f'/></msg>";
    let expected = Message::PublishQuery(PublishQuery {
        elements: vec![PublishElement::Withdraw(Withdraw {
            tag: Some(name("<>&\"'\"x")),
            uri: name("rsync://h/a"),
            hash: name("0f"),
        })],
    });
    let decoded = decode(xml).unwrap();
    assert_eq!(decoded, expected);
    assert_eq!(Message::decode(&decoded.encode_vec()), Ok(expected));
}

#[test]
fn declaration_and_comments_are_passed_over() {
    let xml = "<?xml version=\"1.0\" encoding=\"UTF-8\"?>\n<!-- a query -->\n<msg version=\"4\" type=\"query\"><!-- <delete/> --><list/><?pi?></msg>\n<!---->";
    assert_eq!(decode(xml), Ok(Message::ListQuery(ListQuery {})));
    assert_eq!(decode("<?xml version=\"1.0\"?><msg/>"), Err(MessageError::MissingAttribute("version".to_string())));
    assert_eq!(decode("<!---->"), Err(MessageError::ExpectedStart("msg".to_string())));
    let xml = "<msg version=\"4\" type=\"query\"><publish uri=\"rsync://h/a\">AA<!-- -->AA</publish></msg>";
    assert_eq!(decode(xml), Err(MessageError::MalformedXml(XmlError::ExpectedEnd)));
}

#[test]
fn well_formed_messages_are_those_that_come_back() {
    let good = Message::PublishQuery(PublishQuery {
        elements: vec![PublishElement::Publish(Publish {
            tag: Some(name("t")),
            uri: name("rsync://h/a"),
            hash: Some(name("0123456789abcdefABCDEF")),
            content: name("QUJD\nREVG+/=="),
        })],
    });
    assert!(good.is_well_formed());
    assert_eq!(Message::decode(&good.encode_vec()), Ok(good));

    let empty = Message::PublishQuery(PublishQuery { elements: Vec::new() });
    assert!(!empty.is_well_formed());
    assert_eq!(
        Message::decode(&empty.encode_vec()),
        Err(MessageError::ExpectedStart("list, publish, or withdraw".to_string()))
    );

    let bad_uri = Message::PublishQuery(PublishQuery {
        elements: vec![PublishElement::Withdraw(Withdraw {
            tag: None,
            uri: name("http://h/a"),
            hash: name("00"),
        })],
    });
    assert!(!bad_uri.is_well_formed());
    assert_eq!(Message::decode(&bad_uri.encode_vec()), Err(MessageError::MalformedUri(UriError::BadScheme)));

    let bad_hash = Message::PublishQuery(PublishQuery {
        elements: vec![PublishElement::Publish(Publish {
            tag: None,
            uri: name("rsync://h/a"),
            hash: Some(name("")),
            content: Vec::new(),
        })],
    });
    assert!(!bad_hash.is_well_formed());
    assert_eq!(Message::decode(&bad_hash.encode_vec()), Err(MessageError::PayloadError(PayloadError::InvalidHash)));

    let bad_content = Message::PublishQuery(PublishQuery {
        elements: vec![PublishElement::Publish(Publish {
            tag: None,
            uri: name("rsync://h/a"),
            hash: None,
            content: name("<>"),
        })],
    });
    assert!(!bad_content.is_well_formed());
    assert_eq!(Message::decode(&bad_content.encode_vec()), Err(MessageError::PayloadError(PayloadError::InvalidContent)));

    assert!(Message::ListQuery(ListQuery {}).is_well_formed());
    assert!(Message::SuccessReply(SuccessReply {}).is_well_formed());
}

#[test]
fn names_in_errors_are_printable() {
    assert_eq!(
        decode("<msg version='4' type='query'><a:b-c.d_9/></msg>"),
        Err(MessageError::UnexpectedStart("a:b-c.d_9".to_string()))
    );
    assert_eq!(
        decode("<msg version='4' type='query' _x.y-z:0='1'><list/></msg>"),
        Err(MessageError::UnexpectedAttribute("_x.y-z:0".to_string()))
    );
}
