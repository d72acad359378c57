use rfc8181::pubmsg::{
    find_payload_kind, Message, MessageClass, MessageError, PayloadError, PayloadKind, NS, VERSION,
};
use rfc8181::query::{ListQuery, Publish, PublishElement, PublishQuery, Withdraw};
use rfc8181::reply::{ListElement, ListReply, SuccessReply};
use std::str;

const PUBLISH_XML: &str = "<msg xmlns=\"http://www.hactrn.net/uris/rpki/publication-spec/\" version=\"4\" type=\"query\"><publish tag=\"\" uri=\"rsync://wombat.example/Alice/blCrcCp9ltyPDNzYKPfxc.cer\">MIIDnDCCAoSgAwIBAgIBAjANBgkqhkiG9w0BAQsFADAzMTEwLwYDVQQDEyhE</publish><publish tag=\"\" uri=\"rsync://wombat.example/Alice/blCrcCp9ltyPDNzYKPfxc.crl\" hash=\"01a97a70ac477f06\">MIIBezBlAgEBMA0GCSqGSIb3DQEBCwUAMDMx</publish><withdraw tag=\"\" uri=\"rsync://wombat.example/Alice/blCrcCp9ltyPDNzYKPfxc.mft\" hash=\"deadf00d\"/></msg>";

const LIST_XML: &str = "<msg xmlns=\"http://www.hactrn.net/uris/rpki/publication-spec/\" version=\"4\" type=\"query\"><list/></msg>";

const SUCCESS_XML: &str = "<msg xmlns=\"http://www.hactrn.net/uris/rpki/publication-spec/\" version=\"4\" type=\"reply\"><success/></msg>";

const LIST_REPLY_XML: &str = "<msg xmlns=\"http://www.hactrn.net/uris/rpki/publication-spec/\" version=\"4\" type=\"reply\"><list uri=\"rsync://wombat.example/Alice/blCrcCp9ltyPDNzYKPfxc.cer\" hash=\"eb719b72f0648cf4\"/><list uri=\"rsync://wombat.example/Alice/blCrcCp9ltyPDNzYKPfxc.crl\" hash=\"01a97a70ac477f06\"/></msg>";

fn bytes(s: &str) -> Vec<u8> {
    s.as_bytes().to_vec()
}

#[test]
fn should_parse_multi_element_query() {
    let xml = PUBLISH_XML;
    Message::decode(xml.as_bytes()).unwrap();
}

#[test]
fn should_encode_multi_element_query() {
    let xml = PUBLISH_XML;
    let pm = Message::decode(xml.as_bytes()).unwrap();
    let vec = pm.encode_vec();
    let encoded = str::from_utf8(&vec).unwrap();
    let pm_from_encoded = Message::decode(encoded.as_bytes()).unwrap();
    assert_eq!(pm, pm_from_encoded);
    assert_eq!(xml, encoded);
}

#[test]
fn should_parse_list_query() {
    let xml = LIST_XML;
    let l = Message::decode(xml.as_bytes()).unwrap();
    let vec = l.encode_vec();
    let xml_enc = str::from_utf8(&vec).unwrap();
    let l_from_enc = Message::decode(xml_enc.as_bytes()).unwrap();
    assert_eq!(l, l_from_enc);
    assert_eq!(xml, xml_enc);
}

#[test]
fn should_parse_success_reply() {
    let xml = SUCCESS_XML;
    let s = Message::decode(xml.as_bytes()).unwrap();
    let vec = s.encode_vec();
    let xml_enc = str::from_utf8(&vec).unwrap();
    let s_from_enc = Message::decode(xml_enc.as_bytes()).unwrap();
    assert_eq!(s, s_from_enc);
    assert_eq!(xml, xml_enc);
}

#[test]
fn should_parse_list_reply() {
    let xml = LIST_REPLY_XML;
    let r = Message::decode(xml.as_bytes()).unwrap();
    let vec = r.encode_vec();
    let xml_enc = str::from_utf8(&vec).unwrap();
    let r_from_enc = Message::decode(xml_enc.as_bytes()).unwrap();
    assert_eq!(r, r_from_enc);
    assert_eq!(xml, xml_enc);
}

#[test]
fn constants_are_those_of_the_protocol() {
    assert_eq!(VERSION, "4");
    assert_eq!(NS, "http://www.hactrn.net/uris/rpki/publication-spec/");
}

#[test]
fn multi_element_query_decodes_to_its_elements() {
    let pm = Message::decode(PUBLISH_XML.as_bytes()).unwrap();
    let expected = Message::PublishQuery(PublishQuery {
        elements: vec![
            PublishElement::Publish(Publish {
                tag: Some(Vec::new()),
                uri: bytes("rsync://wombat.example/Alice/blCrcCp9ltyPDNzYKPfxc.cer"),
                hash: None,
                content: bytes("MIIDnDCCAoSgAwIBAgIBAjANBgkqhkiG9w0BAQsFADAzMTEwLwYDVQQDEyhE"),
            }),
            PublishElement::Publish(Publish {
                tag: Some(Vec::new()),
                uri: bytes("rsync://wombat.example/Alice/blCrcCp9ltyPDNzYKPfxc.crl"),
                hash: Some(bytes("01a97a70ac477f06")),
                content: bytes("MIIBezBlAgEBMA0GCSqGSIb3DQEBCwUAMDMx"),
            }),
            PublishElement::Withdraw(Withdraw {
                tag: Some(Vec::new()),
                uri: bytes("rsync://wombat.example/Alice/blCrcCp9ltyPDNzYKPfxc.mft"),
                hash: bytes("deadf00d"),
            }),
        ],
    });
    assert_eq!(pm, expected);
    assert_eq!(pm.class(), MessageClass::Query);
}

#[test]
fn list_query_decodes_to_the_empty_payload() {
    let m = Message::decode(LIST_XML.as_bytes()).unwrap();
    assert_eq!(m, Message::ListQuery(ListQuery {}));
    assert_eq!(m.class(), MessageClass::Query);
    assert_eq!(m.encode_vec(), LIST_XML.as_bytes().to_vec());
}

#[test]
fn success_reply_decodes_to_the_empty_payload() {
    let m = Message::decode(SUCCESS_XML.as_bytes()).unwrap();
    assert_eq!(m, Message::SuccessReply(SuccessReply {}));
    assert_eq!(m.class(), MessageClass::Reply);
}

#[test]
fn list_reply_decodes_to_its_elements() {
    let m = Message::decode(LIST_REPLY_XML.as_bytes()).unwrap();
    let expected = Message::ListReply(ListReply {
        elements: vec![
            ListElement {
                uri: bytes("rsync://wombat.example/Alice/blCrcCp9ltyPDNzYKPfxc.cer"),
                hash: bytes("eb719b72f0648cf4"),
            },
            ListElement {
                uri: bytes("rsync://wombat.example/Alice/blCrcCp9ltyPDNzYKPfxc.crl"),
                hash: bytes("01a97a70ac477f06"),
            },
        ],
    });
    assert_eq!(m, expected);
    assert_eq!(m.class(), MessageClass::Reply);
}

#[test]
fn composed_message_encodes_to_exact_bytes() {
    let m = Message::PublishQuery(PublishQuery {
        elements: vec![
            PublishElement::Withdraw(Withdraw {
                tag: None,
                uri: bytes("rsync://host/a.cer"),
                hash: bytes("AB12"),
            }),
            PublishElement::Publish(Publish {
                tag: Some(bytes("a<b>&\"c'")),
                uri: bytes("rsync://host/b.cer"),
                hash: None,
                content: Vec::new(),
            }),
        ],
    });
    let expected = "<msg xmlns=\"http://www.hactrn.net/uris/rpki/publication-spec/\" version=\"4\" type=\"query\"><withdraw uri=\"rsync://host/a.cer\" hash=\"AB12\"/><publish tag=\"a&lt;b&gt;&amp;&quot;c&apos;\" uri=\"rsync://host/b.cer\"/></msg>";
    let encoded = m.encode_vec();
    assert_eq!(str::from_utf8(&encoded).unwrap(), expected);
    assert_eq!(Message::decode(&encoded).unwrap(), m);
}

#[test]
fn each_kind_round_trips_from_bytes() {
    for xml in [PUBLISH_XML, LIST_XML, SUCCESS_XML, LIST_REPLY_XML] {
        let first = Message::decode(xml.as_bytes()).unwrap();
        let encoded = first.encode_vec();
        assert_eq!(encoded, xml.as_bytes().to_vec());
        let second = Message::decode(&encoded).unwrap();
        assert_eq!(first, second);
    }
}

#[test]
fn report_error_reply_is_refused_as_unsupported() {
    let xml = "<msg xmlns=\"http://www.hactrn.net/uris/rpki/publication-spec/\" version=\"4\" type=\"reply\"><report_error error_code=\"permission_failure\"/></msg>";
    assert_eq!(
        Message::decode(xml.as_bytes()),
        Err(MessageError::PayloadError(PayloadError::UnsupportedErrorReply))
    );
}

#[test]
fn payload_kinds_follow_class_and_name() {
    let q = MessageClass::Query;
    let r = MessageClass::Reply;
    assert_eq!(find_payload_kind(q, b"list"), Some(PayloadKind::ListQuery));
    assert_eq!(find_payload_kind(q, b"publish"), Some(PayloadKind::PublishQuery));
    assert_eq!(find_payload_kind(q, b"withdraw"), Some(PayloadKind::PublishQuery));
    assert_eq!(find_payload_kind(q, b"success"), None);
    assert_eq!(find_payload_kind(q, b"report_error"), None);
    assert_eq!(find_payload_kind(q, b"delete"), None);
    assert_eq!(find_payload_kind(q, b"List"), None);
    assert_eq!(find_payload_kind(q, b""), None);
    assert_eq!(find_payload_kind(r, b"success"), Some(PayloadKind::SuccessReply));
    assert_eq!(find_payload_kind(r, b"list"), Some(PayloadKind::ListReply));
    assert_eq!(find_payload_kind(r, b"report_error"), Some(PayloadKind::ErrorReply));
    assert_eq!(find_payload_kind(r, b"publish"), None);
    assert_eq!(find_payload_kind(r, b"withdraw"), None);
    assert_eq!(Message::decode(LIST_XML.as_bytes()).unwrap().kind(), PayloadKind::ListQuery);
    assert_eq!(Message::decode(PUBLISH_XML.as_bytes()).unwrap().kind(), PayloadKind::PublishQuery);
    assert_eq!(Message::decode(SUCCESS_XML.as_bytes()).unwrap().kind(), PayloadKind::SuccessReply);
    assert_eq!(Message::decode(LIST_REPLY_XML.as_bytes()).unwrap().kind(), PayloadKind::ListReply);
}

#[test]
fn errors_of_the_parts_become_errors_of_the_message() {
    assert_eq!(
        MessageError::from(rfc8181::token::XmlError::InvalidTag),
        MessageError::MalformedXml(rfc8181::token::XmlError::InvalidTag)
    );
    assert_eq!(
        MessageError::from(rfc8181::error::UriError::NoHost),
        MessageError::MalformedUri(rfc8181::error::UriError::NoHost)
    );
    assert_eq!(
        MessageError::from(PayloadError::InvalidHash),
        MessageError::PayloadError(PayloadError::InvalidHash)
    );
}
