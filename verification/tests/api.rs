//! API-level tests: request building, response handling, lookups.

use ipp::attribute::{IppAttribute, IppAttributeList};
use ipp::client::IppClient;
use ipp::parser::{decode_message, IppEnvelope};
use ipp::request::IppRequest;
use ipp::tags::{JOB_ATTRIBUTES_TAG, OPERATION_ATTRIBUTES_TAG};
use ipp::value::IppValue;
use ipp::{IppError, IppHeader, IPP_VERSION};

#[test]
fn new_request_carries_the_standard_attributes() {
    let req = IppRequest::new(0x0002, "ipp://host/printers/x");
    assert_eq!(req.uri(), "ipp://host/printers/x");
    let mut bytes = Vec::new();
    req.write(&mut bytes).unwrap();
    let env = decode_message(&bytes).unwrap();
    assert_eq!(env.header, IppHeader::new(IPP_VERSION, 0x0002, 1));
    let charset = env
        .attributes
        .get(OPERATION_ATTRIBUTES_TAG, "attributes-charset")
        .unwrap();
    assert_eq!(*charset.value(), IppValue::Charset("utf-8".to_string()));
    let lang = env
        .attributes
        .get(OPERATION_ATTRIBUTES_TAG, "attributes-natural-language")
        .unwrap();
    assert_eq!(*lang.value(), IppValue::NaturalLanguage("en".to_string()));
    let uri = env
        .attributes
        .get(OPERATION_ATTRIBUTES_TAG, "printer-uri")
        .unwrap();
    assert_eq!(*uri.value(), IppValue::Uri("ipp://host/printers/x".to_string()));
}

#[test]
fn request_uri_scheme_is_rewritten_to_ipp() {
    // the printer-uri attribute must not keep the http scheme name
    let req = IppRequest::new(0x0004, "http://localhost:631/printers/test");
    let mut bytes = Vec::new();
    req.write(&mut bytes).unwrap();
    let env = decode_message(&bytes).unwrap();
    let uri = env
        .attributes
        .get(OPERATION_ATTRIBUTES_TAG, "printer-uri")
        .unwrap();
    assert_eq!(
        *uri.value(),
        IppValue::Uri("ipp://localhost:631/printers/test".to_string())
    );
    // the request still remembers where it is going, untouched
    assert_eq!(req.uri(), "http://localhost:631/printers/test");
}

#[test]
fn request_payload_follows_the_attribute_section() {
    let mut req = IppRequest::new(0x0002, "ipp://h/p");
    req.set_payload(b"raw document".to_vec());
    let mut bytes = Vec::new();
    let n = req.write(&mut bytes).unwrap();
    assert_eq!(n, bytes.len());
    let env = decode_message(&bytes).unwrap();
    assert_eq!(env.payload, b"raw document".to_vec());
}

#[test]
fn set_attribute_appends_to_the_group() {
    let mut req = IppRequest::new(0x0002, "ipp://h/p");
    req.set_attribute(
        JOB_ATTRIBUTES_TAG,
        IppAttribute::new("copies", IppValue::Integer(2)),
    );
    let mut bytes = Vec::new();
    req.write(&mut bytes).unwrap();
    let env = decode_message(&bytes).unwrap();
    let copies = env.attributes.get(JOB_ATTRIBUTES_TAG, "copies").unwrap();
    assert_eq!(*copies.value(), IppValue::Integer(2));
}

#[test]
fn client_hands_back_attributes_on_success() {
    let mut attributes = IppAttributeList::new();
    attributes.add(
        OPERATION_ATTRIBUTES_TAG,
        IppAttribute::new("attributes-charset", IppValue::Charset("utf-8".to_string())),
    );
    let mut expected = IppAttributeList::new();
    expected.add(
        OPERATION_ATTRIBUTES_TAG,
        IppAttribute::new("attributes-charset", IppValue::Charset("utf-8".to_string())),
    );
    let env = IppEnvelope {
        header: IppHeader::new(IPP_VERSION, 0x0000, 1),
        attributes,
        payload: Vec::new(),
    };
    assert_eq!(IppClient::handle_response(env), Ok(expected));
}

#[test]
fn client_reports_the_peer_status_on_rejection() {
    let env = IppEnvelope {
        header: IppHeader::new(IPP_VERSION, 0x0400, 1),
        attributes: IppAttributeList::new(),
        payload: Vec::new(),
    };
    assert_eq!(
        IppClient::handle_response(env),
        Err(IppError::StatusError(0x0400))
    );
    let client = IppClient::new("ipp://printer.local/ipp/print");
    assert_eq!(client.uri(), "ipp://printer.local/ipp/print");
}

#[test]
fn lookup_finds_the_first_match_in_insertion_order() {
    let mut list = IppAttributeList::new();
    list.add(
        JOB_ATTRIBUTES_TAG,
        IppAttribute::new("copies", IppValue::Integer(1)),
    );
    list.add(
        JOB_ATTRIBUTES_TAG,
        IppAttribute::new("copies", IppValue::Integer(2)),
    );
    let found = list.get(JOB_ATTRIBUTES_TAG, "copies").unwrap();
    assert_eq!(*found.value(), IppValue::Integer(1));
    assert!(list.get(JOB_ATTRIBUTES_TAG, "missing").is_none());
    assert!(list.get(OPERATION_ATTRIBUTES_TAG, "copies").is_none());
    let group = list.get_group(JOB_ATTRIBUTES_TAG).unwrap();
    assert_eq!(group.len(), 2);
    assert_eq!(group[0].name(), "copies");
}
