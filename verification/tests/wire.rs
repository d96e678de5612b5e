//! Wire-level tests: exact byte images, decoding, and the round trip.

use ipp::attribute::{IppAttribute, IppAttributeList};
use ipp::parser::decode_message;
use ipp::tags::{
    END_OF_ATTRIBUTES_TAG, JOB_ATTRIBUTES_TAG, OPERATION_ATTRIBUTES_TAG, PRINTER_ATTRIBUTES_TAG,
    TAG_BOOLEAN, TAG_CHARSET, TAG_INTEGER, TAG_KEYWORD, TAG_NATURAL_LANGUAGE,
    TAG_UNKNOWN, TAG_URI,
};
use ipp::value::{IppDateTime, IppValue};
use ipp::{IppError, IppHeader};

fn header_bytes(version: u16, op: u16, id: u32) -> Vec<u8> {
    let mut out = Vec::new();
    IppHeader::new(version, op, id).write(&mut out);
    out
}

fn entry(tag: u8, name: &str, payload: &[u8]) -> Vec<u8> {
    let mut out = Vec::new();
    out.push(tag);
    out.push((name.len() / 256) as u8);
    out.push((name.len() % 256) as u8);
    out.extend_from_slice(name.as_bytes());
    out.push((payload.len() / 256) as u8);
    out.push((payload.len() % 256) as u8);
    out.extend_from_slice(payload);
    out
}

#[test]
fn multi_value_fold_split_symmetry() {
    // one logical keyword list must go out as one named entry plus two
    // zero-length-name entries, and come back folded into the same list
    let mut list = IppAttributeList::new();
    list.add(
        OPERATION_ATTRIBUTES_TAG,
        IppAttribute::new(
            "requested-attributes",
            IppValue::ListOf(vec![
                IppValue::Keyword("a".to_string()),
                IppValue::Keyword("b".to_string()),
                IppValue::Keyword("c".to_string()),
            ]),
        ),
    );
    let mut bytes = header_bytes(0x0101, 0x000b, 7);
    bytes.push(OPERATION_ATTRIBUTES_TAG);
    let mut encoded = header_bytes(0x0101, 0x000b, 7);
    let n = list.write(&mut encoded).unwrap();
    assert_eq!(n, encoded.len() - 8);

    bytes.extend_from_slice(&entry(TAG_KEYWORD, "requested-attributes", b"a"));
    bytes.extend_from_slice(&entry(TAG_KEYWORD, "", b"b"));
    bytes.extend_from_slice(&entry(TAG_KEYWORD, "", b"c"));
    bytes.push(END_OF_ATTRIBUTES_TAG);
    assert_eq!(encoded, bytes);

    let env = decode_message(&encoded).unwrap();
    let attr = env
        .attributes
        .get(OPERATION_ATTRIBUTES_TAG, "requested-attributes")
        .unwrap();
    assert_eq!(
        *attr.value(),
        IppValue::ListOf(vec![
            IppValue::Keyword("a".to_string()),
            IppValue::Keyword("b".to_string()),
            IppValue::Keyword("c".to_string()),
        ])
    );
}

#[test]
fn string_length_boundary() {
    // a 65535-byte string value fits its length field; one more byte fails
    let mut ok_list = IppAttributeList::new();
    ok_list.add(
        OPERATION_ATTRIBUTES_TAG,
        IppAttribute::new("big", IppValue::Keyword("x".repeat(65535))),
    );
    let mut out = Vec::new();
    assert!(ok_list.write(&mut out).is_ok());

    let mut over_list = IppAttributeList::new();
    over_list.add(
        OPERATION_ATTRIBUTES_TAG,
        IppAttribute::new("big", IppValue::Keyword("x".repeat(65536))),
    );
    let mut out2 = Vec::new();
    assert_eq!(over_list.write(&mut out2), Err(IppError::OversizedPayload));
    assert!(out2.is_empty());
}

#[test]
fn degenerate_stream_is_valid() {
    // header plus the bare end marker: an empty collection and no error
    let mut bytes = header_bytes(0x0101, 0x0000, 1);
    bytes.push(END_OF_ATTRIBUTES_TAG);
    let env = decode_message(&bytes).unwrap();
    assert_eq!(env.attributes, IppAttributeList::new());
    assert!(env.payload.is_empty());
    assert_eq!(env.header, IppHeader::new(0x0101, 0x0000, 1));
}

#[test]
fn value_before_any_delimiter_is_a_framing_error() {
    let mut bytes = header_bytes(0x0101, 0x0000, 1);
    bytes.extend_from_slice(&entry(TAG_KEYWORD, "x", b"y"));
    bytes.push(END_OF_ATTRIBUTES_TAG);
    assert_eq!(
        decode_message(&bytes),
        Err(IppError::UnexpectedValueOutsideGroup)
    );
}

#[test]
fn get_printer_attributes_concrete_bytes() {
    // the canonical Get-Printer-Attributes opening: charset, language, uri
    let mut list = IppAttributeList::new();
    list.add(
        OPERATION_ATTRIBUTES_TAG,
        IppAttribute::new("attributes-charset", IppValue::Charset("utf-8".to_string())),
    );
    list.add(
        OPERATION_ATTRIBUTES_TAG,
        IppAttribute::new(
            "attributes-natural-language",
            IppValue::NaturalLanguage("en".to_string()),
        ),
    );
    list.add(
        OPERATION_ATTRIBUTES_TAG,
        IppAttribute::new("printer-uri", IppValue::Uri("ipp://host/printers/x".to_string())),
    );
    let mut encoded = header_bytes(0x0101, 0x0002, 1);
    list.write(&mut encoded).unwrap();

    let mut expected = header_bytes(0x0101, 0x0002, 1);
    expected.push(0x01);
    expected.extend_from_slice(&entry(TAG_CHARSET, "attributes-charset", b"utf-8"));
    expected.extend_from_slice(&entry(TAG_NATURAL_LANGUAGE, "attributes-natural-language", b"en"));
    expected.extend_from_slice(&entry(TAG_URI, "printer-uri", b"ipp://host/printers/x"));
    expected.push(0x03);
    assert_eq!(encoded, expected);

    let env = decode_message(&encoded).unwrap();
    assert_eq!(env.header, IppHeader::new(0x0101, 0x0002, 1));
    assert_eq!(env.attributes, list);
    let charset = env
        .attributes
        .get(OPERATION_ATTRIBUTES_TAG, "attributes-charset")
        .unwrap();
    assert_eq!(*charset.value(), IppValue::Charset("utf-8".to_string()));
}

#[test]
fn out_of_band_unknown_round_trips() {
    let mut bytes = header_bytes(0x0101, 0x0000, 9);
    bytes.push(PRINTER_ATTRIBUTES_TAG);
    bytes.extend_from_slice(&entry(TAG_UNKNOWN, "job-impressions", b""));
    bytes.push(END_OF_ATTRIBUTES_TAG);
    let env = decode_message(&bytes).unwrap();
    let attr = env
        .attributes
        .get(PRINTER_ATTRIBUTES_TAG, "job-impressions")
        .unwrap();
    assert_eq!(*attr.value(), IppValue::Unknown);

    let mut reencoded = header_bytes(0x0101, 0x0000, 9);
    env.attributes.write(&mut reencoded).unwrap();
    reencoded.extend_from_slice(&env.payload);
    assert_eq!(reencoded, bytes);
}

#[test]
fn full_round_trip_many_kinds() {
    let mut list = IppAttributeList::new();
    list.add(
        OPERATION_ATTRIBUTES_TAG,
        IppAttribute::new("attributes-charset", IppValue::Charset("utf-8".to_string())),
    );
    list.add(JOB_ATTRIBUTES_TAG, IppAttribute::new("job-id", IppValue::Integer(-7)));
    list.add(
        JOB_ATTRIBUTES_TAG,
        IppAttribute::new("job-accepting", IppValue::Boolean(true)),
    );
    list.add(
        JOB_ATTRIBUTES_TAG,
        IppAttribute::new("job-state", IppValue::Enum(5)),
    );
    list.add(
        PRINTER_ATTRIBUTES_TAG,
        IppAttribute::new(
            "printer-resolution",
            IppValue::Resolution(300, 600, 3),
        ),
    );
    list.add(
        PRINTER_ATTRIBUTES_TAG,
        IppAttribute::new("copies-supported", IppValue::RangeOfInteger(1, 99)),
    );
    list.add(
        PRINTER_ATTRIBUTES_TAG,
        IppAttribute::new(
            "printer-current-time",
            IppValue::DateTime(IppDateTime {
                year: 2024,
                month: 6,
                day: 1,
                hour: 12,
                minute: 30,
                second: 15,
                decisecond: 0,
                utc_offset_sign: b'+',
                utc_offset_hours: 2,
                utc_offset_minutes: 0,
            }),
        ),
    );
    list.add(
        PRINTER_ATTRIBUTES_TAG,
        IppAttribute::new(
            "printer-info",
            IppValue::TextWithLanguage("en".to_string(), "front desk".to_string()),
        ),
    );
    list.add(
        PRINTER_ATTRIBUTES_TAG,
        IppAttribute::new("printer-data", IppValue::OctetString(vec![0, 1, 2, 0xff])),
    );
    list.add(
        PRINTER_ATTRIBUTES_TAG,
        IppAttribute::new(
            "ipp-versions-supported",
            IppValue::ListOf(vec![
                IppValue::Keyword("1.1".to_string()),
                IppValue::Keyword("2.0".to_string()),
            ]),
        ),
    );
    list.add(
        PRINTER_ATTRIBUTES_TAG,
        IppAttribute::new("vendor-blob", IppValue::Other(0x55, vec![9, 8, 7])),
    );

    let mut bytes = header_bytes(0x0200, 0x0000, 42);
    list.write(&mut bytes).unwrap();
    bytes.extend_from_slice(b"document payload");

    let env = decode_message(&bytes).unwrap();
    assert_eq!(env.header, IppHeader::new(0x0200, 0x0000, 42));
    assert_eq!(env.attributes, list);
    assert_eq!(env.payload, b"document payload".to_vec());
}

#[test]
fn continuation_targets_the_reentered_group() {
    // after another group intervenes, a zero-length-name entry still folds
    // into the last attribute of the group made current again
    let mut bytes = header_bytes(0x0101, 0x0000, 1);
    bytes.push(OPERATION_ATTRIBUTES_TAG);
    bytes.extend_from_slice(&entry(TAG_INTEGER, "a", &[0, 0, 0, 1]));
    bytes.push(JOB_ATTRIBUTES_TAG);
    bytes.extend_from_slice(&entry(TAG_INTEGER, "b", &[0, 0, 0, 2]));
    bytes.push(OPERATION_ATTRIBUTES_TAG);
    bytes.extend_from_slice(&entry(TAG_INTEGER, "", &[0, 0, 0, 3]));
    bytes.push(END_OF_ATTRIBUTES_TAG);

    let env = decode_message(&bytes).unwrap();
    let a = env.attributes.get(OPERATION_ATTRIBUTES_TAG, "a").unwrap();
    assert_eq!(
        *a.value(),
        IppValue::ListOf(vec![IppValue::Integer(1), IppValue::Integer(3)])
    );
    let b = env.attributes.get(JOB_ATTRIBUTES_TAG, "b").unwrap();
    assert_eq!(*b.value(), IppValue::Integer(2));
}

#[test]
fn truncated_streams_are_io_errors() {
    assert_eq!(decode_message(&[1, 1, 0]), Err(IppError::IoError));
    let hdr = header_bytes(0x0101, 0x0000, 1);
    assert_eq!(decode_message(&hdr), Err(IppError::IoError));
    let mut bytes = hdr.clone();
    bytes.push(OPERATION_ATTRIBUTES_TAG);
    bytes.push(TAG_KEYWORD);
    bytes.push(0);
    assert_eq!(decode_message(&bytes), Err(IppError::IoError));
    let mut bytes2 = hdr.clone();
    bytes2.push(OPERATION_ATTRIBUTES_TAG);
    bytes2.extend_from_slice(&[TAG_KEYWORD, 0, 1, b'x', 0, 5, b'a']);
    assert_eq!(decode_message(&bytes2), Err(IppError::IoError));
}

#[test]
fn malformed_payloads_are_rejected() {
    // a boolean carries exactly one byte, 0 or 1
    let mut bytes = header_bytes(0x0101, 0x0000, 1);
    bytes.push(OPERATION_ATTRIBUTES_TAG);
    bytes.extend_from_slice(&entry(TAG_BOOLEAN, "flag", &[0, 1]));
    bytes.push(END_OF_ATTRIBUTES_TAG);
    assert_eq!(decode_message(&bytes), Err(IppError::MalformedValue));

    let mut bytes2 = header_bytes(0x0101, 0x0000, 1);
    bytes2.push(OPERATION_ATTRIBUTES_TAG);
    bytes2.extend_from_slice(&entry(TAG_BOOLEAN, "flag", &[2]));
    bytes2.push(END_OF_ATTRIBUTES_TAG);
    assert_eq!(decode_message(&bytes2), Err(IppError::MalformedValue));

    // an integer carries exactly four bytes
    let mut bytes3 = header_bytes(0x0101, 0x0000, 1);
    bytes3.push(OPERATION_ATTRIBUTES_TAG);
    bytes3.extend_from_slice(&entry(TAG_INTEGER, "n", &[0, 0, 1]));
    bytes3.push(END_OF_ATTRIBUTES_TAG);
    assert_eq!(decode_message(&bytes3), Err(IppError::MalformedValue));

    // a continuation entry needs an attribute to continue
    let mut bytes4 = header_bytes(0x0101, 0x0000, 1);
    bytes4.push(OPERATION_ATTRIBUTES_TAG);
    bytes4.extend_from_slice(&entry(TAG_KEYWORD, "", b"a"));
    bytes4.push(END_OF_ATTRIBUTES_TAG);
    assert_eq!(decode_message(&bytes4), Err(IppError::MalformedValue));

    // a keyword payload must be valid UTF-8
    let mut bytes5 = header_bytes(0x0101, 0x0000, 1);
    bytes5.push(OPERATION_ATTRIBUTES_TAG);
    bytes5.extend_from_slice(&entry(TAG_KEYWORD, "k", &[0xff, 0xfe]));
    bytes5.push(END_OF_ATTRIBUTES_TAG);
    assert_eq!(decode_message(&bytes5), Err(IppError::MalformedValue));

    // an attribute name must be valid UTF-8 too
    let mut bytes6 = header_bytes(0x0101, 0x0000, 1);
    bytes6.push(OPERATION_ATTRIBUTES_TAG);
    bytes6.extend_from_slice(&[TAG_KEYWORD, 0, 1, 0xff, 0, 1, b'a']);
    bytes6.push(END_OF_ATTRIBUTES_TAG);
    assert_eq!(decode_message(&bytes6), Err(IppError::MalformedValue));
}

#[test]
fn non_ascii_strings_decode_exactly() {
    let mut bytes = header_bytes(0x0101, 0x0000, 1);
    bytes.push(OPERATION_ATTRIBUTES_TAG);
    bytes.extend_from_slice(&entry(TAG_KEYWORD, "name", "caf\u{e9}".as_bytes()));
    bytes.push(END_OF_ATTRIBUTES_TAG);
    let env = decode_message(&bytes).unwrap();
    let attr = env.attributes.get(OPERATION_ATTRIBUTES_TAG, "name").unwrap();
    assert_eq!(*attr.value(), IppValue::Keyword("caf\u{e9}".to_string()));
}

#[test]
fn unknown_tags_pass_through() {
    // an unrecognized delimiter opens a group of its own
    let mut bytes = header_bytes(0x0101, 0x0000, 1);
    bytes.push(0x08);
    bytes.extend_from_slice(&entry(0x55, "vendor", &[1, 2]));
    bytes.push(END_OF_ATTRIBUTES_TAG);
    let env = decode_message(&bytes).unwrap();
    let attr = env.attributes.get(0x08, "vendor").unwrap();
    assert_eq!(*attr.value(), IppValue::Other(0x55, vec![1, 2]));
    assert!(env.attributes.get_group(0x08).is_some());
    assert!(env.attributes.get_group(0x07).is_none());
}

#[test]
fn with_language_values_round_trip() {
    let mut list = IppAttributeList::new();
    list.add(
        OPERATION_ATTRIBUTES_TAG,
        IppAttribute::new(
            "job-name",
            IppValue::NameWithLanguage("fr".to_string(), "rapport".to_string()),
        ),
    );
    let mut bytes = header_bytes(0x0101, 0x0000, 3);
    list.write(&mut bytes).unwrap();

    let mut expected_payload = Vec::new();
    expected_payload.extend_from_slice(&[0, 2]);
    expected_payload.extend_from_slice(b"fr");
    expected_payload.extend_from_slice(&[0, 7]);
    expected_payload.extend_from_slice(b"rapport");
    let mut expected = header_bytes(0x0101, 0x0000, 3);
    expected.push(OPERATION_ATTRIBUTES_TAG);
    expected.extend_from_slice(&entry(0x36, "job-name", &expected_payload));
    expected.push(END_OF_ATTRIBUTES_TAG);
    assert_eq!(bytes, expected);

    let env = decode_message(&bytes).unwrap();
    assert_eq!(env.attributes, list);
}

#[test]
fn empty_list_cannot_be_encoded() {
    let mut list = IppAttributeList::new();
    list.add(
        OPERATION_ATTRIBUTES_TAG,
        IppAttribute::new("empty", IppValue::ListOf(vec![])),
    );
    let mut out = Vec::new();
    assert_eq!(list.write(&mut out), Err(IppError::MalformedValue));
}

#[test]
fn singleton_list_decodes_as_a_single_value() {
    // on the wire a one-element list is indistinguishable from a plain
    // value, so it comes back single: the round-trip law asks for lists of
    // at least two values
    let mut list = IppAttributeList::new();
    list.add(
        OPERATION_ATTRIBUTES_TAG,
        IppAttribute::new(
            "compression-supported",
            IppValue::ListOf(vec![IppValue::Keyword("none".to_string())]),
        ),
    );
    let mut bytes = header_bytes(0x0101, 0x0000, 1);
    list.write(&mut bytes).unwrap();
    let env = decode_message(&bytes).unwrap();
    let attr = env
        .attributes
        .get(OPERATION_ATTRIBUTES_TAG, "compression-supported")
        .unwrap();
    assert_eq!(*attr.value(), IppValue::Keyword("none".to_string()));
}

#[test]
fn envelope_reencodes_byte_for_byte() {
    let mut bytes = header_bytes(0x0101, 0x0000, 5);
    bytes.push(OPERATION_ATTRIBUTES_TAG);
    bytes.extend_from_slice(&entry(TAG_CHARSET, "attributes-charset", b"utf-8"));
    bytes.push(JOB_ATTRIBUTES_TAG);
    bytes.extend_from_slice(&entry(TAG_INTEGER, "job-id", &[0, 0, 0, 9]));
    bytes.push(END_OF_ATTRIBUTES_TAG);
    bytes.extend_from_slice(b"tail");
    let env = decode_message(&bytes).unwrap();
    let mut reencoded = Vec::new();
    let n = env.write(&mut reencoded).unwrap();
    assert_eq!(n, bytes.len());
    assert_eq!(reencoded, bytes);
}

#[test]
fn header_round_trips_alone() {
    let h = IppHeader::new(0x0101, 0x0401, 0xdeadbeef);
    let mut out = Vec::new();
    assert_eq!(h.write(&mut out), 8);
    assert_eq!(out, vec![0x01, 0x01, 0x04, 0x01, 0xde, 0xad, 0xbe, 0xef]);
    assert_eq!(IppHeader::from_bytes(&out), Ok(h));
    assert_eq!(IppHeader::from_bytes(&out[..5]), Err(IppError::IoError));
}
