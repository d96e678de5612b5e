//! The tagged value system: every kind of attribute value, its payload
//! layout on the wire, and the exact decode of each recognized tag.
//!
//! A value travels as one entry `tag, name, length, payload`. This module
//! owns the payload part: [`enc_scalar_payload`] says which bytes a value
//! produces, [`decode_scalar`] says which value (or error) a tag and payload
//! yield, and [`lemma_scalar_roundtrip`] proves the two are exact inverses
//! for every well-formed value.

use vstd::prelude::*;
use vstd::utf8::{decode_utf8, encode_utf8, valid_utf8};

use crate::bigend::{
    be16, be16_of, be16_val, be_i32, be_i32_of, be_i32_val, lemma_be16_roundtrip,
    lemma_be_i32_roundtrip, push_be16, push_be_i32,
};
use crate::tags;
use crate::IppError;

verus! {

/// The eleven-byte structured timestamp carried by the dateTime tag,
/// kept field by field exactly as it sits on the wire.
#[derive(Clone, Copy, Debug, PartialEq, Eq, Structural)]
pub struct IppDateTime {
    pub year: u16,
    pub month: u8,
    pub day: u8,
    pub hour: u8,
    pub minute: u8,
    pub second: u8,
    pub decisecond: u8,
    pub utc_offset_sign: u8,
    pub utc_offset_hours: u8,
    pub utc_offset_minutes: u8,
}

/// One attribute value. Composite string variants carry (language, text).
/// `ListOf` is not a wire tag: it stands for a multi-valued attribute whose
/// values travel as several same-named wire entries. `Other` carries the raw
/// payload of any value tag the model does not otherwise recognize.
#[derive(Debug, PartialEq, Eq)]
pub enum IppValue {
    Integer(i32),
    Boolean(bool),
    Enum(i32),
    OctetString(Vec<u8>),
    DateTime(IppDateTime),
    Resolution(i32, i32, u8),
    RangeOfInteger(i32, i32),
    TextWithLanguage(String, String),
    NameWithLanguage(String, String),
    TextWithoutLanguage(String),
    NameWithoutLanguage(String),
    Keyword(String),
    Uri(String),
    UriScheme(String),
    Charset(String),
    NaturalLanguage(String),
    MimeMediaType(String),
    Unsupported,
    Unknown,
    NoValue,
    ListOf(Vec<IppValue>),
    Other(u8, Vec<u8>),
}

/// The mathematical model of a single (non-list) value: strings as character
/// sequences, octets as byte sequences.
#[verifier::ext_equal]
pub enum ScalarModel {
    Integer(i32),
    Boolean(bool),
    Enum(i32),
    OctetString(Seq<u8>),
    DateTime(IppDateTime),
    Resolution(i32, i32, u8),
    RangeOfInteger(i32, i32),
    TextWithLanguage(Seq<char>, Seq<char>),
    NameWithLanguage(Seq<char>, Seq<char>),
    TextWithoutLanguage(Seq<char>),
    NameWithoutLanguage(Seq<char>),
    Keyword(Seq<char>),
    Uri(Seq<char>),
    UriScheme(Seq<char>),
    Charset(Seq<char>),
    NaturalLanguage(Seq<char>),
    MimeMediaType(Seq<char>),
    Unsupported,
    Unknown,
    NoValue,
    Other(u8, Seq<u8>),
}

/// The model of an attribute's value slot: one value, or the ordered values
/// of a multi-valued attribute.
#[verifier::ext_equal]
pub enum ValueModel {
    Single(ScalarModel),
    Multi(Seq<ScalarModel>),
}

impl IppValue {
    /// The model of this value taken as a single value. For `ListOf` (which
    /// has no single-value model) an arbitrary placeholder is returned;
    /// every user goes through `value_model`, which treats lists itself.
    pub open spec fn scalar_model(self) -> ScalarModel {
        match self {
            IppValue::Integer(i) => ScalarModel::Integer(i),
            IppValue::Boolean(b) => ScalarModel::Boolean(b),
            IppValue::Enum(i) => ScalarModel::Enum(i),
            IppValue::OctetString(v) => ScalarModel::OctetString(v@),
            IppValue::DateTime(d) => ScalarModel::DateTime(d),
            IppValue::Resolution(c, f, u) => ScalarModel::Resolution(c, f, u),
            IppValue::RangeOfInteger(lo, hi) => ScalarModel::RangeOfInteger(lo, hi),
            IppValue::TextWithLanguage(l, t) => ScalarModel::TextWithLanguage(l@, t@),
            IppValue::NameWithLanguage(l, t) => ScalarModel::NameWithLanguage(l@, t@),
            IppValue::TextWithoutLanguage(s) => ScalarModel::TextWithoutLanguage(s@),
            IppValue::NameWithoutLanguage(s) => ScalarModel::NameWithoutLanguage(s@),
            IppValue::Keyword(s) => ScalarModel::Keyword(s@),
            IppValue::Uri(s) => ScalarModel::Uri(s@),
            IppValue::UriScheme(s) => ScalarModel::UriScheme(s@),
            IppValue::Charset(s) => ScalarModel::Charset(s@),
            IppValue::NaturalLanguage(s) => ScalarModel::NaturalLanguage(s@),
            IppValue::MimeMediaType(s) => ScalarModel::MimeMediaType(s@),
            IppValue::Unsupported => ScalarModel::Unsupported,
            IppValue::Unknown => ScalarModel::Unknown,
            IppValue::NoValue => ScalarModel::NoValue,
            IppValue::ListOf(_) => ScalarModel::NoValue,
            IppValue::Other(t, v) => ScalarModel::Other(t, v@),
        }
    }

    /// The model of this value as an attribute's value slot.
    pub open spec fn value_model(self) -> ValueModel {
        match self {
            IppValue::ListOf(vs) => ValueModel::Multi(
                vs@.map(|i: int, v: IppValue| v.scalar_model()),
            ),
            _ => ValueModel::Single(self.scalar_model()),
        }
    }

    /// The wire tag of this value. Meaningful for single values only; the
    /// entries of a list carry each element's own tag.
    pub fn tag(&self) -> (t: u8)
        ensures
            t == scalar_tag(self.scalar_model()),
    {
        match self {
            IppValue::Integer(_) => tags::TAG_INTEGER,
            IppValue::Boolean(_) => tags::TAG_BOOLEAN,
            IppValue::Enum(_) => tags::TAG_ENUM,
            IppValue::OctetString(_) => tags::TAG_OCTET_STRING,
            IppValue::DateTime(_) => tags::TAG_DATETIME,
            IppValue::Resolution(_, _, _) => tags::TAG_RESOLUTION,
            IppValue::RangeOfInteger(_, _) => tags::TAG_RANGE_OF_INTEGER,
            IppValue::TextWithLanguage(_, _) => tags::TAG_TEXT_WITH_LANGUAGE,
            IppValue::NameWithLanguage(_, _) => tags::TAG_NAME_WITH_LANGUAGE,
            IppValue::TextWithoutLanguage(_) => tags::TAG_TEXT_WITHOUT_LANGUAGE,
            IppValue::NameWithoutLanguage(_) => tags::TAG_NAME_WITHOUT_LANGUAGE,
            IppValue::Keyword(_) => tags::TAG_KEYWORD,
            IppValue::Uri(_) => tags::TAG_URI,
            IppValue::UriScheme(_) => tags::TAG_URI_SCHEME,
            IppValue::Charset(_) => tags::TAG_CHARSET,
            IppValue::NaturalLanguage(_) => tags::TAG_NATURAL_LANGUAGE,
            IppValue::MimeMediaType(_) => tags::TAG_MIME_MEDIA_TYPE,
            IppValue::Unsupported => tags::TAG_UNSUPPORTED,
            IppValue::Unknown => tags::TAG_UNKNOWN,
            IppValue::NoValue => tags::TAG_NO_VALUE,
            IppValue::ListOf(_) => tags::TAG_NO_VALUE,
            IppValue::Other(t, _) => *t,
        }
    }

    /// The payload bytes this value puts on the wire, built into a fresh
    /// buffer. Meaningful for single values only.
    pub fn payload_bytes(&self) -> (r: Vec<u8>)
        ensures
            r@ == enc_scalar_payload(self.scalar_model()),
    {
        let mut out: Vec<u8> = Vec::new();
        match self {
            IppValue::Integer(i) => push_be_i32(&mut out, *i),
            IppValue::Boolean(b) => out.push(if *b { 1 } else { 0 }),
            IppValue::Enum(i) => push_be_i32(&mut out, *i),
            IppValue::OctetString(v) => {
                let mut copy = vstd::slice::slice_to_vec(v.as_slice());
                out.append(&mut copy);
            },
            IppValue::DateTime(d) => {
                push_be16(&mut out, d.year);
                out.push(d.month);
                out.push(d.day);
                out.push(d.hour);
                out.push(d.minute);
                out.push(d.second);
                out.push(d.decisecond);
                out.push(d.utc_offset_sign);
                out.push(d.utc_offset_hours);
                out.push(d.utc_offset_minutes);
            },
            IppValue::Resolution(c, f, u) => {
                push_be_i32(&mut out, *c);
                push_be_i32(&mut out, *f);
                out.push(*u);
            },
            IppValue::RangeOfInteger(lo, hi) => {
                push_be_i32(&mut out, *lo);
                push_be_i32(&mut out, *hi);
            },
            IppValue::TextWithLanguage(l, t) => push_pair_payload(&mut out, l, t),
            IppValue::NameWithLanguage(l, t) => push_pair_payload(&mut out, l, t),
            IppValue::TextWithoutLanguage(s) => push_str_bytes(&mut out, s),
            IppValue::NameWithoutLanguage(s) => push_str_bytes(&mut out, s),
            IppValue::Keyword(s) => push_str_bytes(&mut out, s),
            IppValue::Uri(s) => push_str_bytes(&mut out, s),
            IppValue::UriScheme(s) => push_str_bytes(&mut out, s),
            IppValue::Charset(s) => push_str_bytes(&mut out, s),
            IppValue::NaturalLanguage(s) => push_str_bytes(&mut out, s),
            IppValue::MimeMediaType(s) => push_str_bytes(&mut out, s),
            IppValue::Unsupported => {},
            IppValue::Unknown => {},
            IppValue::NoValue => {},
            IppValue::ListOf(_) => {},
            IppValue::Other(_, v) => {
                let mut copy = vstd::slice::slice_to_vec(v.as_slice());
                out.append(&mut copy);
            },
        }
        assert(out@ =~= enc_scalar_payload(self.scalar_model()));
        out
    }
}

/// The wire tag of a value in the model.
pub open spec fn scalar_tag(s: ScalarModel) -> u8 {
    match s {
        ScalarModel::Integer(_) => tags::TAG_INTEGER,
        ScalarModel::Boolean(_) => tags::TAG_BOOLEAN,
        ScalarModel::Enum(_) => tags::TAG_ENUM,
        ScalarModel::OctetString(_) => tags::TAG_OCTET_STRING,
        ScalarModel::DateTime(_) => tags::TAG_DATETIME,
        ScalarModel::Resolution(_, _, _) => tags::TAG_RESOLUTION,
        ScalarModel::RangeOfInteger(_, _) => tags::TAG_RANGE_OF_INTEGER,
        ScalarModel::TextWithLanguage(_, _) => tags::TAG_TEXT_WITH_LANGUAGE,
        ScalarModel::NameWithLanguage(_, _) => tags::TAG_NAME_WITH_LANGUAGE,
        ScalarModel::TextWithoutLanguage(_) => tags::TAG_TEXT_WITHOUT_LANGUAGE,
        ScalarModel::NameWithoutLanguage(_) => tags::TAG_NAME_WITHOUT_LANGUAGE,
        ScalarModel::Keyword(_) => tags::TAG_KEYWORD,
        ScalarModel::Uri(_) => tags::TAG_URI,
        ScalarModel::UriScheme(_) => tags::TAG_URI_SCHEME,
        ScalarModel::Charset(_) => tags::TAG_CHARSET,
        ScalarModel::NaturalLanguage(_) => tags::TAG_NATURAL_LANGUAGE,
        ScalarModel::MimeMediaType(_) => tags::TAG_MIME_MEDIA_TYPE,
        ScalarModel::Unsupported => tags::TAG_UNSUPPORTED,
        ScalarModel::Unknown => tags::TAG_UNKNOWN,
        ScalarModel::NoValue => tags::TAG_NO_VALUE,
        ScalarModel::Other(t, _) => t,
    }
}

/// The eleven payload bytes of a dateTime value.
pub open spec fn enc_datetime(d: IppDateTime) -> Seq<u8> {
    be16(d.year) + seq![
        d.month,
        d.day,
        d.hour,
        d.minute,
        d.second,
        d.decisecond,
        d.utc_offset_sign,
        d.utc_offset_hours,
        d.utc_offset_minutes,
    ]
}

/// The composite payload of the with-language string values: each of the two
/// strings length-prefixed, language first.
pub open spec fn enc_pair(lang: Seq<char>, text: Seq<char>) -> Seq<u8> {
    be16(encode_utf8(lang).len() as u16) + encode_utf8(lang)
        + be16(encode_utf8(text).len() as u16) + encode_utf8(text)
}

/// The payload bytes of a single value on the wire.
pub open spec fn enc_scalar_payload(s: ScalarModel) -> Seq<u8> {
    match s {
        ScalarModel::Integer(i) => be_i32(i),
        ScalarModel::Boolean(b) => seq![if b { 1u8 } else { 0u8 }],
        ScalarModel::Enum(i) => be_i32(i),
        ScalarModel::OctetString(v) => v,
        ScalarModel::DateTime(d) => enc_datetime(d),
        ScalarModel::Resolution(c, f, u) => be_i32(c) + be_i32(f) + seq![u],
        ScalarModel::RangeOfInteger(lo, hi) => be_i32(lo) + be_i32(hi),
        ScalarModel::TextWithLanguage(l, t) => enc_pair(l, t),
        ScalarModel::NameWithLanguage(l, t) => enc_pair(l, t),
        ScalarModel::TextWithoutLanguage(s) => encode_utf8(s),
        ScalarModel::NameWithoutLanguage(s) => encode_utf8(s),
        ScalarModel::Keyword(s) => encode_utf8(s),
        ScalarModel::Uri(s) => encode_utf8(s),
        ScalarModel::UriScheme(s) => encode_utf8(s),
        ScalarModel::Charset(s) => encode_utf8(s),
        ScalarModel::NaturalLanguage(s) => encode_utf8(s),
        ScalarModel::MimeMediaType(s) => encode_utf8(s),
        ScalarModel::Unsupported => Seq::<u8>::empty(),
        ScalarModel::Unknown => Seq::<u8>::empty(),
        ScalarModel::NoValue => Seq::<u8>::empty(),
        ScalarModel::Other(_, v) => v,
    }
}

/// A value whose payload fits the 16-bit length field of an entry.
pub open spec fn scalar_encodable(s: ScalarModel) -> bool {
    enc_scalar_payload(s).len() <= 0xffff
}

/// A value the decoder can hand back unchanged: it fits the length field,
/// and a raw escape value does not wear the tag of a recognized variant
/// (the decoder would decode such a payload as that variant instead).
pub open spec fn scalar_wf(s: ScalarModel) -> bool {
    &&& scalar_encodable(s)
    &&& match s {
        ScalarModel::Other(t, _) => tags::is_value_tag(t) && !tags::is_recognized_value_tag(t),
        _ => true,
    }
}

/// The value denoted by value tag `t` with payload `p`, or the exact decode
/// error. Out-of-band tags insist on an empty payload; fixed-size tags on
/// their exact size; string tags on valid UTF-8; any unrecognized value tag
/// rides through as a raw escape value and never fails.
pub open spec fn decode_scalar(t: u8, p: Seq<u8>) -> Result<ScalarModel, IppError> {
    if t == tags::TAG_UNSUPPORTED {
        if p.len() == 0 { Ok(ScalarModel::Unsupported) } else { Err(IppError::MalformedValue) }
    } else if t == tags::TAG_UNKNOWN {
        if p.len() == 0 { Ok(ScalarModel::Unknown) } else { Err(IppError::MalformedValue) }
    } else if t == tags::TAG_NO_VALUE {
        if p.len() == 0 { Ok(ScalarModel::NoValue) } else { Err(IppError::MalformedValue) }
    } else if t == tags::TAG_INTEGER {
        if p.len() == 4 {
            Ok(ScalarModel::Integer(be_i32_val(p[0], p[1], p[2], p[3])))
        } else {
            Err(IppError::MalformedValue)
        }
    } else if t == tags::TAG_BOOLEAN {
        if p.len() == 1 && p[0] <= 1 {
            Ok(ScalarModel::Boolean(p[0] == 1))
        } else {
            Err(IppError::MalformedValue)
        }
    } else if t == tags::TAG_ENUM {
        if p.len() == 4 {
            Ok(ScalarModel::Enum(be_i32_val(p[0], p[1], p[2], p[3])))
        } else {
            Err(IppError::MalformedValue)
        }
    } else if t == tags::TAG_OCTET_STRING {
        Ok(ScalarModel::OctetString(p))
    } else if t == tags::TAG_DATETIME {
        if p.len() == 11 {
            Ok(ScalarModel::DateTime(IppDateTime {
                year: be16_val(p[0], p[1]),
                month: p[2],
                day: p[3],
                hour: p[4],
                minute: p[5],
                second: p[6],
                decisecond: p[7],
                utc_offset_sign: p[8],
                utc_offset_hours: p[9],
                utc_offset_minutes: p[10],
            }))
        } else {
            Err(IppError::MalformedValue)
        }
    } else if t == tags::TAG_RESOLUTION {
        if p.len() == 9 {
            Ok(ScalarModel::Resolution(
                be_i32_val(p[0], p[1], p[2], p[3]),
                be_i32_val(p[4], p[5], p[6], p[7]),
                p[8],
            ))
        } else {
            Err(IppError::MalformedValue)
        }
    } else if t == tags::TAG_RANGE_OF_INTEGER {
        if p.len() == 8 {
            Ok(ScalarModel::RangeOfInteger(
                be_i32_val(p[0], p[1], p[2], p[3]),
                be_i32_val(p[4], p[5], p[6], p[7]),
            ))
        } else {
            Err(IppError::MalformedValue)
        }
    } else if t == tags::TAG_TEXT_WITH_LANGUAGE || t == tags::TAG_NAME_WITH_LANGUAGE {
        decode_pair(t, p)
    } else if t == tags::TAG_TEXT_WITHOUT_LANGUAGE {
        decode_str(p, |s: Seq<char>| ScalarModel::TextWithoutLanguage(s))
    } else if t == tags::TAG_NAME_WITHOUT_LANGUAGE {
        decode_str(p, |s: Seq<char>| ScalarModel::NameWithoutLanguage(s))
    } else if t == tags::TAG_KEYWORD {
        decode_str(p, |s: Seq<char>| ScalarModel::Keyword(s))
    } else if t == tags::TAG_URI {
        decode_str(p, |s: Seq<char>| ScalarModel::Uri(s))
    } else if t == tags::TAG_URI_SCHEME {
        decode_str(p, |s: Seq<char>| ScalarModel::UriScheme(s))
    } else if t == tags::TAG_CHARSET {
        decode_str(p, |s: Seq<char>| ScalarModel::Charset(s))
    } else if t == tags::TAG_NATURAL_LANGUAGE {
        decode_str(p, |s: Seq<char>| ScalarModel::NaturalLanguage(s))
    } else if t == tags::TAG_MIME_MEDIA_TYPE {
        decode_str(p, |s: Seq<char>| ScalarModel::MimeMediaType(s))
    } else if tags::is_value_tag(t) {
        Ok(ScalarModel::Other(t, p))
    } else {
        Err(IppError::MalformedValue)
    }
}

/// Decode of a plain string payload: the whole payload must be valid UTF-8.
pub open spec fn decode_str(
    p: Seq<u8>,
    make: spec_fn(Seq<char>) -> ScalarModel,
) -> Result<ScalarModel, IppError> {
    if valid_utf8(p) {
        Ok(make(decode_utf8(p)))
    } else {
        Err(IppError::MalformedValue)
    }
}

/// Decode of the composite with-language payload: two length-prefixed
/// strings filling the payload exactly.
pub open spec fn decode_pair(t: u8, p: Seq<u8>) -> Result<ScalarModel, IppError> {
    if p.len() < 2 {
        Err(IppError::MalformedValue)
    } else {
        let l1 = be16_val(p[0], p[1]) as int;
        if 2 + l1 + 2 > p.len() {
            Err(IppError::MalformedValue)
        } else {
            let lang = p.subrange(2, 2 + l1);
            let l2 = be16_val(p[2 + l1], p[3 + l1]) as int;
            if 4 + l1 + l2 != p.len() {
                Err(IppError::MalformedValue)
            } else {
                let text = p.subrange(4 + l1, 4 + l1 + l2);
                if valid_utf8(lang) && valid_utf8(text) {
                    if t == tags::TAG_TEXT_WITH_LANGUAGE {
                        Ok(ScalarModel::TextWithLanguage(decode_utf8(lang), decode_utf8(text)))
                    } else {
                        Ok(ScalarModel::NameWithLanguage(decode_utf8(lang), decode_utf8(text)))
                    }
                } else {
                    Err(IppError::MalformedValue)
                }
            }
        }
    }
}

/// Append the UTF-8 bytes of `s` to `out`.
pub fn push_str_bytes(out: &mut Vec<u8>, s: &String)
    ensures
        final(out)@ == old(out)@ + encode_utf8(s@),
{
    let mut b = vstd::slice::slice_to_vec(s.as_str().as_bytes());
    out.append(&mut b);
}

/// Append the composite with-language payload of (`lang`, `text`) to `out`.
pub fn push_pair_payload(out: &mut Vec<u8>, lang: &String, text: &String)
    ensures
        final(out)@ == old(out)@ + enc_pair(lang@, text@),
{
    let lb = vstd::slice::slice_to_vec(lang.as_str().as_bytes());
    let tb = vstd::slice::slice_to_vec(text.as_str().as_bytes());
    push_be16(out, #[verifier::truncate] (lb.len() as u16));
    let mut lb = lb;
    out.append(&mut lb);
    push_be16(out, #[verifier::truncate] (tb.len() as u16));
    let mut tb = tb;
    out.append(&mut tb);
    assert(out@ =~= old(out)@ + enc_pair(lang@, text@));
}

/// The value spelled by value tag `t` and payload `p`, or the exact decode
/// error, as [`decode_scalar`] states it.
pub fn decode_value(t: u8, p: &[u8]) -> (r: Result<IppValue, IppError>)
    ensures
        r matches Ok(v) ==> !(v is ListOf) && decode_scalar(t, p@) == Ok::<ScalarModel,
            IppError,
        >(v.scalar_model()),
        r matches Err(e) ==> decode_scalar(t, p@) == Err::<ScalarModel, IppError>(e),
{
    if t == tags::TAG_UNSUPPORTED {
        if p.len() == 0 {
            Ok(IppValue::Unsupported)
        } else {
            Err(IppError::MalformedValue)
        }
    } else if t == tags::TAG_UNKNOWN {
        if p.len() == 0 {
            Ok(IppValue::Unknown)
        } else {
            Err(IppError::MalformedValue)
        }
    } else if t == tags::TAG_NO_VALUE {
        if p.len() == 0 {
            Ok(IppValue::NoValue)
        } else {
            Err(IppError::MalformedValue)
        }
    } else if t == tags::TAG_INTEGER {
        if p.len() == 4 {
            Ok(IppValue::Integer(be_i32_of(p[0], p[1], p[2], p[3])))
        } else {
            Err(IppError::MalformedValue)
        }
    } else if t == tags::TAG_BOOLEAN {
        if p.len() == 1 && p[0] <= 1 {
            Ok(IppValue::Boolean(p[0] == 1))
        } else {
            Err(IppError::MalformedValue)
        }
    } else if t == tags::TAG_ENUM {
        if p.len() == 4 {
            Ok(IppValue::Enum(be_i32_of(p[0], p[1], p[2], p[3])))
        } else {
            Err(IppError::MalformedValue)
        }
    } else if t == tags::TAG_OCTET_STRING {
        Ok(IppValue::OctetString(vstd::slice::slice_to_vec(p)))
    } else if t == tags::TAG_DATETIME {
        if p.len() == 11 {
            Ok(IppValue::DateTime(IppDateTime {
                year: be16_of(p[0], p[1]),
                month: p[2],
                day: p[3],
                hour: p[4],
                minute: p[5],
                second: p[6],
                decisecond: p[7],
                utc_offset_sign: p[8],
                utc_offset_hours: p[9],
                utc_offset_minutes: p[10],
            }))
        } else {
            Err(IppError::MalformedValue)
        }
    } else if t == tags::TAG_RESOLUTION {
        if p.len() == 9 {
            Ok(IppValue::Resolution(
                be_i32_of(p[0], p[1], p[2], p[3]),
                be_i32_of(p[4], p[5], p[6], p[7]),
                p[8],
            ))
        } else {
            Err(IppError::MalformedValue)
        }
    } else if t == tags::TAG_RANGE_OF_INTEGER {
        if p.len() == 8 {
            Ok(IppValue::RangeOfInteger(
                be_i32_of(p[0], p[1], p[2], p[3]),
                be_i32_of(p[4], p[5], p[6], p[7]),
            ))
        } else {
            Err(IppError::MalformedValue)
        }
    } else if t == tags::TAG_TEXT_WITH_LANGUAGE || t == tags::TAG_NAME_WITH_LANGUAGE {
        decode_value_pair(t, p)
    } else if t == tags::TAG_TEXT_WITHOUT_LANGUAGE || t == tags::TAG_NAME_WITHOUT_LANGUAGE
        || t == tags::TAG_KEYWORD || t == tags::TAG_URI || t == tags::TAG_URI_SCHEME
        || t == tags::TAG_CHARSET || t == tags::TAG_NATURAL_LANGUAGE
        || t == tags::TAG_MIME_MEDIA_TYPE {
        match bytes_to_string(vstd::slice::slice_to_vec(p)) {
            Some(s) => Ok(
                if t == tags::TAG_TEXT_WITHOUT_LANGUAGE {
                    IppValue::TextWithoutLanguage(s)
                } else if t == tags::TAG_NAME_WITHOUT_LANGUAGE {
                    IppValue::NameWithoutLanguage(s)
                } else if t == tags::TAG_KEYWORD {
                    IppValue::Keyword(s)
                } else if t == tags::TAG_URI {
                    IppValue::Uri(s)
                } else if t == tags::TAG_URI_SCHEME {
                    IppValue::UriScheme(s)
                } else if t == tags::TAG_CHARSET {
                    IppValue::Charset(s)
                } else if t == tags::TAG_NATURAL_LANGUAGE {
                    IppValue::NaturalLanguage(s)
                } else {
                    IppValue::MimeMediaType(s)
                },
            ),
            None => Err(IppError::MalformedValue),
        }
    } else if t >= 0x10 {
        Ok(IppValue::Other(t, vstd::slice::slice_to_vec(p)))
    } else {
        Err(IppError::MalformedValue)
    }
}

/// Decode of the composite with-language payload, mirroring [`decode_pair`].
fn decode_value_pair(t: u8, p: &[u8]) -> (r: Result<IppValue, IppError>)
    requires
        t == tags::TAG_TEXT_WITH_LANGUAGE || t == tags::TAG_NAME_WITH_LANGUAGE,
    ensures
        r matches Ok(v) ==> !(v is ListOf) && decode_pair(t, p@) == Ok::<ScalarModel,
            IppError,
        >(v.scalar_model()),
        r matches Err(e) ==> decode_pair(t, p@) == Err::<ScalarModel, IppError>(e),
{
    if p.len() < 2 {
        return Err(IppError::MalformedValue);
    }
    let l1 = be16_of(p[0], p[1]) as usize;
    if l1 > p.len() || 2 + l1 + 2 > p.len() {
        return Err(IppError::MalformedValue);
    }
    let lang_bytes = vstd::slice::slice_to_vec(vstd::slice::slice_subrange(p, 2, 2 + l1));
    let l2 = be16_of(p[2 + l1], p[3 + l1]) as usize;
    if l2 > p.len() || 4 + l1 + l2 != p.len() {
        return Err(IppError::MalformedValue);
    }
    let text_bytes = vstd::slice::slice_to_vec(
        vstd::slice::slice_subrange(p, 4 + l1, 4 + l1 + l2),
    );
    let lang = bytes_to_string(lang_bytes);
    let text = bytes_to_string(text_bytes);
    match (lang, text) {
        (Some(l), Some(x)) => {
            if t == tags::TAG_TEXT_WITH_LANGUAGE {
                Ok(IppValue::TextWithLanguage(l, x))
            } else {
                Ok(IppValue::NameWithLanguage(l, x))
            }
        },
        _ => Err(IppError::MalformedValue),
    }
}

/// Decoding inverts encoding on single values: a well-formed value, encoded
/// under its own tag, decodes back to exactly itself.
pub proof fn lemma_scalar_roundtrip(s: ScalarModel)
    requires
        scalar_wf(s),
    ensures
        decode_scalar(scalar_tag(s), enc_scalar_payload(s)) == Ok::<ScalarModel, IppError>(s),
{
    broadcast use vstd::utf8::encode_utf8_valid_utf8, vstd::utf8::encode_utf8_decode_utf8;

    let p = enc_scalar_payload(s);
    match s {
        ScalarModel::Integer(i) => {
            lemma_be_i32_roundtrip(i);
        },
        ScalarModel::Enum(i) => {
            lemma_be_i32_roundtrip(i);
        },
        ScalarModel::DateTime(d) => {
            lemma_be16_roundtrip(d.year);
            assert(p[0] == be16(d.year)[0] && p[1] == be16(d.year)[1]);
        },
        ScalarModel::Resolution(c, f, u) => {
            lemma_be_i32_roundtrip(c);
            lemma_be_i32_roundtrip(f);
            assert(forall|i: int| 0 <= i < 4 ==> p[i] == be_i32(c)[i]);
            assert(forall|i: int| 0 <= i < 4 ==> p[4 + i] == be_i32(f)[i]);
            assert(p[8] == u);
        },
        ScalarModel::RangeOfInteger(lo, hi) => {
            lemma_be_i32_roundtrip(lo);
            lemma_be_i32_roundtrip(hi);
            assert(forall|i: int| 0 <= i < 4 ==> p[i] == be_i32(lo)[i]);
            assert(forall|i: int| 0 <= i < 4 ==> p[4 + i] == be_i32(hi)[i]);
        },
        ScalarModel::TextWithLanguage(l, t) => {
            lemma_pair_roundtrip(scalar_tag(s), l, t);
        },
        ScalarModel::NameWithLanguage(l, t) => {
            lemma_pair_roundtrip(scalar_tag(s), l, t);
        },
        _ => {},
    }
}

/// Decoding inverts encoding on the composite with-language payload.
proof fn lemma_pair_roundtrip(t: u8, lang: Seq<char>, text: Seq<char>)
    requires
        t == tags::TAG_TEXT_WITH_LANGUAGE || t == tags::TAG_NAME_WITH_LANGUAGE,
        enc_pair(lang, text).len() <= 0xffff,
    ensures
        t == tags::TAG_TEXT_WITH_LANGUAGE ==> decode_pair(t, enc_pair(lang, text))
            == Ok::<ScalarModel, IppError>(ScalarModel::TextWithLanguage(lang, text)),
        t == tags::TAG_NAME_WITH_LANGUAGE ==> decode_pair(t, enc_pair(lang, text))
            == Ok::<ScalarModel, IppError>(ScalarModel::NameWithLanguage(lang, text)),
{
    broadcast use vstd::utf8::encode_utf8_valid_utf8, vstd::utf8::encode_utf8_decode_utf8;

    let p = enc_pair(lang, text);
    let lb = encode_utf8(lang);
    let tb = encode_utf8(text);
    assert(p.len() == 4 + lb.len() + tb.len());
    let l1u = lb.len() as u16;
    let l2u = tb.len() as u16;
    assert(l1u == lb.len() && l2u == tb.len());
    lemma_be16_roundtrip(l1u);
    lemma_be16_roundtrip(l2u);
    assert(p[0] == be16(l1u)[0] && p[1] == be16(l1u)[1]);
    let l1 = be16_val(p[0], p[1]) as int;
    assert(l1 == lb.len());
    assert(p[2 + l1] == be16(l2u)[0] && p[3 + l1] == be16(l2u)[1]);
    assert(p.subrange(2, 2 + l1) =~= lb);
    assert(p.subrange(4 + l1, 4 + l1 + l2u as int) =~= tb);
}

/// Turns bytes into the string they spell.
///
/// Relies on `String::from_utf8`: it succeeds exactly on valid UTF-8
/// (RFC 3629 as vstd's `valid_utf8` models it) and decodes those bytes.
#[verifier::external_body]
pub(crate) fn bytes_to_string(bytes: Vec<u8>) -> (r: Option<String>)
    ensures
        r matches Some(s) ==> valid_utf8(bytes@) && s@ == decode_utf8(bytes@),
        r is None ==> !valid_utf8(bytes@),
{
    match String::from_utf8(bytes) {
        Ok(s) => Some(s),
        Err(_) => None,
    }
}

} // verus!
