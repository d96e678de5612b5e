//! The one-byte tags of the wire format, with the numeric values that
//! RFC 8010 assigns them.
//!
//! Tags below 0x10 are delimiters: they open an attribute group or, as
//! `END_OF_ATTRIBUTES_TAG`, close the attribute section. Tags from 0x10 up
//! are value tags: each begins one attribute entry and names the type of the
//! value that follows.

use vstd::prelude::*;

verus! {

// Delimiter tags.
pub const OPERATION_ATTRIBUTES_TAG: u8 = 0x01;
pub const JOB_ATTRIBUTES_TAG: u8 = 0x02;
pub const END_OF_ATTRIBUTES_TAG: u8 = 0x03;
pub const PRINTER_ATTRIBUTES_TAG: u8 = 0x04;
pub const UNSUPPORTED_ATTRIBUTES_TAG: u8 = 0x05;
pub const SUBSCRIPTION_ATTRIBUTES_TAG: u8 = 0x06;
pub const EVENT_NOTIFICATION_ATTRIBUTES_TAG: u8 = 0x07;

// Out-of-band value tags.
pub const TAG_UNSUPPORTED: u8 = 0x10;
pub const TAG_UNKNOWN: u8 = 0x12;
pub const TAG_NO_VALUE: u8 = 0x13;

// Integer value tags.
pub const TAG_INTEGER: u8 = 0x21;
pub const TAG_BOOLEAN: u8 = 0x22;
pub const TAG_ENUM: u8 = 0x23;

// Octet-string value tags.
pub const TAG_OCTET_STRING: u8 = 0x30;
pub const TAG_DATETIME: u8 = 0x31;
pub const TAG_RESOLUTION: u8 = 0x32;
pub const TAG_RANGE_OF_INTEGER: u8 = 0x33;
pub const TAG_TEXT_WITH_LANGUAGE: u8 = 0x35;
pub const TAG_NAME_WITH_LANGUAGE: u8 = 0x36;

// Character-string value tags.
pub const TAG_TEXT_WITHOUT_LANGUAGE: u8 = 0x41;
pub const TAG_NAME_WITHOUT_LANGUAGE: u8 = 0x42;
pub const TAG_KEYWORD: u8 = 0x44;
pub const TAG_URI: u8 = 0x45;
pub const TAG_URI_SCHEME: u8 = 0x46;
pub const TAG_CHARSET: u8 = 0x47;
pub const TAG_NATURAL_LANGUAGE: u8 = 0x48;
pub const TAG_MIME_MEDIA_TYPE: u8 = 0x49;

/// A delimiter tag: opens a group or ends the attribute section.
pub open spec fn is_delimiter_tag(t: u8) -> bool {
    t < 0x10
}

/// A delimiter tag that opens a group. Unrecognized group tags are kept as
/// they are, so any delimiter but the end marker opens a group.
pub open spec fn is_group_tag(t: u8) -> bool {
    t < 0x10 && t != END_OF_ATTRIBUTES_TAG
}

/// A value tag: begins one attribute entry.
pub open spec fn is_value_tag(t: u8) -> bool {
    t >= 0x10
}

/// Value tags that have a variant of their own in the value model. Any other
/// value tag rides through the raw escape variant with its payload intact.
pub open spec fn is_recognized_value_tag(t: u8) -> bool {
    ||| t == TAG_UNSUPPORTED
    ||| t == TAG_UNKNOWN
    ||| t == TAG_NO_VALUE
    ||| t == TAG_INTEGER
    ||| t == TAG_BOOLEAN
    ||| t == TAG_ENUM
    ||| t == TAG_OCTET_STRING
    ||| t == TAG_DATETIME
    ||| t == TAG_RESOLUTION
    ||| t == TAG_RANGE_OF_INTEGER
    ||| t == TAG_TEXT_WITH_LANGUAGE
    ||| t == TAG_NAME_WITH_LANGUAGE
    ||| t == TAG_TEXT_WITHOUT_LANGUAGE
    ||| t == TAG_NAME_WITHOUT_LANGUAGE
    ||| t == TAG_KEYWORD
    ||| t == TAG_URI
    ||| t == TAG_URI_SCHEME
    ||| t == TAG_CHARSET
    ||| t == TAG_NATURAL_LANGUAGE
    ||| t == TAG_MIME_MEDIA_TYPE
}

} // verus!
