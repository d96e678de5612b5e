//! An outgoing request: operation id, target URI, attributes, and an
//! optional document payload, serialized as one message.
//!
//! A fresh request carries the three operation attributes every request
//! opens with: `attributes-charset`, `attributes-natural-language`, and
//! `printer-uri` (the target URI with its scheme put back to `ipp`).

use vstd::prelude::*;

use crate::attribute::{
    enc_groups, groups_err, spec_add, AttrModel, GroupModel, IppAttribute, IppAttributeList,
};
use crate::parser::{enc_message, MessageModel};
use crate::tags;
use crate::value::{IppValue, ScalarModel, ValueModel};
use crate::{IppError, IppHeader, IPP_VERSION};

verus! {

/// The result of rewriting a URI's `http` scheme name back to `ipp`, as
/// `str::replace` computes it from the characters alone.
pub uninterp spec fn http_to_ipp(s: Seq<char>) -> Seq<char>;

/// Relies on `str::replace`: every occurrence of "http" in `s` replaced by
/// "ipp". The result is a function of the characters of `s` alone.
#[verifier::external_body]
fn replace_http_with_ipp(s: &str) -> (r: String)
    ensures
        r@ == http_to_ipp(s@),
{
    s.replace("http", "ipp")
}

/// The attribute collection a fresh request starts with: one operation
/// group holding charset, natural language, and the printer URI.
pub open spec fn initial_request_attrs(uri: Seq<char>) -> Seq<GroupModel> {
    seq![
        GroupModel {
            tag: tags::OPERATION_ATTRIBUTES_TAG,
            attrs: seq![
                AttrModel {
                    name: "attributes-charset"@,
                    value: ValueModel::Single(ScalarModel::Charset("utf-8"@)),
                },
                AttrModel {
                    name: "attributes-natural-language"@,
                    value: ValueModel::Single(ScalarModel::NaturalLanguage("en"@)),
                },
                AttrModel {
                    name: "printer-uri"@,
                    value: ValueModel::Single(ScalarModel::Uri(http_to_ipp(uri))),
                },
            ],
        },
    ]
}

/// An IPP request under construction.
pub struct IppRequest {
    operation: u16,
    uri: String,
    attributes: IppAttributeList,
    payload: Option<Vec<u8>>,
}

impl IppRequest {
    /// The operation id the request will carry.
    pub closed spec fn operation_spec(self) -> u16 {
        self.operation
    }

    /// The target URI.
    pub closed spec fn uri_spec(self) -> Seq<char> {
        self.uri@
    }

    /// The model of the request's attribute collection.
    pub closed spec fn attrs_spec(self) -> Seq<GroupModel> {
        self.attributes.model()
    }

    /// The document payload, when one was attached.
    pub closed spec fn payload_spec(self) -> Option<Seq<u8>> {
        match self.payload {
            Some(p) => Some(p@),
            None => None,
        }
    }

    /// The structural invariant of the attribute collection.
    pub closed spec fn wf(self) -> bool {
        self.attributes.wf()
    }

    /// The header this request goes out under: the crate's protocol version,
    /// the operation id, request id 1.
    pub open spec fn header_spec(self) -> IppHeader {
        IppHeader { version: IPP_VERSION, operation_status: self.operation_spec(), request_id: 1 }
    }

    /// The whole message this request serializes to.
    pub open spec fn message_spec(self) -> MessageModel {
        MessageModel {
            header: self.header_spec(),
            groups: self.attrs_spec(),
            payload: match self.payload_spec() {
                Some(p) => p,
                None => Seq::empty(),
            },
        }
    }

    /// Create a request for the operation and URI, opening with the three
    /// standard operation attributes; the printer URI is sent under the
    /// `ipp` scheme name.
    pub fn new(operation: u16, uri: &str) -> (r: IppRequest)
        ensures
            r.operation_spec() == operation,
            r.uri_spec() == uri@,
            r.attrs_spec() == initial_request_attrs(uri@),
            r.payload_spec() is None,
            r.wf(),
    {
        let mut retval = IppRequest {
            operation,
            uri: crate::attribute::to_owned_string(uri),
            attributes: IppAttributeList::new(),
            payload: None,
        };
        retval.set_attribute(
            tags::OPERATION_ATTRIBUTES_TAG,
            IppAttribute::new(
                "attributes-charset",
                IppValue::Charset(crate::attribute::to_owned_string("utf-8")),
            ),
        );
        retval.set_attribute(
            tags::OPERATION_ATTRIBUTES_TAG,
            IppAttribute::new(
                "attributes-natural-language",
                IppValue::NaturalLanguage(crate::attribute::to_owned_string("en")),
            ),
        );
        retval.set_attribute(
            tags::OPERATION_ATTRIBUTES_TAG,
            IppAttribute::new("printer-uri", IppValue::Uri(replace_http_with_ipp(uri))),
        );
        proof {
            assert(retval.attrs_spec() =~~= initial_request_attrs(uri@));
        }
        retval
    }

    /// The target URI.
    pub fn uri(&self) -> (u: &String)
        ensures
            u@ == self.uri_spec(),
    {
        &self.uri
    }

    /// Attach the document payload to send after the attribute section.
    pub fn set_payload(&mut self, payload: Vec<u8>)
        ensures
            final(self).payload_spec() == Some(payload@),
            final(self).operation_spec() == old(self).operation_spec(),
            final(self).uri_spec() == old(self).uri_spec(),
            final(self).attrs_spec() == old(self).attrs_spec(),
            final(self).wf() == old(self).wf(),
    {
        self.payload = Some(payload);
    }

    /// Add an attribute under the given group.
    pub fn set_attribute(&mut self, group: u8, attribute: IppAttribute)
        requires
            tags::is_group_tag(group),
            old(self).wf(),
        ensures
            final(self).wf(),
            final(self).attrs_spec() == spec_add(
                old(self).attrs_spec(),
                group,
                attribute.model(),
            ),
            final(self).operation_spec() == old(self).operation_spec(),
            final(self).uri_spec() == old(self).uri_spec(),
            final(self).payload_spec() == old(self).payload_spec(),
    {
        self.attributes.add(group, attribute);
    }

    /// Serialize the whole request — header, attribute section, payload —
    /// onto `out`; returns how many bytes were written. When a value cannot
    /// be put on the wire, nothing is written and the exact first encode
    /// error in traversal order comes back.
    pub fn write(&self, out: &mut Vec<u8>) -> (r: Result<usize, IppError>)
        ensures
            r matches Ok(n) ==> {
                &&& groups_err(self.attrs_spec(), 0) is None
                &&& final(out)@ == old(out)@ + enc_message(self.message_spec())
                &&& n as int == enc_message(self.message_spec()).len()
            },
            r matches Err(e) ==> groups_err(self.attrs_spec(), 0) == Some(e) && final(out)@
                == old(out)@,
    {
        let mut buf: Vec<u8> = Vec::new();
        let header = IppHeader::new(IPP_VERSION, self.operation, 1);
        header.write(&mut buf);
        match self.attributes.write(&mut buf) {
            Ok(_) => {},
            Err(e) => {
                return Err(e);
            },
        }
        match &self.payload {
            Some(p) => {
                let mut copy = vstd::slice::slice_to_vec(p.as_slice());
                buf.append(&mut copy);
            },
            None => {},
        }
        proof {
            assert(buf@ =~= enc_message(self.message_spec()));
        }
        let total = buf.len();
        out.append(&mut buf);
        Ok(total)
    }
}

} // verus!
