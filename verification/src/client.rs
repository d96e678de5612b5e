//! The client-side view of an exchange: where a request goes, and what a
//! decoded response means.
//!
//! The transport itself (an HTTP POST carrying the encoded request, the
//! response bytes coming back) lives outside this crate; the codec only
//! needs a byte sink and a byte source. What stays here is the decision the
//! client takes on a decoded response: a status code above the successful
//! range is the peer's rejection, anything else hands the response
//! attributes to the caller.

use vstd::prelude::*;

use crate::attribute::IppAttributeList;
use crate::parser::IppEnvelope;
use crate::IppError;

verus! {

/// A client bound to one printer URI.
pub struct IppClient {
    uri: String,
}

impl IppClient {
    /// The URI this client sends to.
    pub closed spec fn uri_spec(self) -> Seq<char> {
        self.uri@
    }

    /// Create a client for the given printer URI.
    pub fn new(uri: &str) -> (c: IppClient)
        ensures
            c.uri_spec() == uri@,
    {
        IppClient { uri: crate::attribute::to_owned_string(uri) }
    }

    /// The URI this client sends to.
    pub fn uri(&self) -> (u: &String)
        ensures
            u@ == self.uri_spec(),
    {
        &self.uri
    }

    /// What a decoded response means to the caller: a status code above the
    /// successful range (0 through 3) is the peer's rejection and comes back
    /// as that exact status error; otherwise the response's attributes are
    /// handed over whole.
    pub fn handle_response(response: IppEnvelope) -> (r: Result<IppAttributeList, IppError>)
        ensures
            response.header.operation_status > 3 ==> r == Err::<IppAttributeList, IppError>(
                IppError::StatusError(response.header.operation_status),
            ),
            response.header.operation_status <= 3 ==> (r matches Ok(a) && a
                == response.attributes),
    {
        if response.header.operation_status > 3 {
            Err(IppError::StatusError(response.header.operation_status))
        } else {
            Ok(response.attributes)
        }
    }
}

} // verus!
