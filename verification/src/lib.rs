//! An implementation of the Internet Printing Protocol (IPP) wire format:
//! a binary, tag-typed attribute encoding carried over a generic transport.
//!
//! The crate models the tagged value system, the grouped attribute
//! collection, and the encoder and decoder that convert between that model
//! and the byte stream. Encoding and decoding are verified to be exact
//! inverses for every collection the model can legitimately hold.

use vstd::prelude::*;

pub mod bigend;
pub mod parser;
pub mod request;
pub mod roundtrip;
pub mod attribute;
pub mod client;
pub mod tags;
pub mod value;

verus! {

/// The protocol version this crate speaks: major 1, minor 1.
pub const IPP_VERSION: u16 = 0x0101;

/// Everything that can go wrong while encoding or decoding a message.
#[derive(Clone, Copy, Debug, PartialEq, Eq, Structural)]
pub enum IppError {
    /// The input ended before a required field was complete (short read),
    /// or an underlying stream failed.
    IoError,
    /// A declared length does not match the tag's payload shape, or a string
    /// payload is not valid UTF-8 where a string is required.
    MalformedValue,
    /// A value entry appeared before any delimiter tag established a group.
    UnexpectedValueOutsideGroup,
    /// A value tag outside the recognized table, with raw passthrough
    /// disabled. The decoder of this crate always keeps passthrough enabled,
    /// so it never reports this variant itself.
    UnknownValueTag(u8),
    /// A string or value payload does not fit the 16-bit length field.
    OversizedPayload,
    /// The message decoded, but its status code says the peer rejected the
    /// operation.
    StatusError(u16),
}

/// The fixed eight-byte message header: protocol version, operation id
/// (in a request) or status code (in a response), and request id.
/// All fields big-endian on the wire, in that order.
#[derive(Clone, Copy, Debug, PartialEq, Eq, Structural)]
pub struct IppHeader {
    pub version: u16,
    pub operation_status: u16,
    pub request_id: u32,
}

impl IppHeader {
    /// The eight bytes of this header on the wire.
    pub open spec fn spec_bytes(self) -> Seq<u8> {
        bigend::be16(self.version) + bigend::be16(self.operation_status)
            + bigend::be32(self.request_id)
    }

    /// Create a header.
    pub fn new(version: u16, status: u16, request_id: u32) -> (h: IppHeader)
        ensures
            h == (IppHeader { version, operation_status: status, request_id }),
    {
        IppHeader { version, operation_status: status, request_id }
    }

    /// Append the eight header bytes to `out`; returns how many bytes were
    /// written (always eight).
    pub fn write(&self, out: &mut Vec<u8>) -> (n: usize)
        ensures
            final(out)@ == old(out)@ + self.spec_bytes(),
            n == 8,
    {
        bigend::push_be16(out, self.version);
        bigend::push_be16(out, self.operation_status);
        bigend::push_be32(out, self.request_id);
        assert(out@ =~= old(out)@ + self.spec_bytes());
        8
    }

    /// The header held in the first eight bytes of `b`, read back exactly as
    /// `write` laid it out; fails when fewer than eight bytes are present.
    pub fn from_bytes(b: &[u8]) -> (r: Result<IppHeader, IppError>)
        ensures
            b@.len() >= 8 ==> (r matches Ok(h) && h == spec_header_of(b@.subrange(0, 8))
                && h.spec_bytes() == b@.subrange(0, 8)),
            b@.len() < 8 ==> r == Err::<IppHeader, IppError>(IppError::IoError),
    {
        if b.len() < 8 {
            return Err(IppError::IoError);
        }
        let h = IppHeader {
            version: bigend::be16_of(b[0], b[1]),
            operation_status: bigend::be16_of(b[2], b[3]),
            request_id: bigend::be32_of(b[4], b[5], b[6], b[7]),
        };
        proof {
            lemma_header_bytes_val(b@.subrange(0, 8));
        }
        Ok(h)
    }
}

/// The header whose wire bytes are the eight-byte sequence `b`.
pub open spec fn spec_header_of(b: Seq<u8>) -> IppHeader {
    IppHeader {
        version: bigend::be16_val(b[0], b[1]),
        operation_status: bigend::be16_val(b[2], b[3]),
        request_id: bigend::be32_val(b[4], b[5], b[6], b[7]),
    }
}

/// Reading eight header bytes yields the header they spell: decoding is the
/// inverse of `IppHeader::write` on any eight bytes.
pub proof fn lemma_header_bytes_val(b: Seq<u8>)
    requires
        b.len() == 8,
    ensures
        spec_header_of(b).spec_bytes() =~= b,
{
    let h = spec_header_of(b);
    lemma_be16_inverse(b[0], b[1]);
    lemma_be16_inverse(b[2], b[3]);
    lemma_be32_inverse(b[4], b[5], b[6], b[7]);
}

/// Re-encoding the 16-bit value read from two bytes gives back those bytes.
pub proof fn lemma_be16_inverse(b0: u8, b1: u8)
    ensures
        bigend::be16(bigend::be16_val(b0, b1)) =~= seq![b0, b1],
{
    let x = bigend::be16_val(b0, b1);
    vstd::arithmetic::div_mod::lemma_fundamental_div_mod_converse(
        x as int,
        0x100,
        b0 as int,
        b1 as int,
    );
}

/// Re-encoding the 32-bit value read from four bytes gives back those bytes.
pub proof fn lemma_be32_inverse(b0: u8, b1: u8, b2: u8, b3: u8)
    ensures
        bigend::be32(bigend::be32_val(b0, b1, b2, b3)) =~= seq![b0, b1, b2, b3],
{
    let x = bigend::be32_val(b0, b1, b2, b3);
    vstd::arithmetic::div_mod::lemma_fundamental_div_mod_converse(
        x as int,
        0x10000,
        bigend::be16_val(b0, b1) as int,
        bigend::be16_val(b2, b3) as int,
    );
    lemma_be16_inverse(b0, b1);
    lemma_be16_inverse(b2, b3);
}

} // verus!
