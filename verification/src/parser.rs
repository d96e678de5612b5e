//! The binary decoder: a single forward pass over the byte stream that
//! rebuilds the header and the grouped attribute collection.
//!
//! [`parse_attrs`] is the mathematical description of the attribute section:
//! a delimiter tag selects (or opens) the current group, the end marker
//! closes the section, and every other tag begins one `tag, name-length,
//! name, value-length, value` entry. An entry with a zero-length name folds
//! its value into the attribute added last to the current group — that is
//! how multi-valued attributes come back together. [`decode_message`] is the
//! executable decoder, proved to return exactly what `parse_message` says
//! for every input; it never returns a partial result.

use vstd::prelude::*;
use vstd::utf8::{decode_utf8, valid_utf8};

use crate::attribute::{
    group_index, spec_fold_last, spec_open_group, AttrModel, GroupModel, IppAttribute,
    IppAttributeList,
};
use crate::bigend::{be16_of, be16_val};
use crate::tags;
use crate::value::{decode_scalar, decode_value, ValueModel};
use crate::{spec_header_of, IppError, IppHeader};

verus! {

/// The model of a whole decoded message: header, grouped attributes, and
/// whatever bytes follow the end-of-attributes marker.
#[verifier::ext_equal]
pub struct MessageModel {
    pub header: IppHeader,
    pub groups: Seq<GroupModel>,
    pub payload: Seq<u8>,
}

/// A decoded message: header, grouped attributes, and the raw bytes that
/// followed the attribute section (the document payload, possibly empty).
#[derive(Debug, PartialEq, Eq)]
pub struct IppEnvelope {
    pub header: IppHeader,
    pub attributes: IppAttributeList,
    pub payload: Vec<u8>,
}

impl IppEnvelope {
    /// The model of this envelope.
    pub open spec fn model(self) -> MessageModel {
        MessageModel {
            header: self.header,
            groups: self.attributes.model(),
            payload: self.payload@,
        }
    }

    /// Serialize the whole envelope — header, attribute section, payload —
    /// onto `out`; returns how many bytes were written. When a value cannot
    /// be put on the wire, nothing is written and the exact first encode
    /// error in traversal order comes back.
    pub fn write(&self, out: &mut Vec<u8>) -> (r: Result<usize, IppError>)
        ensures
            r matches Ok(n) ==> {
                &&& crate::attribute::groups_err(self.attributes.model(), 0) is None
                &&& final(out)@ == old(out)@ + enc_message(self.model())
                &&& n as int == enc_message(self.model()).len()
            },
            r matches Err(e) ==> crate::attribute::groups_err(self.attributes.model(), 0)
                == Some(e) && final(out)@ == old(out)@,
    {
        let mut buf: Vec<u8> = Vec::new();
        self.header.write(&mut buf);
        match self.attributes.write(&mut buf) {
            Ok(_) => {},
            Err(e) => {
                return Err(e);
            },
        }
        let mut copy = vstd::slice::slice_to_vec(self.payload.as_slice());
        buf.append(&mut copy);
        proof {
            assert(buf@ =~= enc_message(self.model()));
        }
        let total = buf.len();
        out.append(&mut buf);
        Ok(total)
    }
}

/// What one pass over the attribute section yields, starting at `pos` with
/// the groups seen so far in `acc` and the current group at position `cur`
/// in `acc` (negative when no delimiter tag has been seen yet): the final
/// groups and the position just past the end-of-attributes marker, or the
/// exact error.
///
/// The errors, by cause: the input ends before the marker or inside an
/// entry's declared lengths (`IoError`); a value entry arrives while no
/// group is current (`UnexpectedValueOutsideGroup`); a payload does not
/// decode under its tag, a name is not valid UTF-8, or a zero-length name
/// arrives when the current group has no attribute to continue
/// (`MalformedValue`, or the exact error `decode_scalar` gives).
pub open spec fn parse_attrs(bytes: Seq<u8>, pos: int, acc: Seq<GroupModel>, cur: int) -> Result<
    (Seq<GroupModel>, int),
    IppError,
>
    decreases bytes.len() - pos,
{
    if pos < 0 || pos >= bytes.len() {
        Err(IppError::IoError)
    } else {
        let t = bytes[pos];
        if t == tags::END_OF_ATTRIBUTES_TAG {
            Ok((acc, pos + 1))
        } else if t < 0x10 {
            if group_index(acc, t) >= 0 {
                parse_attrs(bytes, pos + 1, acc, group_index(acc, t))
            } else {
                parse_attrs(
                    bytes,
                    pos + 1,
                    acc.push(GroupModel { tag: t, attrs: Seq::empty() }),
                    acc.len() as int,
                )
            }
        } else {
            if pos + 3 > bytes.len() {
                Err(IppError::IoError)
            } else {
                let nlen = be16_val(bytes[pos + 1], bytes[pos + 2]) as int;
                if pos + 3 + nlen + 2 > bytes.len() {
                    Err(IppError::IoError)
                } else {
                    let name_bytes = bytes.subrange(pos + 3, pos + 3 + nlen);
                    let vlen = be16_val(bytes[pos + 3 + nlen], bytes[pos + 4 + nlen]) as int;
                    let vstart = pos + 5 + nlen;
                    if vstart + vlen > bytes.len() {
                        Err(IppError::IoError)
                    } else {
                        let payload = bytes.subrange(vstart, vstart + vlen);
                        if cur < 0 || cur >= acc.len() {
                            Err(IppError::UnexpectedValueOutsideGroup)
                        } else {
                            match decode_scalar(t, payload) {
                                Err(e) => Err(e),
                                Ok(s) => {
                                    if nlen == 0 {
                                        if acc[cur].attrs.len() == 0 {
                                            Err(IppError::MalformedValue)
                                        } else {
                                            parse_attrs(
                                                bytes,
                                                vstart + vlen,
                                                spec_fold_last(acc, cur, s),
                                                cur,
                                            )
                                        }
                                    } else if !valid_utf8(name_bytes) {
                                        Err(IppError::MalformedValue)
                                    } else {
                                        let a = AttrModel {
                                            name: decode_utf8(name_bytes),
                                            value: ValueModel::Single(s),
                                        };
                                        parse_attrs(
                                            bytes,
                                            vstart + vlen,
                                            acc.update(
                                                cur,
                                                GroupModel {
                                                    tag: acc[cur].tag,
                                                    attrs: acc[cur].attrs.push(a),
                                                },
                                            ),
                                            cur,
                                        )
                                    }
                                },
                            }
                        }
                    }
                }
            }
        }
    }
}

/// The whole wire image of a message: eight header bytes, each group in
/// order, the end-of-attributes marker, then the payload verbatim.
pub open spec fn enc_message(m: MessageModel) -> Seq<u8> {
    m.header.spec_bytes() + crate::attribute::enc_groups(m.groups, 0) + seq![
        tags::END_OF_ATTRIBUTES_TAG,
    ] + m.payload
}

/// The message a whole byte stream decodes to, or the exact error: eight
/// header bytes, the attribute section, and the remaining bytes as payload.
pub open spec fn parse_message(bytes: Seq<u8>) -> Result<MessageModel, IppError> {
    if bytes.len() < 8 {
        Err(IppError::IoError)
    } else {
        match parse_attrs(bytes, 8, Seq::empty(), -1) {
            Err(e) => Err(e),
            Ok((groups, end)) => Ok(
                MessageModel {
                    header: spec_header_of(bytes.subrange(0, 8)),
                    groups,
                    payload: bytes.subrange(end, bytes.len() as int),
                },
            ),
        }
    }
}

/// Decode a whole message, exactly as [`parse_message`] says: the header,
/// the grouped attributes, and the bytes past the end marker as payload.
/// On any error nothing is handed back: no partial envelope exists.
pub fn decode_message(bytes: &[u8]) -> (r: Result<IppEnvelope, IppError>)
    ensures
        r matches Ok(env) ==> parse_message(bytes@) == Ok::<MessageModel, IppError>(env.model())
            && env.attributes.wf(),
        r matches Err(e) ==> parse_message(bytes@) == Err::<MessageModel, IppError>(e),
{
    let ghost target = parse_attrs(bytes@, 8, Seq::<GroupModel>::empty(), -1);
    if bytes.len() < 8 {
        return Err(IppError::IoError);
    }
    let header = match IppHeader::from_bytes(bytes) {
        Ok(h) => h,
        Err(_) => {
            return Err(IppError::IoError);
        },
    };
    let mut list = IppAttributeList::new();
    let mut pos: usize = 8;
    let mut cur: usize = 0;
    let mut has_group = false;
    while pos < bytes.len()
        invariant
            8 <= pos <= bytes@.len(),
            list.wf(),
            has_group ==> cur < list.model().len(),
            target == parse_attrs(bytes@, 8, Seq::<GroupModel>::empty(), -1),
            header == spec_header_of(bytes@.subrange(0, 8)),
            target == parse_attrs(
                bytes@,
                pos as int,
                list.model(),
                if has_group {
                    cur as int
                } else {
                    -1
                },
            ),
        decreases bytes@.len() - pos,
    {
        let ghost m = list.model();
        let ghost curm: int = if has_group {
            cur as int
        } else {
            -1
        };
        let t = bytes[pos];
        if t == tags::END_OF_ATTRIBUTES_TAG {
            let payload = vstd::slice::slice_to_vec(
                vstd::slice::slice_subrange(bytes, pos + 1, bytes.len()),
            );
            let env = IppEnvelope { header, attributes: list, payload };
            proof {
                let expected = MessageModel {
                    header: spec_header_of(bytes@.subrange(0, 8)),
                    groups: m,
                    payload: bytes@.subrange(pos as int + 1, bytes@.len() as int),
                };
                assert(parse_attrs(bytes@, pos as int, m, curm) == Ok::<(Seq<GroupModel>, int),
                    IppError,
                >((m, pos as int + 1)));
                assert(parse_message(bytes@) == Ok::<MessageModel, IppError>(expected));
                assert(env.model() =~~= expected);
            }
            return Ok(env);
        } else if t < 0x10 {
            let gi = list.open_group(t);
            cur = gi;
            has_group = true;
            proof {
                let mi = group_index(m, t);
                if mi >= 0 {
                    assert(parse_attrs(bytes@, pos as int, m, curm) == parse_attrs(
                        bytes@,
                        pos as int + 1,
                        m,
                        mi,
                    ));
                } else {
                    assert(list.model() == m.push(GroupModel { tag: t, attrs: Seq::empty() }));
                    assert(parse_attrs(bytes@, pos as int, m, curm) == parse_attrs(
                        bytes@,
                        pos as int + 1,
                        list.model(),
                        m.len() as int,
                    ));
                }
            }
            pos = pos + 1;
        } else {
            if bytes.len() - pos < 3 {
                return Err(IppError::IoError);
            }
            let nlen = be16_of(bytes[pos + 1], bytes[pos + 2]) as usize;
            let name_start = pos + 3;
            if bytes.len() - name_start < nlen + 2 {
                return Err(IppError::IoError);
            }
            let name_slice = vstd::slice::slice_subrange(bytes, name_start, name_start + nlen);
            let vlen = be16_of(bytes[name_start + nlen], bytes[name_start + nlen + 1]) as usize;
            let vstart = name_start + nlen + 2;
            if bytes.len() - vstart < vlen {
                return Err(IppError::IoError);
            }
            let payload_slice = vstd::slice::slice_subrange(bytes, vstart, vstart + vlen);
            if !has_group {
                return Err(IppError::UnexpectedValueOutsideGroup);
            }
            let v = match decode_value(t, payload_slice) {
                Ok(v) => v,
                Err(e) => {
                    return Err(e);
                },
            };
            if nlen == 0 {
                if list.bucket_len(cur) == 0 {
                    return Err(IppError::MalformedValue);
                }
                list.fold_last(cur, v);
                proof {
                    assert(list.model() == spec_fold_last(m, curm, v.scalar_model()));
                    assert(parse_attrs(bytes@, pos as int, m, curm) == parse_attrs(
                        bytes@,
                        vstart as int + vlen as int,
                        list.model(),
                        curm,
                    ));
                }
            } else {
                let name = match crate::value::bytes_to_string(
                    vstd::slice::slice_to_vec(name_slice),
                ) {
                    Some(n) => n,
                    None => {
                        return Err(IppError::MalformedValue);
                    },
                };
                proof {
                    assert(v.value_model() == ValueModel::Single(v.scalar_model()));
                }
                let attr = IppAttribute::new(name.as_str(), v);
                list.append_attr(cur, attr);
                proof {
                    let a = AttrModel {
                        name: decode_utf8(bytes@.subrange(pos as int + 3, pos as int + 3 + nlen as int)),
                        value: ValueModel::Single(v.scalar_model()),
                    };
                    assert(list.model() == m.update(
                        curm,
                        GroupModel { tag: m[curm].tag, attrs: m[curm].attrs.push(a) },
                    ));
                    assert(parse_attrs(bytes@, pos as int, m, curm) == parse_attrs(
                        bytes@,
                        vstart as int + vlen as int,
                        list.model(),
                        curm,
                    ));
                }
            }
            pos = vstart + vlen;
        }
    }
    Err(IppError::IoError)
}

} // verus!
