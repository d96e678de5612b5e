//! The round-trip law: decoding inverts encoding.
//!
//! [`lemma_message_roundtrip`] proves that any well-formed message — groups
//! with distinct delimiter tags, nonempty attribute names, values that fit
//! their length fields, and multi-valued attributes of at least two values —
//! comes back from the decoder exactly as it was encoded: attribute order,
//! group order, and multi-valued folding all preserved, and the payload
//! handed through byte for byte.

use vstd::prelude::*;
use vstd::utf8::encode_utf8;

use crate::attribute::{
    attr_wf, collection_wf, enc_attr, enc_attrs, enc_entry, enc_group, enc_groups, enc_list_tail,
    group_wf, lemma_group_index_absent, spec_fold_last, AttrModel, GroupModel,
};
use crate::bigend::{be16, be16_val, lemma_be16_roundtrip, lemma_be32_roundtrip};
use crate::parser::{enc_message, parse_attrs, parse_message, MessageModel};
use crate::tags;
use crate::value::{
    enc_scalar_payload, lemma_scalar_roundtrip, scalar_tag, scalar_wf, ScalarModel, ValueModel,
};
use crate::{spec_header_of, IppError, IppHeader};

verus! {

/// `bytes` holds the sequence `s` starting at position `pos`.
pub open spec fn has_at(bytes: Seq<u8>, pos: int, s: Seq<u8>) -> bool {
    &&& 0 <= pos
    &&& pos + s.len() <= bytes.len()
    &&& bytes.subrange(pos, pos + s.len() as int) == s
}

/// A concatenation held at `pos` is its parts held one after the other.
proof fn lemma_has_at_split(bytes: Seq<u8>, pos: int, a: Seq<u8>, b: Seq<u8>)
    requires
        has_at(bytes, pos, a + b),
    ensures
        has_at(bytes, pos, a),
        has_at(bytes, pos + a.len(), b),
{
    let ab = a + b;
    assert forall|i: int| 0 <= i < ab.len() implies bytes[pos + i] == #[trigger] ab[i] by {
        assert(ab[i] == bytes.subrange(pos, pos + ab.len() as int)[i]);
    }
    assert forall|i: int| 0 <= i < a.len() implies bytes.subrange(
        pos,
        pos + a.len() as int,
    )[i] == a[i] by {
        assert(ab[i] == a[i]);
    }
    assert forall|j: int| 0 <= j < b.len() implies bytes.subrange(
        pos + a.len(),
        pos + a.len() + b.len() as int,
    )[j] == b[j] by {
        assert(ab[a.len() + j] == b[j]);
    }
    assert(bytes.subrange(pos, pos + a.len() as int) =~= a);
    assert(bytes.subrange(pos + a.len(), pos + a.len() + b.len() as int) =~= b);
}

/// A nonempty string encodes to at least one byte.
proof fn lemma_encode_utf8_nonempty(chars: Seq<char>)
    requires
        chars.len() > 0,
    ensures
        encode_utf8(chars).len() > 0,
{
    vstd::utf8::char_is_scalar(chars[0]);
}

/// What the length fields and pieces of one entry held at `pos` read back as.
proof fn lemma_entry_at(bytes: Seq<u8>, pos: int, t: u8, nb: Seq<u8>, pl: Seq<u8>)
    requires
        has_at(bytes, pos, enc_entry(t, nb, pl)),
        nb.len() <= 0xffff,
        pl.len() <= 0xffff,
    ensures
        bytes[pos] == t,
        be16_val(bytes[pos + 1], bytes[pos + 2]) == nb.len(),
        bytes.subrange(pos + 3, pos + 3 + nb.len() as int) == nb,
        be16_val(bytes[pos + 3 + nb.len()], bytes[pos + 4 + nb.len()]) == pl.len(),
        bytes.subrange(
            pos + 5 + nb.len(),
            pos + 5 + nb.len() + pl.len() as int,
        ) == pl,
{
    let n = nb.len() as int;
    let nlenu = nb.len() as u16;
    let vlenu = pl.len() as u16;
    assert(enc_entry(t, nb, pl) =~= (seq![t] + be16(nlenu)) + (nb + (be16(vlenu) + pl)));
    lemma_has_at_split(bytes, pos, seq![t] + be16(nlenu), nb + (be16(vlenu) + pl));
    lemma_has_at_split(bytes, pos, seq![t], be16(nlenu));
    lemma_has_at_split(bytes, pos + 3, nb, be16(vlenu) + pl);
    lemma_has_at_split(bytes, pos + 3 + n, be16(vlenu), pl);
    lemma_be16_roundtrip(nlenu);
    lemma_be16_roundtrip(vlenu);
    assert(bytes[pos] == seq![t][0]);
    assert(bytes[pos + 1] == be16(nlenu)[0] && bytes[pos + 2] == be16(nlenu)[1]) by {
        assert(bytes.subrange(pos + 1, pos + 3)[0] == bytes[pos + 1]);
        assert(bytes.subrange(pos + 1, pos + 3)[1] == bytes[pos + 2]);
    }
    assert(bytes[pos + 3 + n] == be16(vlenu)[0] && bytes[pos + 4 + n] == be16(vlenu)[1]) by {
        assert(bytes.subrange(pos + 3 + n, pos + 5 + n)[0] == bytes[pos + 3 + n]);
        assert(bytes.subrange(pos + 3 + n, pos + 5 + n)[1] == bytes[pos + 4 + n]);
    }
}

/// Every value in the model wears a value tag.
proof fn lemma_scalar_tag_is_value_tag(s: ScalarModel)
    requires
        scalar_wf(s),
    ensures
        tags::is_value_tag(scalar_tag(s)),
{
}

/// Parsing one full named entry of a well-formed value appends that value as
/// a fresh single-valued attribute to the current group and moves on.
proof fn lemma_parse_named_entry(
    bytes: Seq<u8>,
    pos: int,
    name: Seq<char>,
    s: ScalarModel,
    acc: Seq<GroupModel>,
    cur: int,
)
    requires
        has_at(bytes, pos, enc_entry(scalar_tag(s), encode_utf8(name), enc_scalar_payload(s))),
        scalar_wf(s),
        name.len() > 0,
        encode_utf8(name).len() <= 0xffff,
        0 <= cur < acc.len(),
    ensures
        parse_attrs(bytes, pos, acc, cur) == parse_attrs(
            bytes,
            pos + 5 + encode_utf8(name).len() + enc_scalar_payload(s).len(),
            acc.update(
                cur,
                GroupModel {
                    tag: acc[cur].tag,
                    attrs: acc[cur].attrs.push(
                        AttrModel { name, value: ValueModel::Single(s) },
                    ),
                },
            ),
            cur,
        ),
{
    broadcast use vstd::utf8::encode_utf8_valid_utf8, vstd::utf8::encode_utf8_decode_utf8;

    let nb = encode_utf8(name);
    let pl = enc_scalar_payload(s);
    lemma_entry_at(bytes, pos, scalar_tag(s), nb, pl);
    lemma_scalar_tag_is_value_tag(s);
    lemma_scalar_roundtrip(s);
    lemma_encode_utf8_nonempty(name);
}

/// Parsing one zero-length-name entry folds its value into the attribute
/// added last to the current group and moves on.
proof fn lemma_parse_cont_entry(
    bytes: Seq<u8>,
    pos: int,
    s: ScalarModel,
    acc: Seq<GroupModel>,
    cur: int,
)
    requires
        has_at(bytes, pos, enc_entry(scalar_tag(s), Seq::<u8>::empty(), enc_scalar_payload(s))),
        scalar_wf(s),
        0 <= cur < acc.len(),
        acc[cur].attrs.len() > 0,
    ensures
        parse_attrs(bytes, pos, acc, cur) == parse_attrs(
            bytes,
            pos + 5 + enc_scalar_payload(s).len(),
            spec_fold_last(acc, cur, s),
            cur,
        ),
{
    let pl = enc_scalar_payload(s);
    lemma_entry_at(bytes, pos, scalar_tag(s), Seq::<u8>::empty(), pl);
    lemma_scalar_tag_is_value_tag(s);
    lemma_scalar_roundtrip(s);
}

/// The value slot an attribute shows after the decoder has taken in the
/// first `k` values of a list: a single value at first, then a growing list.
pub open spec fn partial_value(es: Seq<ScalarModel>, k: int) -> ValueModel {
    if k == 1 {
        ValueModel::Single(es[0])
    } else {
        ValueModel::Multi(es.take(k))
    }
}

/// The collection with the last attribute of the bucket at `cur` replaced.
pub open spec fn set_last(acc: Seq<GroupModel>, cur: int, a: AttrModel) -> Seq<GroupModel> {
    acc.update(
        cur,
        GroupModel {
            tag: acc[cur].tag,
            attrs: acc[cur].attrs.update(acc[cur].attrs.len() - 1, a),
        },
    )
}

/// Parsing the continuation entries of a list from its `k`-th value on
/// grows the last attribute of the current group into the whole list.
proof fn lemma_parse_list_tail(
    bytes: Seq<u8>,
    pos: int,
    name: Seq<char>,
    es: Seq<ScalarModel>,
    k: int,
    acc: Seq<GroupModel>,
    cur: int,
)
    requires
        has_at(bytes, pos, enc_list_tail(es, k)),
        1 <= k <= es.len(),
        es.len() >= 2,
        forall|i: int| 0 <= i < es.len() ==> scalar_wf(#[trigger] es[i]),
        0 <= cur < acc.len(),
        acc[cur].attrs.len() > 0,
        acc[cur].attrs.last() == (AttrModel { name, value: partial_value(es, k) }),
    ensures
        parse_attrs(bytes, pos, acc, cur) == parse_attrs(
            bytes,
            pos + enc_list_tail(es, k).len(),
            set_last(acc, cur, AttrModel { name, value: ValueModel::Multi(es) }),
            cur,
        ),
    decreases es.len() - k,
{
    if k == es.len() {
        assert(enc_list_tail(es, k).len() == 0);
        assert(es.take(k) =~= es);
        assert(partial_value(es, k) == ValueModel::Multi(es));
        assert(set_last(acc, cur, AttrModel { name, value: ValueModel::Multi(es) }) =~~= acc);
    } else {
        let e0 = enc_entry(scalar_tag(es[k]), Seq::<u8>::empty(), enc_scalar_payload(es[k]));
        assert(enc_list_tail(es, k) == e0 + enc_list_tail(es, k + 1));
        lemma_has_at_split(bytes, pos, e0, enc_list_tail(es, k + 1));
        lemma_parse_cont_entry(bytes, pos, es[k], acc, cur);
        let acc1 = spec_fold_last(acc, cur, es[k]);
        assert(acc1[cur].attrs.len() == acc[cur].attrs.len());
        assert(acc1[cur].attrs.last() =~~= (AttrModel {
            name,
            value: partial_value(es, k + 1),
        })) by {
            if k == 1 {
                assert(es.take(2) =~= seq![es[0], es[1]]);
            } else {
                assert(es.take(k).push(es[k]) =~= es.take(k + 1));
            }
        }
        lemma_parse_list_tail(bytes, pos + e0.len(), name, es, k + 1, acc1, cur);
        assert(set_last(acc1, cur, AttrModel { name, value: ValueModel::Multi(es) }) =~~= set_last(
            acc,
            cur,
            AttrModel { name, value: ValueModel::Multi(es) },
        ));
        assert(pos + e0.len() + enc_list_tail(es, k + 1).len() == pos + enc_list_tail(
            es,
            k,
        ).len());
    }
}

/// Parsing all the entries of one well-formed attribute appends exactly that
/// attribute to the current group.
proof fn lemma_parse_attr(
    bytes: Seq<u8>,
    pos: int,
    a: AttrModel,
    acc: Seq<GroupModel>,
    cur: int,
)
    requires
        has_at(bytes, pos, enc_attr(a)),
        attr_wf(a),
        0 <= cur < acc.len(),
    ensures
        parse_attrs(bytes, pos, acc, cur) == parse_attrs(
            bytes,
            pos + enc_attr(a).len(),
            acc.update(
                cur,
                GroupModel { tag: acc[cur].tag, attrs: acc[cur].attrs.push(a) },
            ),
            cur,
        ),
{
    match a.value {
        ValueModel::Single(s) => {
            lemma_parse_named_entry(bytes, pos, a.name, s, acc, cur);
        },
        ValueModel::Multi(es) => {
            let e0 = enc_entry(scalar_tag(es[0]), encode_utf8(a.name), enc_scalar_payload(es[0]));
            assert(enc_attr(a) == e0 + enc_list_tail(es, 1));
            lemma_has_at_split(bytes, pos, e0, enc_list_tail(es, 1));
            lemma_parse_named_entry(bytes, pos, a.name, es[0], acc, cur);
            let first = AttrModel { name: a.name, value: ValueModel::Single(es[0]) };
            let acc1 = acc.update(
                cur,
                GroupModel { tag: acc[cur].tag, attrs: acc[cur].attrs.push(first) },
            );
            assert(acc1[cur].attrs.last() == (AttrModel {
                name: a.name,
                value: partial_value(es, 1),
            }));
            lemma_parse_list_tail(bytes, pos + e0.len(), a.name, es, 1, acc1, cur);
            assert(set_last(acc1, cur, AttrModel { name: a.name, value: ValueModel::Multi(es) })
                =~~= acc.update(
                cur,
                GroupModel { tag: acc[cur].tag, attrs: acc[cur].attrs.push(a) },
            ));
            assert(pos + e0.len() + enc_list_tail(es, 1).len() == pos + enc_attr(a).len());
        },
    }
}

/// Parsing a run of well-formed attributes appends them all, in order, to
/// the current group.
proof fn lemma_parse_attrs_seq(
    bytes: Seq<u8>,
    pos: int,
    attrs: Seq<AttrModel>,
    k: int,
    acc: Seq<GroupModel>,
    cur: int,
)
    requires
        has_at(bytes, pos, enc_attrs(attrs, k)),
        0 <= k <= attrs.len(),
        forall|i: int| 0 <= i < attrs.len() ==> attr_wf(#[trigger] attrs[i]),
        0 <= cur < acc.len(),
    ensures
        parse_attrs(bytes, pos, acc, cur) == parse_attrs(
            bytes,
            pos + enc_attrs(attrs, k).len(),
            acc.update(
                cur,
                GroupModel { tag: acc[cur].tag, attrs: acc[cur].attrs + attrs.skip(k) },
            ),
            cur,
        ),
    decreases attrs.len() - k,
{
    if k == attrs.len() {
        assert(attrs.skip(k) =~= Seq::<AttrModel>::empty());
        assert(acc[cur].attrs + attrs.skip(k) =~= acc[cur].attrs);
        assert(acc.update(
            cur,
            GroupModel { tag: acc[cur].tag, attrs: acc[cur].attrs + attrs.skip(k) },
        ) =~~= acc);
    } else {
        assert(enc_attrs(attrs, k) == enc_attr(attrs[k]) + enc_attrs(attrs, k + 1));
        lemma_has_at_split(bytes, pos, enc_attr(attrs[k]), enc_attrs(attrs, k + 1));
        lemma_parse_attr(bytes, pos, attrs[k], acc, cur);
        let acc1 = acc.update(
            cur,
            GroupModel { tag: acc[cur].tag, attrs: acc[cur].attrs.push(attrs[k]) },
        );
        lemma_parse_attrs_seq(bytes, pos + enc_attr(attrs[k]).len(), attrs, k + 1, acc1, cur);
        assert(acc1.update(
            cur,
            GroupModel { tag: acc1[cur].tag, attrs: acc1[cur].attrs + attrs.skip(k + 1) },
        ) =~~= acc.update(
            cur,
            GroupModel { tag: acc[cur].tag, attrs: acc[cur].attrs + attrs.skip(k) },
        )) by {
            assert(acc[cur].attrs.push(attrs[k]) + attrs.skip(k + 1) =~= acc[cur].attrs
                + attrs.skip(k));
        }
        assert(pos + enc_attr(attrs[k]).len() + enc_attrs(attrs, k + 1).len() == pos + enc_attrs(
            attrs,
            k,
        ).len());
    }
}

/// Parsing a run of well-formed groups with fresh tags appends each group
/// whole, in order.
#[verifier::rlimit(100)]
#[verifier::spinoff_prover]
proof fn lemma_parse_groups(
    bytes: Seq<u8>,
    pos: int,
    gs: Seq<GroupModel>,
    k: int,
    acc: Seq<GroupModel>,
    cur: int,
)
    requires
        has_at(bytes, pos, enc_groups(gs, k)),
        0 <= k <= gs.len(),
        forall|i: int| 0 <= i < gs.len() ==> group_wf(#[trigger] gs[i]),
        forall|i: int, j: int| 0 <= i < j < gs.len() ==> gs[i].tag != gs[j].tag,
        forall|i: int, j: int|
            0 <= i < acc.len() && k <= j < gs.len() ==> (#[trigger] acc[i]).tag != (
            #[trigger] gs[j]).tag,
        cur < acc.len(),
    ensures
        parse_attrs(bytes, pos, acc, cur) == parse_attrs(
            bytes,
            pos + enc_groups(gs, k).len(),
            acc + gs.skip(k),
            if k < gs.len() {
                acc.len() + gs.len() - k - 1
            } else {
                cur
            },
        ),
    decreases gs.len() - k,
{
    if k == gs.len() {
        assert(acc + gs.skip(k) =~= acc);
    } else {
        let g = gs[k];
        assert(enc_groups(gs, k) == enc_group(g) + enc_groups(gs, k + 1));
        lemma_has_at_split(bytes, pos, enc_group(g), enc_groups(gs, k + 1));
        assert(enc_group(g) == seq![g.tag] + enc_attrs(g.attrs, 0));
        lemma_has_at_split(bytes, pos, seq![g.tag], enc_attrs(g.attrs, 0));
        assert(bytes[pos] == g.tag) by {
            assert(bytes.subrange(pos, pos + 1)[0] == bytes[pos]);
        }
        assert(tags::is_group_tag(g.tag));
        lemma_group_index_absent(acc, g.tag);
        // the delimiter opens a fresh bucket at the end
        let acc1 = acc.push(GroupModel { tag: g.tag, attrs: Seq::empty() });
        let cur1 = acc.len() as int;
        assert(parse_attrs(bytes, pos, acc, cur) == parse_attrs(bytes, pos + 1, acc1, cur1));
        // its attributes fill that bucket
        lemma_parse_attrs_seq(bytes, pos + 1, g.attrs, 0, acc1, cur1);
        let acc2 = acc1.update(
            cur1,
            GroupModel { tag: acc1[cur1].tag, attrs: acc1[cur1].attrs + g.attrs.skip(0) },
        );
        assert(acc2 =~~= acc.push(g)) by {
            assert(Seq::<AttrModel>::empty() + g.attrs.skip(0) =~= g.attrs);
        }
        // and the remaining groups follow
        assert(forall|i: int, j: int|
            0 <= i < acc2.len() && k + 1 <= j < gs.len() ==> (#[trigger] acc2[i]).tag != (
            #[trigger] gs[j]).tag) by {
            assert(forall|i: int| 0 <= i < acc.len() ==> acc2[i] == acc[i]);
            assert(acc2[acc.len() as int].tag == g.tag);
        }
        lemma_parse_groups(
            bytes,
            pos + 1 + enc_attrs(g.attrs, 0).len(),
            gs,
            k + 1,
            acc2,
            cur1,
        );
        assert(acc2 + gs.skip(k + 1) =~= acc + gs.skip(k));
        assert(pos + 1 + enc_attrs(g.attrs, 0).len() + enc_groups(gs, k + 1).len() == pos
            + enc_groups(gs, k).len());
    }
}

/// Re-reading the eight bytes a header writes gives back that header.
pub proof fn lemma_header_roundtrip(h: IppHeader)
    ensures
        spec_header_of(h.spec_bytes()) == h,
{
    lemma_be16_roundtrip(h.version);
    lemma_be16_roundtrip(h.operation_status);
    lemma_be32_roundtrip(h.request_id);
    assert(h.spec_bytes()[0] == crate::bigend::be16(h.version)[0]);
}

/// The round-trip law: a message whose attribute collection is well formed
/// decodes from its own encoding to exactly itself — header, group order,
/// attribute order, multi-valued folding, and payload all preserved.
pub proof fn lemma_message_roundtrip(m: MessageModel)
    requires
        collection_wf(m.groups),
    ensures
        parse_message(enc_message(m)) == Ok::<MessageModel, IppError>(m),
{
    let bytes = enc_message(m);
    let hb = m.header.spec_bytes();
    let gb = enc_groups(m.groups, 0);
    let endmark = seq![tags::END_OF_ATTRIBUTES_TAG];
    assert(bytes =~= hb + (gb + (endmark + m.payload)));
    assert(bytes.subrange(0, bytes.len() as int) =~= bytes);
    lemma_has_at_split(bytes, 0, hb, gb + (endmark + m.payload));
    lemma_has_at_split(bytes, 8, gb, endmark + m.payload);
    lemma_has_at_split(bytes, 8 + gb.len() as int, endmark, m.payload);
    lemma_header_roundtrip(m.header);
    assert(bytes.subrange(0, 8) == hb);
    lemma_parse_groups(bytes, 8, m.groups, 0, Seq::empty(), -1);
    assert(Seq::<GroupModel>::empty() + m.groups.skip(0) =~= m.groups);
    let endpos = 8 + gb.len() as int;
    let cur2: int = if m.groups.len() > 0 {
        m.groups.len() - 1
    } else {
        -1
    };
    assert(parse_attrs(bytes, 8, Seq::empty(), -1) == parse_attrs(bytes, endpos, m.groups, cur2));
    assert(bytes[endpos] == tags::END_OF_ATTRIBUTES_TAG) by {
        assert(bytes.subrange(endpos, endpos + 1)[0] == bytes[endpos]);
    }
    assert(parse_attrs(bytes, endpos, m.groups, cur2) == Ok::<(Seq<GroupModel>, int), IppError>(
        (m.groups, endpos + 1),
    ));
    assert(bytes.subrange(endpos + 1, bytes.len() as int) =~= m.payload);
    assert(parse_message(bytes) == Ok::<MessageModel, IppError>(
        MessageModel { header: m.header, groups: m.groups, payload: m.payload },
    ));
    assert(m =~~= (MessageModel { header: m.header, groups: m.groups, payload: m.payload }));
}

} // verus!
