//! The attribute and group model: a named value, and the ordered, grouped
//! collection that holds attributes under the protocol's delimiter sections.
//!
//! This module also states what the attribute section of a message looks
//! like on the wire ([`enc_attr`], [`enc_group`], [`enc_groups`]) and
//! implements the verified encoder over those definitions. A multi-valued
//! attribute is split exactly as the protocol asks: a first entry carrying
//! the name, then one zero-length-name entry per further value.

use vstd::prelude::*;
use vstd::utf8::encode_utf8;

use crate::bigend::{be16, push_be16};
use crate::tags;
use crate::value::{
    enc_scalar_payload, scalar_tag, scalar_wf, IppValue, ScalarModel, ValueModel,
};
use crate::IppError;

verus! {

/// A named attribute value.
#[derive(Debug, PartialEq, Eq)]
pub struct IppAttribute {
    name: String,
    value: IppValue,
}

/// The model of an attribute: its name and its value slot.
#[verifier::ext_equal]
pub struct AttrModel {
    pub name: Seq<char>,
    pub value: ValueModel,
}

/// The model of one group: its delimiter tag and its ordered attributes.
#[verifier::ext_equal]
pub struct GroupModel {
    pub tag: u8,
    pub attrs: Seq<AttrModel>,
}

impl IppAttribute {
    /// The model of this attribute.
    pub closed spec fn model(self) -> AttrModel {
        AttrModel { name: self.name@, value: self.value.value_model() }
    }

    /// Create an attribute with the given name and value.
    pub fn new(name: &str, value: IppValue) -> (a: IppAttribute)
        ensures
            a.model() == (AttrModel { name: name@, value: value.value_model() }),
    {
        IppAttribute { name: to_owned_string(name), value }
    }

    /// The attribute's name.
    pub fn name(&self) -> (n: &String)
        ensures
            n@ == self.model().name,
    {
        &self.name
    }

    /// The attribute's value.
    pub fn value(&self) -> (v: &IppValue)
        ensures
            v.value_model() == self.model().value,
    {
        &self.value
    }
}

/// An owned copy of a borrowed string slice.
pub(crate) fn to_owned_string(s: &str) -> (r: String)
    ensures
        r@ == s@,
{
    <String as vstd::string::StringExecFns>::from_str(s)
}

/// One wire entry of the attribute section: value tag, two-byte name length,
/// name, two-byte value length, value payload.
pub open spec fn enc_entry(t: u8, name_bytes: Seq<u8>, payload: Seq<u8>) -> Seq<u8> {
    seq![t] + be16(name_bytes.len() as u16) + name_bytes + be16(payload.len() as u16) + payload
}

/// The continuation entries of a multi-valued attribute: every value after
/// the first travels under a zero-length name.
pub open spec fn enc_list_tail(es: Seq<ScalarModel>, i: int) -> Seq<u8>
    decreases es.len() - i,
{
    if i < 0 || i >= es.len() {
        Seq::<u8>::empty()
    } else {
        enc_entry(scalar_tag(es[i]), Seq::<u8>::empty(), enc_scalar_payload(es[i]))
            + enc_list_tail(es, i + 1)
    }
}

/// The wire entries of one attribute.
pub open spec fn enc_attr(a: AttrModel) -> Seq<u8> {
    match a.value {
        ValueModel::Single(s) => enc_entry(scalar_tag(s), encode_utf8(a.name), enc_scalar_payload(s)),
        ValueModel::Multi(es) => enc_entry(
            scalar_tag(es[0]),
            encode_utf8(a.name),
            enc_scalar_payload(es[0]),
        ) + enc_list_tail(es, 1),
    }
}

/// The wire entries of the attributes from position `i` on.
pub open spec fn enc_attrs(attrs: Seq<AttrModel>, i: int) -> Seq<u8>
    decreases attrs.len() - i,
{
    if i < 0 || i >= attrs.len() {
        Seq::<u8>::empty()
    } else {
        enc_attr(attrs[i]) + enc_attrs(attrs, i + 1)
    }
}

/// The wire bytes of one group: its delimiter tag, then its attributes.
pub open spec fn enc_group(g: GroupModel) -> Seq<u8> {
    seq![g.tag] + enc_attrs(g.attrs, 0)
}

/// The wire bytes of the groups from position `i` on.
pub open spec fn enc_groups(gs: Seq<GroupModel>, i: int) -> Seq<u8>
    decreases gs.len() - i,
{
    if i < 0 || i >= gs.len() {
        Seq::<u8>::empty()
    } else {
        enc_group(gs[i]) + enc_groups(gs, i + 1)
    }
}

/// The first thing wrong with encoding this attribute, if anything: a
/// multi-valued attribute with no values at all cannot be split onto the
/// wire, and a name or payload beyond 65535 bytes does not fit its length
/// field.
pub open spec fn attr_err(a: AttrModel) -> Option<IppError> {
    match a.value {
        ValueModel::Single(s) => {
            if encode_utf8(a.name).len() > 0xffff || enc_scalar_payload(s).len() > 0xffff {
                Some(IppError::OversizedPayload)
            } else {
                None
            }
        },
        ValueModel::Multi(es) => {
            if es.len() == 0 {
                Some(IppError::MalformedValue)
            } else if encode_utf8(a.name).len() > 0xffff || exists|i: int|
                0 <= i < es.len() && enc_scalar_payload(#[trigger] es[i]).len() > 0xffff {
                Some(IppError::OversizedPayload)
            } else {
                None
            }
        },
    }
}

/// The first encode error among the attributes from position `i` on.
pub open spec fn attrs_err(attrs: Seq<AttrModel>, i: int) -> Option<IppError>
    decreases attrs.len() - i,
{
    if i < 0 || i >= attrs.len() {
        None
    } else if attr_err(attrs[i]) is Some {
        attr_err(attrs[i])
    } else {
        attrs_err(attrs, i + 1)
    }
}

/// The first encode error among the groups from position `i` on.
pub open spec fn groups_err(gs: Seq<GroupModel>, i: int) -> Option<IppError>
    decreases gs.len() - i,
{
    if i < 0 || i >= gs.len() {
        None
    } else if attrs_err(gs[i].attrs, 0) is Some {
        attrs_err(gs[i].attrs, 0)
    } else {
        groups_err(gs, i + 1)
    }
}

/// A collection that encodes without error.
pub open spec fn groups_encodable(gs: Seq<GroupModel>) -> bool {
    groups_err(gs, 0) is None
}

/// An attribute the codec round-trips exactly: a nonempty name that fits its
/// length field, and either one well-formed value or at least two (one value
/// would come back single, not as a list).
pub open spec fn attr_wf(a: AttrModel) -> bool {
    &&& a.name.len() > 0
    &&& encode_utf8(a.name).len() <= 0xffff
    &&& match a.value {
        ValueModel::Single(s) => scalar_wf(s),
        ValueModel::Multi(es) => es.len() >= 2 && forall|i: int|
            0 <= i < es.len() ==> scalar_wf(#[trigger] es[i]),
    }
}

/// A group the codec round-trips exactly.
pub open spec fn group_wf(g: GroupModel) -> bool {
    &&& tags::is_group_tag(g.tag)
    &&& forall|i: int| 0 <= i < g.attrs.len() ==> attr_wf(#[trigger] g.attrs[i])
}

/// A collection the codec round-trips exactly: well-formed groups under
/// distinct delimiter tags.
pub open spec fn collection_wf(gs: Seq<GroupModel>) -> bool {
    &&& forall|i: int| 0 <= i < gs.len() ==> group_wf(#[trigger] gs[i])
    &&& forall|i: int, j: int| 0 <= i < j < gs.len() ==> gs[i].tag != gs[j].tag
}

/// The position of the group with tag `t`, or -1 when no group has it.
pub open spec fn group_index(gs: Seq<GroupModel>, t: u8) -> int
    decreases gs.len(),
{
    if gs.len() == 0 {
        -1
    } else if gs[0].tag == t {
        0
    } else {
        let r = group_index(gs.drop_first(), t);
        if r < 0 {
            -1
        } else {
            r + 1
        }
    }
}

/// What `group_index` finds: the first group with the tag, or none at all.
pub proof fn lemma_group_index(gs: Seq<GroupModel>, t: u8)
    ensures
        group_index(gs, t) == -1 ==> forall|i: int| 0 <= i < gs.len() ==> (#[trigger] gs[i]).tag
            != t,
        group_index(gs, t) >= 0 ==> {
            &&& group_index(gs, t) < gs.len()
            &&& gs[group_index(gs, t)].tag == t
            &&& forall|i: int| 0 <= i < group_index(gs, t) ==> (#[trigger] gs[i]).tag != t
        },
    decreases gs.len(),
{
    if gs.len() > 0 && gs[0].tag != t {
        let rest = gs.drop_first();
        lemma_group_index(rest, t);
        assert(forall|i: int| 0 < i < gs.len() ==> #[trigger] gs[i] == rest[i - 1]);
        let rr = group_index(rest, t);
        if rr < 0 {
            assert forall|i: int| 0 <= i < gs.len() implies (#[trigger] gs[i]).tag != t by {
                if i > 0 {
                    assert(rest[i - 1].tag != t);
                }
            }
        } else {
            assert(gs[rr + 1] == rest[rr]);
            assert forall|i: int| 0 <= i < group_index(gs, t) implies (#[trigger] gs[i]).tag
                != t by {
                if i > 0 {
                    assert(rest[i - 1].tag != t);
                }
            }
        }
    }
}

/// A sequence where no group wears tag `t` has no position for it.
pub proof fn lemma_group_index_absent(gs: Seq<GroupModel>, t: u8)
    requires
        forall|i: int| 0 <= i < gs.len() ==> (#[trigger] gs[i]).tag != t,
    ensures
        group_index(gs, t) == -1,
{
    lemma_group_index(gs, t);
    if group_index(gs, t) >= 0 {
        assert(gs[group_index(gs, t)].tag != t);
    }
}

/// The model after adding an attribute under group tag `t`: appended to the
/// group's bucket when the group is already present, else a new group at the
/// end.
pub open spec fn spec_add(gs: Seq<GroupModel>, t: u8, a: AttrModel) -> Seq<GroupModel> {
    let i = group_index(gs, t);
    if i >= 0 {
        gs.update(i, GroupModel { tag: t, attrs: gs[i].attrs.push(a) })
    } else {
        gs.push(GroupModel { tag: t, attrs: seq![a] })
    }
}

/// The ordered, grouped attribute collection: one bucket per delimiter tag,
/// buckets in insertion order, attributes in insertion order within each.
#[derive(Debug, PartialEq, Eq)]
pub struct IppAttributeList {
    groups: Vec<(u8, Vec<IppAttribute>)>,
}

impl IppAttributeList {
    /// The model of this collection.
    pub closed spec fn model(self) -> Seq<GroupModel> {
        self.groups@.map(
            |i: int, g: (u8, Vec<IppAttribute>)| GroupModel {
                tag: g.0,
                attrs: g.1@.map(|j: int, a: IppAttribute| a.model()),
            },
        )
    }

    /// The structural invariant: every bucket wears a group tag, and no two
    /// buckets wear the same one.
    pub open spec fn wf(self) -> bool {
        &&& forall|i: int| 0 <= i < self.model().len() ==> tags::is_group_tag(
            (#[trigger] self.model()[i]).tag,
        )
        &&& forall|i: int, j: int| 0 <= i < j < self.model().len() ==> self.model()[i].tag
            != self.model()[j].tag
    }

    /// Create an empty collection.
    pub fn new() -> (r: IppAttributeList)
        ensures
            r.model() == Seq::<GroupModel>::empty(),
            r.wf(),
    {
        let r = IppAttributeList { groups: Vec::new() };
        proof {
            assert(r.model() =~= Seq::<GroupModel>::empty());
        }
        r
    }

    /// Append an attribute to the given group's bucket, creating the bucket
    /// at the end of the collection if the group is new.
    pub fn add(&mut self, group: u8, attribute: IppAttribute)
        requires
            tags::is_group_tag(group),
            old(self).wf(),
        ensures
            final(self).model() == spec_add(old(self).model(), group, attribute.model()),
            final(self).wf(),
    {
        let ghost m = self.model();
        let ghost am = attribute.model();
        let mut i: usize = 0;
        let n = self.groups.len();
        while i < n
            invariant
                n == self.groups.len(),
                0 <= i <= n,
                forall|k: int| 0 <= k < i ==> (#[trigger] self.model()[k]).tag != group,
                self == old(self),
                self.wf(),
                m == self.model(),
                am == attribute.model(),
            decreases n - i,
        {
            if self.groups[i].0 == group {
                proof {
                    lemma_group_index(m, group);
                    assert(m[i as int].tag == group);
                    let r = group_index(m, group);
                    assert(r >= 0);
                    if r < i as int {
                        assert(m[r].tag != group);
                    }
                    if r > i as int {
                        assert(m[i as int].tag != group);
                    }
                    assert(r == i as int);
                }
                self.groups[i].1.push(attribute);
                proof {
                    assert(self.model() =~~= m.update(
                        i as int,
                        GroupModel { tag: group, attrs: m[i as int].attrs.push(am) },
                    ));
                    assert(self.model() == spec_add(m, group, am));
                    assert(forall|k: int|
                        0 <= k < self.model().len() ==> (#[trigger] self.model()[k]).tag
                            == m[k].tag);
                }
                return ;
            }
            i = i + 1;
        }
        let mut bucket: Vec<IppAttribute> = Vec::new();
        bucket.push(attribute);
        self.groups.push((group, bucket));
        proof {
            lemma_group_index_absent(m, group);
            assert(bucket@.map(|j: int, a: IppAttribute| a.model()) =~= seq![am]);
            assert(self.model() =~~= spec_add(m, group, am));
        }
    }

    /// Make the group with tag `t` current for decoding: the position of its
    /// bucket, which is created empty at the end when the group is new.
    pub(crate) fn open_group(&mut self, t: u8) -> (gi: usize)
        requires
            old(self).wf(),
            tags::is_group_tag(t),
        ensures
            final(self).wf(),
            final(self).model() == spec_open_group(old(self).model(), t),
            gi as int == group_index(final(self).model(), t),
            group_index(old(self).model(), t) >= 0 ==> gi as int == group_index(
                old(self).model(),
                t,
            ),
            group_index(old(self).model(), t) < 0 ==> gi as int == old(self).model().len(),
            gi < final(self).model().len(),
            final(self).model()[gi as int].tag == t,
    {
        let ghost m = self.model();
        let mut i: usize = 0;
        let n = self.groups.len();
        while i < n
            invariant
                n == self.groups.len(),
                0 <= i <= n,
                forall|k: int| 0 <= k < i ==> (#[trigger] self.model()[k]).tag != t,
                self == old(self),
                self.wf(),
                m == self.model(),
            decreases n - i,
        {
            if self.groups[i].0 == t {
                proof {
                    lemma_group_index(m, t);
                    assert(m[i as int].tag == t);
                    let r = group_index(m, t);
                    assert(r >= 0);
                    if r < i as int {
                        assert(m[r].tag != t);
                    }
                    if r > i as int {
                        assert(m[i as int].tag != t);
                    }
                }
                return i;
            }
            i = i + 1;
        }
        let bucket: Vec<IppAttribute> = Vec::new();
        self.groups.push((t, bucket));
        proof {
            lemma_group_index_absent(m, t);
            assert(self.model() =~~= m.push(GroupModel { tag: t, attrs: Seq::empty() }));
            lemma_group_index_push_fresh(m, t);
        }
        n
    }

    /// Append a single-valued attribute to the bucket at position `gi`.
    pub(crate) fn append_attr(&mut self, gi: usize, attribute: IppAttribute)
        requires
            old(self).wf(),
            gi < old(self).model().len(),
        ensures
            final(self).wf(),
            final(self).model() == old(self).model().update(
                gi as int,
                GroupModel {
                    tag: old(self).model()[gi as int].tag,
                    attrs: old(self).model()[gi as int].attrs.push(attribute.model()),
                },
            ),
    {
        let ghost m = self.model();
        self.groups[gi].1.push(attribute);
        proof {
            assert(self.model() =~~= m.update(
                gi as int,
                GroupModel { tag: m[gi as int].tag, attrs: m[gi as int].attrs.push(attribute.model()) },
            ));
            assert(forall|k: int|
                0 <= k < self.model().len() ==> (#[trigger] self.model()[k]).tag == m[k].tag);
        }
    }

    /// How many attributes the bucket at position `gi` holds.
    pub(crate) fn bucket_len(&self, gi: usize) -> (n: usize)
        requires
            gi < self.model().len(),
        ensures
            n == self.model()[gi as int].attrs.len(),
    {
        self.groups[gi].1.len()
    }

    /// Fold one more value into the attribute added last to the bucket at
    /// position `gi`: a single value becomes a two-element list, a list grows
    /// by one. This is the decoder's continuation rule.
    pub(crate) fn fold_last(&mut self, gi: usize, v: IppValue)
        requires
            old(self).wf(),
            gi < old(self).model().len(),
            old(self).model()[gi as int].attrs.len() > 0,
        ensures
            final(self).wf(),
            final(self).model() == spec_fold_last(old(self).model(), gi as int, v.scalar_model()),
    {
        let ghost m = self.model();
        let ghost am = self.groups@[gi as int].1@.last().model();
        let a = match self.groups[gi].1.pop() {
            Some(a) => a,
            None => unreached(),
        };
        let IppAttribute { name, value } = a;
        let folded = match value {
            IppValue::ListOf(mut es) => {
                es.push(v);
                IppValue::ListOf(es)
            },
            other => {
                let mut es: Vec<IppValue> = Vec::new();
                es.push(other);
                es.push(v);
                IppValue::ListOf(es)
            },
        };
        proof {
            assert(folded.value_model() =~~= fold_value(am.value, v.scalar_model()));
        }
        self.groups[gi].1.push(IppAttribute { name, value: folded });
        proof {
            assert(self.model() =~~= spec_fold_last(m, gi as int, v.scalar_model()));
            assert(forall|k: int|
                0 <= k < self.model().len() ==> (#[trigger] self.model()[k]).tag == m[k].tag);
        }
    }
}

/// The value slot after folding one more value in: a single value becomes a
/// two-element list, a list grows by one.
pub open spec fn fold_value(old_value: ValueModel, s: ScalarModel) -> ValueModel {
    match old_value {
        ValueModel::Single(x) => ValueModel::Multi(seq![x, s]),
        ValueModel::Multi(es) => ValueModel::Multi(es.push(s)),
    }
}

/// The collection after folding a value into the last attribute of the
/// bucket at position `gi`.
pub open spec fn spec_fold_last(gs: Seq<GroupModel>, gi: int, s: ScalarModel) -> Seq<GroupModel> {
    let g = gs[gi];
    let last = g.attrs.len() - 1;
    gs.update(
        gi,
        GroupModel {
            tag: g.tag,
            attrs: g.attrs.update(
                last,
                AttrModel { name: g.attrs[last].name, value: fold_value(g.attrs[last].value, s) },
            ),
        },
    )
}

/// The collection after the decoder meets delimiter tag `t`: the existing
/// bucket when the group already appeared, else a new empty bucket.
pub open spec fn spec_open_group(gs: Seq<GroupModel>, t: u8) -> Seq<GroupModel> {
    if group_index(gs, t) >= 0 {
        gs
    } else {
        gs.push(GroupModel { tag: t, attrs: Seq::empty() })
    }
}

impl IppAttributeList {
    /// Append the whole attribute section to `out`: each group's delimiter
    /// tag and entries in stored order, closed by the end-of-attributes
    /// marker; returns how many bytes that took. When a value cannot be put
    /// on the wire, nothing is written and the exact first encode error in
    /// traversal order comes back.
    pub fn write(&self, out: &mut Vec<u8>) -> (r: Result<usize, IppError>)
        ensures
            r matches Ok(n) ==> {
                &&& groups_err(self.model(), 0) is None
                &&& final(out)@ == old(out)@ + enc_groups(self.model(), 0) + seq![
                    tags::END_OF_ATTRIBUTES_TAG,
                ]
                &&& n as int == enc_groups(self.model(), 0).len() + 1
            },
            r matches Err(e) ==> groups_err(self.model(), 0) == Some(e) && final(out)@ == old(
                out,
            )@,
    {
        let ghost m = self.model();
        let mut buf: Vec<u8> = Vec::new();
        let mut gi: usize = 0;
        let n = self.groups.len();
        while gi < n
            invariant
                n == self.groups.len(),
                0 <= gi <= n,
                m == self.model(),
                m.len() == n,
                buf@ + enc_groups(m, gi as int) == enc_groups(m, 0),
                groups_err(m, gi as int) == groups_err(m, 0),
            decreases n - gi,
        {
            let ghost buf0 = buf@;
            let ghost ga = m[gi as int].attrs;
            buf.push(self.groups[gi].0);
            proof {
                assert(ga == self.groups@[gi as int].1@.map(
                    |j: int, a: IppAttribute| a.model(),
                ));
            }
            match write_attrs_vec(&mut buf, &self.groups[gi].1) {
                Ok(_) => {},
                Err(e) => {
                    proof {
                        assert(groups_err(m, gi as int) == Some(e));
                    }
                    return Err(e);
                },
            }
            proof {
                assert(buf@ =~= buf0 + (seq![m[gi as int].tag] + enc_attrs(ga, 0)));
                assert(enc_group(m[gi as int]) == seq![m[gi as int].tag] + enc_attrs(ga, 0));
                assert(buf@ + enc_groups(m, gi as int + 1) =~= buf0 + enc_groups(m, gi as int));
                assert(groups_err(m, gi as int) == groups_err(m, gi as int + 1));
            }
            gi = gi + 1;
        }
        proof {
            assert(enc_groups(m, n as int) == Seq::<u8>::empty());
            assert(buf@ =~= enc_groups(m, 0));
        }
        buf.push(tags::END_OF_ATTRIBUTES_TAG);
        let total = buf.len();
        out.append(&mut buf);
        proof {
            assert(final(out)@ =~= old(out)@ + enc_groups(m, 0) + seq![
                tags::END_OF_ATTRIBUTES_TAG,
            ]);
        }
        Ok(total)
    }
}

/// Append the wire entries of every attribute in `attrs`, in order.
fn write_attrs_vec(out: &mut Vec<u8>, attrs: &Vec<IppAttribute>) -> (r: Result<(), IppError>)
    ensures
        r is Ok ==> {
            &&& attrs_err(attrs@.map(|j: int, a: IppAttribute| a.model()), 0) is None
            &&& final(out)@ == old(out)@ + enc_attrs(
                attrs@.map(|j: int, a: IppAttribute| a.model()),
                0,
            )
        },
        r matches Err(e) ==> attrs_err(attrs@.map(|j: int, a: IppAttribute| a.model()), 0)
            == Some(e),
{
    let ghost ma = attrs@.map(|j: int, a: IppAttribute| a.model());
    let ghost out0 = out@;
    let mut ai: usize = 0;
    let na = attrs.len();
    while ai < na
        invariant
            na == attrs@.len(),
            ma == attrs@.map(|j: int, a: IppAttribute| a.model()),
            ma.len() == na,
            0 <= ai <= na,
            out@ + enc_attrs(ma, ai as int) == out0 + enc_attrs(ma, 0),
            attrs_err(ma, ai as int) == attrs_err(ma, 0),
            out0 == old(out)@,
        decreases na - ai,
    {
        let ghost prev = out@;
        let a = &attrs[ai];
        proof {
            assert(a.model() == ma[ai as int]);
        }
        match write_attr(out, a) {
            Ok(_) => {},
            Err(e) => {
                proof {
                    assert(attrs_err(ma, ai as int) == Some(e));
                }
                return Err(e);
            },
        }
        proof {
            assert(enc_attrs(ma, ai as int) == enc_attr(ma[ai as int]) + enc_attrs(
                ma,
                ai as int + 1,
            ));
            assert(out@ + enc_attrs(ma, ai as int + 1) =~= prev + enc_attrs(ma, ai as int));
        }
        ai = ai + 1;
    }
    proof {
        assert(enc_attrs(ma, na as int) == Seq::<u8>::empty());
        assert(out@ =~= out0 + enc_attrs(ma, 0));
    }
    Ok(())
}

/// Append one wire entry to `out`; when the name or the payload does not fit
/// its two-byte length field, nothing is written.
fn write_entry(out: &mut Vec<u8>, t: u8, name_bytes: &Vec<u8>, payload: &Vec<u8>) -> (r: Result<
    (),
    IppError,
>)
    ensures
        r is Ok ==> {
            &&& name_bytes@.len() <= 0xffff
            &&& payload@.len() <= 0xffff
            &&& final(out)@ == old(out)@ + enc_entry(t, name_bytes@, payload@)
        },
        r is Err ==> {
            &&& name_bytes@.len() > 0xffff || payload@.len() > 0xffff
            &&& r == Err::<(), IppError>(IppError::OversizedPayload)
            &&& final(out)@ == old(out)@
        },
{
    if name_bytes.len() > 0xffff || payload.len() > 0xffff {
        return Err(IppError::OversizedPayload);
    }
    out.push(t);
    push_be16(out, name_bytes.len() as u16);
    let mut nb = vstd::slice::slice_to_vec(name_bytes.as_slice());
    out.append(&mut nb);
    push_be16(out, payload.len() as u16);
    let mut pb = vstd::slice::slice_to_vec(payload.as_slice());
    out.append(&mut pb);
    assert(out@ =~= old(out)@ + enc_entry(t, name_bytes@, payload@));
    Ok(())
}

/// Append all wire entries of one attribute to `out`: a multi-valued
/// attribute becomes a first named entry and one zero-length-name entry per
/// further value. On an error, `out` may hold a partial prefix; callers
/// discard it.
#[verifier::rlimit(100)]
#[verifier::spinoff_prover]
fn write_attr(out: &mut Vec<u8>, a: &IppAttribute) -> (r: Result<(), IppError>)
    ensures
        r is Ok ==> attr_err(a.model()) is None && final(out)@ == old(out)@ + enc_attr(a.model()),
        r matches Err(e) ==> attr_err(a.model()) == Some(e),
{
    let name_bytes = vstd::slice::slice_to_vec(a.name.as_str().as_bytes());
    let ghost am = a.model();
    let ghost out0 = out@;
    match &a.value {
        IppValue::ListOf(es) => {
            let ghost mes = es@.map(|j: int, e: IppValue| e.scalar_model());
            if es.len() == 0 {
                return Err(IppError::MalformedValue);
            }
            let first = &es[0];
            let p0 = first.payload_bytes();
            match write_entry(out, first.tag(), &name_bytes, &p0) {
                Ok(_) => {},
                Err(e) => {
                    proof {
                        assert(mes[0] == es@[0].scalar_model());
                        if p0@.len() > 0xffff {
                            assert(enc_scalar_payload(mes[0]).len() > 0xffff);
                        }
                    }
                    return Err(e);
                },
            }
            let empty_name: Vec<u8> = Vec::new();
            let mut i: usize = 1;
            let ne = es.len();
            while i < ne
                invariant
                    ne == es.len(),
                    1 <= i <= ne,
                    mes == es@.map(|j: int, e: IppValue| e.scalar_model()),
                    mes.len() == ne,
                    empty_name@ =~= Seq::<u8>::empty(),
                    out@ + enc_list_tail(mes, i as int) =~= out0 + enc_entry(
                        scalar_tag(mes[0]),
                        encode_utf8(am.name),
                        enc_scalar_payload(mes[0]),
                    ) + enc_list_tail(mes, 1),
                    forall|k: int| 0 <= k < i ==> enc_scalar_payload(#[trigger] mes[k]).len()
                        <= 0xffff,
                    encode_utf8(am.name).len() <= 0xffff,
                    am == a.model(),
                    am.value == ValueModel::Multi(mes),
                decreases ne - i,
            {
                let e = &es[i];
                let p = e.payload_bytes();
                match write_entry(out, e.tag(), &empty_name, &p) {
                    Ok(_) => {},
                    Err(err) => {
                        proof {
                            assert(enc_scalar_payload(mes[i as int]).len() > 0xffff);
                        }
                        return Err(err);
                    },
                }
                proof {
                    assert(enc_list_tail(mes, i as int) == enc_entry(
                        scalar_tag(mes[i as int]),
                        Seq::<u8>::empty(),
                        enc_scalar_payload(mes[i as int]),
                    ) + enc_list_tail(mes, i as int + 1));
                }
                i = i + 1;
            }
            proof {
                assert(enc_list_tail(mes, ne as int) =~= Seq::<u8>::empty());
                assert(out@ =~= out0 + enc_attr(am));
                assert(attr_err(am) is None);
            }
            Ok(())
        },
        other => {
            let p = other.payload_bytes();
            match write_entry(out, other.tag(), &name_bytes, &p) {
                Ok(_) => {
                    proof {
                        assert(out@ =~= old(out)@ + enc_attr(am));
                    }
                    Ok(())
                },
                Err(e) => Err(e),
            }
        },
    }
}

/// A well-formed attribute encodes without error.
pub proof fn lemma_wf_attr_encodes(a: AttrModel)
    requires
        attr_wf(a),
    ensures
        attr_err(a) is None,
{
    match a.value {
        ValueModel::Single(_) => {},
        ValueModel::Multi(es) => {
            assert forall|i: int| 0 <= i < es.len() implies enc_scalar_payload(
                #[trigger] es[i],
            ).len() <= 0xffff by {
                assert(scalar_wf(es[i]));
            }
        },
    }
}

/// Well-formed attributes encode without error from any position on.
pub proof fn lemma_wf_attrs_encode(attrs: Seq<AttrModel>, ai: int)
    requires
        forall|i: int| 0 <= i < attrs.len() ==> attr_wf(#[trigger] attrs[i]),
        0 <= ai <= attrs.len(),
    ensures
        attrs_err(attrs, ai) is None,
    decreases attrs.len() - ai,
{
    if ai < attrs.len() {
        lemma_wf_attr_encodes(attrs[ai]);
        lemma_wf_attrs_encode(attrs, ai + 1);
    }
}

/// A well-formed collection encodes without error from any position on.
pub proof fn lemma_wf_groups_encode(gs: Seq<GroupModel>, gi: int)
    requires
        collection_wf(gs),
        0 <= gi <= gs.len(),
    ensures
        groups_err(gs, gi) is None,
    decreases gs.len() - gi,
{
    if gi < gs.len() {
        assert(group_wf(gs[gi]));
        lemma_wf_attrs_encode(gs[gi].attrs, 0);
        lemma_wf_groups_encode(gs, gi + 1);
    }
}

/// A well-formed collection encodes without error.
pub proof fn lemma_wf_encodes(gs: Seq<GroupModel>)
    requires
        collection_wf(gs),
    ensures
        groups_encodable(gs),
{
    lemma_wf_groups_encode(gs, 0);
}

/// The position of the first attribute named `name`, or -1 when none is.
pub open spec fn attr_index(attrs: Seq<AttrModel>, name: Seq<char>) -> int
    decreases attrs.len(),
{
    if attrs.len() == 0 {
        -1
    } else if attrs[0].name == name {
        0
    } else {
        let r = attr_index(attrs.drop_first(), name);
        if r < 0 {
            -1
        } else {
            r + 1
        }
    }
}

/// What `attr_index` finds: the first attribute with the name, or none.
pub proof fn lemma_attr_index(attrs: Seq<AttrModel>, name: Seq<char>)
    ensures
        attr_index(attrs, name) == -1 ==> forall|i: int| 0 <= i < attrs.len() ==> (
        #[trigger] attrs[i]).name != name,
        attr_index(attrs, name) >= 0 ==> {
            &&& attr_index(attrs, name) < attrs.len()
            &&& attrs[attr_index(attrs, name)].name == name
            &&& forall|i: int| 0 <= i < attr_index(attrs, name) ==> (#[trigger] attrs[i]).name
                != name
        },
    decreases attrs.len(),
{
    if attrs.len() > 0 && attrs[0].name != name {
        let rest = attrs.drop_first();
        lemma_attr_index(rest, name);
        assert(forall|i: int| 0 < i < attrs.len() ==> #[trigger] attrs[i] == rest[i - 1]);
        let rr = attr_index(rest, name);
        if rr < 0 {
            assert forall|i: int| 0 <= i < attrs.len() implies (#[trigger] attrs[i]).name
                != name by {
                if i > 0 {
                    assert(rest[i - 1].name != name);
                }
            }
        } else {
            assert(attrs[rr + 1] == rest[rr]);
            assert forall|i: int| 0 <= i < attr_index(attrs, name) implies (
            #[trigger] attrs[i]).name != name by {
                if i > 0 {
                    assert(rest[i - 1].name != name);
                }
            }
        }
    }
}

/// The first attribute under the group with tag `t` whose name is `name`,
/// in insertion order, or none.
pub open spec fn spec_get(gs: Seq<GroupModel>, t: u8, name: Seq<char>) -> Option<AttrModel> {
    let gi = group_index(gs, t);
    if gi < 0 {
        None
    } else {
        let ai = attr_index(gs[gi].attrs, name);
        if ai < 0 {
            None
        } else {
            Some(gs[gi].attrs[ai])
        }
    }
}

impl IppAttributeList {
    /// The first attribute with the given name in the given group, in
    /// insertion order, exactly as [`spec_get`] finds it.
    pub fn get(&self, group: u8, name: &str) -> (r: Option<&IppAttribute>)
        ensures
            r matches Some(a) ==> spec_get(self.model(), group, name@) == Some(a.model()),
            r is None ==> spec_get(self.model(), group, name@) is None,
    {
        let ghost m = self.model();
        let bucket = match self.get_group(group) {
            Some(b) => b,
            None => {
                return None;
            },
        };
        let ghost gi = group_index(m, group);
        let ghost ga = m[gi].attrs;
        proof {
            lemma_group_index(m, group);
            lemma_attr_index(ga, name@);
        }
        let n = bucket.len();
        let mut i: usize = 0;
        while i < n
            invariant
                n == bucket@.len(),
                0 <= i <= n,
                m == self.model(),
                gi == group_index(m, group),
                0 <= gi < m.len(),
                ga == m[gi].attrs,
                ga == bucket@.map(|j: int, a: IppAttribute| a.model()),
                ga.len() == n,
                forall|k: int| 0 <= k < i ==> (#[trigger] ga[k]).name != name@,
            decreases n - i,
        {
            let a = &bucket[i];
            if str_eq(a.name.as_str(), name) {
                proof {
                    lemma_attr_index(ga, name@);
                    let r = attr_index(ga, name@);
                    assert(ga[i as int].name == name@);
                    assert(r >= 0);
                    if r < i as int {
                        assert(ga[r].name != name@);
                    }
                    if r > i as int {
                        assert(ga[i as int].name != name@);
                    }
                }
                return Some(a);
            }
            i = i + 1;
        }
        proof {
            lemma_attr_index(ga, name@);
            if attr_index(ga, name@) >= 0 {
                assert(ga[attr_index(ga, name@)].name != name@);
            }
        }
        None
    }

    /// The whole ordered attribute run of the given group, or none when the
    /// group was never populated.
    pub fn get_group(&self, group: u8) -> (r: Option<&Vec<IppAttribute>>)
        ensures
            r matches Some(v) ==> group_index(self.model(), group) >= 0 && v@.map(
                |j: int, a: IppAttribute| a.model(),
            ) == self.model()[group_index(self.model(), group)].attrs,
            r is None ==> group_index(self.model(), group) == -1,
    {
        let ghost m = self.model();
        let n = self.groups.len();
        let mut i: usize = 0;
        while i < n
            invariant
                n == self.groups.len(),
                0 <= i <= n,
                m == self.model(),
                forall|k: int| 0 <= k < i ==> (#[trigger] m[k]).tag != group,
            decreases n - i,
        {
            if self.groups[i].0 == group {
                proof {
                    lemma_group_index(m, group);
                    assert(m[i as int].tag == group);
                    let r = group_index(m, group);
                    assert(r >= 0);
                    if r < i as int {
                        assert(m[r].tag != group);
                    }
                    if r > i as int {
                        assert(m[i as int].tag != group);
                    }
                }
                return Some(&self.groups[i].1);
            }
            i = i + 1;
        }
        proof {
            lemma_group_index_absent(m, group);
        }
        None
    }
}

/// Whether two string slices spell the same characters.
pub(crate) fn str_eq(a: &str, b: &str) -> (r: bool)
    ensures
        r == (a@ == b@),
{
    broadcast use vstd::utf8::encode_utf8_decode_utf8;

    let ab = a.as_bytes();
    let bb = b.as_bytes();
    if ab.len() != bb.len() {
        return false;
    }
    let n = ab.len();
    let mut i: usize = 0;
    while i < n
        invariant
            n == ab@.len(),
            n == bb@.len(),
            ab@ == encode_utf8(a@),
            bb@ == encode_utf8(b@),
            0 <= i <= n,
            forall|k: int| 0 <= k < i ==> ab@[k] == bb@[k],
        decreases n - i,
    {
        if ab[i] != bb[i] {
            proof {
                if a@ == b@ {
                    assert(ab@[i as int] == bb@[i as int]);
                }
            }
            return false;
        }
        i = i + 1;
    }
    proof {
        assert(ab@ =~= bb@);
        assert(vstd::utf8::decode_utf8(encode_utf8(a@)) == a@);
        assert(vstd::utf8::decode_utf8(encode_utf8(b@)) == b@);
    }
    true
}

/// Pushing a group with a tag no other group wears puts it where
/// `group_index` finds it.
pub proof fn lemma_group_index_push_fresh(gs: Seq<GroupModel>, t: u8)
    requires
        group_index(gs, t) == -1,
    ensures
        group_index(gs.push(GroupModel { tag: t, attrs: Seq::empty() }), t) == gs.len(),
{
    let gs2 = gs.push(GroupModel { tag: t, attrs: Seq::empty() });
    lemma_group_index(gs, t);
    lemma_group_index(gs2, t);
    let r = group_index(gs2, t);
    if r < 0 {
        assert(gs2[gs.len() as int].tag == t);
    }
    if 0 <= r < gs.len() {
        assert(gs2[r] == gs[r]);
        assert(gs[r].tag != t);
    }
}

} // verus!
