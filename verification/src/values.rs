//! Runtime values driven through a codec plan, their ghost views, and the
//! well-formedness relation between a plan and a value.

use vstd::prelude::*;
use crate::schema::{CodecPlan, FieldDescriptor, LeafType, SkipKind};

verus! {

/// A leaf value as held in memory.
#[derive(Clone, Debug, PartialEq, Eq)]
pub enum LeafValue {
    U8(u8),
    U16(u16),
    U32(u32),
    U64(u64),
    Bytes(Vec<u8>),
}

/// The value of one field.  Optional shapes carry presence; a capture map
/// holds unrecognized odd-id TLV entries as raw payloads keyed by tag id,
/// kept in ascending id order for deterministic re-encoding.
#[derive(Clone, Debug, PartialEq, Eq)]
pub enum FieldValue {
    Leaf(LeafValue),
    Flag(bool),
    OptLeaf(Option<LeafValue>),
    OptFlag(Option<bool>),
    Capture(Vec<(u16, Vec<u8>)>),
}

/// A structure value: one field value per declared field, in order.
#[derive(Clone, Debug, PartialEq, Eq)]
pub struct StructValue {
    pub fields: Vec<FieldValue>,
}

/// A tagged-union value: the declared ordinal of its variant plus the
/// variant's associated field values, in order.
#[derive(Clone, Debug, PartialEq, Eq)]
pub struct UnionValue {
    pub ordinal: usize,
    pub fields: Vec<FieldValue>,
}

/// A whole value of some described type.
#[derive(Clone, Debug, PartialEq, Eq)]
pub enum Value {
    Struct(StructValue),
    TaggedUnion(UnionValue),
}

/// Mathematical model of a leaf value.
#[verifier::ext_equal]
pub enum LeafV {
    U8(u8),
    U16(u16),
    U32(u32),
    U64(u64),
    Bytes(Seq<u8>),
}

/// Mathematical model of a field value.
#[verifier::ext_equal]
pub enum FieldV {
    Leaf(LeafV),
    Flag(bool),
    OptLeaf(Option<LeafV>),
    OptFlag(Option<bool>),
    Capture(Seq<(u16, Seq<u8>)>),
}

/// Mathematical model of a whole value.
#[verifier::ext_equal]
pub enum ValueV {
    Struct(Seq<FieldV>),
    Union(int, Seq<FieldV>),
}

impl View for LeafValue {
    type V = LeafV;

    open spec fn view(&self) -> LeafV {
        match self {
            LeafValue::U8(x) => LeafV::U8(*x),
            LeafValue::U16(x) => LeafV::U16(*x),
            LeafValue::U32(x) => LeafV::U32(*x),
            LeafValue::U64(x) => LeafV::U64(*x),
            LeafValue::Bytes(b) => LeafV::Bytes(b@),
        }
    }
}

/// Model of a capture vector: each payload as a byte sequence.
pub open spec fn cap_view(s: Seq<(u16, Vec<u8>)>) -> Seq<(u16, Seq<u8>)> {
    s.map_values(|p: (u16, Vec<u8>)| (p.0, p.1@))
}

impl View for FieldValue {
    type V = FieldV;

    open spec fn view(&self) -> FieldV {
        match self {
            FieldValue::Leaf(l) => FieldV::Leaf(l@),
            FieldValue::Flag(b) => FieldV::Flag(*b),
            FieldValue::OptLeaf(o) => FieldV::OptLeaf(
                match o {
                    Some(l) => Some(l@),
                    None => None,
                },
            ),
            FieldValue::OptFlag(o) => FieldV::OptFlag(*o),
            FieldValue::Capture(c) => FieldV::Capture(cap_view(c@)),
        }
    }
}

/// Model of a field-value vector.
pub open spec fn fvs_view(s: Seq<FieldValue>) -> Seq<FieldV> {
    s.map_values(|f: FieldValue| f@)
}

impl View for Value {
    type V = ValueV;

    open spec fn view(&self) -> ValueV {
        match self {
            Value::Struct(sv) => ValueV::Struct(fvs_view(sv.fields@)),
            Value::TaggedUnion(uv) => ValueV::Union(uv.ordinal as int, fvs_view(uv.fields@)),
        }
    }
}

/// Does a leaf value inhabit a leaf type?
pub open spec fn leaf_wf(ty: LeafType, v: LeafV) -> bool {
    match (ty, v) {
        (LeafType::U8, LeafV::U8(_)) => true,
        (LeafType::U16, LeafV::U16(_)) => true,
        (LeafType::U32, LeafV::U32(_)) => true,
        (LeafType::U64, LeafV::U64(_)) => true,
        (LeafType::Bytes, LeafV::Bytes(_)) => true,
        _ => false,
    }
}

/// A capture map is strictly ascending in its tag ids (hence ids are
/// pairwise distinct).
pub open spec fn capture_wf(es: Seq<(u16, Seq<u8>)>) -> bool {
    forall|i: int, j: int| 0 <= i < j < es.len() ==> es[i].0 < es[j].0
}

/// Zero value of a leaf type.
pub open spec fn leaf_default(ty: LeafType) -> LeafV {
    match ty {
        LeafType::U8 => LeafV::U8(0),
        LeafType::U16 => LeafV::U16(0),
        LeafType::U32 => LeafV::U32(0),
        LeafType::U64 => LeafV::U64(0),
        LeafType::Bytes => LeafV::Bytes(Seq::empty()),
    }
}

/// Default restored for a skipped field on decode.
pub open spec fn skip_default(k: SkipKind) -> FieldV {
    match k {
        SkipKind::Plain(ty) => FieldV::Leaf(leaf_default(ty)),
        SkipKind::PlainBool => FieldV::Flag(false),
        SkipKind::Optional(_) => FieldV::OptLeaf(None),
        SkipKind::OptionalBool => FieldV::OptFlag(None),
    }
}

/// Does a field value inhabit a skipped field's declared shape?
pub open spec fn skip_wf(k: SkipKind, v: FieldV) -> bool {
    match (k, v) {
        (SkipKind::Plain(ty), FieldV::Leaf(l)) => leaf_wf(ty, l),
        (SkipKind::PlainBool, FieldV::Flag(_)) => true,
        (SkipKind::Optional(ty), FieldV::OptLeaf(o)) => match o {
            Some(l) => leaf_wf(ty, l),
            None => true,
        },
        (SkipKind::OptionalBool, FieldV::OptFlag(_)) => true,
        _ => false,
    }
}

/// Does a field value inhabit its field descriptor?
pub open spec fn field_wf(f: FieldDescriptor, v: FieldV) -> bool {
    match f {
        FieldDescriptor::Normal(ty) => v matches FieldV::Leaf(l) && leaf_wf(ty, l),
        FieldDescriptor::Skipped(k) => skip_wf(k, v),
        FieldDescriptor::TlvTagged(_, ty) => v matches FieldV::OptLeaf(o) && match o {
            Some(l) => leaf_wf(ty, l),
            None => true,
        },
        FieldDescriptor::TlvCapture => v matches FieldV::Capture(es) && capture_wf(es),
    }
}

/// Field-by-field well-formedness of a value list against a field list.
pub open spec fn fields_wf(fs: Seq<FieldDescriptor>, vs: Seq<FieldV>) -> bool {
    &&& vs.len() == fs.len()
    &&& (forall|i: int| 0 <= i < fs.len() ==> field_wf(fs[i], #[trigger] vs[i]))
}

/// Well-formedness of a whole value against a compiled plan.
pub open spec fn value_wf(plan: CodecPlan, v: ValueV) -> bool {
    match (plan, v) {
        (CodecPlan::Struct(sp), ValueV::Struct(vs)) => fields_wf(sp.fields@, vs),
        (CodecPlan::TaggedUnion(up), ValueV::Union(ord, vs)) => {
            &&& 0 <= ord < up.variants@.len()
            &&& fields_wf(up.variants@[ord].fields@, vs)
        },
        _ => false,
    }
}

pub proof fn lemma_fvs_push(s: Seq<FieldValue>, x: FieldValue)
    ensures
        fvs_view(s.push(x)) == fvs_view(s).push(x@),
{
    assert(fvs_view(s.push(x)) =~= fvs_view(s).push(x@));
}

pub proof fn lemma_fvs_update(s: Seq<FieldValue>, i: int, x: FieldValue)
    requires
        0 <= i < s.len(),
    ensures
        fvs_view(s.update(i, x)) == fvs_view(s).update(i, x@),
{
    assert(fvs_view(s.update(i, x)) =~= fvs_view(s).update(i, x@));
}

pub proof fn lemma_cap_push(s: Seq<(u16, Vec<u8>)>, id: u16, p: Vec<u8>)
    ensures
        cap_view(s.push((id, p))) == cap_view(s).push((id, p@)),
{
    assert(cap_view(s.push((id, p))) =~= cap_view(s).push((id, p@)));
}

pub proof fn lemma_cap_update(s: Seq<(u16, Vec<u8>)>, i: int, id: u16, p: Vec<u8>)
    requires
        0 <= i < s.len(),
    ensures
        cap_view(s.update(i, (id, p))) == cap_view(s).update(i, (id, p@)),
{
    assert(cap_view(s.update(i, (id, p))) =~= cap_view(s).update(i, (id, p@)));
}

pub proof fn lemma_cap_insert(s: Seq<(u16, Vec<u8>)>, i: int, id: u16, p: Vec<u8>)
    requires
        0 <= i <= s.len(),
    ensures
        cap_view(s.insert(i, (id, p))) == cap_view(s).insert(i, (id, p@)),
{
    assert(cap_view(s.insert(i, (id, p))) =~= cap_view(s).insert(i, (id, p@)));
}

/// Builds the default value of a leaf type.
pub fn make_leaf_default(ty: LeafType) -> (r: LeafValue)
    ensures
        r@ == leaf_default(ty),
{
    match ty {
        LeafType::U8 => LeafValue::U8(0),
        LeafType::U16 => LeafValue::U16(0),
        LeafType::U32 => LeafValue::U32(0),
        LeafType::U64 => LeafValue::U64(0),
        LeafType::Bytes => LeafValue::Bytes(Vec::new()),
    }
}

/// Builds the default restored for a skipped field.
pub fn make_skip_default(k: SkipKind) -> (r: FieldValue)
    ensures
        r@ == skip_default(k),
{
    match k {
        SkipKind::Plain(ty) => FieldValue::Leaf(make_leaf_default(ty)),
        SkipKind::PlainBool => FieldValue::Flag(false),
        SkipKind::Optional(_) => FieldValue::OptLeaf(None),
        SkipKind::OptionalBool => FieldValue::OptFlag(None),
    }
}

/// Strictly ascending adjacent ids make the whole capture map ordered.
proof fn lemma_sorted_from_adjacent(es: Seq<(u16, Seq<u8>)>, i: int, j: int)
    requires
        forall|k: int| 0 <= k < es.len() - 1 ==> (#[trigger] es[k].0) < es[k + 1].0,
        0 <= i < j < es.len(),
    ensures
        es[i].0 < es[j].0,
    decreases j - i,
{
    if i + 1 < j {
        lemma_sorted_from_adjacent(es, i, j - 1);
    }
}

/// Does a leaf value inhabit a leaf type?
fn leaf_check(ty: LeafType, v: &LeafValue) -> (r: bool)
    ensures
        r == leaf_wf(ty, v@),
{
    match (ty, v) {
        (LeafType::U8, LeafValue::U8(_)) => true,
        (LeafType::U16, LeafValue::U16(_)) => true,
        (LeafType::U32, LeafValue::U32(_)) => true,
        (LeafType::U64, LeafValue::U64(_)) => true,
        (LeafType::Bytes, LeafValue::Bytes(_)) => true,
        _ => false,
    }
}

/// Does an optional leaf value inhabit a leaf type?
fn opt_leaf_check(ty: LeafType, o: &Option<LeafValue>) -> (r: bool)
    ensures
        r == match o {
            Some(l) => leaf_wf(ty, l@),
            None => true,
        },
{
    match o {
        Some(l) => leaf_check(ty, l),
        None => true,
    }
}

/// Is a capture map strictly ascending in its tag ids?
fn capture_check(es: &Vec<(u16, Vec<u8>)>) -> (r: bool)
    ensures
        r == capture_wf(cap_view(es@)),
{
    let n = es.len();
    let mut k: usize = 0;
    while n - k > 1
        invariant
            k <= n,
            n == es@.len(),
            forall|m: int| 0 <= m < k ==> (#[trigger] cap_view(es@)[m].0) < cap_view(es@)[m
                + 1].0,
        decreases n - k,
    {
        if es[k].0 >= es[k + 1].0 {
            proof {
                assert(cap_view(es@)[k as int].0 >= cap_view(es@)[k as int + 1].0);
                assert(!capture_wf(cap_view(es@)));
            }
            return false;
        }
        k = k + 1;
    }
    proof {
        assert forall|i: int, j: int| 0 <= i < j < cap_view(es@).len() implies cap_view(
            es@,
        )[i].0 < cap_view(es@)[j].0 by {
            lemma_sorted_from_adjacent(cap_view(es@), i, j);
        }
    }
    true
}

/// Does a field value inhabit its field descriptor?
fn field_check(f: FieldDescriptor, v: &FieldValue) -> (r: bool)
    ensures
        r == field_wf(f, v@),
{
    match (f, v) {
        (FieldDescriptor::Normal(ty), FieldValue::Leaf(l)) => leaf_check(ty, l),
        (FieldDescriptor::Skipped(SkipKind::Plain(ty)), FieldValue::Leaf(l)) => leaf_check(
            ty,
            l,
        ),
        (FieldDescriptor::Skipped(SkipKind::PlainBool), FieldValue::Flag(_)) => true,
        (FieldDescriptor::Skipped(SkipKind::Optional(ty)), FieldValue::OptLeaf(o)) => {
            opt_leaf_check(ty, o)
        },
        (FieldDescriptor::Skipped(SkipKind::OptionalBool), FieldValue::OptFlag(_)) => true,
        (FieldDescriptor::TlvTagged(_, ty), FieldValue::OptLeaf(o)) => opt_leaf_check(ty, o),
        (FieldDescriptor::TlvCapture, FieldValue::Capture(es)) => capture_check(es),
        _ => false,
    }
}

/// Does every field value inhabit its descriptor, one for one?
fn fields_check(fs: &Vec<FieldDescriptor>, vals: &Vec<FieldValue>) -> (r: bool)
    ensures
        r == fields_wf(fs@, fvs_view(vals@)),
{
    let n = fs.len();
    if vals.len() != n {
        return false;
    }
    let mut i: usize = 0;
    while i < n
        invariant
            i <= n,
            n == fs@.len(),
            vals@.len() == n,
            forall|k: int| 0 <= k < i ==> field_wf(fs@[k], #[trigger] fvs_view(vals@)[k]),
        decreases n - i,
    {
        if !field_check(fs[i], &vals[i]) {
            proof {
                assert(!field_wf(fs@[i as int], fvs_view(vals@)[i as int]));
            }
            return false;
        }
        i = i + 1;
    }
    true
}

/// Does a value inhabit a compiled plan?  Exactly the well-formedness that
/// encoding presumes, decided at run time; a caller outside the verified
/// world checks here before encoding.
pub fn value_matches(plan: &CodecPlan, v: &Value) -> (r: bool)
    ensures
        r == value_wf(*plan, v@),
{
    match (plan, v) {
        (CodecPlan::Struct(sp), Value::Struct(sv)) => fields_check(&sp.fields, &sv.fields),
        (CodecPlan::TaggedUnion(up), Value::TaggedUnion(uv)) => {
            if uv.ordinal >= up.variants.len() {
                false
            } else {
                fields_check(&up.variants[uv.ordinal].fields, &uv.fields)
            }
        },
        _ => false,
    }
}

} // verus!
