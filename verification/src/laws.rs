//! The codec's guarantees, stated and proved over the spec-level encoder
//! and decoder that the executable code implements exactly.

use vstd::prelude::*;
use crate::prim::{le_bytes, le_val, lemma_le_bytes_len, lemma_le_val_of_le_bytes, pow256};
use crate::schema::{
    CodecPlan, DecodeError, FieldDescriptor, LeafType, SkipKind, UnionDescriptor, UnionPlan,
    VariantPlan, descriptor_tag, plan_wf, union_plan_wf, width_bytes,
};
use crate::values::{
    FieldV, LeafV, ValueV, fields_wf, leaf_wf, skip_default, value_wf,
};
use crate::codec::{
    capture_entries, capture_index, enc_ok_main, encodable, leaf_encodable, leaf_in,
    spec_dec_fields, spec_dec_leaf, spec_dec_tlv, spec_decode, spec_enc_capture, spec_enc_fields,
    spec_enc_leaf, spec_enc_tlv_fields, spec_encode, tlv_field_index, union_tag_index,
};
use crate::compile::union_desc_ok;

verus! {

/// Decoding a leaf right after `pre`, with anything at all following its
/// encoding, recovers exactly the leaf and stops exactly after it.
pub proof fn lemma_leaf_roundtrip(pre: Seq<u8>, v: LeafV, ty: LeafType, rest: Seq<u8>)
    requires
        leaf_wf(ty, v),
        leaf_encodable(v),
    ensures
        spec_dec_leaf(pre + spec_enc_leaf(v) + rest, pre.len() as int, ty) == Ok::<
            (LeafV, int),
            DecodeError,
        >((v, (pre.len() + spec_enc_leaf(v).len()) as int)),
{
    let s = pre + spec_enc_leaf(v) + rest;
    let pos = pre.len() as int;
    assert(pow256(1) == 0x100 && pow256(2) == 0x1_0000 && pow256(4) == 0x1_0000_0000 && pow256(8)
        == 0x1_0000_0000_0000_0000) by {
        reveal_with_fuel(pow256, 9);
    }
    match v {
        LeafV::U8(x) => {
            lemma_le_bytes_len(x as nat, 1);
            assert(s.subrange(pos, pos + 1) =~= le_bytes(x as nat, 1));
            lemma_le_val_of_le_bytes(x as nat, 1);
        },
        LeafV::U16(x) => {
            lemma_le_bytes_len(x as nat, 2);
            assert(s.subrange(pos, pos + 2) =~= le_bytes(x as nat, 2));
            lemma_le_val_of_le_bytes(x as nat, 2);
        },
        LeafV::U32(x) => {
            lemma_le_bytes_len(x as nat, 4);
            assert(s.subrange(pos, pos + 4) =~= le_bytes(x as nat, 4));
            lemma_le_val_of_le_bytes(x as nat, 4);
        },
        LeafV::U64(x) => {
            lemma_le_bytes_len(x as nat, 8);
            assert(s.subrange(pos, pos + 8) =~= le_bytes(x as nat, 8));
            lemma_le_val_of_le_bytes(x as nat, 8);
        },
        LeafV::Bytes(b) => {
            lemma_le_bytes_len(b.len(), 2);
            assert(s.subrange(pos, pos + 2) =~= le_bytes(b.len(), 2));
            lemma_le_val_of_le_bytes(b.len(), 2);
            let n = b.len() as int;
            assert(s.subrange(pos + 2, pos + 2 + n) =~= b);
        },
    }
}

/// What one field contributes to a decoded value: a normal field keeps its
/// value, every other role starts from its decode-time initial state.
pub open spec fn dec_image_field(f: FieldDescriptor, v: FieldV) -> FieldV {
    match f {
        FieldDescriptor::Normal(_) => v,
        FieldDescriptor::Skipped(k) => skip_default(k),
        FieldDescriptor::TlvTagged(_, _) => FieldV::OptLeaf(None),
        FieldDescriptor::TlvCapture => FieldV::Capture(Seq::empty()),
    }
}

/// The main-body decode image of fields `i..` of a value.
pub open spec fn dec_image(fs: Seq<FieldDescriptor>, vs: Seq<FieldV>, i: int) -> Seq<FieldV>
    decreases fs.len() - i,
{
    if i < 0 || i >= fs.len() {
        Seq::empty()
    } else {
        seq![dec_image_field(fs[i], vs[i])] + dec_image(fs, vs, i + 1)
    }
}

/// Decoding the main body of an encoded field list, with anything at all
/// following it, recovers the decode image of the encoded values and stops
/// exactly after the body.
pub proof fn lemma_dec_fields_enc(
    fs: Seq<FieldDescriptor>,
    vs: Seq<FieldV>,
    pre: Seq<u8>,
    rest: Seq<u8>,
    i: int,
    acc: Seq<FieldV>,
)
    requires
        0 <= i,
        fields_wf(fs, vs),
        enc_ok_main(fs, vs, i),
    ensures
        spec_dec_fields(fs, pre + spec_enc_fields(fs, vs, i) + rest, pre.len() as int, i, acc)
            == Ok::<(Seq<FieldV>, int), DecodeError>(
            (acc + dec_image(fs, vs, i), (pre.len() + spec_enc_fields(fs, vs, i).len()) as int),
        ),
    decreases fs.len() - i,
{
    if i >= fs.len() {
        assert(acc + dec_image(fs, vs, i) =~= acc);
        assert(spec_enc_fields(fs, vs, i) =~= Seq::<u8>::empty());
    } else {
        let tail = spec_enc_fields(fs, vs, i + 1);
        let s = pre + spec_enc_fields(fs, vs, i) + rest;
        match fs[i] {
            FieldDescriptor::Normal(ty) => {
                let head = spec_enc_leaf(leaf_in(vs[i]));
                let l = leaf_in(vs[i]);
                assert(vs[i] == FieldV::Leaf(l));
                assert(s =~= pre + head + (tail + rest));
                lemma_leaf_roundtrip(pre, l, ty, tail + rest);
                assert(spec_dec_leaf(s, pre.len() as int, ty) == Ok::<(LeafV, int), DecodeError>(
                    (l, (pre.len() + head.len()) as int),
                ));
                let pre2 = pre + head;
                assert(s =~= pre2 + tail + rest);
                lemma_dec_fields_enc(fs, vs, pre2, rest, i + 1, acc.push(vs[i]));
                assert(acc.push(vs[i]) + dec_image(fs, vs, i + 1) =~= acc + dec_image(
                    fs,
                    vs,
                    i,
                ));
            },
            FieldDescriptor::Skipped(k) => {
                assert(s =~= pre + tail + rest);
                lemma_dec_fields_enc(fs, vs, pre, rest, i + 1, acc.push(skip_default(k)));
                assert(acc.push(skip_default(k)) + dec_image(fs, vs, i + 1) =~= acc + dec_image(
                    fs,
                    vs,
                    i,
                ));
            },
            FieldDescriptor::TlvTagged(_, _) => {
                assert(s =~= pre + tail + rest);
                lemma_dec_fields_enc(fs, vs, pre, rest, i + 1, acc.push(FieldV::OptLeaf(None)));
                assert(acc.push(FieldV::OptLeaf(None)) + dec_image(fs, vs, i + 1) =~= acc
                    + dec_image(fs, vs, i));
            },
            FieldDescriptor::TlvCapture => {
                assert(s =~= pre + tail + rest);
                lemma_dec_fields_enc(
                    fs,
                    vs,
                    pre,
                    rest,
                    i + 1,
                    acc.push(FieldV::Capture(Seq::empty())),
                );
                assert(acc.push(FieldV::Capture(Seq::empty())) + dec_image(fs, vs, i + 1) =~= acc
                    + dec_image(fs, vs, i));
            },
        }
    }
}

/// A field list without skipped or TLV roles decodes back to exactly the
/// values that were encoded.
pub proof fn lemma_dec_image_normal(fs: Seq<FieldDescriptor>, vs: Seq<FieldV>, i: int)
    requires
        0 <= i,
        fields_wf(fs, vs),
        forall|k: int| 0 <= k < fs.len() ==> fs[k] is Normal,
    ensures
        dec_image(fs, vs, i) == vs.subrange(
            if i <= fs.len() {
                i
            } else {
                fs.len() as int
            },
            fs.len() as int,
        ),
    decreases fs.len() - i,
{
    if i >= fs.len() {
        assert(dec_image(fs, vs, i) =~= vs.subrange(fs.len() as int, fs.len() as int));
    } else {
        lemma_dec_image_normal(fs, vs, i + 1);
        assert(seq![dec_image_field(fs[i], vs[i])] + vs.subrange(i + 1, fs.len() as int)
            =~= vs.subrange(i, fs.len() as int));
    }
}

/// A field list without TLV-tagged fields contributes nothing to the TLV
/// region.
pub proof fn lemma_enc_tlv_empty(fs: Seq<FieldDescriptor>, vs: Seq<FieldV>, i: int)
    requires
        forall|k: int| 0 <= k < fs.len() ==> !((#[trigger] fs[k]) is TlvTagged),
    ensures
        spec_enc_tlv_fields(fs, vs, i) == Seq::<u8>::empty(),
    decreases fs.len() - i,
{
    if 0 <= i < fs.len() {
        lemma_enc_tlv_empty(fs, vs, i + 1);
        assert(spec_enc_tlv_fields(fs, vs, i) =~= Seq::<u8>::empty());
    }
}

/// A field list without a capture field has no capture index.
pub proof fn lemma_capture_index_none(fs: Seq<FieldDescriptor>, i: int)
    requires
        forall|k: int| 0 <= k < fs.len() ==> !((#[trigger] fs[k]) is TlvCapture),
    ensures
        capture_index(fs, i) is None,
    decreases fs.len() - i,
{
    if 0 <= i < fs.len() {
        lemma_capture_index_none(fs, i + 1);
    }
}

/// Looking up a tag among pairwise distinct variant tags finds exactly the
/// variant that carries it.
pub proof fn lemma_tag_index_finds(vars: Seq<VariantPlan>, ord: int, i: int)
    requires
        0 <= i <= ord < vars.len(),
        forall|x: int, y: int| 0 <= x < y < vars.len() ==> vars[x].tag != vars[y].tag,
    ensures
        union_tag_index(vars, vars[ord].tag, i) == Some(ord),
    decreases vars.len() - i,
{
    if i < ord {
        lemma_tag_index_finds(vars, ord, i + 1);
    }
}

/// Does the plan route any field through the wire at all beyond the main
/// body?  (Only TLV-enabled structures do.)
pub open spec fn has_tlv_region(plan: CodecPlan) -> bool {
    match plan {
        CodecPlan::Struct(sp) => sp.use_tlv,
        CodecPlan::TaggedUnion(_) => false,
    }
}

/// Does every field of the plan (of every variant, for a union) hold the
/// normal role — no skipped and no TLV fields?
pub open spec fn all_normal(plan: CodecPlan) -> bool {
    match plan {
        CodecPlan::Struct(sp) => forall|i: int|
            0 <= i < sp.fields@.len() ==> (#[trigger] sp.fields@[i]) is Normal,
        CodecPlan::TaggedUnion(up) => forall|i: int, j: int|
            0 <= i < up.variants@.len() && 0 <= j < up.variants@[i].fields@.len()
                ==> (#[trigger] up.variants@[i].fields@[j]) is Normal,
    }
}

/// Round trip: for every well-formed, encodable value of a type without
/// skipped or TLV fields, decoding its encoding yields the value itself.
pub proof fn lemma_round_trip(plan: CodecPlan, v: ValueV)
    requires
        plan_wf(plan),
        value_wf(plan, v),
        encodable(plan, v),
        all_normal(plan),
    ensures
        spec_decode(plan, spec_encode(plan, v)) == Ok::<ValueV, DecodeError>(v),
{
    match (plan, v) {
        (CodecPlan::Struct(sp), ValueV::Struct(vs)) => {
            let fs = sp.fields@;
            let body = spec_enc_fields(fs, vs, 0);
            let s = spec_encode(plan, v);
            lemma_enc_tlv_empty(fs, vs, 0);
            lemma_capture_index_none(fs, 0);
            assert(capture_entries(fs, vs) =~= Seq::<(u16, Seq<u8>)>::empty());
            assert(spec_enc_capture(capture_entries(fs, vs), 0) =~= Seq::<u8>::empty());
            assert(s =~= body);
            assert(s =~= Seq::<u8>::empty() + body + Seq::<u8>::empty());
            lemma_dec_fields_enc(fs, vs, Seq::empty(), Seq::empty(), 0, Seq::empty());
            lemma_dec_image_normal(fs, vs, 0);
            assert(vs.subrange(0, fs.len() as int) =~= vs);
            assert(Seq::<FieldV>::empty() + dec_image(fs, vs, 0) =~= dec_image(fs, vs, 0));
            assert(spec_dec_fields(fs, s, 0, 0, Seq::empty()) == Ok::<
                (Seq<FieldV>, int),
                DecodeError,
            >((vs, body.len() as int)));
        },
        (CodecPlan::TaggedUnion(up), ValueV::Union(ord, vs)) => {
            let vars = up.variants@;
            let fs = vars[ord].fields@;
            let w = width_bytes(up.width);
            let tag = vars[ord].tag;
            let head = le_bytes(tag as nat, w);
            let body = spec_enc_fields(fs, vs, 0);
            let s = spec_encode(plan, v);
            lemma_le_bytes_len(tag as nat, w);
            assert(s =~= head + body + Seq::<u8>::empty());
            assert(s.subrange(0, w as int) =~= head);
            lemma_le_val_of_le_bytes(tag as nat, w);
            lemma_tag_index_finds(vars, ord, 0);
            lemma_dec_fields_enc(fs, vs, head, Seq::empty(), 0, Seq::empty());
            lemma_dec_image_normal(fs, vs, 0);
            assert(vs.subrange(0, fs.len() as int) =~= vs);
            assert(Seq::<FieldV>::empty() + dec_image(fs, vs, 0) =~= dec_image(fs, vs, 0));
        },
        _ => {},
    }
}

/// Strictness: appending one extra byte after a complete, valid encoding
/// of any value of a type without a TLV region makes decoding fail with a
/// trailing-bytes error.
pub proof fn lemma_trailing_byte(plan: CodecPlan, v: ValueV, b: u8)
    requires
        plan_wf(plan),
        value_wf(plan, v),
        encodable(plan, v),
        !has_tlv_region(plan),
    ensures
        spec_decode(plan, spec_encode(plan, v) + seq![b]) == Err::<ValueV, DecodeError>(
            DecodeError::TrailingBytes,
        ),
{
    match (plan, v) {
        (CodecPlan::Struct(sp), ValueV::Struct(vs)) => {
            let fs = sp.fields@;
            let body = spec_enc_fields(fs, vs, 0);
            let s = spec_encode(plan, v) + seq![b];
            assert(spec_encode(plan, v) =~= body);
            assert(s =~= Seq::<u8>::empty() + body + seq![b]);
            lemma_dec_fields_enc(fs, vs, Seq::empty(), seq![b], 0, Seq::empty());
        },
        (CodecPlan::TaggedUnion(up), ValueV::Union(ord, vs)) => {
            let vars = up.variants@;
            let fs = vars[ord].fields@;
            let w = width_bytes(up.width);
            let tag = vars[ord].tag;
            let head = le_bytes(tag as nat, w);
            let body = spec_enc_fields(fs, vs, 0);
            let s = spec_encode(plan, v) + seq![b];
            lemma_le_bytes_len(tag as nat, w);
            assert(s =~= head + body + seq![b]);
            assert(s.subrange(0, w as int) =~= head);
            lemma_le_val_of_le_bytes(tag as nat, w);
            lemma_tag_index_finds(vars, ord, 0);
            lemma_dec_fields_enc(fs, vs, head, seq![b], 0, Seq::empty());
        },
        _ => {},
    }
}

/// Values that differ only in skipped fields encode to the same bytes
/// (main body part).
pub proof fn lemma_enc_fields_skip_agnostic(
    fs: Seq<FieldDescriptor>,
    vs1: Seq<FieldV>,
    vs2: Seq<FieldV>,
    i: int,
)
    requires
        vs1.len() == fs.len(),
        vs2.len() == fs.len(),
        forall|k: int| 0 <= k < fs.len() && !(fs[k] is Skipped) ==> vs1[k] == vs2[k],
    ensures
        spec_enc_fields(fs, vs1, i) == spec_enc_fields(fs, vs2, i),
        spec_enc_tlv_fields(fs, vs1, i) == spec_enc_tlv_fields(fs, vs2, i),
    decreases fs.len() - i,
{
    if 0 <= i < fs.len() {
        lemma_enc_fields_skip_agnostic(fs, vs1, vs2, i + 1);
    }
}

/// Skipped fields leave no trace: encoding a structure with a populated
/// skipped field yields exactly the bytes of the same structure with that
/// field holding any other value, its default included.
pub proof fn lemma_skipped_fields_ignored(plan: CodecPlan, v1: ValueV, v2: ValueV)
    requires
        value_wf(plan, v1),
        value_wf(plan, v2),
        match (plan, v1, v2) {
            (CodecPlan::Struct(sp), ValueV::Struct(x), ValueV::Struct(y)) => forall|k: int|
                0 <= k < sp.fields@.len() && !(sp.fields@[k] is Skipped) ==> x[k] == y[k],
            (CodecPlan::TaggedUnion(up), ValueV::Union(o1, x), ValueV::Union(o2, y)) => o1 == o2
                && (forall|k: int|
                0 <= k < up.variants@[o1].fields@.len() && !(up.variants@[o1].fields@[k]
                    is Skipped) ==> x[k] == y[k]),
            _ => false,
        },
    ensures
        spec_encode(plan, v1) == spec_encode(plan, v2),
{
    match (plan, v1, v2) {
        (CodecPlan::Struct(sp), ValueV::Struct(x), ValueV::Struct(y)) => {
            let fs = sp.fields@;
            lemma_enc_fields_skip_agnostic(fs, x, y, 0);
            match capture_index(fs, 0) {
                Some(c) => {
                    lemma_capture_index_bounds(fs, 0);
                    assert(x[c] == y[c]);
                },
                None => {},
            }
        },
        (CodecPlan::TaggedUnion(up), ValueV::Union(o1, x), ValueV::Union(_, y)) => {
            lemma_enc_fields_skip_agnostic(up.variants@[o1].fields@, x, y, 0);
        },
        _ => {},
    }
}

/// A capture index points at a capture field inside the list.
pub proof fn lemma_capture_index_bounds(fs: Seq<FieldDescriptor>, i: int)
    ensures
        capture_index(fs, i) matches Some(c) ==> i <= c < fs.len() && fs[c] is TlvCapture,
    decreases fs.len() - i,
{
    if 0 <= i < fs.len() && !(fs[i] is TlvCapture) {
        lemma_capture_index_bounds(fs, i + 1);
    }
}

/// Two distinct declaration positions resolving to one tag make the union
/// descriptor uncompilable: a tag conflict is a schema-time error.
pub proof fn lemma_tag_conflict_rejected(u: UnionDescriptor, i: int, j: int)
    requires
        0 <= i < j < u.variants@.len(),
        descriptor_tag(u, i) == descriptor_tag(u, j),
    ensures
        !union_desc_ok(u),
{
}

/// In every compiled union plan, resolved tags are pairwise distinct.
pub proof fn lemma_compiled_tags_distinct(p: UnionPlan, i: int, j: int)
    requires
        union_plan_wf(p),
        0 <= i < j < p.variants@.len(),
    ensures
        p.variants@[i].tag != p.variants@[j].tag,
{
}

/// By-order tagging gives every variant without an explicit override its
/// declaration ordinal as tag, whatever intrinsic value it carries; in
/// particular the first declared variant always encodes with tag zero.
pub proof fn lemma_by_order_tag(u: UnionDescriptor, i: int)
    requires
        !u.by_value,
        0 <= i < u.variants@.len(),
        u.variants@[i].explicit_value is None,
    ensures
        descriptor_tag(u, i) == i as u64,
{
}

/// A successful main-body read extends its accumulator: earlier entries
/// stay, and one value is appended per remaining field.
pub proof fn lemma_dec_fields_prefix(
    fs: Seq<FieldDescriptor>,
    s: Seq<u8>,
    pos: int,
    i: int,
    acc: Seq<FieldV>,
)
    requires
        0 <= i <= fs.len(),
    ensures
        spec_dec_fields(fs, s, pos, i, acc) matches Ok((vs, p)) ==> vs.len() == acc.len() + (
        fs.len() - i) && (forall|m: int| 0 <= m < acc.len() ==> vs[m] == acc[m]),
    decreases fs.len() - i,
{
    if i < fs.len() {
        match fs[i] {
            FieldDescriptor::Normal(ty) => {
                match spec_dec_leaf(s, pos, ty) {
                    Ok((lv, p2)) => {
                        lemma_dec_fields_prefix(fs, s, p2, i + 1, acc.push(FieldV::Leaf(lv)));
                    },
                    Err(_) => {},
                }
            },
            FieldDescriptor::Skipped(k) => {
                lemma_dec_fields_prefix(fs, s, pos, i + 1, acc.push(skip_default(k)));
            },
            FieldDescriptor::TlvTagged(_, _) => {
                lemma_dec_fields_prefix(fs, s, pos, i + 1, acc.push(FieldV::OptLeaf(None)));
            },
            FieldDescriptor::TlvCapture => {
                lemma_dec_fields_prefix(fs, s, pos, i + 1, acc.push(FieldV::Capture(Seq::empty())));
            },
        }
    }
}

/// Whatever the input bytes hold, a successful main-body read puts the
/// declared default into every skipped field.
pub proof fn lemma_dec_fields_skip_at(
    fs: Seq<FieldDescriptor>,
    s: Seq<u8>,
    pos: int,
    i: int,
    acc: Seq<FieldV>,
    j: int,
    k: SkipKind,
)
    requires
        0 <= i <= j < fs.len(),
        fs[j] == FieldDescriptor::Skipped(k),
    ensures
        spec_dec_fields(fs, s, pos, i, acc) matches Ok((vs, p)) ==> vs[acc.len() + (j - i)]
            == skip_default(k),
    decreases fs.len() - i,
{
    if i == j {
        match spec_dec_fields(fs, s, pos, i, acc) {
            Ok(_) => {
                lemma_dec_fields_prefix(fs, s, pos, i + 1, acc.push(skip_default(k)));
            },
            Err(_) => {},
        }
    } else {
        match fs[i] {
            FieldDescriptor::Normal(ty) => {
                match spec_dec_leaf(s, pos, ty) {
                    Ok((lv, p2)) => {
                        lemma_dec_fields_skip_at(fs, s, p2, i + 1, acc.push(FieldV::Leaf(lv)), j, k);
                    },
                    Err(_) => {},
                }
            },
            FieldDescriptor::Skipped(k2) => {
                lemma_dec_fields_skip_at(fs, s, pos, i + 1, acc.push(skip_default(k2)), j, k);
            },
            FieldDescriptor::TlvTagged(_, _) => {
                lemma_dec_fields_skip_at(fs, s, pos, i + 1, acc.push(FieldV::OptLeaf(None)), j, k);
            },
            FieldDescriptor::TlvCapture => {
                lemma_dec_fields_skip_at(
                    fs,
                    s,
                    pos,
                    i + 1,
                    acc.push(FieldV::Capture(Seq::empty())),
                    j,
                    k,
                );
            },
        }
    }
}

/// A found TLV field index points at a TLV-tagged field inside the list.
pub proof fn lemma_tlv_index_shape(fs: Seq<FieldDescriptor>, id: u16, i: int)
    ensures
        tlv_field_index(fs, id, i) matches Some(j) ==> i <= j < fs.len() && fs[j] is TlvTagged,
    decreases fs.len() - i,
{
    if 0 <= i < fs.len() {
        lemma_tlv_index_shape(fs, id, i + 1);
    }
}

/// Reading the TLV region never touches a skipped field.
pub proof fn lemma_dec_tlv_skip_preserved(
    fs: Seq<FieldDescriptor>,
    s: Seq<u8>,
    pos: int,
    vs: Seq<FieldV>,
    cap: Seq<(u16, Seq<u8>)>,
    j: int,
)
    requires
        0 <= j < fs.len(),
        fs[j] is Skipped,
        vs.len() == fs.len(),
    ensures
        spec_dec_tlv(fs, s, pos, vs, cap) matches Ok((vs2, cap2, p)) ==> vs2.len() == vs.len()
            && vs2[j] == vs[j],
    decreases s.len() - pos,
{
    if pos >= s.len() {
    } else if pos + 4 > s.len() {
    } else {
        let id = le_val(s.subrange(pos, pos + 2)) as u16;
        let n = le_val(s.subrange(pos + 2, pos + 4)) as int;
        if pos + 4 + n > s.len() {
        } else {
            let payload = s.subrange(pos + 4, pos + 4 + n);
            match tlv_field_index(fs, id, 0) {
                Some(jj) => {
                    lemma_tlv_index_shape(fs, id, 0);
                    match spec_dec_leaf(payload, 0, crate::codec::tlv_ty(fs[jj])) {
                        Ok((lv, used)) => {
                            if used == payload.len() {
                                lemma_dec_tlv_skip_preserved(
                                    fs,
                                    s,
                                    pos + 4 + n,
                                    vs.update(jj, FieldV::OptLeaf(Some(lv))),
                                    cap,
                                    j,
                                );
                            }
                        },
                        Err(_) => {},
                    }
                },
                None => {
                    if id % 2 != 0 {
                        lemma_dec_tlv_skip_preserved(
                            fs,
                            s,
                            pos + 4 + n,
                            vs,
                            crate::codec::insert_entry(cap, id, payload, 0),
                            j,
                        );
                    }
                },
            }
        }
    }
}

/// Whatever bytes a structure is decoded from, a skipped field always
/// comes back holding its declared default — its encoded absence cannot be
/// overridden by the input.
pub proof fn lemma_skipped_decodes_to_default(plan: CodecPlan, s: Seq<u8>, j: int, k: SkipKind)
    requires
        plan matches CodecPlan::Struct(sp) && 0 <= j < sp.fields@.len() && sp.fields@[j]
            == FieldDescriptor::Skipped(k),
    ensures
        spec_decode(plan, s) matches Ok(w) ==> w matches ValueV::Struct(vs) && vs[j]
            == skip_default(k),
{
    match plan {
        CodecPlan::Struct(sp) => {
            let fs = sp.fields@;
            lemma_dec_fields_prefix(fs, s, 0, 0, Seq::empty());
            lemma_dec_fields_skip_at(fs, s, 0, 0, Seq::empty(), j, k);
            match spec_dec_fields(fs, s, 0, 0, Seq::empty()) {
                Ok((vs1, p)) => {
                    if sp.use_tlv {
                        lemma_dec_tlv_skip_preserved(fs, s, p, vs1, Seq::empty(), j);
                        match spec_dec_tlv(fs, s, p, vs1, Seq::empty()) {
                            Ok((vs2, cap, p2)) => {
                                lemma_capture_index_bounds(fs, 0);
                            },
                            Err(_) => {},
                        }
                    }
                },
                Err(_) => {},
            }
        },
        CodecPlan::TaggedUnion(_) => {},
    }
}

/// Every successfully decoded leaf inhabits the type it was read as.
pub proof fn lemma_dec_leaf_wf(s: Seq<u8>, pos: int, ty: LeafType)
    ensures
        spec_dec_leaf(s, pos, ty) matches Ok((lv, p)) ==> leaf_wf(ty, lv),
{
}

/// A skipped field's default inhabits its declared shape.
pub proof fn lemma_skip_default_wf(k: SkipKind)
    ensures
        crate::values::skip_wf(k, skip_default(k)),
{
}

/// A successful main-body read extends well-formed values to well-formed
/// values: every decoded field inhabits its descriptor.
pub proof fn lemma_dec_fields_wf(
    fs: Seq<FieldDescriptor>,
    s: Seq<u8>,
    pos: int,
    i: int,
    acc: Seq<FieldV>,
)
    requires
        0 <= i <= fs.len(),
        acc.len() == i,
        forall|m: int| 0 <= m < i ==> crate::values::field_wf(fs[m], #[trigger] acc[m]),
    ensures
        spec_dec_fields(fs, s, pos, i, acc) matches Ok((vs, p)) ==> fields_wf(fs, vs),
    decreases fs.len() - i,
{
    if i < fs.len() {
        match fs[i] {
            FieldDescriptor::Normal(ty) => {
                match spec_dec_leaf(s, pos, ty) {
                    Ok((lv, p2)) => {
                        lemma_dec_leaf_wf(s, pos, ty);
                        lemma_dec_fields_wf(fs, s, p2, i + 1, acc.push(FieldV::Leaf(lv)));
                    },
                    Err(_) => {},
                }
            },
            FieldDescriptor::Skipped(k) => {
                lemma_skip_default_wf(k);
                lemma_dec_fields_wf(fs, s, pos, i + 1, acc.push(skip_default(k)));
            },
            FieldDescriptor::TlvTagged(_, _) => {
                lemma_dec_fields_wf(fs, s, pos, i + 1, acc.push(FieldV::OptLeaf(None)));
            },
            FieldDescriptor::TlvCapture => {
                lemma_dec_fields_wf(fs, s, pos, i + 1, acc.push(FieldV::Capture(Seq::empty())));
            },
        }
    }
}

/// Ordered insertion keeps a capture map ordered, given the scanned prefix
/// lies below the inserted id.
pub proof fn lemma_insert_entry_sorted(es: Seq<(u16, Seq<u8>)>, id: u16, payload: Seq<u8>, i: int)
    requires
        0 <= i <= es.len(),
        crate::values::capture_wf(es),
        forall|k: int| 0 <= k < i ==> (#[trigger] es[k]).0 < id,
    ensures
        crate::values::capture_wf(crate::codec::insert_entry(es, id, payload, i)),
    decreases es.len() - i,
{
    let out = crate::codec::insert_entry(es, id, payload, i);
    if i >= es.len() {
        let out2 = es.push((id, payload));
        assert forall|x: int, y: int| 0 <= x < y < out2.len() implies out2[x].0 < out2[y].0 by {
            if y < es.len() {
            } else {
                assert(out2[y] == (id, payload));
            }
        }
    } else if id < es[i].0 {
        let out2 = es.insert(i, (id, payload));
        assert forall|x: int, y: int| 0 <= x < y < out2.len() implies out2[x].0 < out2[y].0 by {
            if x < i {
                assert(out2[x] == es[x]);
            } else if x == i {
                assert(out2[x] == (id, payload));
            } else {
                assert(out2[x] == es[x - 1]);
            }
            if y < i {
                assert(out2[y] == es[y]);
            } else if y == i {
                assert(out2[y] == (id, payload));
            } else {
                assert(out2[y] == es[y - 1]);
            }
        }
    } else if id == es[i].0 {
        let out2 = es.update(i, (id, payload));
        assert forall|x: int, y: int| 0 <= x < y < out2.len() implies out2[x].0 < out2[y].0 by {
            assert(out2[x].0 == es[x].0);
            assert(out2[y].0 == es[y].0);
        }
    } else {
        lemma_insert_entry_sorted(es, id, payload, i + 1);
    }
}

/// A found variant index lies inside the variant list.
pub proof fn lemma_union_tag_index_bounds(vars: Seq<VariantPlan>, tag: u64, i: int)
    ensures
        union_tag_index(vars, tag, i) matches Some(j) ==> i <= j < vars.len(),
    decreases vars.len() - i,
{
    if 0 <= i < vars.len() {
        lemma_union_tag_index_bounds(vars, tag, i + 1);
    }
}

/// Reading the TLV region keeps every field well-formed and the capture
/// map ordered.
pub proof fn lemma_dec_tlv_wf(
    fs: Seq<FieldDescriptor>,
    s: Seq<u8>,
    pos: int,
    vs: Seq<FieldV>,
    cap: Seq<(u16, Seq<u8>)>,
)
    requires
        fields_wf(fs, vs),
        crate::values::capture_wf(cap),
    ensures
        spec_dec_tlv(fs, s, pos, vs, cap) matches Ok((vs2, cap2, p)) ==> fields_wf(fs, vs2)
            && crate::values::capture_wf(cap2),
    decreases s.len() - pos,
{
    if pos >= s.len() {
    } else if pos + 4 > s.len() {
    } else {
        let id = le_val(s.subrange(pos, pos + 2)) as u16;
        let n = le_val(s.subrange(pos + 2, pos + 4)) as int;
        if pos + 4 + n > s.len() {
        } else {
            let payload = s.subrange(pos + 4, pos + 4 + n);
            match tlv_field_index(fs, id, 0) {
                Some(jj) => {
                    lemma_tlv_index_shape(fs, id, 0);
                    let ty = crate::codec::tlv_ty(fs[jj]);
                    match spec_dec_leaf(payload, 0, ty) {
                        Ok((lv, used)) => {
                            if used == payload.len() {
                                lemma_dec_leaf_wf(payload, 0, ty);
                                lemma_dec_tlv_wf(
                                    fs,
                                    s,
                                    pos + 4 + n,
                                    vs.update(jj, FieldV::OptLeaf(Some(lv))),
                                    cap,
                                );
                            }
                        },
                        Err(_) => {},
                    }
                },
                None => {
                    if id % 2 != 0 {
                        lemma_insert_entry_sorted(cap, id, payload, 0);
                        lemma_dec_tlv_wf(
                            fs,
                            s,
                            pos + 4 + n,
                            vs,
                            crate::codec::insert_entry(cap, id, payload, 0),
                        );
                    }
                },
            }
        }
    }
}

/// Every successfully decoded value is well-formed for its plan: normal
/// fields inhabit their types, skipped fields hold their defaults' shapes,
/// and the capture map comes back in ascending id order — so a decoded
/// value is always fit to encode again.
pub proof fn lemma_decode_wf(plan: CodecPlan, s: Seq<u8>)
    ensures
        spec_decode(plan, s) matches Ok(w) ==> value_wf(plan, w),
{
    match plan {
        CodecPlan::Struct(sp) => {
            let fs = sp.fields@;
            lemma_dec_fields_wf(fs, s, 0, 0, Seq::empty());
            match spec_dec_fields(fs, s, 0, 0, Seq::empty()) {
                Ok((vs1, p)) => {
                    if sp.use_tlv {
                        lemma_dec_tlv_wf(fs, s, p, vs1, Seq::empty());
                        match spec_dec_tlv(fs, s, p, vs1, Seq::empty()) {
                            Ok((vs2, cap, p2)) => {
                                lemma_capture_index_bounds(fs, 0);
                            },
                            Err(_) => {},
                        }
                    }
                },
                Err(_) => {},
            }
        },
        CodecPlan::TaggedUnion(up) => {
            let w = width_bytes(up.width) as int;
            if w <= s.len() {
                let tag = le_val(s.subrange(0, w)) as u64;
                lemma_union_tag_index_bounds(up.variants@, tag, 0);
                match union_tag_index(up.variants@, tag, 0) {
                    Some(j) => {
                        lemma_dec_fields_wf(up.variants@[j].fields@, s, w, 0, Seq::empty());
                    },
                    None => {},
                }
            }
        },
    }
}

/// The raw payload stored under a tag id in a capture mapping.
pub open spec fn cap_lookup(es: Seq<(u16, Seq<u8>)>, id: u16) -> Option<Seq<u8>>
    decreases es.len(),
{
    if es.len() == 0 {
        None
    } else if es[0].0 == id {
        Some(es[0].1)
    } else {
        cap_lookup(es.subrange(1, es.len() as int), id)
    }
}

/// After inserting an entry, its payload is found verbatim under its id.
pub proof fn lemma_insert_entry_found(es: Seq<(u16, Seq<u8>)>, id: u16, payload: Seq<u8>, i: int)
    requires
        0 <= i <= es.len(),
        forall|k: int| 0 <= k < i ==> (#[trigger] es[k]).0 < id,
    ensures
        cap_lookup(crate::codec::insert_entry(es, id, payload, i), id) == Some(payload),
    decreases es.len() - i,
{
    let out = crate::codec::insert_entry(es, id, payload, i);
    if i >= es.len() {
        lemma_cap_lookup_skip_prefix(es.push((id, payload)), id, payload, i);
    } else if id < es[i].0 {
        lemma_cap_lookup_skip_prefix(es.insert(i, (id, payload)), id, payload, i);
    } else if id == es[i].0 {
        lemma_cap_lookup_skip_prefix(es.update(i, (id, payload)), id, payload, i);
    } else {
        lemma_insert_entry_found(es, id, payload, i + 1);
    }
}

/// Looking up `id` in a sequence whose first `i` entries carry smaller ids
/// and whose entry `i` is `(id, payload)` yields that payload.
pub proof fn lemma_cap_lookup_skip_prefix(es: Seq<(u16, Seq<u8>)>, id: u16, payload: Seq<u8>, i: int)
    requires
        0 <= i < es.len(),
        forall|k: int| 0 <= k < i ==> (#[trigger] es[k]).0 != id,
        es[i] == (id, payload),
    ensures
        cap_lookup(es, id) == Some(payload),
    decreases i,
{
    if i > 0 {
        let tail = es.subrange(1, es.len() as int);
        assert(forall|k: int| 0 <= k < i - 1 ==> (#[trigger] tail[k]).0 != id);
        assert(tail[i - 1] == (id, payload));
        lemma_cap_lookup_skip_prefix(tail, id, payload, i - 1);
    }
}

/// An entry with an unknown even tag id aborts the TLV region decode with
/// the mandatory-to-understand error.
pub proof fn lemma_unknown_even_tlv(
    fs: Seq<FieldDescriptor>,
    s: Seq<u8>,
    pos: int,
    vs: Seq<FieldV>,
    cap: Seq<(u16, Seq<u8>)>,
    id: u16,
    n: int,
)
    requires
        0 <= pos,
        pos + 4 <= s.len(),
        id == le_val(s.subrange(pos, pos + 2)) as u16,
        n == le_val(s.subrange(pos + 2, pos + 4)),
        pos + 4 + n <= s.len(),
        tlv_field_index(fs, id, 0) is None,
        id % 2 == 0,
    ensures
        spec_dec_tlv(fs, s, pos, vs, cap) == Err::<
            (Seq<FieldV>, Seq<(u16, Seq<u8>)>, int),
            DecodeError,
        >(DecodeError::UnknownMandatoryTlv(id)),
{
}

/// An entry with an unknown odd tag id is captured verbatim, keyed by that
/// id, and the region decode continues past it.
pub proof fn lemma_unknown_odd_tlv(
    fs: Seq<FieldDescriptor>,
    s: Seq<u8>,
    pos: int,
    vs: Seq<FieldV>,
    cap: Seq<(u16, Seq<u8>)>,
    id: u16,
    n: int,
)
    requires
        0 <= pos,
        pos + 4 <= s.len(),
        id == le_val(s.subrange(pos, pos + 2)) as u16,
        n == le_val(s.subrange(pos + 2, pos + 4)),
        pos + 4 + n <= s.len(),
        tlv_field_index(fs, id, 0) is None,
        id % 2 == 1,
    ensures
        spec_dec_tlv(fs, s, pos, vs, cap) == spec_dec_tlv(
            fs,
            s,
            pos + 4 + n,
            vs,
            crate::codec::insert_entry(cap, id, s.subrange(pos + 4, pos + 4 + n), 0),
        ),
        cap_lookup(
            crate::codec::insert_entry(cap, id, s.subrange(pos + 4, pos + 4 + n), 0),
            id,
        ) == Some(s.subrange(pos + 4, pos + 4 + n)),
{
    lemma_insert_entry_found(cap, id, s.subrange(pos + 4, pos + 4 + n), 0);
}

} // verus!
