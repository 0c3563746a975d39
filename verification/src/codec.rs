//! Codec driver: the byte-level meaning of a compiled plan, as spec-level
//! encode and decode functions, and the verified executable codec that
//! implements them exactly.

use vstd::prelude::*;
use crate::prim::{
    copy_range, le_bytes, le_val, lemma_pow256_mono, pow256, push_bytes, read_le, write_le,
};
use crate::schema::{
    CodecPlan, DecodeError, EncodeError, FieldDescriptor, LeafType, StructPlan, UnionPlan,
    VariantPlan, width_bytes, width_bytes_exec,
};
use crate::values::{
    FieldV, FieldValue, LeafV, LeafValue, StructValue, UnionValue, Value, ValueV, cap_view,
    fvs_view, lemma_cap_insert, lemma_cap_push, lemma_cap_update, lemma_fvs_push,
    lemma_fvs_update, make_skip_default, skip_default,
};

verus! {

/// Can this leaf be emitted at all?  Only a byte sequence can fail, by
/// overflowing its 16-bit length prefix.
pub open spec fn leaf_encodable(v: LeafV) -> bool {
    match v {
        LeafV::Bytes(b) => b.len() <= 0xFFFF,
        _ => true,
    }
}

/// Byte image of a leaf value: fixed-width little-endian integers; byte
/// sequences prefixed by their 16-bit little-endian length.
pub open spec fn spec_enc_leaf(v: LeafV) -> Seq<u8> {
    match v {
        LeafV::U8(x) => le_bytes(x as nat, 1),
        LeafV::U16(x) => le_bytes(x as nat, 2),
        LeafV::U32(x) => le_bytes(x as nat, 4),
        LeafV::U64(x) => le_bytes(x as nat, 8),
        LeafV::Bytes(b) => le_bytes(b.len(), 2) + b,
    }
}

/// Reading a leaf of type `ty` at `pos`: the exact inverse of
/// [`spec_enc_leaf`], failing with a truncation error when the fixed part
/// runs past the end, and with a length mismatch when a declared length
/// would read past the end.
pub open spec fn spec_dec_leaf(s: Seq<u8>, pos: int, ty: LeafType) -> Result<
    (LeafV, int),
    DecodeError,
> {
    match ty {
        LeafType::U8 => if pos + 1 <= s.len() {
            Ok((LeafV::U8(le_val(s.subrange(pos, pos + 1)) as u8), pos + 1))
        } else {
            Err(DecodeError::TruncatedInput)
        },
        LeafType::U16 => if pos + 2 <= s.len() {
            Ok((LeafV::U16(le_val(s.subrange(pos, pos + 2)) as u16), pos + 2))
        } else {
            Err(DecodeError::TruncatedInput)
        },
        LeafType::U32 => if pos + 4 <= s.len() {
            Ok((LeafV::U32(le_val(s.subrange(pos, pos + 4)) as u32), pos + 4))
        } else {
            Err(DecodeError::TruncatedInput)
        },
        LeafType::U64 => if pos + 8 <= s.len() {
            Ok((LeafV::U64(le_val(s.subrange(pos, pos + 8)) as u64), pos + 8))
        } else {
            Err(DecodeError::TruncatedInput)
        },
        LeafType::Bytes => if pos + 2 <= s.len() {
            let n = le_val(s.subrange(pos, pos + 2)) as int;
            if pos + 2 + n <= s.len() {
                Ok((LeafV::Bytes(s.subrange(pos + 2, pos + 2 + n)), pos + 2 + n))
            } else {
                Err(DecodeError::LengthMismatch)
            }
        } else {
            Err(DecodeError::TruncatedInput)
        },
    }
}

/// Appends the encoding of one leaf value, or reports that its length
/// prefix would overflow.
pub fn encode_leaf(out: &mut Vec<u8>, v: &LeafValue) -> (r: Result<(), EncodeError>)
    ensures
        match r {
            Ok(_) => leaf_encodable(v@) && final(out)@ == old(out)@ + spec_enc_leaf(v@),
            Err(_) => !leaf_encodable(v@) && final(out)@ == old(out)@,
        },
{
    proof {
        assert(pow256(1) == 0x100 && pow256(2) == 0x1_0000 && pow256(4) == 0x1_0000_0000
            && pow256(8) == 0x1_0000_0000_0000_0000) by {
            reveal_with_fuel(pow256, 9);
        }
    }
    match v {
        LeafValue::U8(x) => {
            write_le(out, *x as u64, 1);
            Ok(())
        },
        LeafValue::U16(x) => {
            write_le(out, *x as u64, 2);
            Ok(())
        },
        LeafValue::U32(x) => {
            write_le(out, *x as u64, 4);
            Ok(())
        },
        LeafValue::U64(x) => {
            write_le(out, *x, 8);
            Ok(())
        },
        LeafValue::Bytes(b) => {
            if b.len() <= 0xFFFF {
                let ghost pre = out@;
                write_le(out, b.len() as u64, 2);
                push_bytes(out, b);
                proof {
                    assert(pre + le_bytes(b@.len(), 2) + b@ =~= pre + (le_bytes(b@.len(), 2)
                        + b@));
                }
                Ok(())
            } else {
                Err(EncodeError::LengthMismatch)
            }
        },
    }
}

/// Reads one leaf value of type `ty` at `pos`.
pub fn decode_leaf(inp: &Vec<u8>, pos: usize, ty: LeafType) -> (r: Result<
    (LeafValue, usize),
    DecodeError,
>)
    requires
        pos <= inp@.len(),
    ensures
        match r {
            Ok((v, p2)) => spec_dec_leaf(inp@, pos as int, ty) == Ok::<(LeafV, int), DecodeError>(
                (v@, p2 as int),
            ) && pos <= p2 <= inp@.len(),
            Err(e) => spec_dec_leaf(inp@, pos as int, ty) == Err::<(LeafV, int), DecodeError>(e),
        },
{
    proof {
        assert(pow256(1) == 0x100 && pow256(2) == 0x1_0000 && pow256(4) == 0x1_0000_0000
            && pow256(8) == 0x1_0000_0000_0000_0000) by {
            reveal_with_fuel(pow256, 9);
        }
    }
    let len = inp.len();
    match ty {
        LeafType::U8 => {
            if len - pos >= 1 {
                let x = read_le(inp, pos, 1);
                Ok((LeafValue::U8(x as u8), pos + 1))
            } else {
                Err(DecodeError::TruncatedInput)
            }
        },
        LeafType::U16 => {
            if len - pos >= 2 {
                let x = read_le(inp, pos, 2);
                Ok((LeafValue::U16(x as u16), pos + 2))
            } else {
                Err(DecodeError::TruncatedInput)
            }
        },
        LeafType::U32 => {
            if len - pos >= 4 {
                let x = read_le(inp, pos, 4);
                Ok((LeafValue::U32(x as u32), pos + 4))
            } else {
                Err(DecodeError::TruncatedInput)
            }
        },
        LeafType::U64 => {
            if len - pos >= 8 {
                let x = read_le(inp, pos, 8);
                Ok((LeafValue::U64(x), pos + 8))
            } else {
                Err(DecodeError::TruncatedInput)
            }
        },
        LeafType::Bytes => {
            if len - pos >= 2 {
                let n64 = read_le(inp, pos, 2);
                let rem = (len - (pos + 2)) as u64;
                if n64 <= rem {
                    let n = n64 as usize;
                    let data = copy_range(inp, pos + 2, n);
                    Ok((LeafValue::Bytes(data), pos + 2 + n))
                } else {
                    Err(DecodeError::LengthMismatch)
                }
            } else {
                Err(DecodeError::TruncatedInput)
            }
        },
    }
}

/// The leaf inside a field value, where one is present.
pub open spec fn leaf_in(v: FieldV) -> LeafV {
    match v {
        FieldV::Leaf(l) => l,
        _ => LeafV::U8(0),
    }
}

/// Main-body image of fields `i..`: normal fields emit their leaf encoding
/// in declaration order; every other role emits nothing here.
pub open spec fn spec_enc_fields(fs: Seq<FieldDescriptor>, vs: Seq<FieldV>, i: int) -> Seq<u8>
    decreases fs.len() - i,
{
    if i < 0 || i >= fs.len() {
        Seq::empty()
    } else {
        (match fs[i] {
            FieldDescriptor::Normal(_) => spec_enc_leaf(leaf_in(vs[i])),
            _ => Seq::empty(),
        }) + spec_enc_fields(fs, vs, i + 1)
    }
}

/// Are the main-body leaves of fields `i..` all encodable?
pub open spec fn enc_ok_main(fs: Seq<FieldDescriptor>, vs: Seq<FieldV>, i: int) -> bool
    decreases fs.len() - i,
{
    if i < 0 || i >= fs.len() {
        true
    } else {
        (match fs[i] {
            FieldDescriptor::Normal(_) => leaf_encodable(leaf_in(vs[i])),
            _ => true,
        }) && enc_ok_main(fs, vs, i + 1)
    }
}

/// Reading the main body of fields `i..` at `pos`: normal fields are read
/// in order; skipped fields take their default without consuming input; TLV
/// fields start out absent (empty for a capture field) and are only filled
/// from the trailing extension region.
pub open spec fn spec_dec_fields(
    fs: Seq<FieldDescriptor>,
    s: Seq<u8>,
    pos: int,
    i: int,
    acc: Seq<FieldV>,
) -> Result<(Seq<FieldV>, int), DecodeError>
    decreases fs.len() - i,
{
    if i < 0 || i >= fs.len() {
        Ok((acc, pos))
    } else {
        match fs[i] {
            FieldDescriptor::Normal(ty) => match spec_dec_leaf(s, pos, ty) {
                Ok((lv, p2)) => spec_dec_fields(fs, s, p2, i + 1, acc.push(FieldV::Leaf(lv))),
                Err(e) => Err(e),
            },
            FieldDescriptor::Skipped(k) => spec_dec_fields(
                fs,
                s,
                pos,
                i + 1,
                acc.push(skip_default(k)),
            ),
            FieldDescriptor::TlvTagged(_, _) => spec_dec_fields(
                fs,
                s,
                pos,
                i + 1,
                acc.push(FieldV::OptLeaf(None)),
            ),
            FieldDescriptor::TlvCapture => spec_dec_fields(
                fs,
                s,
                pos,
                i + 1,
                acc.push(FieldV::Capture(Seq::empty())),
            ),
        }
    }
}

/// One TLV entry: 16-bit tag id, 16-bit payload length, then the payload,
/// all lengths little-endian.
pub open spec fn tlv_entry(id: u16, payload: Seq<u8>) -> Seq<u8> {
    le_bytes(id as nat, 2) + le_bytes(payload.len(), 2) + payload
}

/// TLV-region image of the declared tagged fields `i..`: one entry per
/// present optional, in declaration order; absent optionals emit nothing.
pub open spec fn spec_enc_tlv_fields(fs: Seq<FieldDescriptor>, vs: Seq<FieldV>, i: int) -> Seq<u8>
    decreases fs.len() - i,
{
    if i < 0 || i >= fs.len() {
        Seq::empty()
    } else {
        (match fs[i] {
            FieldDescriptor::TlvTagged(id, _) => match vs[i] {
                FieldV::OptLeaf(Some(l)) => tlv_entry(id, spec_enc_leaf(l)),
                _ => Seq::empty(),
            },
            _ => Seq::empty(),
        }) + spec_enc_tlv_fields(fs, vs, i + 1)
    }
}

/// Are the present tagged optionals of fields `i..` all emittable: the leaf
/// itself encodable and its encoding short enough for a 16-bit length?
pub open spec fn enc_ok_tagged(fs: Seq<FieldDescriptor>, vs: Seq<FieldV>, i: int) -> bool
    decreases fs.len() - i,
{
    if i < 0 || i >= fs.len() {
        true
    } else {
        (match fs[i] {
            FieldDescriptor::TlvTagged(_, _) => match vs[i] {
                FieldV::OptLeaf(Some(l)) => leaf_encodable(l) && spec_enc_leaf(l).len() <= 0xFFFF,
                _ => true,
            },
            _ => true,
        }) && enc_ok_tagged(fs, vs, i + 1)
    }
}

/// Position of the capture field among `i..`, if any.
pub open spec fn capture_index(fs: Seq<FieldDescriptor>, i: int) -> Option<int>
    decreases fs.len() - i,
{
    if i < 0 || i >= fs.len() {
        None
    } else if fs[i] is TlvCapture {
        Some(i)
    } else {
        capture_index(fs, i + 1)
    }
}

/// The entries held by a capture field value.
pub open spec fn cap_in(v: FieldV) -> Seq<(u16, Seq<u8>)> {
    match v {
        FieldV::Capture(es) => es,
        _ => Seq::empty(),
    }
}

/// The capture entries of a structure value: those of its capture field,
/// none when the structure declares no capture field.
pub open spec fn capture_entries(fs: Seq<FieldDescriptor>, vs: Seq<FieldV>) -> Seq<
    (u16, Seq<u8>),
> {
    match capture_index(fs, 0) {
        Some(c) => cap_in(vs[c]),
        None => Seq::empty(),
    }
}

/// Image of the capture entries `i..`, one TLV entry each, in stored
/// (ascending tag id) order.
pub open spec fn spec_enc_capture(es: Seq<(u16, Seq<u8>)>, i: int) -> Seq<u8>
    decreases es.len() - i,
{
    if i < 0 || i >= es.len() {
        Seq::empty()
    } else {
        tlv_entry(es[i].0, es[i].1) + spec_enc_capture(es, i + 1)
    }
}

/// Are the capture payloads `i..` short enough for a 16-bit length?
pub open spec fn cap_ok(es: Seq<(u16, Seq<u8>)>, i: int) -> bool
    decreases es.len() - i,
{
    if i < 0 || i >= es.len() {
        true
    } else {
        es[i].1.len() <= 0xFFFF && cap_ok(es, i + 1)
    }
}

/// First field at or after `i` declared as TLV-tagged with id `id`.
pub open spec fn tlv_field_index(fs: Seq<FieldDescriptor>, id: u16, i: int) -> Option<int>
    decreases fs.len() - i,
{
    if i < 0 || i >= fs.len() {
        None
    } else if fs[i] matches FieldDescriptor::TlvTagged(id2, _) && id2 == id {
        Some(i)
    } else {
        tlv_field_index(fs, id, i + 1)
    }
}

/// Payload type of a TLV-tagged field.
pub open spec fn tlv_ty(f: FieldDescriptor) -> LeafType {
    match f {
        FieldDescriptor::TlvTagged(_, ty) => ty,
        _ => LeafType::U8,
    }
}

/// Inserts an entry into a capture sequence at its ordered position
/// (scanning from `i`), replacing an entry that already carries the id.
pub open spec fn insert_entry(
    es: Seq<(u16, Seq<u8>)>,
    id: u16,
    payload: Seq<u8>,
    i: int,
) -> Seq<(u16, Seq<u8>)>
    decreases es.len() - i,
{
    if i < 0 || i >= es.len() {
        es.push((id, payload))
    } else if id < es[i].0 {
        es.insert(i, (id, payload))
    } else if id == es[i].0 {
        es.update(i, (id, payload))
    } else {
        insert_entry(es, id, payload, i + 1)
    }
}

/// Reading the TLV extension region at `pos` until the input is exhausted.
/// A known tag id fills its field from the entry payload, which must hold
/// exactly one value of the field's payload type; an unknown even id is a
/// hard error; an unknown odd id is collected verbatim into `cap`.
pub open spec fn spec_dec_tlv(
    fs: Seq<FieldDescriptor>,
    s: Seq<u8>,
    pos: int,
    vs: Seq<FieldV>,
    cap: Seq<(u16, Seq<u8>)>,
) -> Result<(Seq<FieldV>, Seq<(u16, Seq<u8>)>, int), DecodeError>
    decreases s.len() - pos,
{
    if pos >= s.len() {
        Ok((vs, cap, pos))
    } else if pos + 4 > s.len() {
        Err(DecodeError::TruncatedInput)
    } else {
        let id = le_val(s.subrange(pos, pos + 2)) as u16;
        let n = le_val(s.subrange(pos + 2, pos + 4)) as int;
        if pos + 4 + n > s.len() {
            Err(DecodeError::LengthMismatch)
        } else {
            let payload = s.subrange(pos + 4, pos + 4 + n);
            match tlv_field_index(fs, id, 0) {
                Some(j) => match spec_dec_leaf(payload, 0, tlv_ty(fs[j])) {
                    Ok((lv, used)) => if used == payload.len() {
                        spec_dec_tlv(
                            fs,
                            s,
                            pos + 4 + n,
                            vs.update(j, FieldV::OptLeaf(Some(lv))),
                            cap,
                        )
                    } else {
                        Err(DecodeError::LengthMismatch)
                    },
                    Err(e) => Err(e),
                },
                None => if id % 2 == 0 {
                    Err(DecodeError::UnknownMandatoryTlv(id))
                } else {
                    spec_dec_tlv(fs, s, pos + 4 + n, vs, insert_entry(cap, id, payload, 0))
                },
            }
        }
    }
}

/// Picks the leaf out of a normal field's value.
fn leaf_ref(fv: &FieldValue) -> (r: &LeafValue)
    requires
        fv@ is Leaf,
    ensures
        r@ == leaf_in(fv@),
{
    match fv {
        FieldValue::Leaf(l) => l,
        _ => unreached(),
    }
}

/// Appends the main-body encoding of fields `i..`.
pub fn encode_fields(
    fs: &Vec<FieldDescriptor>,
    vals: &Vec<FieldValue>,
    i: usize,
    out: &mut Vec<u8>,
) -> (r: Result<(), EncodeError>)
    requires
        i <= fs@.len(),
        crate::values::fields_wf(fs@, fvs_view(vals@)),
    ensures
        match r {
            Ok(_) => enc_ok_main(fs@, fvs_view(vals@), i as int) && final(out)@ == old(out)@
                + spec_enc_fields(fs@, fvs_view(vals@), i as int),
            Err(_) => !enc_ok_main(fs@, fvs_view(vals@), i as int),
        },
    decreases fs@.len() - i,
{
    if i == fs.len() {
        proof {
            assert(old(out)@ + spec_enc_fields(fs@, fvs_view(vals@), i as int) =~= old(out)@);
        }
        Ok(())
    } else {
        let ghost vsv = fvs_view(vals@);
        match fs[i] {
            FieldDescriptor::Normal(_) => {
                let ghost pre = out@;
                let l = leaf_ref(&vals[i]);
                match encode_leaf(out, l) {
                    Ok(_) => {
                        let ghost mid = out@;
                        match encode_fields(fs, vals, i + 1, out) {
                            Ok(_) => {
                                proof {
                                    assert(pre + spec_enc_leaf(leaf_in(vsv[i as int]))
                                        + spec_enc_fields(fs@, vsv, i + 1) =~= pre + (spec_enc_leaf(
                                        leaf_in(vsv[i as int]),
                                    ) + spec_enc_fields(fs@, vsv, i + 1)));
                                }
                                Ok(())
                            },
                            Err(e) => Err(e),
                        }
                    },
                    Err(e) => Err(e),
                }
            },
            _ => {
                let r = encode_fields(fs, vals, i + 1, out);
                proof {
                    if r is Ok {
                        assert(old(out)@ + spec_enc_fields(fs@, vsv, i as int) =~= old(out)@
                            + spec_enc_fields(fs@, vsv, i + 1));
                    }
                }
                r
            },
        }
    }
}

/// Reads the main body of fields `i..` at `pos`, appending one value per
/// field to `acc`.
pub fn decode_fields(
    fs: &Vec<FieldDescriptor>,
    inp: &Vec<u8>,
    pos: usize,
    i: usize,
    acc: &mut Vec<FieldValue>,
) -> (r: Result<usize, DecodeError>)
    requires
        pos <= inp@.len(),
        i <= fs@.len(),
    ensures
        match r {
            Ok(p2) => spec_dec_fields(fs@, inp@, pos as int, i as int, fvs_view(old(acc)@))
                == Ok::<(Seq<FieldV>, int), DecodeError>((fvs_view(final(acc)@), p2 as int)) && pos
                <= p2 <= inp@.len() && final(acc)@.len() == old(acc)@.len() + (fs@.len() - i),
            Err(e) => spec_dec_fields(fs@, inp@, pos as int, i as int, fvs_view(old(acc)@))
                == Err::<(Seq<FieldV>, int), DecodeError>(e),
        },
    decreases fs@.len() - i,
{
    if i == fs.len() {
        Ok(pos)
    } else {
        match fs[i] {
            FieldDescriptor::Normal(ty) => {
                match decode_leaf(inp, pos, ty) {
                    Ok((lv, p2)) => {
                        let ghost acc0 = acc@;
                        let fv = FieldValue::Leaf(lv);
                        proof {
                            lemma_fvs_push(acc0, fv);
                        }
                        acc.push(fv);
                        decode_fields(fs, inp, p2, i + 1, acc)
                    },
                    Err(e) => Err(e),
                }
            },
            FieldDescriptor::Skipped(k) => {
                let ghost acc0 = acc@;
                let fv = make_skip_default(k);
                proof {
                    lemma_fvs_push(acc0, fv);
                }
                acc.push(fv);
                decode_fields(fs, inp, pos, i + 1, acc)
            },
            FieldDescriptor::TlvTagged(_, _) => {
                let ghost acc0 = acc@;
                let fv = FieldValue::OptLeaf(None);
                proof {
                    lemma_fvs_push(acc0, fv);
                }
                acc.push(fv);
                decode_fields(fs, inp, pos, i + 1, acc)
            },
            FieldDescriptor::TlvCapture => {
                let ghost acc0 = acc@;
                let fv = FieldValue::Capture(Vec::new());
                proof {
                    lemma_fvs_push(acc0, fv);
                    assert(cap_view(Seq::<(u16, Vec<u8>)>::empty()) =~= Seq::<(
                        u16,
                        Seq<u8>,
                    )>::empty());
                }
                acc.push(fv);
                decode_fields(fs, inp, pos, i + 1, acc)
            },
        }
    }
}

/// Finds the capture field at or after `i`.
pub fn capture_pos(fs: &Vec<FieldDescriptor>, i: usize) -> (r: Option<usize>)
    requires
        i <= fs@.len(),
    ensures
        match r {
            Some(c) => capture_index(fs@, i as int) == Some(c as int) && i <= c < fs@.len()
                && fs@[c as int] is TlvCapture,
            None => capture_index(fs@, i as int) is None,
        },
    decreases fs@.len() - i,
{
    if i == fs.len() {
        None
    } else {
        match fs[i] {
            FieldDescriptor::TlvCapture => Some(i),
            _ => capture_pos(fs, i + 1),
        }
    }
}

/// Finds the TLV-tagged field with id `id` at or after `i`.
fn tlv_field_pos(fs: &Vec<FieldDescriptor>, id: u16, i: usize) -> (r: Option<usize>)
    requires
        i <= fs@.len(),
    ensures
        match r {
            Some(j) => tlv_field_index(fs@, id, i as int) == Some(j as int) && i <= j
                < fs@.len() && (fs@[j as int] matches FieldDescriptor::TlvTagged(id2, _)
                && id2 == id),
            None => tlv_field_index(fs@, id, i as int) is None,
        },
    decreases fs@.len() - i,
{
    if i == fs.len() {
        None
    } else {
        match fs[i] {
            FieldDescriptor::TlvTagged(id2, _) => if id2 == id {
                Some(i)
            } else {
                tlv_field_pos(fs, id, i + 1)
            },
            _ => tlv_field_pos(fs, id, i + 1),
        }
    }
}

/// Inserts a captured entry at its ordered position, scanning from `i`.
fn insert_from(cap: &mut Vec<(u16, Vec<u8>)>, i: usize, id: u16, payload: Vec<u8>)
    requires
        i <= old(cap)@.len(),
    ensures
        cap_view(final(cap)@) == insert_entry(cap_view(old(cap)@), id, payload@, i as int),
    decreases old(cap)@.len() - i,
{
    let ghost c0 = cap@;
    if i == cap.len() {
        proof {
            lemma_cap_push(c0, id, payload);
        }
        cap.push((id, payload));
    } else {
        let eid = cap[i].0;
        if id < eid {
            proof {
                lemma_cap_insert(c0, i as int, id, payload);
            }
            cap.insert(i, (id, payload));
        } else if id == eid {
            proof {
                lemma_cap_update(c0, i as int, id, payload);
            }
            let _ = cap.remove(i);
            cap.insert(i, (id, payload));
            proof {
                assert(c0.remove(i as int).insert(i as int, (id, payload)) =~= c0.update(
                    i as int,
                    (id, payload),
                ));
            }
        } else {
            insert_from(cap, i + 1, id, payload);
        }
    }
}

/// Appends the TLV entries of the declared tagged fields `i..`.
pub fn encode_tlv_fields(
    fs: &Vec<FieldDescriptor>,
    vals: &Vec<FieldValue>,
    i: usize,
    out: &mut Vec<u8>,
) -> (r: Result<(), EncodeError>)
    requires
        i <= fs@.len(),
        crate::values::fields_wf(fs@, fvs_view(vals@)),
    ensures
        match r {
            Ok(_) => enc_ok_tagged(fs@, fvs_view(vals@), i as int) && final(out)@ == old(out)@
                + spec_enc_tlv_fields(fs@, fvs_view(vals@), i as int),
            Err(_) => !enc_ok_tagged(fs@, fvs_view(vals@), i as int),
        },
    decreases fs@.len() - i,
{
    if i == fs.len() {
        proof {
            assert(old(out)@ + spec_enc_tlv_fields(fs@, fvs_view(vals@), i as int) =~= old(
                out,
            )@);
        }
        Ok(())
    } else {
        let ghost vsv = fvs_view(vals@);
        match fs[i] {
            FieldDescriptor::TlvTagged(id, _) => {
                match &vals[i] {
                    FieldValue::OptLeaf(o) => match o {
                        Some(l) => {
                            let mut payload: Vec<u8> = Vec::new();
                            match encode_leaf(&mut payload, l) {
                                Ok(_) => {
                                    proof {
                                        assert(payload@ =~= spec_enc_leaf(l@));
                                        assert(pow256(2) == 0x1_0000) by {
                                            reveal_with_fuel(pow256, 3);
                                        }
                                    }
                                    if payload.len() <= 0xFFFF {
                                        let ghost pre = out@;
                                        write_le(out, id as u64, 2);
                                        write_le(out, payload.len() as u64, 2);
                                        push_bytes(out, &payload);
                                        proof {
                                            assert(pre + tlv_entry(id, spec_enc_leaf(l@)) =~= pre
                                                + le_bytes(id as nat, 2) + le_bytes(
                                                payload@.len(),
                                                2,
                                            ) + payload@);
                                        }
                                        let ghost mid = out@;
                                        match encode_tlv_fields(fs, vals, i + 1, out) {
                                            Ok(_) => {
                                                proof {
                                                    assert(old(out)@ + spec_enc_tlv_fields(
                                                        fs@,
                                                        vsv,
                                                        i as int,
                                                    ) =~= mid + spec_enc_tlv_fields(
                                                        fs@,
                                                        vsv,
                                                        i + 1,
                                                    ));
                                                }
                                                Ok(())
                                            },
                                            Err(e) => Err(e),
                                        }
                                    } else {
                                        Err(EncodeError::LengthMismatch)
                                    }
                                },
                                Err(e) => Err(e),
                            }
                        },
                        None => {
                            let r = encode_tlv_fields(fs, vals, i + 1, out);
                            proof {
                                if r is Ok {
                                    assert(old(out)@ + spec_enc_tlv_fields(fs@, vsv, i as int)
                                        =~= old(out)@ + spec_enc_tlv_fields(fs@, vsv, i + 1));
                                }
                            }
                            r
                        },
                    },
                    _ => unreached(),
                }
            },
            _ => {
                let r = encode_tlv_fields(fs, vals, i + 1, out);
                proof {
                    if r is Ok {
                        assert(old(out)@ + spec_enc_tlv_fields(fs@, vsv, i as int) =~= old(out)@
                            + spec_enc_tlv_fields(fs@, vsv, i + 1));
                    }
                }
                r
            },
        }
    }
}

/// Appends one TLV entry per capture entry `i..`, in stored order.
pub fn encode_capture(es: &Vec<(u16, Vec<u8>)>, i: usize, out: &mut Vec<u8>) -> (r: Result<
    (),
    EncodeError,
>)
    requires
        i <= es@.len(),
    ensures
        match r {
            Ok(_) => cap_ok(cap_view(es@), i as int) && final(out)@ == old(out)@
                + spec_enc_capture(cap_view(es@), i as int),
            Err(_) => !cap_ok(cap_view(es@), i as int),
        },
    decreases es@.len() - i,
{
    let ghost esv = cap_view(es@);
    if i == es.len() {
        proof {
            assert(old(out)@ + spec_enc_capture(esv, i as int) =~= old(out)@);
        }
        Ok(())
    } else {
        let id = es[i].0;
        let plen = es[i].1.len();
        proof {
            assert(esv[i as int] == (es@[i as int].0, es@[i as int].1@));
        }
        if plen <= 0xFFFF {
            let ghost pre = out@;
            proof {
                assert(pow256(2) == 0x1_0000) by {
                    reveal_with_fuel(pow256, 3);
                }
            }
            write_le(out, id as u64, 2);
            write_le(out, plen as u64, 2);
            push_bytes(out, &es[i].1);
            proof {
                assert(pre + tlv_entry(esv[i as int].0, esv[i as int].1) =~= pre + le_bytes(
                    id as nat,
                    2,
                ) + le_bytes(es@[i as int].1@.len(), 2) + es@[i as int].1@);
            }
            let ghost mid = out@;
            match encode_capture(es, i + 1, out) {
                Ok(_) => {
                    proof {
                        assert(old(out)@ + spec_enc_capture(esv, i as int) =~= mid
                            + spec_enc_capture(esv, i + 1));
                    }
                    Ok(())
                },
                Err(e) => Err(e),
            }
        } else {
            Err(EncodeError::LengthMismatch)
        }
    }
}

/// Reads the TLV extension region at `pos` until the input is exhausted,
/// filling declared tagged fields in `acc` and collecting unknown odd-id
/// entries into `cap`.
pub fn decode_tlv(
    fs: &Vec<FieldDescriptor>,
    inp: &Vec<u8>,
    pos: usize,
    acc: &mut Vec<FieldValue>,
    cap: &mut Vec<(u16, Vec<u8>)>,
) -> (r: Result<usize, DecodeError>)
    requires
        pos <= inp@.len(),
        old(acc)@.len() == fs@.len(),
    ensures
        match r {
            Ok(p2) => spec_dec_tlv(
                fs@,
                inp@,
                pos as int,
                fvs_view(old(acc)@),
                cap_view(old(cap)@),
            ) == Ok::<(Seq<FieldV>, Seq<(u16, Seq<u8>)>, int), DecodeError>(
                (fvs_view(final(acc)@), cap_view(final(cap)@), p2 as int),
            ) && p2 == inp@.len() && final(acc)@.len() == fs@.len(),
            Err(e) => spec_dec_tlv(fs@, inp@, pos as int, fvs_view(old(acc)@), cap_view(old(cap)@))
                == Err::<(Seq<FieldV>, Seq<(u16, Seq<u8>)>, int), DecodeError>(e),
        },
    decreases inp@.len() - pos,
{
    let len = inp.len();
    if pos == len {
        Ok(pos)
    } else if len - pos < 4 {
        Err(DecodeError::TruncatedInput)
    } else {
        proof {
            assert(pow256(2) == 0x1_0000) by {
                reveal_with_fuel(pow256, 3);
            }
        }
        let id = read_le(inp, pos, 2) as u16;
        let n64 = read_le(inp, pos + 2, 2);
        let rem = (len - (pos + 4)) as u64;
        if n64 > rem {
            Err(DecodeError::LengthMismatch)
        } else {
            let n = n64 as usize;
            let payload = copy_range(inp, pos + 4, n);
            let ghost payload_spec = inp@.subrange((pos + 4) as int, (pos + 4 + n) as int);
            match tlv_field_pos(fs, id, 0) {
                Some(j) => {
                    let ty = match fs[j] {
                        FieldDescriptor::TlvTagged(_, ty) => ty,
                        _ => unreached(),
                    };
                    match decode_leaf(&payload, 0, ty) {
                        Ok((lv, used)) => {
                            if used == payload.len() {
                                let ghost acc0 = acc@;
                                let fv = FieldValue::OptLeaf(Some(lv));
                                proof {
                                    lemma_fvs_update(acc0, j as int, fv);
                                }
                                let _ = acc.remove(j);
                                acc.insert(j, fv);
                                proof {
                                    assert(acc0.remove(j as int).insert(j as int, fv)
                                        =~= acc0.update(j as int, fv));
                                }
                                decode_tlv(fs, inp, pos + 4 + n, acc, cap)
                            } else {
                                Err(DecodeError::LengthMismatch)
                            }
                        },
                        Err(e) => Err(e),
                    }
                },
                None => {
                    if id % 2 == 0 {
                        Err(DecodeError::UnknownMandatoryTlv(id))
                    } else {
                        insert_from(cap, 0, id, payload);
                        decode_tlv(fs, inp, pos + 4 + n, acc, cap)
                    }
                },
            }
        }
    }
}

/// First variant at or after `i` carrying `tag`.
pub open spec fn union_tag_index(vars: Seq<VariantPlan>, tag: u64, i: int) -> Option<int>
    decreases vars.len() - i,
{
    if i < 0 || i >= vars.len() {
        None
    } else if vars[i].tag == tag {
        Some(i)
    } else {
        union_tag_index(vars, tag, i + 1)
    }
}

/// Can this value be emitted at all?  Encoding only fails where a byte
/// sequence or a TLV payload would overflow its 16-bit length prefix.
pub open spec fn encodable(plan: CodecPlan, v: ValueV) -> bool {
    match (plan, v) {
        (CodecPlan::Struct(sp), ValueV::Struct(vs)) => enc_ok_main(sp.fields@, vs, 0) && (
        sp.use_tlv ==> enc_ok_tagged(sp.fields@, vs, 0) && cap_ok(
            capture_entries(sp.fields@, vs),
            0,
        )),
        (CodecPlan::TaggedUnion(up), ValueV::Union(ord, vs)) => enc_ok_main(
            up.variants@[ord].fields@,
            vs,
            0,
        ),
        _ => false,
    }
}

/// Byte image of a whole value under a plan: for a structure, the main
/// body followed (when TLV is enabled) by the declared entries and then the
/// capture entries; for a tagged union, the resolved tag in its
/// representation width followed by the variant's main body.
pub open spec fn spec_encode(plan: CodecPlan, v: ValueV) -> Seq<u8> {
    match (plan, v) {
        (CodecPlan::Struct(sp), ValueV::Struct(vs)) => spec_enc_fields(sp.fields@, vs, 0) + if
        sp.use_tlv {
            spec_enc_tlv_fields(sp.fields@, vs, 0) + spec_enc_capture(
                capture_entries(sp.fields@, vs),
                0,
            )
        } else {
            Seq::empty()
        },
        (CodecPlan::TaggedUnion(up), ValueV::Union(ord, vs)) => le_bytes(
            up.variants@[ord].tag as nat,
            width_bytes(up.width),
        ) + spec_enc_fields(up.variants@[ord].fields@, vs, 0),
        _ => Seq::empty(),
    }
}

/// Reading a whole structure: the main body, then (when TLV is enabled)
/// the extension region up to the end of the input, whose collected unknown
/// entries land in the capture field if one is declared.
pub open spec fn spec_dec_struct(sp: StructPlan, s: Seq<u8>) -> Result<
    (Seq<FieldV>, int),
    DecodeError,
> {
    match spec_dec_fields(sp.fields@, s, 0, 0, Seq::empty()) {
        Ok((vs, pos)) => if sp.use_tlv {
            match spec_dec_tlv(sp.fields@, s, pos, vs, Seq::empty()) {
                Ok((vs2, cap, pos2)) => match capture_index(sp.fields@, 0) {
                    Some(c) => Ok((vs2.update(c, FieldV::Capture(cap)), pos2)),
                    None => Ok((vs2, pos2)),
                },
                Err(e) => Err(e),
            }
        } else {
            Ok((vs, pos))
        },
        Err(e) => Err(e),
    }
}

/// Reading a whole tagged union: the tag in its representation width,
/// looked up among the resolved tags, then the variant's main body.
pub open spec fn spec_dec_union(up: UnionPlan, s: Seq<u8>) -> Result<
    (int, Seq<FieldV>, int),
    DecodeError,
> {
    let w = width_bytes(up.width) as int;
    if w > s.len() {
        Err(DecodeError::TruncatedInput)
    } else {
        let tag = le_val(s.subrange(0, w)) as u64;
        match union_tag_index(up.variants@, tag, 0) {
            Some(j) => match spec_dec_fields(up.variants@[j].fields@, s, w, 0, Seq::empty()) {
                Ok((vs, pos)) => Ok((j, vs, pos)),
                Err(e) => Err(e),
            },
            None => Err(DecodeError::UnknownTag(tag)),
        }
    }
}

/// Reading a whole value: the plan's layout, then strictness — any byte
/// left unconsumed after the value is complete is a hard error.
pub open spec fn spec_decode(plan: CodecPlan, s: Seq<u8>) -> Result<ValueV, DecodeError> {
    match plan {
        CodecPlan::Struct(sp) => match spec_dec_struct(sp, s) {
            Ok((vs, pos)) => if pos == s.len() {
                Ok(ValueV::Struct(vs))
            } else {
                Err(DecodeError::TrailingBytes)
            },
            Err(e) => Err(e),
        },
        CodecPlan::TaggedUnion(up) => match spec_dec_union(up, s) {
            Ok((ord, vs, pos)) => if pos == s.len() {
                Ok(ValueV::Union(ord, vs))
            } else {
                Err(DecodeError::TrailingBytes)
            },
            Err(e) => Err(e),
        },
    }
}

/// Picks the entry vector out of a capture field's value.
fn cap_entries_ref(fv: &FieldValue) -> (r: &Vec<(u16, Vec<u8>)>)
    requires
        fv@ is Capture,
    ensures
        cap_view(r@) == cap_in(fv@),
{
    match fv {
        FieldValue::Capture(es) => es,
        _ => unreached(),
    }
}

/// Finds the variant carrying `tag` at or after `i`.
fn tag_pos(vars: &Vec<VariantPlan>, tag: u64, i: usize) -> (r: Option<usize>)
    requires
        i <= vars@.len(),
    ensures
        match r {
            Some(j) => union_tag_index(vars@, tag, i as int) == Some(j as int) && i <= j
                < vars@.len() && vars@[j as int].tag == tag,
            None => union_tag_index(vars@, tag, i as int) is None,
        },
    decreases vars@.len() - i,
{
    if i == vars.len() {
        None
    } else if vars[i].tag == tag {
        Some(i)
    } else {
        tag_pos(vars, tag, i + 1)
    }
}

/// Encodes a well-formed value under its compiled plan into a fresh byte
/// vector: a single deterministic pass with no separators.  Fails exactly
/// when some length prefix would overflow.
pub fn encode(plan: &CodecPlan, v: &Value) -> (r: Result<Vec<u8>, EncodeError>)
    requires
        crate::schema::plan_wf(*plan),
        crate::values::value_wf(*plan, v@),
    ensures
        match r {
            Ok(out) => encodable(*plan, v@) && out@ == spec_encode(*plan, v@),
            Err(_) => !encodable(*plan, v@),
        },
{
    match (plan, v) {
        (CodecPlan::Struct(sp), Value::Struct(sv)) => {
            let ghost vsv = fvs_view(sv.fields@);
            let mut out: Vec<u8> = Vec::new();
            match encode_fields(&sp.fields, &sv.fields, 0, &mut out) {
                Err(e) => Err(e),
                Ok(_) => {
                    if sp.use_tlv {
                        let ghost mid = out@;
                        match encode_tlv_fields(&sp.fields, &sv.fields, 0, &mut out) {
                            Err(e) => Err(e),
                            Ok(_) => {
                                let ghost mid2 = out@;
                                match capture_pos(&sp.fields, 0) {
                                    Some(c) => {
                                        proof {
                                            assert(crate::values::field_wf(
                                                sp.fields@[c as int],
                                                vsv[c as int],
                                            ));
                                            assert(vsv[c as int] == sv.fields@[c as int]@);
                                        }
                                        let es = cap_entries_ref(&sv.fields[c]);
                                        match encode_capture(es, 0, &mut out) {
                                            Err(e) => Err(e),
                                            Ok(_) => {
                                                proof {
                                                    assert(spec_encode(*plan, v@) =~= mid2
                                                        + spec_enc_capture(
                                                        capture_entries(sp.fields@, vsv),
                                                        0,
                                                    ));
                                                }
                                                Ok(out)
                                            },
                                        }
                                    },
                                    None => {
                                        proof {
                                            assert(spec_enc_capture(
                                                capture_entries(sp.fields@, vsv),
                                                0,
                                            ) =~= Seq::<u8>::empty());
                                            assert(spec_encode(*plan, v@) =~= mid2);
                                        }
                                        Ok(out)
                                    },
                                }
                            },
                        }
                    } else {
                        proof {
                            assert(spec_encode(*plan, v@) =~= out@);
                        }
                        Ok(out)
                    }
                },
            }
        },
        (CodecPlan::TaggedUnion(up), Value::TaggedUnion(uv)) => {
            let w = width_bytes_exec(up.width);
            let mut out: Vec<u8> = Vec::new();
            let vp = &up.variants[uv.ordinal];
            proof {
                assert(pow256(1) == 0x100 && pow256(2) == 0x1_0000 && pow256(4) == 0x1_0000_0000
                    && pow256(8) == 0x1_0000_0000_0000_0000) by {
                    reveal_with_fuel(pow256, 9);
                }
            }
            write_le(&mut out, vp.tag, w);
            match encode_fields(&vp.fields, &uv.fields, 0, &mut out) {
                Ok(_) => Ok(out),
                Err(e) => Err(e),
            }
        },
        _ => unreached(),
    }
}

/// Decodes a whole value from `inp` under its compiled plan, consuming the
/// input exactly; the result is precisely what [`spec_decode`] assigns to
/// these bytes.
pub fn decode(plan: &CodecPlan, inp: &Vec<u8>) -> (r: Result<Value, DecodeError>)
    ensures
        match r {
            Ok(out) => spec_decode(*plan, inp@) == Ok::<ValueV, DecodeError>(out@),
            Err(e) => spec_decode(*plan, inp@) == Err::<ValueV, DecodeError>(e),
        },
{
    match plan {
        CodecPlan::Struct(sp) => {
            let mut acc: Vec<FieldValue> = Vec::new();
            proof {
                assert(fvs_view(Seq::<FieldValue>::empty()) =~= Seq::<FieldV>::empty());
            }
            match decode_fields(&sp.fields, inp, 0, 0, &mut acc) {
                Err(e) => Err(e),
                Ok(p) => {
                    if sp.use_tlv {
                        let mut cap: Vec<(u16, Vec<u8>)> = Vec::new();
                        proof {
                            assert(cap_view(Seq::<(u16, Vec<u8>)>::empty()) =~= Seq::<(
                                u16,
                                Seq<u8>,
                            )>::empty());
                        }
                        match decode_tlv(&sp.fields, inp, p, &mut acc, &mut cap) {
                            Err(e) => Err(e),
                            Ok(_) => {
                                match capture_pos(&sp.fields, 0) {
                                    Some(c) => {
                                        let ghost acc0 = acc@;
                                        let fv = FieldValue::Capture(cap);
                                        proof {
                                            lemma_fvs_update(acc0, c as int, fv);
                                        }
                                        let _ = acc.remove(c);
                                        acc.insert(c, fv);
                                        proof {
                                            assert(acc0.remove(c as int).insert(c as int, fv)
                                                =~= acc0.update(c as int, fv));
                                        }
                                        Ok(Value::Struct(StructValue { fields: acc }))
                                    },
                                    None => Ok(Value::Struct(StructValue { fields: acc })),
                                }
                            },
                        }
                    } else {
                        if p == inp.len() {
                            Ok(Value::Struct(StructValue { fields: acc }))
                        } else {
                            Err(DecodeError::TrailingBytes)
                        }
                    }
                },
            }
        },
        CodecPlan::TaggedUnion(up) => {
            let w = width_bytes_exec(up.width);
            if inp.len() < w {
                Err(DecodeError::TruncatedInput)
            } else {
                proof {
                    assert(pow256(8) == 0x1_0000_0000_0000_0000) by {
                        reveal_with_fuel(pow256, 9);
                    }
                    lemma_pow256_mono(width_bytes(up.width), 8);
                }
                let tag = read_le(inp, 0, w);
                match tag_pos(&up.variants, tag, 0) {
                    None => Err(DecodeError::UnknownTag(tag)),
                    Some(j) => {
                        let vp = &up.variants[j];
                        let mut acc: Vec<FieldValue> = Vec::new();
                        proof {
                            assert(fvs_view(Seq::<FieldValue>::empty()) =~= Seq::<
                                FieldV,
                            >::empty());
                        }
                        match decode_fields(&vp.fields, inp, w, 0, &mut acc) {
                            Err(e) => Err(e),
                            Ok(p) => {
                                if p == inp.len() {
                                    Ok(
                                        Value::TaggedUnion(
                                            UnionValue { ordinal: j, fields: acc },
                                        ),
                                    )
                                } else {
                                    Err(DecodeError::TrailingBytes)
                                }
                            },
                        }
                    },
                }
            }
        },
    }
}

} // verus!
