//! Schema model: type descriptors, encoding directives, compiled plans,
//! and the two error taxonomies.

use vstd::prelude::*;
use crate::prim::pow256;

verus! {

/// Wire-encodable leaf type: a fixed-width little-endian unsigned integer or
/// a byte sequence carrying a 16-bit little-endian length prefix.
#[derive(Clone, Copy, Debug, PartialEq, Eq, Structural)]
pub enum LeafType {
    U8,
    U16,
    U32,
    U64,
    Bytes,
}

/// Declared shape of a field that never reaches the wire (a skipped field);
/// it only determines the default restored on decode.
#[derive(Clone, Copy, Debug, PartialEq, Eq, Structural)]
pub enum SkipKind {
    Plain(LeafType),
    PlainBool,
    Optional(LeafType),
    OptionalBool,
}

/// One field of a structure (or one associated value of a variant), with its
/// role already normalized by the front-end that parsed the declarations.
#[derive(Clone, Copy, Debug, PartialEq, Eq, Structural)]
pub enum FieldDescriptor {
    /// Encoded and decoded in declaration order in the main body.
    Normal(LeafType),
    /// Emits nothing; restored to its default on decode.
    Skipped(SkipKind),
    /// Optional field carried only in the TLV extension region, under the
    /// given tag id; the payload is the encoding of the given leaf type.
    TlvTagged(u16, LeafType),
    /// The single field absorbing unrecognized odd-id TLV entries verbatim.
    TlvCapture,
}

/// One variant of a tagged union: its intrinsic value representation, an
/// optional explicit tag override, and its associated fields.
#[derive(Clone, Debug, PartialEq, Eq)]
pub struct VariantDescriptor {
    pub value: u64,
    pub explicit_value: Option<u64>,
    pub fields: Vec<FieldDescriptor>,
}

/// How variant tags are derived when no explicit value overrides them.
#[derive(Clone, Copy, Debug, PartialEq, Eq, Structural)]
pub enum TagStrategy {
    ByOrder,
    ByValue,
}

/// Serialized width of a variant tag, in bytes.
#[derive(Clone, Copy, Debug, PartialEq, Eq, Structural)]
pub enum ReprWidth {
    W1,
    W2,
    W4,
    W8,
}

/// Declared shape of a structure plus its type-level directives.
#[derive(Clone, Debug, PartialEq, Eq)]
pub struct StructDescriptor {
    pub use_tlv: bool,
    pub fields: Vec<FieldDescriptor>,
}

/// Declared shape of a tagged union plus its type-level directives.
/// `by_order` and `by_value` are the two mutually exclusive strategy
/// requests; when neither is set, by-order tagging is the default.
/// `repr_width` defaults to one byte when absent.
#[derive(Clone, Debug, PartialEq, Eq)]
pub struct UnionDescriptor {
    pub by_order: bool,
    pub by_value: bool,
    pub repr_width: Option<ReprWidth>,
    pub variants: Vec<VariantDescriptor>,
}

/// A normalized type declaration as handed in by the front-end.
#[derive(Clone, Debug, PartialEq, Eq)]
pub enum TypeDescriptor {
    Struct(StructDescriptor),
    TaggedUnion(UnionDescriptor),
}

/// Schema-time failures; fatal to plan compilation, never raised while
/// encoding or decoding values.  Fields identify the offending declarations
/// by their zero-based position.
#[derive(Clone, Copy, Debug, PartialEq, Eq, Structural)]
pub enum SchemaError {
    /// Two declarations resolved to the same tag: two union variants, or two
    /// TLV-tagged fields sharing a tag id.
    TagConflict { a: usize, b: usize, tag: u64 },
    /// A TLV role appears although the type did not opt into the TLV
    /// extension (tagged unions never can).
    TlvNotEnabled,
    MultipleTlvCaptureFields,
    /// Both by-order and by-value tagging were requested.
    InvalidTagStrategyCombination,
    /// A resolved tag does not fit in the chosen representation width.
    TagOverflow { variant: usize, tag: u64 },
}

/// Per-input decode failures; the whole decode of that value is aborted.
#[derive(Clone, Copy, Debug, PartialEq, Eq, Structural)]
pub enum DecodeError {
    TruncatedInput,
    LengthMismatch,
    UnknownTag(u64),
    UnknownMandatoryTlv(u16),
    TrailingBytes,
}

/// Encoding a well-formed value can only fail by overflowing a length
/// prefix, surfaced as a length mismatch.
#[derive(Clone, Copy, Debug, PartialEq, Eq, Structural)]
pub enum EncodeError {
    LengthMismatch,
}

/// Compiled, immutable field-by-field plan for a structure.
#[derive(Clone, Debug, PartialEq, Eq)]
pub struct StructPlan {
    pub use_tlv: bool,
    pub fields: Vec<FieldDescriptor>,
}

/// One variant of a compiled union plan, with its resolved tag.
#[derive(Clone, Debug, PartialEq, Eq)]
pub struct VariantPlan {
    pub tag: u64,
    pub fields: Vec<FieldDescriptor>,
}

/// Compiled, immutable plan for a tagged union.
#[derive(Clone, Debug, PartialEq, Eq)]
pub struct UnionPlan {
    pub width: ReprWidth,
    pub variants: Vec<VariantPlan>,
}

/// The resolved output of schema compilation, consumed on every encode and
/// decode call and never mutated after construction.
#[derive(Clone, Debug, PartialEq, Eq)]
pub enum CodecPlan {
    Struct(StructPlan),
    TaggedUnion(UnionPlan),
}

/// Byte count of a representation width.
pub open spec fn width_bytes(w: ReprWidth) -> nat {
    match w {
        ReprWidth::W1 => 1,
        ReprWidth::W2 => 2,
        ReprWidth::W4 => 4,
        ReprWidth::W8 => 8,
    }
}

/// Executable mirror of [`width_bytes`].
pub fn width_bytes_exec(w: ReprWidth) -> (r: usize)
    ensures
        r == width_bytes(w),
{
    match w {
        ReprWidth::W1 => 1,
        ReprWidth::W2 => 2,
        ReprWidth::W4 => 4,
        ReprWidth::W8 => 8,
    }
}

/// The tag a variant resolves to: an explicit value overrides everything;
/// otherwise by-value tagging takes the variant's intrinsic value and
/// by-order tagging takes its declaration ordinal.
pub open spec fn resolved_tag(strategy: TagStrategy, v: VariantDescriptor, ordinal: int) -> u64 {
    match v.explicit_value {
        Some(e) => e,
        None => match strategy {
            TagStrategy::ByValue => v.value,
            TagStrategy::ByOrder => ordinal as u64,
        },
    }
}

/// The strategy a union descriptor requests once validated: by-value only
/// when asked for, by-order otherwise (the default).
pub open spec fn effective_strategy(u: UnionDescriptor) -> TagStrategy {
    if u.by_value {
        TagStrategy::ByValue
    } else {
        TagStrategy::ByOrder
    }
}

/// The representation width a union descriptor requests, one byte by default.
pub open spec fn effective_width(u: UnionDescriptor) -> ReprWidth {
    match u.repr_width {
        Some(w) => w,
        None => ReprWidth::W1,
    }
}

/// Resolved tag of variant `i` of a union descriptor.
pub open spec fn descriptor_tag(u: UnionDescriptor, i: int) -> u64 {
    resolved_tag(effective_strategy(u), u.variants@[i], i)
}

/// Number of capture fields among `fs`.
pub open spec fn capture_count(fs: Seq<FieldDescriptor>) -> int
    decreases fs.len(),
{
    if fs.len() == 0 {
        0
    } else {
        capture_count(fs.drop_last()) + if fs.last() is TlvCapture {
            1int
        } else {
            0int
        }
    }
}

/// A field role allowed inside a union variant: only normal and skipped
/// fields; TLV roles belong to structures that opted in.
pub open spec fn plain_role(f: FieldDescriptor) -> bool {
    f is Normal || f is Skipped
}

/// The declared tag id of a TLV-tagged field, if any.
pub open spec fn tlv_id_of(f: FieldDescriptor) -> Option<u16> {
    match f {
        FieldDescriptor::TlvTagged(id, _) => Some(id),
        _ => None,
    }
}

/// Distinct declared TLV tag ids: no two TLV-tagged fields share an id.
pub open spec fn tlv_ids_distinct(fs: Seq<FieldDescriptor>) -> bool {
    forall|i: int, j: int|
        0 <= i < j < fs.len() && fs[i] is TlvTagged && fs[j] is TlvTagged
            ==> tlv_id_of(fs[i]) != tlv_id_of(fs[j])
}

/// Well-formedness of a structure's field list under its TLV directive.
pub open spec fn struct_fields_wf(use_tlv: bool, fs: Seq<FieldDescriptor>) -> bool {
    &&& (forall|i: int| 0 <= i < fs.len() && !plain_role(fs[i]) ==> use_tlv)
    &&& capture_count(fs) <= 1
    &&& tlv_ids_distinct(fs)
}

/// Well-formedness of a compiled structure plan.
pub open spec fn struct_plan_wf(p: StructPlan) -> bool {
    struct_fields_wf(p.use_tlv, p.fields@)
}

/// Well-formedness of a compiled union plan: only plain roles inside
/// variants, and pairwise distinct tags that fit the representation width.
pub open spec fn union_plan_wf(p: UnionPlan) -> bool {
    &&& (forall|i: int, j: int|
        0 <= i < p.variants@.len() && 0 <= j < p.variants@[i].fields@.len() ==> plain_role(
            p.variants@[i].fields@[j],
        ))
    &&& (forall|i: int|
        0 <= i < p.variants@.len() ==> p.variants@[i].tag < pow256(width_bytes(p.width)))
    &&& (forall|i: int, j: int|
        0 <= i < j < p.variants@.len() ==> p.variants@[i].tag != p.variants@[j].tag)
}

/// Well-formedness of a compiled plan; established by compilation and
/// preserved forever after, since plans are never mutated.
pub open spec fn plan_wf(p: CodecPlan) -> bool {
    match p {
        CodecPlan::Struct(sp) => struct_plan_wf(sp),
        CodecPlan::TaggedUnion(up) => union_plan_wf(up),
    }
}

} // verus!
