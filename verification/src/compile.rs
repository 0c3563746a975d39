//! Schema compilation: validates a type descriptor and resolves it into an
//! immutable codec plan, detecting every conflict at schema time.

use vstd::prelude::*;
use crate::prim::pow256;
use crate::schema::{
    CodecPlan, FieldDescriptor, ReprWidth, SchemaError, StructDescriptor, StructPlan,
    TypeDescriptor, UnionDescriptor, UnionPlan, VariantPlan, capture_count, descriptor_tag,
    effective_strategy, effective_width, plain_role, plan_wf, struct_fields_wf, tlv_id_of,
    tlv_ids_distinct, width_bytes,
};

verus! {

/// A structure descriptor compiles exactly when its field list is
/// well-formed under its TLV directive.
pub open spec fn struct_desc_ok(s: StructDescriptor) -> bool {
    struct_fields_wf(s.use_tlv, s.fields@)
}

/// A union descriptor compiles exactly when its strategy request is
/// consistent, its variants carry only plain roles, and the resolved tags
/// are pairwise distinct and fit the representation width.
pub open spec fn union_desc_ok(u: UnionDescriptor) -> bool {
    &&& !(u.by_order && u.by_value)
    &&& (forall|i: int, j: int|
        0 <= i < u.variants@.len() && 0 <= j < u.variants@[i].fields@.len() ==> plain_role(
            u.variants@[i].fields@[j],
        ))
    &&& (forall|i: int|
        0 <= i < u.variants@.len() ==> descriptor_tag(u, i) < pow256(
            width_bytes(effective_width(u)),
        ))
    &&& (forall|i: int, j: int|
        0 <= i < j < u.variants@.len() ==> descriptor_tag(u, i) != descriptor_tag(u, j))
}

/// Exactly the descriptors that compile.
pub open spec fn descriptor_ok(d: TypeDescriptor) -> bool {
    match d {
        TypeDescriptor::Struct(s) => struct_desc_ok(s),
        TypeDescriptor::TaggedUnion(u) => union_desc_ok(u),
    }
}

/// What each schema error reports about the descriptor it was raised for.
pub open spec fn schema_error_matches(d: TypeDescriptor, e: SchemaError) -> bool {
    match d {
        TypeDescriptor::Struct(s) => match e {
            SchemaError::TlvNotEnabled => !s.use_tlv && (exists|i: int|
                0 <= i < s.fields@.len() && !plain_role(s.fields@[i])),
            SchemaError::MultipleTlvCaptureFields => capture_count(s.fields@) >= 2,
            SchemaError::TagConflict { a, b, tag } => {
                &&& 0 <= a < b < s.fields@.len()
                &&& s.fields@[a as int] is TlvTagged
                &&& s.fields@[b as int] is TlvTagged
                &&& tlv_id_of(s.fields@[a as int]) == tlv_id_of(s.fields@[b as int])
                &&& tlv_id_of(s.fields@[a as int]) matches Some(id) && id == tag
            },
            _ => false,
        },
        TypeDescriptor::TaggedUnion(u) => match e {
            SchemaError::InvalidTagStrategyCombination => u.by_order && u.by_value,
            SchemaError::TlvNotEnabled => exists|i: int, j: int|
                0 <= i < u.variants@.len() && 0 <= j < u.variants@[i].fields@.len()
                    && !plain_role(u.variants@[i].fields@[j]),
            SchemaError::TagOverflow { variant, tag } => {
                &&& 0 <= variant < u.variants@.len()
                &&& descriptor_tag(u, variant as int) == tag
                &&& tag >= pow256(width_bytes(effective_width(u)))
            },
            SchemaError::TagConflict { a, b, tag } => {
                &&& 0 <= a < b < u.variants@.len()
                &&& descriptor_tag(u, a as int) == tag
                &&& descriptor_tag(u, b as int) == tag
            },
            _ => false,
        },
    }
}

/// The plan a descriptor resolves to: the same fields in the same order,
/// with the union's tags resolved under its effective strategy and width.
pub open spec fn plan_matches(d: TypeDescriptor, p: CodecPlan) -> bool {
    match (d, p) {
        (TypeDescriptor::Struct(s), CodecPlan::Struct(sp)) => {
            &&& sp.use_tlv == s.use_tlv
            &&& sp.fields@ == s.fields@
        },
        (TypeDescriptor::TaggedUnion(u), CodecPlan::TaggedUnion(up)) => {
            &&& up.width == effective_width(u)
            &&& up.variants@.len() == u.variants@.len()
            &&& (forall|i: int|
                0 <= i < u.variants@.len() ==> (#[trigger] up.variants@[i]).tag
                    == descriptor_tag(u, i))
            &&& (forall|i: int|
                0 <= i < u.variants@.len() ==> (#[trigger] up.variants@[i]).fields@
                    == u.variants@[i].fields@)
        },
        _ => false,
    }
}

/// Copies a field list.
fn copy_fields(src: &Vec<FieldDescriptor>) -> (r: Vec<FieldDescriptor>)
    ensures
        r@ == src@,
{
    let mut r: Vec<FieldDescriptor> = Vec::new();
    let mut i: usize = 0;
    while i < src.len()
        invariant
            i <= src@.len(),
            r@ == src@.subrange(0, i as int),
        decreases src@.len() - i,
    {
        r.push(src[i]);
        proof {
            assert(src@.subrange(0, (i + 1) as int) =~= src@.subrange(0, i as int).push(
                src@[i as int],
            ));
        }
        i = i + 1;
    }
    proof {
        assert(src@.subrange(0, src@.len() as int) =~= src@);
    }
    r
}

/// The resolved tag of one variant, by declaration ordinal.
fn resolve_tag(u: &UnionDescriptor, i: usize) -> (r: u64)
    requires
        i < u.variants@.len(),
    ensures
        r == descriptor_tag(*u, i as int),
{
    let v = &u.variants[i];
    match v.explicit_value {
        Some(e) => e,
        None => {
            if u.by_value {
                v.value
            } else {
                i as u64
            }
        },
    }
}

/// Compiles a structure descriptor.
fn compile_struct(s: &StructDescriptor) -> (r: Result<CodecPlan, SchemaError>)
    ensures
        r is Ok <==> struct_desc_ok(*s),
        r matches Ok(p) ==> plan_matches(TypeDescriptor::Struct(*s), p) && plan_wf(p),
        r matches Err(e) ==> schema_error_matches(TypeDescriptor::Struct(*s), e),
{
    let n = s.fields.len();
    // TLV roles demand the type-level TLV directive.
    let mut i: usize = 0;
    while i < n
        invariant
            i <= n,
            n == s.fields@.len(),
            forall|k: int| 0 <= k < i && !plain_role(s.fields@[k]) ==> s.use_tlv,
        decreases n - i,
    {
        match s.fields[i] {
            FieldDescriptor::Normal(_) => {},
            FieldDescriptor::Skipped(_) => {},
            _ => {
                if !s.use_tlv {
                    return Err(SchemaError::TlvNotEnabled);
                }
            },
        }
        i = i + 1;
    }
    // At most one capture field.
    let mut captures: usize = 0;
    let mut i: usize = 0;
    while i < n
        invariant
            i <= n,
            n == s.fields@.len(),
            captures == capture_count(s.fields@.subrange(0, i as int)),
            captures <= i,
        decreases n - i,
    {
        proof {
            assert(s.fields@.subrange(0, (i + 1) as int).drop_last() =~= s.fields@.subrange(
                0,
                i as int,
            ));
            assert(s.fields@.subrange(0, (i + 1) as int).last() == s.fields@[i as int]);
        }
        match s.fields[i] {
            FieldDescriptor::TlvCapture => {
                captures = captures + 1;
            },
            _ => {},
        }
        i = i + 1;
    }
    proof {
        assert(s.fields@.subrange(0, n as int) =~= s.fields@);
    }
    if captures >= 2 {
        return Err(SchemaError::MultipleTlvCaptureFields);
    }
    // Declared TLV tag ids are pairwise distinct.
    let mut a: usize = 0;
    while a < n
        invariant
            a <= n,
            n == s.fields@.len(),
            forall|x: int, y: int|
                0 <= x < a && x < y < n && s.fields@[x] is TlvTagged && s.fields@[y] is TlvTagged
                    ==> tlv_id_of(s.fields@[x]) != tlv_id_of(s.fields@[y]),
        decreases n - a,
    {
        match s.fields[a] {
            FieldDescriptor::TlvTagged(id, _) => {
                let mut b: usize = a + 1;
                while b < n
                    invariant
                        a < b <= n,
                        n == s.fields@.len(),
                        s.fields@[a as int] matches FieldDescriptor::TlvTagged(id2, _) && id2
                            == id,
                        forall|y: int|
                            a < y < b && s.fields@[y] is TlvTagged ==> tlv_id_of(s.fields@[y])
                                != Some(id),
                    decreases n - b,
                {
                    match s.fields[b] {
                        FieldDescriptor::TlvTagged(id2, _) => {
                            if id2 == id {
                                return Err(
                                    SchemaError::TagConflict { a, b, tag: id as u64 },
                                );
                            }
                        },
                        _ => {},
                    }
                    b = b + 1;
                }
            },
            _ => {},
        }
        a = a + 1;
    }
    let fields = copy_fields(&s.fields);
    Ok(CodecPlan::Struct(StructPlan { use_tlv: s.use_tlv, fields }))
}

/// Compiles a tagged-union descriptor.
fn compile_union(u: &UnionDescriptor) -> (r: Result<CodecPlan, SchemaError>)
    ensures
        r is Ok <==> union_desc_ok(*u),
        r matches Ok(p) ==> plan_matches(TypeDescriptor::TaggedUnion(*u), p) && plan_wf(p),
        r matches Err(e) ==> schema_error_matches(TypeDescriptor::TaggedUnion(*u), e),
{
    if u.by_order && u.by_value {
        return Err(SchemaError::InvalidTagStrategyCombination);
    }
    let n = u.variants.len();
    // Variant fields carry only plain roles.
    let mut i: usize = 0;
    while i < n
        invariant
            i <= n,
            n == u.variants@.len(),
            forall|x: int, y: int|
                0 <= x < i && 0 <= y < u.variants@[x].fields@.len() ==> plain_role(
                    u.variants@[x].fields@[y],
                ),
        decreases n - i,
    {
        let fs = &u.variants[i].fields;
        let m = fs.len();
        let mut j: usize = 0;
        while j < m
            invariant
                j <= m,
                i < n,
                n == u.variants@.len(),
                m == u.variants@[i as int].fields@.len(),
                fs@ == u.variants@[i as int].fields@,
                forall|y: int| 0 <= y < j ==> plain_role(u.variants@[i as int].fields@[y]),
            decreases m - j,
        {
            match fs[j] {
                FieldDescriptor::Normal(_) => {},
                FieldDescriptor::Skipped(_) => {},
                _ => {
                    return Err(SchemaError::TlvNotEnabled);
                },
            }
            j = j + 1;
        }
        i = i + 1;
    }
    let width = match u.repr_width {
        Some(w) => w,
        None => ReprWidth::W1,
    };
    proof {
        assert(pow256(1) == 0x100 && pow256(2) == 0x1_0000 && pow256(4) == 0x1_0000_0000
            && pow256(8) == 0x1_0000_0000_0000_0000) by {
            reveal_with_fuel(pow256, 9);
        }
    }
    // Resolve all tags, rejecting overflows and conflicts.
    let mut tags: Vec<u64> = Vec::new();
    let mut i: usize = 0;
    while i < n
        invariant
            i <= n,
            n == u.variants@.len(),
            width == effective_width(*u),
            tags@.len() == i,
            pow256(1) == 0x100 && pow256(2) == 0x1_0000 && pow256(4) == 0x1_0000_0000 && pow256(
                8,
            ) == 0x1_0000_0000_0000_0000,
            forall|k: int| 0 <= k < i ==> tags@[k] == descriptor_tag(*u, k),
            forall|k: int| 0 <= k < i ==> tags@[k] < pow256(width_bytes(width)),
            forall|x: int, y: int| 0 <= x < y < i ==> tags@[x] != tags@[y],
        decreases n - i,
    {
        let tag = resolve_tag(u, i);
        let over = match width {
            ReprWidth::W1 => tag >= 0x100,
            ReprWidth::W2 => tag >= 0x1_0000,
            ReprWidth::W4 => tag >= 0x1_0000_0000,
            ReprWidth::W8 => false,
        };
        if over {
            return Err(SchemaError::TagOverflow { variant: i, tag });
        }
        let mut j: usize = 0;
        while j < i
            invariant
                j <= i < n,
                n == u.variants@.len(),
                tag == descriptor_tag(*u, i as int),
                tags@.len() == i,
                forall|k: int| 0 <= k < i ==> tags@[k] == descriptor_tag(*u, k),
                forall|k: int| 0 <= k < j ==> tags@[k] != tag,
            decreases i - j,
        {
            if tags[j] == tag {
                proof {
                    assert(descriptor_tag(*u, j as int) == descriptor_tag(*u, i as int));
                    assert(!union_desc_ok(*u));
                }
                return Err(SchemaError::TagConflict { a: j, b: i, tag });
            }
            j = j + 1;
        }
        tags.push(tag);
        i = i + 1;
    }
    // Assemble the variant plans.
    let mut variants: Vec<VariantPlan> = Vec::new();
    let mut i: usize = 0;
    while i < n
        invariant
            i <= n,
            n == u.variants@.len(),
            tags@.len() == n,
            forall|k: int| 0 <= k < n ==> tags@[k] == descriptor_tag(*u, k),
            variants@.len() == i,
            forall|k: int|
                0 <= k < i ==> (#[trigger] variants@[k]).tag == descriptor_tag(*u, k),
            forall|k: int|
                0 <= k < i ==> (#[trigger] variants@[k]).fields@ == u.variants@[k].fields@,
        decreases n - i,
    {
        let fields = copy_fields(&u.variants[i].fields);
        variants.push(VariantPlan { tag: tags[i], fields });
        i = i + 1;
    }
    Ok(CodecPlan::TaggedUnion(UnionPlan { width, variants }))
}

/// Compiles a type descriptor into an immutable codec plan, or reports the
/// first conflict found.  Succeeds exactly on conflict-free descriptors;
/// the returned plan mirrors the descriptor field for field, with every
/// variant tag resolved, pairwise distinct, and fitting its width.
pub fn compile(d: &TypeDescriptor) -> (r: Result<CodecPlan, SchemaError>)
    ensures
        r is Ok <==> descriptor_ok(*d),
        r matches Ok(p) ==> plan_matches(*d, p) && plan_wf(p),
        r matches Err(e) ==> schema_error_matches(*d, e),
{
    match d {
        TypeDescriptor::Struct(s) => compile_struct(s),
        TypeDescriptor::TaggedUnion(u) => compile_union(u),
    }
}

} // verus!
