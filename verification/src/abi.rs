//! Storage-buffer ABI descriptions shared by the host and generated shaders.
use vstd::prelude::*;

verus! {

/// Nesting depth up to which a layout description is examined. Layout
/// descriptions are static data that may in principle refer back to
/// themselves, so every recursive walk over them is bounded; the bound is the
/// machine's: a layout nested `n` levels deep holds `n` distinct field tables
/// in memory, so no layout that memory can hold is nested this deep (see
/// `lemma_storage_v1_depth_monotone`).
pub const MAX_LAYOUT_DEPTH: u64 = 0xffff_ffff_ffff_ffff;

/// Scalar formats that have an identical Rust and GPU storage representation.
#[derive(Clone, Copy, Debug, PartialEq, Eq, Structural)]
pub enum ScalarKind {
    U32,
    I32,
    F32,
}

/// Structural category for one host-shareable type.
#[derive(Clone, Copy, Debug)]
pub enum TypeLayoutKind {
    Scalar(ScalarKind),
    Struct(&'static [StructFieldLayout]),
}

/// Complete storage-buffer ABI for one element type.
#[derive(Clone, Copy, Debug)]
pub struct TypeLayout {
    pub name: &'static str,
    pub size: u32,
    pub alignment: u32,
    pub stride: u32,
    pub kind: TypeLayoutKind,
}

/// One field in a host/GPU structure layout.
#[derive(Clone, Copy, Debug)]
pub struct StructFieldLayout {
    pub name: &'static str,
    pub offset: u32,
    pub ty: TypeLayout,
}

/// Layout rules recorded for a shader resource.
#[derive(Clone, Copy, Debug, PartialEq, Eq, Structural)]
pub enum ShaderLayoutRules {
    /// The v1 storage ABI: 32-bit scalars and recursively padding-free structs.
    StorageV1,
}

/// Element ABI attached to one shader resource binding.
#[derive(Clone, Copy, Debug)]
pub struct ResourceLayout {
    pub rules: ShaderLayoutRules,
    pub element: TypeLayout,
    pub element_stride: u32,
}

/// `value` rounded up to the next multiple of `alignment`.
pub open spec fn spec_align_up(value: int, alignment: int) -> int {
    if value % alignment == 0 {
        value
    } else {
        value + (alignment - value % alignment)
    }
}

/// The header rules of the v1 storage ABI that do not depend on nested fields.
pub open spec fn storage_v1_header(layout: TypeLayout) -> bool {
    layout.size != 0 && layout.alignment == 4 && layout.stride == layout.size
}

/// Fields `fields[from..]` are laid out back to back starting at byte `offset`,
/// each one a v1 storage layout (examined within `depth` further levels), and
/// they end exactly at byte `end`.
pub open spec fn fields_storage_v1_within(
    fields: Seq<StructFieldLayout>,
    from: int,
    offset: int,
    end: int,
    depth: nat,
) -> bool
    decreases depth, fields.len() - from,
{
    if from >= fields.len() || from < 0 {
        offset == end
    } else {
        &&& fields[from].offset == offset
        &&& storage_v1_within(fields[from].ty, depth)
        &&& offset + fields[from].ty.size <= u32::MAX
        &&& fields_storage_v1_within(fields, from + 1, offset + fields[from].ty.size, end, depth)
    }
}

/// The v1 storage ABI, with nested structures examined to `depth` levels:
/// non-zero size, four-byte alignment, a stride equal to the size, four-byte
/// scalars, and structures whose fields are contiguous v1 layouts that fill the
/// structure exactly.
pub open spec fn storage_v1_within(layout: TypeLayout, depth: nat) -> bool
    decreases depth, 0int,
{
    if depth == 0 {
        false
    } else if !storage_v1_header(layout) {
        false
    } else {
        match layout.kind {
            TypeLayoutKind::Scalar(_) => layout.size == 4,
            TypeLayoutKind::Struct(fields) => fields_storage_v1_within(
                fields@,
                0,
                0,
                layout.size as int,
                (depth - 1) as nat,
            ),
        }
    }
}

impl TypeLayout {
    /// Check that this description follows the supported four-byte scalar/struct ABI.
    pub fn is_storage_v1(self) -> (r: bool)
        ensures
            r == storage_v1_within(self, MAX_LAYOUT_DEPTH as nat),
    {
        layout_storage_v1(self, MAX_LAYOUT_DEPTH)
    }

    /// The layout of one 32-bit scalar.
    pub fn scalar(name: &'static str, kind: ScalarKind) -> (r: Self)
        ensures
            r.name == name,
            r.size == 4,
            r.alignment == 4,
            r.stride == 4,
            r.kind == TypeLayoutKind::Scalar(kind),
    {
        Self { name, size: 4, alignment: 4, stride: 4, kind: TypeLayoutKind::Scalar(kind) }
    }

    /// The layout of a structure; its stride is its size rounded up to its alignment.
    pub fn structure(
        name: &'static str,
        size: u32,
        alignment: u32,
        fields: &'static [StructFieldLayout],
    ) -> (r: Self)
        requires
            alignment > 0,
            spec_align_up(size as int, alignment as int) <= u32::MAX,
        ensures
            r.name == name,
            r.size == size,
            r.alignment == alignment,
            r.stride == spec_align_up(size as int, alignment as int),
            r.kind == TypeLayoutKind::Struct(fields),
    {
        Self {
            name,
            size,
            alignment,
            stride: align_up(size, alignment),
            kind: TypeLayoutKind::Struct(fields),
        }
    }
}

fn layout_storage_v1(layout: TypeLayout, depth: u64) -> (r: bool)
    ensures
        r == storage_v1_within(layout, depth as nat),
    decreases depth, 0int,
{
    if depth == 0 {
        return false;
    }
    if layout.size == 0 || layout.alignment != 4 || layout.stride != layout.size {
        return false;
    }
    match layout.kind {
        TypeLayoutKind::Scalar(_) => layout.size == 4,
        TypeLayoutKind::Struct(fields) => fields_storage_v1(fields, layout.size, depth - 1),
    }
}

fn fields_storage_v1(fields: &'static [StructFieldLayout], end: u32, depth: u64) -> (r: bool)
    ensures
        r == fields_storage_v1_within(fields@, 0, 0, end as int, depth as nat),
    decreases depth, 1int,
{
    let mut offset: u32 = 0;
    let mut index: usize = 0;
    while index < fields.len()
        invariant
            index <= fields@.len(),
            fields_storage_v1_within(fields@, 0, 0, end as int, depth as nat)
                == fields_storage_v1_within(fields@, index as int, offset as int, end as int, depth as nat),
        decreases fields@.len() - index,
    {
        let field = fields[index];
        if field.offset != offset || !layout_storage_v1(field.ty, depth) {
            return false;
        }
        match offset.checked_add(field.ty.size) {
            None => {
                return false;
            },
            Some(next) => {
                offset = next;
            },
        }
        index = index + 1;
    }
    offset == end
}

/// `value` rounded up to the next multiple of `alignment`.
pub fn align_up(value: u32, alignment: u32) -> (r: u32)
    requires
        alignment > 0,
        spec_align_up(value as int, alignment as int) <= u32::MAX,
    ensures
        r == spec_align_up(value as int, alignment as int),
{
    let remainder = value % alignment;
    if remainder == 0 {
        value
    } else {
        value + (alignment - remainder)
    }
}

/// Rounding up lands on the least multiple of the alignment that is not below the value.
pub proof fn lemma_align_up_is_least_multiple(value: int, alignment: int)
    requires
        0 <= value,
        0 < alignment,
    ensures
        spec_align_up(value, alignment) % alignment == 0,
        value <= spec_align_up(value, alignment) < value + alignment,
        forall|m: int|
            value <= m && #[trigger] (m % alignment) == 0 ==> spec_align_up(value, alignment) <= m,
{
    let r = spec_align_up(value, alignment);
    let q = value / alignment;
    let rem = value % alignment;
    vstd::arithmetic::div_mod::lemma_fundamental_div_mod(value, alignment);
    if rem != 0 {
        assert(r == alignment * (q + 1)) by (nonlinear_arith)
            requires
                r == value + (alignment - rem),
                value == alignment * q + rem;
        vstd::arithmetic::div_mod::lemma_mod_multiples_basic(q + 1, alignment);
        assert((alignment * (q + 1)) % alignment == 0) by {
            vstd::arithmetic::mul::lemma_mul_is_commutative(alignment, q + 1);
        }
    }
    assert forall|m: int| value <= m && #[trigger] (m % alignment) == 0 implies r <= m by {
        vstd::arithmetic::div_mod::lemma_fundamental_div_mod(m, alignment);
        let qm = m / alignment;
        if rem != 0 {
            assert(m == alignment * qm);
            assert(alignment * q < alignment * qm) by (nonlinear_arith)
                requires
                    m == alignment * qm,
                    value == alignment * q + rem,
                    0 < rem,
                    value <= m;
            assert(q < qm) by (nonlinear_arith)
                requires alignment * q < alignment * qm, alignment > 0;
            assert(alignment * (q + 1) <= alignment * qm) by (nonlinear_arith)
                requires q + 1 <= qm, alignment > 0;
        }
    }
}

impl ResourceLayout {
    /// A v1 storage resource whose element stride is the element's own stride.
    pub fn storage_v1(element: TypeLayout) -> (r: Self)
        ensures
            r.rules == ShaderLayoutRules::StorageV1,
            r.element == element,
            r.element_stride == element.stride,
    {
        Self { rules: ShaderLayoutRules::StorageV1, element_stride: element.stride, element }
    }
}

} // verus!

verus! {

/// A bitwise-copyable Rust type whose representation exactly matches the v1
/// GPU storage ABI described by `layout()`.
///
/// Implementors must be `repr(C)` or `repr(transparent)`, contain no padding
/// or invalid bit patterns, have a non-zero size, and return a layout that
/// exactly matches Rust's size, alignment, field order and offsets.
pub trait GpuPod: Copy + Sized + 'static {
    /// The layout this type declares.
    spec fn pod_layout() -> TypeLayout;

    fn layout() -> (r: TypeLayout)
        ensures
            r == Self::pod_layout(),
    ;
}

impl GpuPod for u32 {
    open spec fn pod_layout() -> TypeLayout {
        TypeLayout { name: "u32", size: 4, alignment: 4, stride: 4, kind: TypeLayoutKind::Scalar(ScalarKind::U32) }
    }

    fn layout() -> (r: TypeLayout) {
        TypeLayout::scalar("u32", ScalarKind::U32)
    }
}

impl GpuPod for i32 {
    open spec fn pod_layout() -> TypeLayout {
        TypeLayout { name: "i32", size: 4, alignment: 4, stride: 4, kind: TypeLayoutKind::Scalar(ScalarKind::I32) }
    }

    fn layout() -> (r: TypeLayout) {
        TypeLayout::scalar("i32", ScalarKind::I32)
    }
}


/// Fields that are back-to-back v1 layouts when examined to `d` levels stay
/// so when examined further.
proof fn lemma_fields_storage_v1_depth(
    fields: Seq<StructFieldLayout>,
    from: int,
    offset: int,
    end: int,
    d: nat,
    e: nat,
)
    requires
        d <= e,
        fields_storage_v1_within(fields, from, offset, end, d),
    ensures
        fields_storage_v1_within(fields, from, offset, end, e),
    decreases d, fields.len() - from,
{
    if 0 <= from < fields.len() {
        lemma_storage_v1_depth_monotone(fields[from].ty, d, e);
        lemma_fields_storage_v1_depth(fields, from + 1, offset + fields[from].ty.size, end, d, e);
    }
}

/// The depth only bounds the walk: a layout that is v1 storage when examined
/// to `d` levels is v1 storage when examined to any `e >= d` levels. So
/// `is_storage_v1` accepts every layout that is v1 storage at some depth up to
/// `MAX_LAYOUT_DEPTH`, however deeply its structures nest.
pub proof fn lemma_storage_v1_depth_monotone(l: TypeLayout, d: nat, e: nat)
    requires
        d <= e,
        storage_v1_within(l, d),
    ensures
        storage_v1_within(l, e),
    decreases d, 0int,
{
    match l.kind {
        TypeLayoutKind::Struct(fields) => {
            lemma_fields_storage_v1_depth(fields@, 0, 0, l.size as int, (d - 1) as nat, (e - 1) as nat);
        },
        _ => {},
    }
}

} // verus!
