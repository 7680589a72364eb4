//! The deciding half of the headless wgpu runtime: which kernels and bindings
//! a dispatch accepts, how the compiled-kernel cache is keyed, the reports of
//! every refusal, and the descriptor-specific host source that encodes a
//! dispatch. Creating devices, buffers and pipelines stays with the host
//! program.
use vstd::prelude::*;
use crate::abi::{
    storage_v1_within, ResourceLayout, ScalarKind, ShaderLayoutRules, StructFieldLayout,
    TypeLayout, TypeLayoutKind, MAX_LAYOUT_DEPTH,
};
use crate::descriptor::{
    spec_qualified_name, Access, KernelDescriptor, ParameterDescriptor, ParameterKind,
};
use crate::{reflect, slang};
use crate::text::{decimal, has_prefix, push_decimal, trim};
use crate::slang::trimmed;
use vstd::string::StringSliceAdditionalSpecFns;

verus! {

/// Logical shader access assigned to a persistent GPU buffer.
#[derive(Clone, Copy, Debug, PartialEq, Eq, Structural)]
pub enum GpuBufferAccess {
    ReadOnly,
    ReadWrite,
}

impl GpuBufferAccess {
    /// A read-only buffer serves read-only bindings; a read-write buffer serves
    /// read-only and read-write bindings.
    pub open spec fn spec_allows(self, access: Access) -> bool {
        match self {
            GpuBufferAccess::ReadOnly => access == Access::ReadOnly,
            GpuBufferAccess::ReadWrite => access == Access::ReadOnly || access == Access::ReadWrite,
        }
    }

    pub fn allows(self, access: Access) -> (r: bool)
        ensures
            r == self.spec_allows(access),
    {
        match (self, access) {
            (GpuBufferAccess::ReadOnly, Access::ReadOnly) => true,
            (GpuBufferAccess::ReadWrite, Access::ReadOnly) => true,
            (GpuBufferAccess::ReadWrite, Access::ReadWrite) => true,
            _ => false,
        }
    }
}

/// Observable state of one device's compiled-kernel cache.
#[derive(Clone, Copy, Debug, Default, PartialEq, Eq, Structural)]
pub struct PipelineCacheStats {
    pub entries: usize,
    pub hits: u64,
    pub misses: u64,
}

/// Host-observed time for an explicit transfer boundary.
#[derive(Clone, Copy, Debug, Default, PartialEq, Eq)]
pub struct TransferTiming {
    /// Number of application bytes transferred.
    pub bytes: u64,
    /// Wall-clock time including encoding, submission, synchronization, and host copies.
    pub elapsed: std::time::Duration,
}

/// Host and device measurements for one synchronous persistent submission.
#[derive(Clone, Copy, Debug, Default, PartialEq, Eq)]
pub struct DispatchTiming {
    /// Wall-clock time including bind-group/command encoding, submission, and synchronization.
    pub host_elapsed: std::time::Duration,
    /// Hardware timestamp duration around the submitted compute work, when supported.
    pub gpu_elapsed: Option<std::time::Duration>,
}

/// The shape of one host `f32` slice bound to a storage parameter.
#[derive(Clone, Copy, Debug, PartialEq, Eq, Structural)]
pub struct HostBinding {
    pub access: Access,
    pub len: usize,
}

/// What a dispatch needs to know of one persistent buffer bound to a
/// parameter: which allocation it is, its element count and ABI, the access
/// it was created with and is bound with, the device that owns it, whether
/// its length is independent of the dispatch's element count, and whether it
/// was created to hold indirect dispatch arguments.
#[derive(Clone, Copy, Debug)]
pub struct BufferBinding {
    pub buffer: u64,
    pub len: usize,
    pub layout: TypeLayout,
    pub buffer_access: GpuBufferAccess,
    pub access: Access,
    pub device_id: u64,
    pub independent_length: bool,
    pub indirect: bool,
}

impl BufferBinding {
    /// A binding of allocation `buffer`, holding `len` elements laid out as
    /// `layout`, created with `buffer_access` on device `device_id` (for
    /// indirect arguments when `indirect`), bound with `access`.
    pub fn new(
        buffer: u64,
        len: usize,
        layout: TypeLayout,
        buffer_access: GpuBufferAccess,
        access: Access,
        device_id: u64,
        indirect: bool,
    ) -> (r: Self)
        ensures
            r.buffer == buffer,
            r.len == len,
            r.layout == layout,
            r.buffer_access == buffer_access,
            r.access == access,
            r.device_id == device_id,
            !r.independent_length,
            r.indirect == indirect,
    {
        BufferBinding {
            buffer,
            len,
            layout,
            buffer_access,
            access,
            device_id,
            independent_length: false,
            indirect,
        }
    }

    /// The same binding, with a length that need not match the dispatch's
    /// element count; the kernel reads the length itself.
    pub fn independent_length(self) -> (r: Self)
        ensures
            r == (BufferBinding { independent_length: true, ..self }),
    {
        BufferBinding { independent_length: true, ..self }
    }

    /// The bytes this binding's allocation holds.
    pub open spec fn spec_byte_len(self) -> int {
        self.len * self.layout.stride
    }

    pub fn byte_len(&self) -> (r: u64)
        requires
            self.spec_byte_len() <= u64::MAX,
        ensures
            r == self.spec_byte_len(),
    {
        proof {
            vstd::arithmetic::mul::lemma_mul_upper_bound(
                self.len as int, self.len as int, self.layout.stride as int, self.layout.stride as int);
        }
        assert(self.len as u64 * self.layout.stride as u64 <= u64::MAX) by (nonlinear_arith)
            requires self.len * self.layout.stride <= u64::MAX;
        (self.len as u64) * (self.layout.stride as u64)
    }
}

/// The identity of a compiled kernel in a device's pipeline cache: its entry
/// point, the address and length of its static Slang source, the address and
/// length of its static parameter table, and its workgroup size.
#[derive(Clone, Copy, Debug, PartialEq, Eq, Hash)]
pub struct KernelCacheKey {
    pub entry_point: &'static str,
    pub slang_address: usize,
    pub slang_bytes: usize,
    pub parameters_address: usize,
    pub parameters: usize,
    pub workgroup_size: [u32; 3],
}

/// `str::as_ptr`, as an address: where the static text lives in memory.
/// Nothing is stated of the value; it depends on where the program was loaded.
#[verifier::external_body]
fn text_address(text: &'static str) -> usize {
    text.as_ptr() as usize
}

/// `<[T]>::as_ptr`, as an address: where the static table lives in memory.
/// Nothing is stated of the value; it depends on where the program was loaded.
#[verifier::external_body]
fn table_address(table: &'static [ParameterDescriptor]) -> usize {
    table.as_ptr() as usize
}

impl KernelCacheKey {
    pub fn new(kernel: &KernelDescriptor) -> (r: Self)
        ensures
            r.entry_point == kernel.entry_point,
            r.slang_bytes == kernel.slang_source.spec_bytes().len() as usize,
            r.parameters == kernel.parameters@.len(),
            r.workgroup_size == kernel.workgroup_size,
    {
        KernelCacheKey {
            entry_point: kernel.entry_point,
            slang_address: text_address(kernel.slang_source),
            slang_bytes: kernel.slang_source.len(),
            parameters_address: table_address(kernel.parameters),
            parameters: kernel.parameters.len(),
            workgroup_size: kernel.workgroup_size,
        }
    }
}

/// Why the runtime refused a kernel, a dispatch, a graph or a transfer.
#[derive(Debug)]
pub enum Error {
    NoAdapter(String),
    RequestDevice(String),
    MissingSlangSource(String),
    Slang(slang::Error),
    Reflection(reflect::Error),
    UnsupportedWorkgroupSize([u32; 3]),
    UnsupportedParameter { name: String, kind: ParameterKind },
    InvalidResourceLayout { parameter: String, actual: Option<Box<ResourceLayout>> },
    UnsupportedResourceLayout {
        parameter: String,
        expected: Box<ResourceLayout>,
        actual: Option<Box<ResourceLayout>>,
    },
    UnsupportedBindGroup(u32),
    BindingCount { expected: usize, actual: usize },
    BindingAccess { parameter: String, expected: Access, actual: Access },
    BufferLength { parameter: String, expected: usize, actual: usize },
    ForeignPersistentBuffer,
    PersistentBufferAccess { parameter: String, buffer: GpuBufferAccess, binding: Access },
    PersistentBufferLength { expected: usize, actual: usize },
    PersistentBufferNotReadable,
    IndependentLengthEmpty { parameter: String },
    GraphDependencyOrder { node: usize, dependency: usize },
    GraphMissingDependency { node: usize, producer: usize },
    GraphUnknownReadback(usize),
    GraphReadbackType { expected: &'static str, actual: &'static str },
    IndirectArgsLayout(&'static str),
    IndirectBindingLength { parameter: String },
    PoolTruncateGrows { len: usize, requested: usize },
    Poll(String),
    MapFailed(String),
}

// ---------------------------------------------------------------------------
// Which kernels the storage backend accepts.
// ---------------------------------------------------------------------------

/// The parameters that occupy a resource binding, in declaration order.
pub open spec fn bound_parameters(ps: Seq<ParameterDescriptor>) -> Seq<ParameterDescriptor>
    decreases ps.len(),
{
    if ps.len() == 0 {
        Seq::empty()
    } else if ps.last().binding is Some {
        bound_parameters(ps.drop_last()).push(ps.last())
    } else {
        bound_parameters(ps.drop_last())
    }
}

/// A resource layout the storage backend accepts: a v1 storage element whose
/// buffer stride is the element's own stride.
pub open spec fn acceptable_layout(layout: Option<ResourceLayout>) -> bool {
    match layout {
        Some(l) => storage_v1_within(l.element, MAX_LAYOUT_DEPTH as nat) && l.element_stride
            == l.element.stride,
        None => false,
    }
}

/// Why a kernel is refused.
pub enum KernelFault {
    MissingSlangSource,
    UnsupportedWorkgroupSize,
    UnsupportedParameter(ParameterDescriptor),
    InvalidResourceLayout(ParameterDescriptor),
    UnsupportedBindGroup(u32),
}

/// What is wrong with one bound parameter, if anything: it must be a storage
/// buffer with an acceptable layout in bind group 0.
pub open spec fn parameter_fault(p: ParameterDescriptor) -> Option<KernelFault> {
    if p.kind != ParameterKind::Storage {
        Some(KernelFault::UnsupportedParameter(p))
    } else if !acceptable_layout(p.resource_layout) {
        Some(KernelFault::InvalidResourceLayout(p))
    } else if p.binding->0.group != 0 {
        Some(KernelFault::UnsupportedBindGroup(p.binding->0.group))
    } else {
        None
    }
}

/// The fault of the first faulty parameter in `ps[i..]`.
pub open spec fn first_parameter_fault(ps: Seq<ParameterDescriptor>, i: int) -> Option<KernelFault>
    decreases ps.len() - i,
{
    if !(0 <= i < ps.len()) {
        None
    } else if parameter_fault(ps[i]) is Some {
        parameter_fault(ps[i])
    } else {
        first_parameter_fault(ps, i + 1)
    }
}

/// The storage backend runs a kernel with Slang source, a one-dimensional
/// workgroup, and bound parameters that are all v1 storage buffers in bind
/// group 0: its bound parameters, or the first fault.
pub open spec fn kernel_check(kernel: KernelDescriptor) -> Result<Seq<ParameterDescriptor>, KernelFault> {
    if trim(kernel.slang_source@).len() == 0 {
        Err(KernelFault::MissingSlangSource)
    } else if kernel.workgroup_size[0] == 0 || kernel.workgroup_size[1] != 1
        || kernel.workgroup_size[2] != 1 {
        Err(KernelFault::UnsupportedWorkgroupSize)
    } else {
        let resources = bound_parameters(kernel.parameters@);
        match first_parameter_fault(resources, 0) {
            Some(fault) => Err(fault),
            None => Ok(resources),
        }
    }
}

/// `error` reports `fault` of `kernel`.
pub open spec fn reports_fault(error: Error, fault: KernelFault, kernel: KernelDescriptor) -> bool {
    match fault {
        KernelFault::MissingSlangSource => error matches Error::MissingSlangSource(q) && q@
            == spec_qualified_name(kernel.module@, kernel.name@),
        KernelFault::UnsupportedWorkgroupSize => error matches Error::UnsupportedWorkgroupSize(w)
            && w == kernel.workgroup_size,
        KernelFault::UnsupportedParameter(p) => error matches Error::UnsupportedParameter {
            name,
            kind,
        } && name@ == p.name@ && kind == p.kind,
        KernelFault::InvalidResourceLayout(p) => error matches Error::InvalidResourceLayout {
            parameter,
            actual,
        } && parameter@ == p.name@ && boxed_layout(actual) == p.resource_layout,
        KernelFault::UnsupportedBindGroup(g) => error matches Error::UnsupportedBindGroup(x) && x
            == g,
    }
}

/// The layout held by an optional box.
pub open spec fn boxed_layout(layout: Option<Box<ResourceLayout>>) -> Option<ResourceLayout> {
    match layout {
        Some(b) => Some(*b),
        None => None,
    }
}

/// A string holding `t`.
fn owned(t: &str) -> (r: String)
    ensures
        r@ == t@,
{
    t.to_owned()
}

fn acceptable(layout: Option<ResourceLayout>) -> (r: bool)
    ensures
        r == acceptable_layout(layout),
{
    match layout {
        Some(l) => l.element.is_storage_v1() && l.element_stride == l.element.stride,
        None => false,
    }
}

/// Checks that the storage backend can run `kernel`: its bound parameters, in
/// declaration order.
pub fn validate_kernel(kernel: &KernelDescriptor) -> (r: Result<Vec<ParameterDescriptor>, Error>)
    ensures
        match kernel_check(*kernel) {
            Ok(resources) => r matches Ok(v) && v@ == resources,
            Err(fault) => r matches Err(e) && reports_fault(e, fault, *kernel),
        },
{
    if trimmed(kernel.slang_source).as_str().is_empty() {
        return Err(Error::MissingSlangSource(kernel.qualified_name().to_string()));
    }
    if kernel.workgroup_size[0] == 0 || kernel.workgroup_size[1] != 1
        || kernel.workgroup_size[2] != 1 {
        return Err(Error::UnsupportedWorkgroupSize(kernel.workgroup_size));
    }
    let mut resources: Vec<ParameterDescriptor> = Vec::new();
    let mut i: usize = 0;
    while i < kernel.parameters.len()
        invariant
            i <= kernel.parameters@.len(),
            resources@ == bound_parameters(kernel.parameters@.subrange(0, i as int)),
        decreases kernel.parameters@.len() - i,
    {
        let parameter = kernel.parameters[i];
        proof {
            assert(kernel.parameters@.subrange(0, i + 1).drop_last()
                =~= kernel.parameters@.subrange(0, i as int));
        }
        if parameter.binding.is_some() {
            resources.push(parameter);
        }
        i = i + 1;
    }
    proof {
        assert(kernel.parameters@.subrange(0, kernel.parameters@.len() as int) =~= kernel.parameters@);
    }
    let mut k: usize = 0;
    while k < resources.len()
        invariant
            k <= resources@.len(),
            resources@ == bound_parameters(kernel.parameters@),
            first_parameter_fault(resources@, k as int) == first_parameter_fault(resources@, 0),
            kernel_check(*kernel) == (match first_parameter_fault(resources@, 0) {
                Some(f) => Err::<Seq<ParameterDescriptor>, KernelFault>(f),
                None => Ok(resources@),
            }),
        decreases resources@.len() - k,
    {
        let parameter = resources[k];
        proof {
            lemma_bound_parameters_bound(kernel.parameters@, k as int);
        }
        if parameter.kind != ParameterKind::Storage {
            return Err(Error::UnsupportedParameter { name: owned(parameter.name), kind: parameter.kind });
        }
        if !acceptable(parameter.resource_layout) {
            let actual = match parameter.resource_layout {
                Some(layout) => Some(Box::new(layout)),
                None => None,
            };
            return Err(Error::InvalidResourceLayout { parameter: owned(parameter.name), actual });
        }
        let group = match parameter.binding {
            Some(binding) => binding.group,
            None => 0,
        };
        if group != 0 {
            return Err(Error::UnsupportedBindGroup(group));
        }
        k = k + 1;
    }
    Ok(resources)
}

/// Every bound parameter has a binding.
pub proof fn lemma_bound_parameters_bound(ps: Seq<ParameterDescriptor>, k: int)
    ensures
        0 <= k < bound_parameters(ps).len() ==> bound_parameters(ps)[k].binding is Some,
    decreases ps.len(),
{
    if ps.len() > 0 {
        lemma_bound_parameters_bound(ps.drop_last(), k);
    }
}

// ---------------------------------------------------------------------------
// Which bindings a dispatch accepts.
// ---------------------------------------------------------------------------

/// Two element layouts agree in name, size, alignment, stride and kind, with
/// nested structures compared to `depth` levels.
pub open spec fn layouts_equal_within(a: TypeLayout, b: TypeLayout, depth: nat) -> bool
    decreases depth, 0int,
{
    if depth == 0 {
        false
    } else {
        &&& a.name@ == b.name@
        &&& a.size == b.size
        &&& a.alignment == b.alignment
        &&& a.stride == b.stride
        &&& match a.kind {
            TypeLayoutKind::Scalar(x) => b.kind matches TypeLayoutKind::Scalar(y) && x == y,
            TypeLayoutKind::Struct(f) => b.kind matches TypeLayoutKind::Struct(g) && f@.len()
                == g@.len() && fields_equal_within(f@, g@, 0, (depth - 1) as nat),
        }
    }
}

/// The fields `f[i..]` and `g[i..]` agree in name, offset and layout.
pub open spec fn fields_equal_within(
    f: Seq<StructFieldLayout>,
    g: Seq<StructFieldLayout>,
    i: int,
    depth: nat,
) -> bool
    decreases depth, f.len() - i,
{
    if !(0 <= i < f.len() && i < g.len()) {
        true
    } else {
        &&& f[i].name@ == g[i].name@
        &&& f[i].offset == g[i].offset
        &&& layouts_equal_within(f[i].ty, g[i].ty, depth)
        &&& fields_equal_within(f, g, i + 1, depth)
    }
}

/// Fields that agree when compared to `d` levels agree when compared further.
proof fn lemma_fields_equal_depth(
    f: Seq<StructFieldLayout>,
    g: Seq<StructFieldLayout>,
    i: int,
    d: nat,
    e: nat,
)
    requires
        d <= e,
        fields_equal_within(f, g, i, d),
    ensures
        fields_equal_within(f, g, i, e),
    decreases d, f.len() - i,
{
    if 0 <= i < f.len() && i < g.len() {
        lemma_layouts_equal_depth(f[i].ty, g[i].ty, d, e);
        lemma_fields_equal_depth(f, g, i + 1, d, e);
    }
}

/// The depth only bounds the comparison: layouts that agree when compared to
/// `d` levels agree when compared to any `e >= d` levels, so the comparison up
/// to `MAX_LAYOUT_DEPTH` agrees on every pair of layouts that agree at some
/// depth, however deeply their structures nest.
pub proof fn lemma_layouts_equal_depth(a: TypeLayout, b: TypeLayout, d: nat, e: nat)
    requires
        d <= e,
        layouts_equal_within(a, b, d),
    ensures
        layouts_equal_within(a, b, e),
    decreases d, 0int,
{
    match (a.kind, b.kind) {
        (TypeLayoutKind::Struct(f), TypeLayoutKind::Struct(g)) => {
            lemma_fields_equal_depth(f@, g@, 0, (d - 1) as nat, (e - 1) as nat);
        },
        _ => {},
    }
}

/// Two resource layouts agree, element layouts compared to the depth up to
/// which any layout is examined.
pub open spec fn resource_layouts_equal(a: ResourceLayout, b: ResourceLayout) -> bool {
    &&& a.rules == b.rules
    &&& layouts_equal_within(a.element, b.element, MAX_LAYOUT_DEPTH as nat)
    &&& a.element_stride == b.element_stride
}

fn same_name(a: &str, b: &str) -> (r: bool)
    ensures
        r == (a@ == b@),
{
    crate::reflect::same_text(a, b)
}

fn layouts_equal(a: TypeLayout, b: TypeLayout, depth: u64) -> (r: bool)
    ensures
        r == layouts_equal_within(a, b, depth as nat),
    decreases depth, 0int,
{
    if depth == 0 {
        return false;
    }
    if !same_name(a.name, b.name) || a.size != b.size || a.alignment != b.alignment
        || a.stride != b.stride {
        return false;
    }
    match (a.kind, b.kind) {
        (TypeLayoutKind::Scalar(x), TypeLayoutKind::Scalar(y)) => x == y,
        (TypeLayoutKind::Struct(f), TypeLayoutKind::Struct(g)) => f.len() == g.len()
            && fields_equal(f, g, depth - 1),
        _ => false,
    }
}

fn fields_equal(f: &'static [StructFieldLayout], g: &'static [StructFieldLayout], depth: u64) -> (r: bool)
    requires
        f@.len() == g@.len(),
    ensures
        r == fields_equal_within(f@, g@, 0, depth as nat),
    decreases depth, 1int,
{
    let mut i: usize = 0;
    while i < f.len()
        invariant
            f@.len() == g@.len(),
            i <= f@.len(),
            fields_equal_within(f@, g@, 0, depth as nat) == fields_equal_within(f@, g@, i as int, depth as nat),
        decreases f@.len() - i,
    {
        let a = f[i];
        let b = g[i];
        if !same_name(a.name, b.name) || a.offset != b.offset || !layouts_equal(a.ty, b.ty, depth) {
            return false;
        }
        i = i + 1;
    }
    true
}

/// Whether two element layouts agree, compared to the depth up to which any
/// layout is examined.
pub fn same_layout(a: TypeLayout, b: TypeLayout) -> (r: bool)
    ensures
        r == layouts_equal_within(a, b, MAX_LAYOUT_DEPTH as nat),
{
    layouts_equal(a, b, MAX_LAYOUT_DEPTH)
}

/// Whether two resource layouts agree.
pub fn same_resource_layout(a: ResourceLayout, b: ResourceLayout) -> (r: bool)
    ensures
        r == resource_layouts_equal(a, b),
{
    a.rules == b.rules && layouts_equal(a.element, b.element, MAX_LAYOUT_DEPTH)
        && a.element_stride == b.element_stride
}

/// The layout of one `f32`: the element every host `f32` binding carries.
pub open spec fn f32_layout() -> TypeLayout {
    TypeLayout { name: "f32", size: 4, alignment: 4, stride: 4, kind: TypeLayoutKind::Scalar(ScalarKind::F32) }
}

fn f32_element() -> (r: TypeLayout)
    ensures
        r == f32_layout(),
{
    TypeLayout::scalar("f32", ScalarKind::F32)
}

/// Why one binding is refused.
pub enum BindingFault {
    Layout(ParameterDescriptor, ResourceLayout),
    Foreign,
    Access(ParameterDescriptor, Access),
    BufferAccess(ParameterDescriptor, GpuBufferAccess, Access),
    Length(ParameterDescriptor, usize, usize),
    EmptyIndependent(ParameterDescriptor),
}

/// `error` reports `fault`.
pub open spec fn reports_binding_fault(error: Error, fault: BindingFault) -> bool {
    match fault {
        BindingFault::Layout(p, actual) => error matches Error::UnsupportedResourceLayout {
            parameter,
            expected,
            actual: got,
        } && parameter@ == p.name@ && Some(*expected) == p.resource_layout && boxed_layout(got)
            == Some(actual),
        BindingFault::Foreign => error is ForeignPersistentBuffer,
        BindingFault::Access(p, actual) => error matches Error::BindingAccess {
            parameter,
            expected,
            actual: got,
        } && parameter@ == p.name@ && expected == p.access && got == actual,
        BindingFault::BufferAccess(p, buffer, access) => error matches Error::PersistentBufferAccess {
            parameter,
            buffer: b,
            binding,
        } && parameter@ == p.name@ && b == buffer && binding == access,
        BindingFault::Length(p, expected, actual) => error matches Error::BufferLength {
            parameter,
            expected: e,
            actual: a,
        } && parameter@ == p.name@ && e == expected && a == actual,
        BindingFault::EmptyIndependent(p) => error matches Error::IndependentLengthEmpty {
            parameter,
        } && parameter@ == p.name@,
    }
}

/// The layout a parameter declares must be the one the binding carries.
pub open spec fn layout_fault(p: ParameterDescriptor, actual: ResourceLayout) -> Option<BindingFault> {
    if resource_layouts_equal(p.resource_layout->0, actual) {
        None
    } else {
        Some(BindingFault::Layout(p, actual))
    }
}

/// What is wrong with binding the host `f32` slice `b` to `p` for `count` elements.
pub open spec fn host_binding_fault(p: ParameterDescriptor, b: HostBinding, count: u32) -> Option<BindingFault> {
    let actual = ResourceLayout {
        rules: ShaderLayoutRules::StorageV1,
        element: f32_layout(),
        element_stride: 4,
    };
    if layout_fault(p, actual) is Some {
        layout_fault(p, actual)
    } else if p.access != b.access {
        Some(BindingFault::Access(p, b.access))
    } else if b.len != count {
        Some(BindingFault::Length(p, count as usize, b.len))
    } else {
        None
    }
}

/// What is wrong with binding the persistent buffer `b` to `p` on device
/// `device` for `count` elements.
pub open spec fn buffer_binding_fault(p: ParameterDescriptor, b: BufferBinding, device: u64, count: u32) -> Option<BindingFault> {
    let actual = ResourceLayout {
        rules: ShaderLayoutRules::StorageV1,
        element: b.layout,
        element_stride: b.layout.stride,
    };
    if layout_fault(p, actual) is Some {
        layout_fault(p, actual)
    } else if b.device_id != device {
        Some(BindingFault::Foreign)
    } else if p.access != b.access {
        Some(BindingFault::Access(p, b.access))
    } else if !b.buffer_access.spec_allows(b.access) {
        Some(BindingFault::BufferAccess(p, b.buffer_access, b.access))
    } else if b.independent_length {
        if b.len == 0 {
            Some(BindingFault::EmptyIndependent(p))
        } else {
            None
        }
    } else if b.len != count {
        Some(BindingFault::Length(p, count as usize, b.len))
    } else {
        None
    }
}

/// The fault of the first refused host binding in `bs[i..]`.
pub open spec fn first_host_fault(ps: Seq<ParameterDescriptor>, bs: Seq<HostBinding>, count: u32, i: int) -> Option<BindingFault>
    decreases ps.len() - i,
{
    if !(0 <= i < ps.len() && i < bs.len()) {
        None
    } else if host_binding_fault(ps[i], bs[i], count) is Some {
        host_binding_fault(ps[i], bs[i], count)
    } else {
        first_host_fault(ps, bs, count, i + 1)
    }
}

proof fn lemma_host_fault_none_at(ps: Seq<ParameterDescriptor>, bs: Seq<HostBinding>, count: u32, i: int, k: int)
    requires
        0 <= i <= k,
        k < ps.len(),
        k < bs.len(),
        first_host_fault(ps, bs, count, i) is None,
    ensures
        host_binding_fault(ps[k], bs[k], count) is None,
    decreases k - i,
{
    if i < k {
        lemma_host_fault_none_at(ps, bs, count, i + 1, k);
    }
}

/// Host bindings that pass their checks bind each parameter with exactly the
/// access it declares, to a slice of exactly the dispatch's element count.
pub proof fn lemma_accepted_host_bindings(ps: Seq<ParameterDescriptor>, bs: Seq<HostBinding>, count: u32)
    requires
        ps.len() == bs.len(),
        first_host_fault(ps, bs, count, 0) is None,
    ensures
        forall|k: int| 0 <= k < ps.len() ==> (#[trigger] ps[k]).access == bs[k].access && bs[k].len == count,
{
    assert forall|k: int| 0 <= k < ps.len() implies (#[trigger] ps[k]).access == bs[k].access && bs[k].len == count by {
        lemma_host_fault_none_at(ps, bs, count, 0, k);
    }
}

proof fn lemma_buffer_fault_none_at(
    ps: Seq<ParameterDescriptor>,
    bs: Seq<BufferBinding>,
    device: u64,
    count: u32,
    i: int,
    k: int,
)
    requires
        0 <= i <= k,
        k < ps.len(),
        k < bs.len(),
        first_buffer_fault(ps, bs, device, count, i) is None,
    ensures
        buffer_binding_fault(ps[k], bs[k], device, count) is None,
    decreases k - i,
{
    if i < k {
        lemma_buffer_fault_none_at(ps, bs, device, count, i + 1, k);
    }
}

/// Persistent bindings that pass their checks are all on the dispatching
/// device, bind each parameter with exactly the access it declares, in a way
/// the buffer allows, and hold exactly the dispatch's element count, or, for
/// an independent length, at least one element.
pub proof fn lemma_accepted_buffer_bindings(
    ps: Seq<ParameterDescriptor>,
    bs: Seq<BufferBinding>,
    device: u64,
    count: u32,
)
    requires
        ps.len() == bs.len(),
        first_buffer_fault(ps, bs, device, count, 0) is None,
    ensures
        forall|k: int|
            0 <= k < ps.len() ==> {
                &&& (#[trigger] ps[k]).access == bs[k].access
                &&& bs[k].device_id == device
                &&& (bs[k].access == Access::ReadWrite ==> bs[k].buffer_access == GpuBufferAccess::ReadWrite)
                &&& if bs[k].independent_length {
                    bs[k].len > 0
                } else {
                    bs[k].len == count
                }
            },
{
    assert forall|k: int| 0 <= k < ps.len() implies {
        &&& (#[trigger] ps[k]).access == bs[k].access
        &&& bs[k].device_id == device
        &&& (bs[k].access == Access::ReadWrite ==> bs[k].buffer_access == GpuBufferAccess::ReadWrite)
        &&& if bs[k].independent_length {
            bs[k].len > 0
        } else {
            bs[k].len == count
        }
    } by {
        lemma_buffer_fault_none_at(ps, bs, device, count, 0, k);
    }
}

/// The fault of the first refused persistent binding in `bs[i..]`.
pub open spec fn first_buffer_fault(ps: Seq<ParameterDescriptor>, bs: Seq<BufferBinding>, device: u64, count: u32, i: int) -> Option<BindingFault>
    decreases ps.len() - i,
{
    if !(0 <= i < ps.len() && i < bs.len()) {
        None
    } else if buffer_binding_fault(ps[i], bs[i], device, count) is Some {
        buffer_binding_fault(ps[i], bs[i], device, count)
    } else {
        first_buffer_fault(ps, bs, device, count, i + 1)
    }
}

/// With no fault found from `i` on, no parameter from `i` on is faulty.
pub proof fn lemma_no_parameter_fault(ps: Seq<ParameterDescriptor>, i: int)
    requires
        0 <= i,
        first_parameter_fault(ps, i) is None,
    ensures
        forall|k: int| i <= k < ps.len() ==> (#[trigger] parameter_fault(ps[k])) is None,
    decreases ps.len() - i,
{
    if i < ps.len() {
        lemma_no_parameter_fault(ps, i + 1);
    }
}

/// Checks that `actual` is the layout `parameter` declares.
pub fn validate_binding_layout(parameter: &ParameterDescriptor, actual: ResourceLayout) -> (r: Result<(), Error>)
    requires
        parameter.resource_layout is Some,
    ensures
        match layout_fault(*parameter, actual) {
            None => r is Ok,
            Some(f) => r matches Err(e) && reports_binding_fault(e, f),
        },
{
    let expected = match parameter.resource_layout {
        Some(layout) => layout,
        None => actual,
    };
    if !same_resource_layout(expected, actual) {
        return Err(Error::UnsupportedResourceLayout {
            parameter: owned(parameter.name),
            expected: Box::new(expected),
            actual: Some(Box::new(actual)),
        });
    }
    Ok(())
}

/// The report of a binding count that differs from the kernel's.
pub open spec fn reports_count(error: Error, expected: usize, actual: usize) -> bool {
    error matches Error::BindingCount { expected: e, actual: a } && e == expected && a == actual
}

/// Checks a dispatch of `kernel` over `element_count` elements with host
/// `f32` slices: its bound parameters, in declaration order.
pub fn validate_dispatch(kernel: &KernelDescriptor, element_count: u32, bindings: &[HostBinding]) -> (r: Result<Vec<ParameterDescriptor>, Error>)
    ensures
        match kernel_check(*kernel) {
            Err(fault) => r matches Err(e) && reports_fault(e, fault, *kernel),
            Ok(resources) => if resources.len() != bindings@.len() {
                r matches Err(e) && reports_count(e, resources.len() as usize, bindings@.len() as usize)
            } else {
                match first_host_fault(resources, bindings@, element_count, 0) {
                    None => r matches Ok(v) && v@ == resources,
                    Some(f) => r matches Err(e) && reports_binding_fault(e, f),
                }
            },
        },
        r matches Ok(v) ==> v@.len() == bindings@.len() && forall|k: int|
            0 <= k < v@.len() ==> (#[trigger] v@[k]).access == bindings@[k].access && bindings@[k].len
                == element_count,
{
    let resources = validate_kernel(kernel)?;
    if resources.len() != bindings.len() {
        return Err(Error::BindingCount { expected: resources.len(), actual: bindings.len() });
    }
    proof {
        lemma_no_parameter_fault(resources@, 0);
        assert forall|k: int| 0 <= k < resources@.len() implies (#[trigger] resources@[k]).resource_layout is Some by {
            assert(parameter_fault(resources@[k]) is None);
        }
    }
    let mut i: usize = 0;
    while i < resources.len()
        invariant
            resources@.len() == bindings@.len(),
            i <= resources@.len(),
            kernel_check(*kernel) == Ok::<Seq<ParameterDescriptor>, KernelFault>(resources@),
            first_host_fault(resources@, bindings@, element_count, i as int)
                == first_host_fault(resources@, bindings@, element_count, 0),
            forall|k: int| 0 <= k < resources@.len() ==> (#[trigger] resources@[k]).resource_layout is Some,
        decreases resources@.len() - i,
    {
        let parameter = resources[i];
        let binding = bindings[i];
        validate_binding_layout(&parameter, ResourceLayout::storage_v1(f32_element()))?;
        if parameter.access != binding.access {
            return Err(Error::BindingAccess {
                parameter: owned(parameter.name),
                expected: parameter.access,
                actual: binding.access,
            });
        }
        if binding.len != element_count as usize {
            return Err(Error::BufferLength {
                parameter: owned(parameter.name),
                expected: element_count as usize,
                actual: binding.len,
            });
        }
        i = i + 1;
    }
    proof {
        lemma_accepted_host_bindings(resources@, bindings@, element_count);
    }
    Ok(resources)
}

/// Why a persistent dispatch is refused.
pub enum DispatchFault {
    Kernel(KernelFault),
    Count(usize, usize),
    Binding(BindingFault),
}

/// A dispatch of `kernel` over `count` elements with the persistent buffers
/// `bindings` on device `device`: the kernel's bound parameters, or the
/// first fault.
pub open spec fn persistent_dispatch_check(
    device: u64,
    kernel: KernelDescriptor,
    count: u32,
    bindings: Seq<BufferBinding>,
) -> Result<Seq<ParameterDescriptor>, DispatchFault> {
    match kernel_check(kernel) {
        Err(fault) => Err(DispatchFault::Kernel(fault)),
        Ok(resources) => if resources.len() != bindings.len() {
            Err(DispatchFault::Count(resources.len() as usize, bindings.len() as usize))
        } else {
            match first_buffer_fault(resources, bindings, device, count, 0) {
                None => Ok(resources),
                Some(f) => Err(DispatchFault::Binding(f)),
            }
        },
    }
}

/// `error` reports `fault` of a dispatch of `kernel`.
pub open spec fn reports_dispatch_fault(error: Error, fault: DispatchFault, kernel: KernelDescriptor) -> bool {
    match fault {
        DispatchFault::Kernel(f) => reports_fault(error, f, kernel),
        DispatchFault::Count(expected, actual) => reports_count(error, expected, actual),
        DispatchFault::Binding(f) => reports_binding_fault(error, f),
    }
}

/// Checks a dispatch of `kernel` over `element_count` elements with
/// persistent buffers on device `device_id`: its bound parameters, in
/// declaration order. A binding with an independent length only has to be
/// non-empty; every other binding must hold exactly `element_count` elements.
pub fn validate_persistent_dispatch(
    device_id: u64,
    kernel: &KernelDescriptor,
    element_count: u32,
    bindings: &[BufferBinding],
) -> (r: Result<Vec<ParameterDescriptor>, Error>)
    ensures
        match persistent_dispatch_check(device_id, *kernel, element_count, bindings@) {
            Ok(resources) => r matches Ok(v) && v@ == resources,
            Err(f) => r matches Err(e) && reports_dispatch_fault(e, f, *kernel),
        },
        r matches Ok(v) ==> v@.len() == bindings@.len() && forall|k: int|
            0 <= k < v@.len() ==> {
                &&& (#[trigger] v@[k]).access == bindings@[k].access
                &&& bindings@[k].device_id == device_id
                &&& (bindings@[k].access == Access::ReadWrite ==> bindings@[k].buffer_access
                    == GpuBufferAccess::ReadWrite)
                &&& if bindings@[k].independent_length {
                    bindings@[k].len > 0
                } else {
                    bindings@[k].len == element_count
                }
            },
{
    let resources = validate_kernel(kernel)?;
    if resources.len() != bindings.len() {
        return Err(Error::BindingCount { expected: resources.len(), actual: bindings.len() });
    }
    proof {
        lemma_no_parameter_fault(resources@, 0);
        assert forall|k: int| 0 <= k < resources@.len() implies (#[trigger] resources@[k]).resource_layout is Some by {
            assert(parameter_fault(resources@[k]) is None);
        }
    }
    let mut i: usize = 0;
    while i < resources.len()
        invariant
            resources@.len() == bindings@.len(),
            i <= resources@.len(),
            kernel_check(*kernel) == Ok::<Seq<ParameterDescriptor>, KernelFault>(resources@),
            first_buffer_fault(resources@, bindings@, device_id, element_count, i as int)
                == first_buffer_fault(resources@, bindings@, device_id, element_count, 0),
            forall|k: int| 0 <= k < resources@.len() ==> (#[trigger] resources@[k]).resource_layout is Some,
        decreases resources@.len() - i,
    {
        let parameter = resources[i];
        let binding = bindings[i];
        validate_binding_layout(&parameter, ResourceLayout::storage_v1(binding.layout))?;
        if binding.device_id != device_id {
            return Err(Error::ForeignPersistentBuffer);
        }
        if parameter.access != binding.access {
            return Err(Error::BindingAccess {
                parameter: owned(parameter.name),
                expected: parameter.access,
                actual: binding.access,
            });
        }
        if !binding.buffer_access.allows(binding.access) {
            return Err(Error::PersistentBufferAccess {
                parameter: owned(parameter.name),
                buffer: binding.buffer_access,
                binding: binding.access,
            });
        }
        if binding.independent_length {
            if binding.len == 0 {
                return Err(Error::IndependentLengthEmpty { parameter: owned(parameter.name) });
            }
        } else if binding.len != element_count as usize {
            return Err(Error::BufferLength {
                parameter: owned(parameter.name),
                expected: element_count as usize,
                actual: binding.len,
            });
        }
        i = i + 1;
    }
    proof {
        lemma_accepted_buffer_bindings(resources@, bindings@, device_id, element_count);
    }
    Ok(resources)
}

// ---------------------------------------------------------------------------
// Reports.
// ---------------------------------------------------------------------------

/// The `Debug` spelling of an access.
pub open spec fn access_name(a: Access) -> Seq<char> {
    match a {
        Access::ReadOnly => "ReadOnly"@,
        Access::ReadWrite => "ReadWrite"@,
        Access::NotApplicable => "NotApplicable"@,
    }
}

/// The `Debug` spelling of a buffer access.
pub open spec fn buffer_access_name(a: GpuBufferAccess) -> Seq<char> {
    match a {
        GpuBufferAccess::ReadOnly => "ReadOnly"@,
        GpuBufferAccess::ReadWrite => "ReadWrite"@,
    }
}

/// The `Debug` spelling of a parameter kind.
pub open spec fn kind_name(k: ParameterKind) -> Seq<char> {
    match k {
        ParameterKind::Invocation => "Invocation"@,
        ParameterKind::Storage => "Storage"@,
        ParameterKind::Uniform => "Uniform"@,
        ParameterKind::Value => "Value"@,
    }
}

/// `t` shows the optional layout `layout`: `None`, or `Some(` and `)`
/// around the layout's `Debug` text, whose spelling is left open.
pub open spec fn optional_layout_text(layout: Option<Box<ResourceLayout>>, t: Seq<char>) -> bool {
    match layout {
        None => t == "None"@,
        Some(_) => exists|x: Seq<char>| t == "Some("@ + x + ")"@,
    }
}

/// `r` is the report of `e`. Where a report shows a resource layout, it
/// shows that layout's `Debug` text, whose spelling is left open.
pub open spec fn is_report(e: Error, r: Seq<char>) -> bool {
    match e {
        Error::NoAdapter(x) => r == "no Vulkan compute adapter is available: "@ + x@,
        Error::RequestDevice(x) => r == "could not open the GPU device: "@ + x@,
        Error::MissingSlangSource(k) => r == "kernel `"@ + k@ + "` has no generated Slang source"@,
        Error::Slang(x) => {
            let lead = "could not compile kernel with Slang: "@;
            has_prefix(r, lead) && slang::is_message(&x, r.subrange(lead.len() as int, r.len() as int))
        },
        Error::UnsupportedWorkgroupSize(w) => r
            == "the storage backend requires a one-dimensional workgroup, got "@ + "["@ + decimal(
            w[0] as nat,
        ) + ", "@ + decimal(w[1] as nat) + ", "@ + decimal(w[2] as nat) + "]"@,
        Error::UnsupportedParameter { name, kind } => r == "parameter `"@ + name@
            + "` has unsupported resource kind "@ + kind_name(kind),
        Error::InvalidResourceLayout { parameter, actual } => {
            let lead = "parameter `"@ + parameter@ + "` requires a valid StorageV1 resource layout, got "@;
            exists|t: Seq<char>| #[trigger] optional_layout_text(actual, t) && r == lead + t
        },
        Error::UnsupportedResourceLayout { parameter, actual, .. } => {
            let lead = "parameter `"@ + parameter@ + "` has resource layout "@;
            exists|t: Seq<char>, x: Seq<char>|
                #[trigger] optional_layout_text(actual, t) && #[trigger] (lead + t + ", but the f32 backend requires "@ + x) == r
        },
        Error::UnsupportedBindGroup(g) => r == "only bind group 0 is supported, got group "@
            + decimal(g as nat),
        Error::BindingCount { expected, actual } => r == "kernel expects "@ + decimal(
            expected as nat,
        ) + " resource bindings, got "@ + decimal(actual as nat),
        Error::BindingAccess { parameter, expected, actual } => r == "parameter `"@ + parameter@
            + "` expects "@ + access_name(expected) + " access, got "@ + access_name(actual),
        Error::BufferLength { parameter, expected, actual } => r == "parameter `"@ + parameter@
            + "` expects "@ + decimal(expected as nat) + " elements, got "@ + decimal(actual as nat),
        Error::ForeignPersistentBuffer => r == "persistent buffer belongs to a different GPU device"@,
        Error::PersistentBufferAccess { parameter, buffer, binding } => r == "parameter `"@
            + parameter@ + "` was bound as "@ + access_name(binding) + ", which the "@
            + buffer_access_name(buffer) + " persistent buffer does not allow"@,
        Error::PersistentBufferLength { expected, actual } => r == "persistent buffer expects "@
            + decimal(expected as nat) + " elements, got "@ + decimal(actual as nat),
        Error::PersistentBufferNotReadable => r
            == "readback requires a persistent buffer created with read-write access"@,
        Error::Reflection(x) => {
            let lead = "could not validate kernel reflection: "@;
            has_prefix(r, lead) && reflect::is_message(&x, r.subrange(lead.len() as int, r.len() as int))
        },
        Error::IndependentLengthEmpty { parameter } => r == "parameter `"@ + parameter@
            + "` was bound with an independent length but the buffer is empty; the GPU would observe a one-element placeholder"@,
        Error::GraphDependencyOrder { node, dependency } => r == "graph node "@ + decimal(
            node as nat,
        ) + " depends on node "@ + decimal(dependency as nat)
            + ", which is not an earlier node of the same graph"@,
        Error::GraphMissingDependency { node, producer } => r == "graph node "@ + decimal(
            node as nat,
        ) + " touches a buffer last written or read by node "@ + decimal(producer as nat)
            + " without declaring a dependency on it"@,
        Error::GraphUnknownReadback(node) => r == "graph node "@ + decimal(node as nat)
            + " is not a readback node of this execution"@,
        Error::GraphReadbackType { expected, actual } => r == "graph readback holds `"@ + expected@
            + "` elements, but `"@ + actual@ + "` was requested"@,
        Error::IndirectArgsLayout(name) => r
            == "indirect dispatch arguments must come from `create_indirect_buffer` with a non-empty struct of exactly three `u32` fields (x, y, z workgroups); got `"@
            + name@ + "`"@,
        Error::IndirectBindingLength { parameter } => r == "parameter `"@ + parameter@
            + "` of an indirect dispatch must be bound with `independent_length()` and a non-empty buffer; the element count is decided on the GPU"@,
        Error::PoolTruncateGrows { len, requested } => r == "pool truncate to "@ + decimal(
            requested as nat,
        ) + " exceeds the logical length "@ + decimal(len as nat) + "; use push or reserve to grow"@,
        Error::Poll(x) => r == "GPU synchronization failed: "@ + x@,
        Error::MapFailed(x) => r == "GPU readback failed: "@ + x@,
    }
}

/// `format!("{:?}", layout)`: the `Debug` text of a resource layout. Nothing
/// is stated of the text: std documents derived `Debug` output as unstable.
#[verifier::external_body]
fn layout_debug(layout: &ResourceLayout) -> String {
    format!("{:?}", layout)
}

fn access_text(a: Access) -> (r: &'static str)
    ensures
        r@ == access_name(a),
{
    match a {
        Access::ReadOnly => "ReadOnly",
        Access::ReadWrite => "ReadWrite",
        Access::NotApplicable => "NotApplicable",
    }
}

fn buffer_access_text(a: GpuBufferAccess) -> (r: &'static str)
    ensures
        r@ == buffer_access_name(a),
{
    match a {
        GpuBufferAccess::ReadOnly => "ReadOnly",
        GpuBufferAccess::ReadWrite => "ReadWrite",
    }
}

fn kind_text(k: ParameterKind) -> (r: &'static str)
    ensures
        r@ == kind_name(k),
{
    match k {
        ParameterKind::Invocation => "Invocation",
        ParameterKind::Storage => "Storage",
        ParameterKind::Uniform => "Uniform",
        ParameterKind::Value => "Value",
    }
}

/// Appends the `Debug` text of an optional layout.
fn push_optional_layout(out: &mut String, layout: &Option<Box<ResourceLayout>>)
    ensures
        has_prefix(final(out)@, old(out)@),
        optional_layout_text(*layout, final(out)@.subrange(old(out)@.len() as int, final(out)@.len() as int)),
{
    let ghost before = out@;
    match layout {
        None => {
            out.append("None");
            proof {
                assert(out@.subrange(before.len() as int, out@.len() as int) =~= "None"@);
            }
        },
        Some(l) => {
            out.append("Some(");
            let text = layout_debug(&**l);
            out.append(text.as_str());
            out.append(")");
            proof {
                let t = out@.subrange(before.len() as int, out@.len() as int);
                assert(t =~= "Some("@ + text@ + ")"@);
                assert(exists|x: Seq<char>| t == "Some("@ + x + ")"@);
            }
        },
    }
    proof {
        assert(out@.subrange(0, before.len() as int) =~= before);
        assert(out@ =~= before + out@.subrange(before.len() as int, out@.len() as int));
    }
}

impl Error {
    /// The human-readable report of this error.
    pub fn message(&self) -> (r: String)
        ensures
            is_report(*self, r@),
    {
        match self {
            Error::NoAdapter(x) => {
                let mut out = owned("no Vulkan compute adapter is available: ");
                out.append(x.as_str());
                out
            },
            Error::RequestDevice(x) => {
                let mut out = owned("could not open the GPU device: ");
                out.append(x.as_str());
                out
            },
            Error::MissingSlangSource(k) => {
                let mut out = owned("kernel `");
                out.append(k.as_str());
                out.append("` has no generated Slang source");
                out
            },
            Error::Slang(x) => {
                let mut out = owned("could not compile kernel with Slang: ");
                let ghost lead = out@;
                let detail = x.message();
                out.append(detail.as_str());
                proof {
                    assert(out@.subrange(0, lead.len() as int) =~= lead);
                    assert(out@.subrange(lead.len() as int, out@.len() as int) =~= detail@);
                }
                out
            },
            Error::UnsupportedWorkgroupSize(w) => {
                let mut out = owned("the storage backend requires a one-dimensional workgroup, got ");
                out.append("[");
                push_decimal(&mut out, w[0] as u64);
                out.append(", ");
                push_decimal(&mut out, w[1] as u64);
                out.append(", ");
                push_decimal(&mut out, w[2] as u64);
                out.append("]");
                out
            },
            Error::UnsupportedParameter { name, kind } => {
                let mut out = owned("parameter `");
                out.append(name.as_str());
                out.append("` has unsupported resource kind ");
                out.append(kind_text(*kind));
                out
            },
            Error::InvalidResourceLayout { parameter, actual } => {
                let mut out = owned("parameter `");
                out.append(parameter.as_str());
                out.append("` requires a valid StorageV1 resource layout, got ");
                let ghost lead = out@;
                push_optional_layout(&mut out, actual);
                proof {
                    let t = out@.subrange(lead.len() as int, out@.len() as int);
                    assert(out@.subrange(0, lead.len() as int) =~= lead);
                    assert(out@ =~= lead + t);
                    assert(optional_layout_text(*actual, t));
                }
                out
            },
            Error::UnsupportedResourceLayout { parameter, expected, actual } => {
                let mut out = owned("parameter `");
                out.append(parameter.as_str());
                out.append("` has resource layout ");
                let ghost lead = out@;
                push_optional_layout(&mut out, actual);
                let ghost shown = out@;
                out.append(", but the f32 backend requires ");
                let text = layout_debug(&**expected);
                out.append(text.as_str());
                proof {
                    let t = shown.subrange(lead.len() as int, shown.len() as int);
                    assert(shown.subrange(0, lead.len() as int) =~= lead);
                    assert(shown =~= lead + t);
                    assert(optional_layout_text(*actual, t));
                    assert(out@ =~= lead + t + ", but the f32 backend requires "@ + text@);
                }
                out
            },
            Error::UnsupportedBindGroup(g) => {
                let mut out = owned("only bind group 0 is supported, got group ");
                push_decimal(&mut out, *g as u64);
                out
            },
            Error::BindingCount { expected, actual } => {
                let mut out = owned("kernel expects ");
                push_decimal(&mut out, *expected as u64);
                out.append(" resource bindings, got ");
                push_decimal(&mut out, *actual as u64);
                out
            },
            Error::BindingAccess { parameter, expected, actual } => {
                let mut out = owned("parameter `");
                out.append(parameter.as_str());
                out.append("` expects ");
                out.append(access_text(*expected));
                out.append(" access, got ");
                out.append(access_text(*actual));
                out
            },
            Error::BufferLength { parameter, expected, actual } => {
                let mut out = owned("parameter `");
                out.append(parameter.as_str());
                out.append("` expects ");
                push_decimal(&mut out, *expected as u64);
                out.append(" elements, got ");
                push_decimal(&mut out, *actual as u64);
                out
            },
            Error::ForeignPersistentBuffer => owned("persistent buffer belongs to a different GPU device"),
            Error::PersistentBufferAccess { parameter, buffer, binding } => {
                let mut out = owned("parameter `");
                out.append(parameter.as_str());
                out.append("` was bound as ");
                out.append(access_text(*binding));
                out.append(", which the ");
                out.append(buffer_access_text(*buffer));
                out.append(" persistent buffer does not allow");
                out
            },
            Error::PersistentBufferLength { expected, actual } => {
                let mut out = owned("persistent buffer expects ");
                push_decimal(&mut out, *expected as u64);
                out.append(" elements, got ");
                push_decimal(&mut out, *actual as u64);
                out
            },
            Error::PersistentBufferNotReadable => owned(
                "readback requires a persistent buffer created with read-write access",
            ),
            Error::Reflection(x) => {
                let mut out = owned("could not validate kernel reflection: ");
                let ghost lead = out@;
                let detail = x.message();
                out.append(detail.as_str());
                proof {
                    assert(out@.subrange(0, lead.len() as int) =~= lead);
                    assert(out@.subrange(lead.len() as int, out@.len() as int) =~= detail@);
                }
                out
            },
            Error::IndependentLengthEmpty { parameter } => {
                let mut out = owned("parameter `");
                out.append(parameter.as_str());
                out.append(
                    "` was bound with an independent length but the buffer is empty; the GPU would observe a one-element placeholder",
                );
                out
            },
            Error::GraphDependencyOrder { node, dependency } => {
                let mut out = owned("graph node ");
                push_decimal(&mut out, *node as u64);
                out.append(" depends on node ");
                push_decimal(&mut out, *dependency as u64);
                out.append(", which is not an earlier node of the same graph");
                out
            },
            Error::GraphMissingDependency { node, producer } => {
                let mut out = owned("graph node ");
                push_decimal(&mut out, *node as u64);
                out.append(" touches a buffer last written or read by node ");
                push_decimal(&mut out, *producer as u64);
                out.append(" without declaring a dependency on it");
                out
            },
            Error::GraphUnknownReadback(node) => {
                let mut out = owned("graph node ");
                push_decimal(&mut out, *node as u64);
                out.append(" is not a readback node of this execution");
                out
            },
            Error::GraphReadbackType { expected, actual } => {
                let mut out = owned("graph readback holds `");
                out.append(expected);
                out.append("` elements, but `");
                out.append(actual);
                out.append("` was requested");
                out
            },
            Error::IndirectArgsLayout(name) => {
                let mut out = owned(
                    "indirect dispatch arguments must come from `create_indirect_buffer` with a non-empty struct of exactly three `u32` fields (x, y, z workgroups); got `",
                );
                out.append(name);
                out.append("`");
                out
            },
            Error::IndirectBindingLength { parameter } => {
                let mut out = owned("parameter `");
                out.append(parameter.as_str());
                out.append(
                    "` of an indirect dispatch must be bound with `independent_length()` and a non-empty buffer; the element count is decided on the GPU",
                );
                out
            },
            Error::PoolTruncateGrows { len, requested } => {
                let mut out = owned("pool truncate to ");
                push_decimal(&mut out, *requested as u64);
                out.append(" exceeds the logical length ");
                push_decimal(&mut out, *len as u64);
                out.append("; use push or reserve to grow");
                out
            },
            Error::Poll(x) => {
                let mut out = owned("GPU synchronization failed: ");
                out.append(x.as_str());
                out
            },
            Error::MapFailed(x) => {
                let mut out = owned("GPU readback failed: ");
                out.append(x.as_str());
                out
            },
        }
    }
}


/// The workgroups that cover `element_count` elements, `workgroup_x` to a
/// group: the count rounded up.
pub fn workgroup_count(element_count: u32, workgroup_x: u32) -> (r: u32)
    requires
        workgroup_x > 0,
    ensures
        r as int == (element_count as int + workgroup_x as int - 1) / (workgroup_x as int),
{
    let whole = element_count / workgroup_x;
    if element_count % workgroup_x == 0 {
        proof {
            assert((element_count as int + workgroup_x as int - 1) / (workgroup_x as int) == whole) by (nonlinear_arith)
                requires
                    workgroup_x > 0,
                    whole == element_count / workgroup_x,
                    element_count % workgroup_x == 0,
            ;
        }
        whole
    } else {
        proof {
            assert((element_count as int + workgroup_x as int - 1) / (workgroup_x as int) == whole + 1) by (nonlinear_arith)
                requires
                    workgroup_x > 0,
                    whole == element_count / workgroup_x,
                    element_count % workgroup_x != 0,
            ;
            assert(whole < u32::MAX) by (nonlinear_arith)
                requires
                    workgroup_x > 0,
                    whole == element_count / workgroup_x,
                    element_count % workgroup_x != 0,
                    element_count <= u32::MAX,
            ;
        }
        whole + 1
    }
}

} // verus!
