//! The descriptor-specific wgpu host source that encodes one dispatch of a
//! kernel: binding comments with the full element layout, the pipeline type,
//! its constructor and its `encode` method.
use vstd::prelude::*;
use crate::abi::{
    fields_storage_v1_within, storage_v1_within, StructFieldLayout, TypeLayout, TypeLayoutKind,
    MAX_LAYOUT_DEPTH,
};
use crate::backend::{kernel_check, reports_fault, validate_kernel, Error, KernelFault};
use crate::descriptor::{spec_qualified_name, Access, KernelDescriptor, ParameterDescriptor};
use crate::text::{chars_of, decimal, push_char, push_decimal};

verus! {

/// An ASCII letter or digit.
pub open spec fn is_ascii_alphanumeric(c: char) -> bool {
    ('a' <= c && c <= 'z') || ('A' <= c && c <= 'Z') || ('0' <= c && c <= '9')
}

/// `c` with an ASCII lower-case letter made upper-case.
pub open spec fn ascii_upper(c: char) -> char {
    if 'a' <= c && c <= 'z' {
        ((c as int) - 32) as char
    } else {
        c
    }
}

/// The type-name form of `t[..n]`: runs of ASCII letters and digits, each
/// starting upper-case, with everything else dropped; `upper` says whether
/// the character after `t[..n]` starts a run.
pub open spec fn identifier_state(t: Seq<char>, n: int) -> (Seq<char>, bool)
    decreases n,
{
    if n <= 0 {
        (Seq::empty(), true)
    } else {
        let (done, upper) = identifier_state(t, n - 1);
        let c = t[n - 1];
        if !is_ascii_alphanumeric(c) {
            (done, true)
        } else if upper {
            (done.push(ascii_upper(c)), false)
        } else {
            (done.push(c), false)
        }
    }
}

/// The Rust type-name form of a module or kernel name: `vector_add` becomes
/// `VectorAdd`.
pub open spec fn spec_rust_type_identifier(t: Seq<char>) -> Seq<char> {
    identifier_state(t, t.len() as int).0
}

/// `true` or `false`.
pub open spec fn bool_text(b: bool) -> Seq<char> {
    if b {
        "true"@
    } else {
        "false"@
    }
}

/// The comment lines for the nested fields of `layout` at `path`, placed at
/// byte `base`, nested structures followed to `depth` levels.
pub open spec fn fields_text(path: Seq<char>, layout: TypeLayout, base: int, depth: nat) -> Seq<char>
    decreases depth, 0int, 0int,
{
    if depth == 0 {
        Seq::empty()
    } else {
        match layout.kind {
            TypeLayoutKind::Scalar(_) => Seq::empty(),
            TypeLayoutKind::Struct(fields) => fields_text_upto(
                path,
                fields@,
                fields@.len() as int,
                base,
                (depth - 1) as nat,
            ),
        }
    }
}

/// The comment lines for the fields `fields[..n]`.
pub open spec fn fields_text_upto(
    path: Seq<char>,
    fields: Seq<StructFieldLayout>,
    n: int,
    base: int,
    depth: nat,
) -> Seq<char>
    decreases depth, 1int, n,
{
    if n <= 0 || n > fields.len() {
        Seq::empty()
    } else {
        let f = fields[n - 1];
        let p = path + "."@ + f.name@;
        let offset = base + f.offset;
        fields_text_upto(path, fields, n - 1, base, depth) + "//   "@ + p + ": "@ + f.ty.name@
            + " @ byte "@ + decimal(offset as nat) + " (size="@ + decimal(f.ty.size as nat)
            + ")\n"@ + fields_text(p, f.ty, offset, depth)
    }
}

/// The comment for one bound parameter: its binding and element layout.
pub open spec fn resource_comment(p: ParameterDescriptor) -> Seq<char> {
    let binding = p.binding->0;
    let layout = p.resource_layout->0;
    "// @group("@ + decimal(binding.group as nat) + ") @binding("@ + decimal(
        binding.binding as nat,
    ) + ") "@ + p.name@ + ": "@ + layout.element.name@ + " [storage-v1; size="@ + decimal(
        layout.element.size as nat,
    ) + ", align="@ + decimal(layout.element.alignment as nat) + ", stride="@ + decimal(
        layout.element_stride as nat,
    ) + "]\n"@ + fields_text(p.name@, layout.element, 0, MAX_LAYOUT_DEPTH as nat)
}

/// The bind-group layout entry for one bound parameter.
pub open spec fn layout_entry(p: ParameterDescriptor) -> Seq<char> {
    "            wgpu::BindGroupLayoutEntry {\n"@ + "                binding: "@ + decimal(
        p.binding->0.binding as nat,
    ) + ",\n"@ + "                visibility: wgpu::ShaderStages::COMPUTE,\n"@
        + "                ty: wgpu::BindingType::Buffer {\n"@
        + "                    ty: wgpu::BufferBindingType::Storage { read_only: "@ + bool_text(
        p.access == Access::ReadOnly,
    ) + " },\n"@ + "                    has_dynamic_offset: false,\n"@
        + "                    min_binding_size: None,\n"@ + "                },\n"@
        + "                count: None,\n"@ + "            },\n"@
}

/// The `encode` parameter for one bound parameter.
pub open spec fn encode_parameter(p: ParameterDescriptor) -> Seq<char> {
    "        "@ + p.name@ + ": &wgpu::Buffer,\n"@
}

/// The bind-group entry for one bound parameter.
pub open spec fn group_entry(p: ParameterDescriptor) -> Seq<char> {
    "            wgpu::BindGroupEntry {\n"@ + "                binding: "@ + decimal(
        p.binding->0.binding as nat,
    ) + ",\n"@ + "                resource: "@ + p.name@ + ".as_entire_binding(),\n"@
        + "            },\n"@
}

/// One of the four per-parameter pieces of the source.
pub enum Piece {
    Comment,
    LayoutEntry,
    EncodeParameter,
    GroupEntry,
}

pub open spec fn piece(kind: Piece, p: ParameterDescriptor) -> Seq<char> {
    match kind {
        Piece::Comment => resource_comment(p),
        Piece::LayoutEntry => layout_entry(p),
        Piece::EncodeParameter => encode_parameter(p),
        Piece::GroupEntry => group_entry(p),
    }
}

/// The pieces of kind `kind` for `ps[..n]`, in order.
pub open spec fn pieces(kind: Piece, ps: Seq<ParameterDescriptor>, n: int) -> Seq<char>
    decreases n,
{
    if n <= 0 || n > ps.len() {
        Seq::empty()
    } else {
        pieces(kind, ps, n - 1) + piece(kind, ps[n - 1])
    }
}

/// The name of the generated pipeline type.
pub open spec fn pipeline_type(kernel: KernelDescriptor) -> Seq<char> {
    spec_rust_type_identifier(kernel.module@) + spec_rust_type_identifier(kernel.name@)
        + "Pipeline"@
}

/// The label line used by the constructor and by `encode`.
pub open spec fn label_line(kernel: KernelDescriptor) -> Seq<char> {
    "        let label = \""@ + kernel.module@ + "::"@ + kernel.name@ + "\";\n"@
}

/// The source up to and including the binding comments.
pub open spec fn source_head(kernel: KernelDescriptor, rs: Seq<ParameterDescriptor>) -> Seq<char> {
    "// @generated by gpu-dialect-wgpu for "@ + spec_qualified_name(kernel.module@, kernel.name@)
        + "\n"@ + "// Shader source: Rust -> Slang -> WGSL\n"@ + pieces(
        Piece::Comment,
        rs,
        rs.len() as int,
    )
}

/// The source up to and including the bind-group layout entries.
pub open spec fn source_layout(kernel: KernelDescriptor, rs: Seq<ParameterDescriptor>) -> Seq<char> {
    let ty = pipeline_type(kernel);
    source_head(kernel, rs)
        + "// Construct this pipeline once, then reuse encode() for every dispatch.\n"@
        + "// Call encode() repeatedly on one command encoder to batch dispatches.\n"@ + "\n"@
        + "pub struct "@ + ty + " {\n"@ + "    _shader: wgpu::ShaderModule,\n"@
        + "    bind_group_layout: wgpu::BindGroupLayout,\n"@
        + "    _pipeline_layout: wgpu::PipelineLayout,\n"@ + "    pipeline: wgpu::ComputePipeline,\n"@
        + "}\n\n"@ + "impl "@ + ty + " {\n"@
        + "    pub fn new(device: &wgpu::Device, descriptor: &gpu_dialect::KernelDescriptor) -> Self {\n"@
        + label_line(kernel)
        + "        let wgsl = gpu_dialect::slang::compile_wgsl(descriptor).expect(\"compile generated Slang\");\n"@
        + "        let shader = device.create_shader_module(wgpu::ShaderModuleDescriptor {\n"@
        + "            label: Some(label),\n"@
        + "            source: wgpu::ShaderSource::Wgsl(wgsl.into()),\n"@ + "        });\n\n"@
        + "        let layout_entries = [\n"@ + pieces(Piece::LayoutEntry, rs, rs.len() as int)
}

/// The source up to and including the `encode` parameters.
pub open spec fn source_encode(kernel: KernelDescriptor, rs: Seq<ParameterDescriptor>) -> Seq<char> {
    source_layout(kernel, rs) + "        ];\n"@
        + "        let bind_group_layout = device.create_bind_group_layout(&wgpu::BindGroupLayoutDescriptor {\n            label: Some(label),\n            entries: &layout_entries,\n        });\n"@
        + "        let pipeline_layout = device.create_pipeline_layout(&wgpu::PipelineLayoutDescriptor {\n            label: Some(label),\n            bind_group_layouts: &[Some(&bind_group_layout)],\n            immediate_size: 0,\n        });\n"@
        + "        let pipeline = device.create_compute_pipeline(&wgpu::ComputePipelineDescriptor {\n            label: Some(label),\n            layout: Some(&pipeline_layout),\n            module: &shader,\n            entry_point: Some(descriptor.entry_point),\n            compilation_options: Default::default(),\n            cache: None,\n        });\n        Self {\n            _shader: shader,\n            bind_group_layout,\n            _pipeline_layout: pipeline_layout,\n            pipeline,\n        }\n    }\n\n"@
        + "    pub fn encode(\n"@ + "        &self,\n"@ + "        device: &wgpu::Device,\n"@
        + "        encoder: &mut wgpu::CommandEncoder,\n"@ + "        element_count: u32,\n"@
        + pieces(Piece::EncodeParameter, rs, rs.len() as int)
}

/// The descriptor-specific wgpu host source for `kernel` with bound
/// parameters `rs`.
pub open spec fn wgpu_source(kernel: KernelDescriptor, rs: Seq<ParameterDescriptor>) -> Seq<char> {
    source_encode(kernel, rs) + "    ) {\n"@ + label_line(kernel)
        + "        let bind_group_entries = [\n"@ + pieces(Piece::GroupEntry, rs, rs.len() as int)
        + "        ];\n"@
        + "        let bind_group = device.create_bind_group(&wgpu::BindGroupDescriptor {\n            label: Some(label),\n            layout: &self.bind_group_layout,\n            entries: &bind_group_entries,\n        });\n\n"@
        + "        let mut pass = encoder.begin_compute_pass(&wgpu::ComputePassDescriptor {\n            label: Some(label),\n            timestamp_writes: None,\n        });\n        pass.set_pipeline(&self.pipeline);\n        pass.set_bind_group(0, &bind_group, &[]);\n"@
        + "        pass.dispatch_workgroups(element_count.div_ceil("@ + decimal(
        kernel.workgroup_size[0] as nat,
    ) + "), 1, 1);\n"@ + "    }\n}\n"@
}

/// In a well-formed run of fields, every field from `from` on starts at or
/// after `offset`, ends by `end`, and is itself a v1 storage layout.
pub proof fn lemma_field_within(
    fields: Seq<StructFieldLayout>,
    from: int,
    offset: int,
    end: int,
    depth: nat,
    i: int,
)
    requires
        fields_storage_v1_within(fields, from, offset, end, depth),
        0 <= from <= i < fields.len(),
    ensures
        offset <= fields[i].offset,
        fields[i].offset + fields[i].ty.size <= end,
        storage_v1_within(fields[i].ty, depth),
    decreases i - from,
{
    if i > from {
        lemma_field_within(fields, from + 1, offset + fields[from].ty.size, end, depth, i);
    } else {
        lemma_fields_end(fields, from + 1, offset + fields[from].ty.size, end, depth);
    }
}

/// A well-formed run of fields ends at or after where it starts.
pub proof fn lemma_fields_end(fields: Seq<StructFieldLayout>, from: int, offset: int, end: int, depth: nat)
    requires
        fields_storage_v1_within(fields, from, offset, end, depth),
    ensures
        offset <= end,
    decreases fields.len() - from,
{
    if 0 <= from < fields.len() {
        lemma_fields_end(fields, from + 1, offset + fields[from].ty.size, end, depth);
    }
}

/// The Rust type-name form of a module or kernel name.
pub fn rust_type_identifier(value: &str) -> (r: String)
    ensures
        r@ == spec_rust_type_identifier(value@),
{
    let v = chars_of(value);
    let mut result = String::new();
    let mut uppercase_next = true;
    let mut i: usize = 0;
    while i < v.len()
        invariant
            v@ == value@,
            i <= v@.len(),
            (result@, uppercase_next) == identifier_state(v@, i as int),
        decreases v@.len() - i,
    {
        let c = v[i];
        if !(('a' <= c && c <= 'z') || ('A' <= c && c <= 'Z') || ('0' <= c && c <= '9')) {
            uppercase_next = true;
        } else if uppercase_next {
            let upper = if 'a' <= c && c <= 'z' {
                ((c as u8) - 32) as char
            } else {
                c
            };
            proof {
                assert(upper == ascii_upper(c));
            }
            push_char(&mut result, upper);
            uppercase_next = false;
        } else {
            push_char(&mut result, c);
        }
        i = i + 1;
    }
    result
}

/// Appends `text`.
fn push_text(out: &mut String, text: &str)
    ensures
        final(out)@ == old(out)@ + text@,
{
    out.append(text);
}

/// Appends the comment lines for the nested fields of `layout` at `path`,
/// placed at byte `base_offset`.
fn render_struct_fields(target: &mut String, path: &String, layout: TypeLayout, base_offset: u32, depth: u64)
    requires
        storage_v1_within(layout, depth as nat),
        base_offset + layout.size <= u32::MAX,
    ensures
        final(target)@ == old(target)@ + fields_text(path@, layout, base_offset as int, depth as nat),
    decreases depth,
{
    if depth == 0 {
        proof {
            assert(target@ =~= old(target)@ + Seq::<char>::empty());
        }
        return;
    }
    match layout.kind {
        TypeLayoutKind::Scalar(_) => {
            proof {
                assert(target@ =~= old(target)@ + Seq::<char>::empty());
            }
        },
        TypeLayoutKind::Struct(fields) => {
            let ghost start = target@;
            let mut i: usize = 0;
            proof {
                assert(target@ =~= start + fields_text_upto(path@, fields@, 0, base_offset as int, (depth - 1) as nat));
            }
            while i < fields.len()
                invariant
                    i <= fields@.len(),
                    0 < depth,
                    layout.kind == TypeLayoutKind::Struct(fields),
                    fields_storage_v1_within(fields@, 0, 0, layout.size as int, (depth - 1) as nat),
                    base_offset + layout.size <= u32::MAX,
                    start == old(target)@,
                    target@ == start + fields_text_upto(path@, fields@, i as int, base_offset as int, (depth - 1) as nat),
                decreases fields@.len() - i,
            {
                let field = fields[i];
                proof {
                    lemma_field_within(fields@, 0, 0, layout.size as int, (depth - 1) as nat, i as int);
                }
                let mut child = path.clone();
                child.append(".");
                child.append(field.name);
                let offset = base_offset + field.offset;
                let ghost before = target@;
                push_text(target, "//   ");
                push_text(target, child.as_str());
                push_text(target, ": ");
                push_text(target, field.ty.name);
                push_text(target, " @ byte ");
                push_decimal(target, offset as u64);
                push_text(target, " (size=");
                push_decimal(target, field.ty.size as u64);
                push_text(target, ")\n");
                let ghost line = target@;
                render_struct_fields(target, &child, field.ty, offset, depth - 1);
                proof {
                    let p = path@ + "."@ + field.name@;
                    assert(child@ == p);
                    assert(target@ =~= start + fields_text_upto(path@, fields@, i + 1, base_offset as int, (depth - 1) as nat));
                }
                i = i + 1;
            }
        },
    }
}

/// A bound parameter the storage backend accepted.
pub open spec fn accepted_resource(p: ParameterDescriptor) -> bool {
    &&& p.binding is Some
    &&& p.resource_layout is Some
    &&& storage_v1_within(p.resource_layout->0.element, MAX_LAYOUT_DEPTH as nat)
}

fn push_comment(out: &mut String, p: ParameterDescriptor)
    requires
        accepted_resource(p),
    ensures
        final(out)@ == old(out)@ + resource_comment(p),
{
    let (binding, layout) = match (p.binding, p.resource_layout) {
        (Some(binding), Some(layout)) => (binding, layout),
        _ => {
            return;
        },
    };
    push_text(out, "// @group(");
    push_decimal(out, binding.group as u64);
    push_text(out, ") @binding(");
    push_decimal(out, binding.binding as u64);
    push_text(out, ") ");
    push_text(out, p.name);
    push_text(out, ": ");
    push_text(out, layout.element.name);
    push_text(out, " [storage-v1; size=");
    push_decimal(out, layout.element.size as u64);
    push_text(out, ", align=");
    push_decimal(out, layout.element.alignment as u64);
    push_text(out, ", stride=");
    push_decimal(out, layout.element_stride as u64);
    push_text(out, "]\n");
    let name = p.name.to_owned();
    render_struct_fields(out, &name, layout.element, 0, MAX_LAYOUT_DEPTH);
    proof {
        assert(final(out)@ =~= old(out)@ + resource_comment(p));
    }
}

fn push_layout_entry(out: &mut String, p: ParameterDescriptor)
    requires
        accepted_resource(p),
    ensures
        final(out)@ == old(out)@ + layout_entry(p),
{
    let binding = match p.binding {
        Some(binding) => binding,
        None => {
            return;
        },
    };
    push_text(out, "            wgpu::BindGroupLayoutEntry {\n");
    push_text(out, "                binding: ");
    push_decimal(out, binding.binding as u64);
    push_text(out, ",\n");
    push_text(out, "                visibility: wgpu::ShaderStages::COMPUTE,\n");
    push_text(out, "                ty: wgpu::BindingType::Buffer {\n");
    push_text(out, "                    ty: wgpu::BufferBindingType::Storage { read_only: ");
    if p.access == Access::ReadOnly {
        push_text(out, "true");
    } else {
        push_text(out, "false");
    }
    push_text(out, " },\n");
    push_text(out, "                    has_dynamic_offset: false,\n");
    push_text(out, "                    min_binding_size: None,\n");
    push_text(out, "                },\n");
    push_text(out, "                count: None,\n");
    push_text(out, "            },\n");
    proof {
        assert(final(out)@ =~= old(out)@ + layout_entry(p));
    }
}

fn push_encode_parameter(out: &mut String, p: ParameterDescriptor)
    ensures
        final(out)@ == old(out)@ + encode_parameter(p),
{
    push_text(out, "        ");
    push_text(out, p.name);
    push_text(out, ": &wgpu::Buffer,\n");
    proof {
        assert(final(out)@ =~= old(out)@ + encode_parameter(p));
    }
}

fn push_group_entry(out: &mut String, p: ParameterDescriptor)
    requires
        accepted_resource(p),
    ensures
        final(out)@ == old(out)@ + group_entry(p),
{
    let binding = match p.binding {
        Some(binding) => binding,
        None => {
            return;
        },
    };
    push_text(out, "            wgpu::BindGroupEntry {\n");
    push_text(out, "                binding: ");
    push_decimal(out, binding.binding as u64);
    push_text(out, ",\n");
    push_text(out, "                resource: ");
    push_text(out, p.name);
    push_text(out, ".as_entire_binding(),\n");
    push_text(out, "            },\n");
    proof {
        assert(final(out)@ =~= old(out)@ + group_entry(p));
    }
}

/// Appends the pieces of kind `kind` for all of `rs`.
fn push_pieces(out: &mut String, kind: Piece, rs: &Vec<ParameterDescriptor>)
    requires
        forall|k: int| 0 <= k < rs@.len() ==> accepted_resource(#[trigger] rs@[k]),
    ensures
        final(out)@ == old(out)@ + pieces(kind, rs@, rs@.len() as int),
{
    let ghost start = out@;
    let mut i: usize = 0;
    proof {
        assert(out@ =~= start + pieces(kind, rs@, 0));
    }
    while i < rs.len()
        invariant
            i <= rs@.len(),
            forall|k: int| 0 <= k < rs@.len() ==> accepted_resource(#[trigger] rs@[k]),
            start == old(out)@,
            out@ == start + pieces(kind, rs@, i as int),
        decreases rs@.len() - i,
    {
        let p = rs[i];
        proof {
            assert(accepted_resource(rs@[i as int]));
        }
        match kind {
            Piece::Comment => push_comment(out, p),
            Piece::LayoutEntry => push_layout_entry(out, p),
            Piece::EncodeParameter => push_encode_parameter(out, p),
            Piece::GroupEntry => push_group_entry(out, p),
        }
        proof {
            assert(out@ =~= start + pieces(kind, rs@, i + 1));
        }
        i = i + 1;
    }
}

fn push_head(out: &mut String, kernel: &KernelDescriptor, rs: &Vec<ParameterDescriptor>)
    requires
        old(out)@ == Seq::<char>::empty(),
        forall|k: int| 0 <= k < rs@.len() ==> accepted_resource(#[trigger] rs@[k]),
    ensures
        final(out)@ == source_head(*kernel, rs@),
{
    push_text(out, "// @generated by gpu-dialect-wgpu for ");
    push_text(out, kernel.module);
    push_text(out, "::");
    push_text(out, kernel.name);
    push_text(out, "\n");
    push_text(out, "// Shader source: Rust -> Slang -> WGSL\n");
    push_pieces(out, Piece::Comment, rs);
    proof {
        reveal_strlit("::");
        assert(out@ =~= source_head(*kernel, rs@));
    }
}

fn push_layout(out: &mut String, kernel: &KernelDescriptor, ty: &String, rs: &Vec<ParameterDescriptor>)
    requires
        old(out)@ == source_head(*kernel, rs@),
        ty@ == pipeline_type(*kernel),
        forall|k: int| 0 <= k < rs@.len() ==> accepted_resource(#[trigger] rs@[k]),
    ensures
        final(out)@ == source_layout(*kernel, rs@),
{
    push_text(out, "// Construct this pipeline once, then reuse encode() for every dispatch.\n");
    push_text(out, "// Call encode() repeatedly on one command encoder to batch dispatches.\n");
    push_text(out, "\n");
    push_text(out, "pub struct ");
    push_text(out, ty.as_str());
    push_text(out, " {\n");
    push_text(out, "    _shader: wgpu::ShaderModule,\n");
    push_text(out, "    bind_group_layout: wgpu::BindGroupLayout,\n");
    push_text(out, "    _pipeline_layout: wgpu::PipelineLayout,\n");
    push_text(out, "    pipeline: wgpu::ComputePipeline,\n");
    push_text(out, "}\n\n");
    push_text(out, "impl ");
    push_text(out, ty.as_str());
    push_text(out, " {\n");
    push_text(
        out,
        "    pub fn new(device: &wgpu::Device, descriptor: &gpu_dialect::KernelDescriptor) -> Self {\n",
    );
    push_label(out, kernel);
    push_text(
        out,
        "        let wgsl = gpu_dialect::slang::compile_wgsl(descriptor).expect(\"compile generated Slang\");\n",
    );
    push_text(out, "        let shader = device.create_shader_module(wgpu::ShaderModuleDescriptor {\n");
    push_text(out, "            label: Some(label),\n");
    push_text(out, "            source: wgpu::ShaderSource::Wgsl(wgsl.into()),\n");
    push_text(out, "        });\n\n");
    push_text(out, "        let layout_entries = [\n");
    push_pieces(out, Piece::LayoutEntry, rs);
    proof {
        assert(out@ =~= source_layout(*kernel, rs@));
    }
}

fn push_label(out: &mut String, kernel: &KernelDescriptor)
    ensures
        final(out)@ == old(out)@ + label_line(*kernel),
{
    push_text(out, "        let label = \"");
    push_text(out, kernel.module);
    push_text(out, "::");
    push_text(out, kernel.name);
    push_text(out, "\";\n");
    proof {
        assert(out@ =~= old(out)@ + label_line(*kernel));
    }
}

fn push_encode(out: &mut String, kernel: &KernelDescriptor, rs: &Vec<ParameterDescriptor>)
    requires
        old(out)@ == source_layout(*kernel, rs@),
        forall|k: int| 0 <= k < rs@.len() ==> accepted_resource(#[trigger] rs@[k]),
    ensures
        final(out)@ == source_encode(*kernel, rs@),
{
    push_text(out, "        ];\n");
    push_text(
        out,
        "        let bind_group_layout = device.create_bind_group_layout(&wgpu::BindGroupLayoutDescriptor {\n            label: Some(label),\n            entries: &layout_entries,\n        });\n",
    );
    push_text(
        out,
        "        let pipeline_layout = device.create_pipeline_layout(&wgpu::PipelineLayoutDescriptor {\n            label: Some(label),\n            bind_group_layouts: &[Some(&bind_group_layout)],\n            immediate_size: 0,\n        });\n",
    );
    push_text(
        out,
        "        let pipeline = device.create_compute_pipeline(&wgpu::ComputePipelineDescriptor {\n            label: Some(label),\n            layout: Some(&pipeline_layout),\n            module: &shader,\n            entry_point: Some(descriptor.entry_point),\n            compilation_options: Default::default(),\n            cache: None,\n        });\n        Self {\n            _shader: shader,\n            bind_group_layout,\n            _pipeline_layout: pipeline_layout,\n            pipeline,\n        }\n    }\n\n",
    );
    push_text(out, "    pub fn encode(\n");
    push_text(out, "        &self,\n");
    push_text(out, "        device: &wgpu::Device,\n");
    push_text(out, "        encoder: &mut wgpu::CommandEncoder,\n");
    push_text(out, "        element_count: u32,\n");
    push_pieces(out, Piece::EncodeParameter, rs);
    proof {
        assert(out@ =~= source_encode(*kernel, rs@));
    }
}

fn push_tail(out: &mut String, kernel: &KernelDescriptor, rs: &Vec<ParameterDescriptor>)
    requires
        old(out)@ == source_encode(*kernel, rs@),
        forall|k: int| 0 <= k < rs@.len() ==> accepted_resource(#[trigger] rs@[k]),
    ensures
        final(out)@ == wgpu_source(*kernel, rs@),
{
    push_text(out, "    ) {\n");
    push_label(out, kernel);
    push_text(out, "        let bind_group_entries = [\n");
    push_pieces(out, Piece::GroupEntry, rs);
    push_text(out, "        ];\n");
    push_text(
        out,
        "        let bind_group = device.create_bind_group(&wgpu::BindGroupDescriptor {\n            label: Some(label),\n            layout: &self.bind_group_layout,\n            entries: &bind_group_entries,\n        });\n\n",
    );
    push_text(
        out,
        "        let mut pass = encoder.begin_compute_pass(&wgpu::ComputePassDescriptor {\n            label: Some(label),\n            timestamp_writes: None,\n        });\n        pass.set_pipeline(&self.pipeline);\n        pass.set_bind_group(0, &bind_group, &[]);\n",
    );
    push_text(out, "        pass.dispatch_workgroups(element_count.div_ceil(");
    push_decimal(out, kernel.workgroup_size[0] as u64);
    push_text(out, "), 1, 1);\n");
    push_text(out, "    }\n}\n");
    proof {
        assert(out@ =~= wgpu_source(*kernel, rs@));
    }
}

/// Renders the descriptor-specific wgpu host code that encodes a dispatch of
/// `kernel`. It starts from already-created `wgpu::Buffer` parameters, so
/// binding layout, pipeline construction and dispatch stay easy to inspect.
pub fn render_wgpu_source(kernel: &KernelDescriptor) -> (r: Result<String, Error>)
    ensures
        match kernel_check(*kernel) {
            Err(fault) => r matches Err(e) && reports_fault(e, fault, *kernel),
            Ok(rs) => r matches Ok(s) && s@ == wgpu_source(*kernel, rs),
        },
{
    let resources = validate_kernel(kernel)?;
    proof {
        let rs = resources@;
        crate::backend::lemma_no_parameter_fault(rs, 0);
        assert forall|k: int| 0 <= k < rs.len() implies accepted_resource(#[trigger] rs[k]) by {
            crate::backend::lemma_bound_parameters_bound(kernel.parameters@, k);
            assert(crate::backend::parameter_fault(rs[k]) is None);
        }
    }
    let mut pipeline_type = rust_type_identifier(kernel.module);
    let name_type = rust_type_identifier(kernel.name);
    pipeline_type.append(name_type.as_str());
    pipeline_type.append("Pipeline");
    let mut source = String::new();
    push_head(&mut source, kernel, &resources);
    push_layout(&mut source, kernel, &pipeline_type, &resources);
    push_encode(&mut source, kernel, &resources);
    push_tail(&mut source, kernel, &resources);
    Ok(source)
}

} // verus!
