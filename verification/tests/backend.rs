use gust::abi::{ResourceLayout, ScalarKind, ShaderLayoutRules, TypeLayout, TypeLayoutKind};
use gust::backend::{
    validate_dispatch, validate_kernel, validate_persistent_dispatch, BufferBinding, Error,
    GpuBufferAccess, HostBinding, KernelCacheKey,
};
use gust::descriptor::{Access, KernelDescriptor, ParameterDescriptor, ParameterKind, ResourceBinding};
use gust::render::{render_wgpu_source, rust_type_identifier};

const F32_LAYOUT: TypeLayout = TypeLayout {
    name: "f32",
    size: 4,
    alignment: 4,
    stride: 4,
    kind: TypeLayoutKind::Scalar(ScalarKind::F32),
};

const U32_LAYOUT: TypeLayout = TypeLayout {
    name: "u32",
    size: 4,
    alignment: 4,
    stride: 4,
    kind: TypeLayoutKind::Scalar(ScalarKind::U32),
};

const PARAMETERS: &[ParameterDescriptor] = &[ParameterDescriptor {
    name: "out",
    rust_type: "StorageMut<f32>",
    kind: ParameterKind::Storage,
    access: Access::ReadWrite,
    resource_layout: Some(ResourceLayout {
        rules: ShaderLayoutRules::StorageV1,
        element: F32_LAYOUT,
        element_stride: 4,
    }),
    binding: Some(ResourceBinding {
        group: 0,
        binding: 0,
    }),
}];

const DESCRIPTOR: KernelDescriptor = KernelDescriptor {
    module: "test",
    name: "kernel",
    entry_point: "gpu_test_kernel",
    workgroup_size: [64, 1, 1],
    parameters: PARAMETERS,
    slang_source: r#"
        [[vk::binding(0, 0)]] RWStructuredBuffer<float> out;
        [shader("compute")]
        [numthreads(64, 1, 1)]
        void gpu_test_kernel(uint3 id : SV_DispatchThreadID) { if (id.x < 1) out[id.x] = 0.0; }
    "#,
};

#[test]
fn pipeline_cache_identity_includes_entrypoint() {
    let other = KernelDescriptor {
        entry_point: "gpu_other_entry",
        ..DESCRIPTOR
    };
    assert_ne!(
        KernelCacheKey::new(&DESCRIPTOR),
        KernelCacheKey::new(&other)
    );
    assert_eq!(
        KernelCacheKey::new(&DESCRIPTOR),
        KernelCacheKey::new(&DESCRIPTOR)
    );
}

#[test]
fn rejects_incorrect_binding_count_before_gpu_work() {
    assert!(matches!(
        validate_dispatch(&DESCRIPTOR, 0, &[]),
        Err(Error::BindingCount {
            expected: 1,
            actual: 0,
        })
    ));
}

#[test]
fn rejects_resource_layout_that_does_not_match_f32_backend() {
    let parameters = Box::leak(Box::new([ParameterDescriptor {
        resource_layout: Some(ResourceLayout::storage_v1(U32_LAYOUT)),
        ..PARAMETERS[0]
    }]));
    let descriptor = KernelDescriptor {
        parameters,
        ..DESCRIPTOR
    };
    let error = validate_dispatch(&descriptor, 0, &[HostBinding { access: Access::ReadWrite, len: 0 }]).unwrap_err();
    assert!(matches!(&error, Error::UnsupportedResourceLayout { parameter, .. } if parameter == "out"));
    let message = error.message();
    assert!(message.starts_with("parameter `out` has resource layout Some(ResourceLayout {"));
    let (shown, expected) = message.split_once("), but the f32 backend requires ").unwrap();
    assert!(shown.contains("name: \"f32\""));
    assert!(expected.starts_with("ResourceLayout {"));
    assert!(expected.contains("name: \"u32\""));
}

#[test]
fn renders_descriptor_specific_wgpu_source() {
    let source = render_wgpu_source(&DESCRIPTOR).expect("source should render");
    assert!(source.contains("pub struct TestKernelPipeline"));
    assert!(source.contains("impl TestKernelPipeline"));
    assert!(source.contains("pub fn encode("));
    assert!(source.contains("binding: 0,"));
    assert!(source.contains("read_only: false"));
    assert!(source.contains("gpu_dialect::slang::compile_wgsl"));
    assert!(source.contains("out: f32 [storage-v1; size=4, align=4, stride=4]"));
    assert!(source.contains("pass.dispatch_workgroups(element_count.div_ceil(64), 1, 1);"));
}

#[test]
fn rendered_source_starts_with_the_generated_header() {
    let source = render_wgpu_source(&DESCRIPTOR).unwrap();
    assert!(source.starts_with(
        "// @generated by gpu-dialect-wgpu for test::kernel\n// Shader source: Rust -> Slang -> WGSL\n// @group(0) @binding(0) out: f32 [storage-v1; size=4, align=4, stride=4]\n"
    ));
    assert!(source.contains("        let label = \"test::kernel\";\n"));
    assert!(source.contains("        out: &wgpu::Buffer,\n"));
    assert!(source.contains("                resource: out.as_entire_binding(),\n"));
    assert!(source.ends_with("    }\n}\n"));
}

#[test]
fn type_identifiers_capitalise_each_run() {
    assert_eq!(rust_type_identifier("vector_add"), "VectorAdd");
    assert_eq!(rust_type_identifier("a-b c9d"), "ABC9d");
    assert_eq!(rust_type_identifier("__"), "");
}

#[test]
fn kernel_validation_reports_each_refusal() {
    let blank = KernelDescriptor { slang_source: "  \n ", ..DESCRIPTOR };
    match validate_kernel(&blank) {
        Err(Error::MissingSlangSource(name)) => assert_eq!(name, "test::kernel"),
        _ => panic!("expected a missing-source refusal"),
    }
    let wide = KernelDescriptor { workgroup_size: [8, 8, 1], ..DESCRIPTOR };
    let error = validate_kernel(&wide).unwrap_err();
    assert_eq!(
        error.message(),
        "the storage backend requires a one-dimensional workgroup, got [8, 8, 1]"
    );
    let group = Box::leak(Box::new([ParameterDescriptor {
        binding: Some(ResourceBinding { group: 2, binding: 0 }),
        ..PARAMETERS[0]
    }]));
    let grouped = KernelDescriptor { parameters: group, ..DESCRIPTOR };
    assert!(matches!(validate_kernel(&grouped), Err(Error::UnsupportedBindGroup(2))));
    let uniform = Box::leak(Box::new([ParameterDescriptor {
        kind: ParameterKind::Uniform,
        ..PARAMETERS[0]
    }]));
    let with_uniform = KernelDescriptor { parameters: uniform, ..DESCRIPTOR };
    assert_eq!(
        validate_kernel(&with_uniform).unwrap_err().message(),
        "parameter `out` has unsupported resource kind Uniform"
    );
    let missing = Box::leak(Box::new([ParameterDescriptor {
        resource_layout: None,
        ..PARAMETERS[0]
    }]));
    let without_layout = KernelDescriptor { parameters: missing, ..DESCRIPTOR };
    assert_eq!(
        validate_kernel(&without_layout).unwrap_err().message(),
        "parameter `out` requires a valid StorageV1 resource layout, got None"
    );
    assert_eq!(validate_kernel(&DESCRIPTOR).unwrap().len(), 1);
}

#[test]
fn persistent_dispatch_checks_device_access_and_length() {
    let binding = BufferBinding::new(1, 16, F32_LAYOUT, GpuBufferAccess::ReadWrite, Access::ReadWrite, 7, false);
    assert!(validate_persistent_dispatch(7, &DESCRIPTOR, 16, &[binding]).is_ok());
    assert!(matches!(
        validate_persistent_dispatch(8, &DESCRIPTOR, 16, &[binding]),
        Err(Error::ForeignPersistentBuffer)
    ));
    let short = validate_persistent_dispatch(7, &DESCRIPTOR, 32, &[binding]).unwrap_err();
    assert_eq!(short.message(), "parameter `out` expects 32 elements, got 16");
    let read_only_buffer =
        BufferBinding::new(1, 16, F32_LAYOUT, GpuBufferAccess::ReadOnly, Access::ReadWrite, 7, false);
    let refused = validate_persistent_dispatch(7, &DESCRIPTOR, 16, &[read_only_buffer]).unwrap_err();
    assert_eq!(
        refused.message(),
        "parameter `out` was bound as ReadWrite, which the ReadOnly persistent buffer does not allow"
    );
    let read_binding = BufferBinding::new(1, 16, F32_LAYOUT, GpuBufferAccess::ReadWrite, Access::ReadOnly, 7, false);
    let wrong = validate_persistent_dispatch(7, &DESCRIPTOR, 16, &[read_binding]).unwrap_err();
    assert_eq!(wrong.message(), "parameter `out` expects ReadWrite access, got ReadOnly");
    assert!(GpuBufferAccess::ReadWrite.allows(Access::ReadOnly));
    assert!(!GpuBufferAccess::ReadOnly.allows(Access::ReadWrite));
}

#[test]
fn host_dispatch_checks_length() {
    let ok = validate_dispatch(&DESCRIPTOR, 3, &[HostBinding { access: Access::ReadWrite, len: 3 }]);
    assert!(ok.is_ok());
    let error = validate_dispatch(&DESCRIPTOR, 3, &[HostBinding { access: Access::ReadWrite, len: 2 }])
        .unwrap_err();
    assert_eq!(error.message(), "parameter `out` expects 3 elements, got 2");
    assert_eq!(
        Error::BindingCount { expected: 1, actual: 0 }.message(),
        "kernel expects 1 resource bindings, got 0"
    );
}
