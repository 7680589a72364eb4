use gust::slang::{decode_spirv, map_slang_diagnostic, Error, Target};
use gust::spirv::words_as_le_bytes;

#[test]
fn maps_slang_diagnostic_to_originating_rust_kernel() {
    let source = "// Generated by gpu-dialect\n// @rust kernel: vector_add::add\n[shader(\"compute\")]\n[numthreads(64, 1, 1)]\nvoid gpu_vector_add_add(uint3 id : SV_DispatchThreadID) {\n    int x = undefined_symbol;\n}\n";
    let diagnostic = "kernel.slang(6): error: expected an expression\n";
    let kernel = map_slang_diagnostic(source, diagnostic).expect("should map");
    assert_eq!(kernel, "vector_add::add");
}

#[test]
fn maps_slang_diagnostic_before_any_marker_returns_none() {
    let source = "// Generated by gpu-dialect\n[shader(\"compute\")]\nvoid gpu_entry(uint3 id : SV_DispatchThreadID) {\n    int x = undefined_symbol;\n}\n";
    let diagnostic = "kernel.slang(3): error: expected an expression\n";
    assert!(map_slang_diagnostic(source, diagnostic).is_none());
}

#[test]
fn diagnostic_mapping_rejects_unrelated_files_and_invalid_lines() {
    let source = "// @rust kernel: example::first\nvoid first() {}\n";
    for diagnostic in [
        "otherkernel.slang(2): error: bad expression",
        "C:\\generated\\otherkernel.slang(2): error: bad expression",
        "kernel.slang(0): error: bad expression",
        "kernel.slang(3): error: bad expression",
        "kernel.slang(2,0): error: bad expression",
        "kernel.slang(2,1,4): error: bad expression",
    ] {
        assert_eq!(
            map_slang_diagnostic(source, diagnostic),
            None,
            "{diagnostic}"
        );
    }
}

#[test]
fn diagnostic_mapping_accepts_absolute_paths_and_columns() {
    let source = "// @rust kernel: example::first\nvoid first() {}\n";
    for diagnostic in [
        "C:\\generated files\\kernel.slang(2): error 30015: bad expression",
        "/tmp/generated/kernel.slang(2,7): error: bad expression",
        "kernel.slang(2, 7): error: bad expression",
    ] {
        assert_eq!(
            map_slang_diagnostic(source, diagnostic).as_deref(),
            Some("example::first"),
            "{diagnostic}"
        );
    }
}

#[test]
fn diagnostic_mapping_prefers_error_over_warning_and_note() {
    let source = "// @rust kernel: example::first\nvoid first() {}\n// @rust kernel: example::second\nvoid second() {}\n";
    let diagnostic = "kernel.slang(2): warning 1: first warning\nkernel.slang(2): note: first note\nkernel.slang(4,3): error 30015: actual failure\n";
    assert_eq!(
        map_slang_diagnostic(source, diagnostic).as_deref(),
        Some("example::second")
    );
}

#[test]
fn diagnostic_mapping_reads_current_multiline_slang_format() {
    let source = "// @rust kernel: example::first\nvoid first() {}\n// @rust kernel: example::second\nvoid second() {}\n";
    let diagnostics = "warning[W1]: warning\n --> C:\\generated\\kernel.slang:2:1\nnote: extra context\nerror[E30015]: undefined identifier\n --> C:\\generated\\kernel.slang:4:7\n";
    assert_eq!(
        map_slang_diagnostic(source, diagnostics).as_deref(),
        Some("example::second")
    );
    assert_eq!(
        map_slang_diagnostic(
            source,
            &diagnostics.replace("kernel.slang", "otherkernel.slang")
        ),
        None
    );
}

#[test]
fn malformed_compiler_artifacts_are_rejected() {
    assert!(matches!(
        decode_spirv(&[0, 1, 2]),
        Err(Error::InvalidSpirvLength(3))
    ));
    assert!(matches!(decode_spirv(&[]), Err(Error::InvalidSpirv(_))));
    assert!(matches!(
        decode_spirv(&[0; 20]),
        Err(Error::InvalidSpirv(_))
    ));
    let truncated = words_as_le_bytes(&[
        0x0723_0203,
        0x0001_0000,
        0,
        2,
        0,
        (3 << 16) | 14,
        0,
    ]);
    assert!(matches!(
        decode_spirv(&truncated),
        Err(Error::InvalidSpirv(
            "SPIR-V instruction extends beyond the module"
        ))
    ));
}

#[test]
fn target_names_and_reports() {
    assert_eq!(Target::Spirv.slang_name(), "spirv");
    assert_eq!(Target::Wgsl.extension(), "wgsl");
    assert_eq!(Target::Spirv.extension(), "spv");
    assert_eq!(
        Error::InvalidSpirvLength(3).message(),
        "Slang returned a 3-byte SPIR-V artifact"
    );
    let failed = Error::CompilationFailed { target: Target::Wgsl, diagnostics: "  oops \n".to_owned() };
    assert_eq!(failed.message(), "Slang failed to compile the Wgsl target:\noops");
}

#[test]
fn spirv_words_are_little_endian_bytes() {
    let words = [0x0723_0203u32, 0x0001_0000, 0, 2, 0];
    let bytes = words_as_le_bytes(&words);
    assert_eq!(bytes.len(), 20);
    assert_eq!(&bytes[..4], &[0x03, 0x02, 0x23, 0x07]);
    assert_eq!(&bytes[4..8], &[0x00, 0x00, 0x01, 0x00]);
    match decode_spirv(&bytes) {
        Err(Error::InvalidSpirv(reason)) => assert_eq!(reason, "SPIR-V module has no memory model"),
        _ => panic!("a header alone is not a module"),
    }
}

#[test]
fn decoded_spirv_reencodes_to_its_bytes() {
    let words = [
        0x0723_0203u32,
        0x0001_0000,
        0,
        2,
        0,
        (3 << 16) | 14,
        0,
        1,
        (4 << 16) | 15,
        5,
        1,
        0x0000_006d,
    ];
    let bytes = words_as_le_bytes(&words);
    let decoded = match decode_spirv(&bytes) {
        Ok(decoded) => decoded,
        Err(_) => panic!("a module with a memory model and an entry point decodes"),
    };
    assert_eq!(decoded, words.to_vec());
    assert_eq!(words_as_le_bytes(&decoded), bytes);
}
