use gust::abi::{ResourceLayout, ScalarKind, StructFieldLayout, TypeLayout};
use gust::descriptor::Access;
use gust::reflect::{
    cross_check_pod, Error, ReflectedField, ReflectedResource, ReflectedType, ReflectedTypeKind,
    Reflection,
};
use gust::slang::Target;

#[test]
fn reflection_scalar_fixture_records_nonzero_space_and_rejects_unknown_layouts() {
    let source = r#"{"parameters":[{"name":"a","binding":{"kind":"descriptorTableSlot","index":7,"space":2},"type":{"kind":"resource","baseShape":"structuredBuffer","resultType":{"kind":"scalar","scalarType":"uint32"}}}]}"#;
    let reflection = Reflection::from_json(Target::Spirv, source).unwrap();
    let resource = &reflection.resources[0];
    assert_eq!((resource.binding, resource.space), (7, 2));
    assert_eq!(cross_check_pod::<u32>(resource).unwrap().checked_fields, 0);
    for invalid in [
        source.replace("uint32", "bool"),
        source.replace("structuredBuffer", "texture2D"),
        source.replace("\"space\":2", "\"space\":-1"),
        source.replace("\"space\":2", "\"count\":2"),
        source.replace("\"resultType\"", "\"access\":\"unknown\",\"resultType\""),
    ] {
        assert!(Reflection::from_json(Target::Spirv, &invalid).is_err());
    }
}

#[test]
fn reflection_rejects_malformed_or_unsupported_reflection() {
    for json in [
        "{}",
        "{\"parameters\":[],}",
        "{\"parameters\":[],\"parameters\":[]}",
        "{\"parameters\":[]} trailing",
        "{\"parameters\":[{}]}",
    ] {
        assert!(Reflection::from_json(Target::Wgsl, json).is_err(), "{json}");
    }
}

#[test]
fn reflection_entry_point_resources_are_not_silently_ignored() {
    for parameter in [
        r#"{"name":"buffer","type":{"kind":"resource"}}"#,
        r#"{"name":"uniforms","type":{"kind":"parameterBlock"}}"#,
        r#"{"name":"value","binding":{"kind":"uniform","offset":0,"size":4},"type":{"kind":"scalar","scalarType":"uint32"}}"#,
        r#"{"name":"value","type":{"kind":"scalar","scalarType":"uint32"}}"#,
    ] {
        let json = format!(r#"{{"parameters":[],"entryPoints":[{{"parameters":[{parameter}]}}]}}"#);
        assert!(
            Reflection::from_json(Target::Wgsl, &json).is_err(),
            "{json}"
        );
    }
}

fn invalid_text(error: Error) -> String {
    match error {
        Error::Invalid(text) => text,
        other => panic!("expected an invalid-reflection error, got {}", other.message()),
    }
}

#[test]
fn reflection_reports_which_rule_was_broken() {
    let source = r#"{"parameters":[{"name":"a","binding":{"kind":"descriptorTableSlot","index":7,"space":2},"type":{"kind":"resource","baseShape":"structuredBuffer","resultType":{"kind":"scalar","scalarType":"uint32"}}}]}"#;
    let cases = [
        (source.replace("uint32", "bool"), "unsupported scalar type"),
        (source.replace("structuredBuffer", "texture2D"), "only structured buffers are supported"),
        (source.replace("\"space\":2", "\"space\":-1"), "expected unsigned integer"),
        (source.replace("\"space\":2", "\"count\":2"), "binding arrays are unsupported"),
        (
            source.replace("\"resultType\"", "\"access\":\"unknown\",\"resultType\""),
            "unsupported resource access",
        ),
        (source.replace("descriptorTableSlot", "uniform"), "unsupported resource binding kind"),
        ("{}".to_owned(), "missing parameters"),
        ("{\"parameters\":[{}]}".to_owned(), "missing name"),
    ];
    for (json, expected) in cases {
        let error = Reflection::from_json(Target::Wgsl, &json).unwrap_err();
        assert_eq!(invalid_text(error), expected, "{json}");
    }
    let twice = r#"{"parameters":[{"name":"a","binding":{"kind":"descriptorTableSlot","index":0},"type":{"kind":"resource","baseShape":"structuredBuffer","resultType":{"kind":"scalar","scalarType":"uint32"}}},{"name":"b","binding":{"kind":"descriptorTableSlot","index":0},"type":{"kind":"resource","baseShape":"structuredBuffer","resultType":{"kind":"scalar","scalarType":"uint32"}}}]}"#;
    let error = Reflection::from_json(Target::Wgsl, twice).unwrap_err();
    assert_eq!(invalid_text(error), "duplicate resource name or binding");
    let entry = r#"{"parameters":[],"entryPoints":[{"parameters":[{"name":"value","type":{"kind":"scalar","scalarType":"uint32"}}]}]}"#;
    let error = Reflection::from_json(Target::Wgsl, entry).unwrap_err();
    assert_eq!(
        invalid_text(error),
        "only dispatch-thread-ID entry-point parameters are supported"
    );
    let bound = r#"{"parameters":[],"entryPoints":[{"parameters":[{"name":"b","binding":{}}]}]}"#;
    let error = Reflection::from_json(Target::Wgsl, bound).unwrap_err();
    assert_eq!(invalid_text(error), "entry-point resource/uniform bindings are unsupported");
}

#[test]
fn reflection_reads_dispatch_id_and_nested_structs() {
    let json = r#"{
        "parameters": [
            {"name":"input","binding":{"kind":"descriptorTableSlot","index":0},
             "type":{"kind":"resource","baseShape":"structuredBuffer","access":"read",
               "resultType":{"kind":"struct","name":"Outer","fields":[
                 {"name":"inner","binding":{"kind":"uniform","offset":0,"size":8},
                  "type":{"kind":"struct","name":"Inner","fields":[
                    {"name":"value","binding":{"kind":"uniform","offset":0,"size":4},"type":{"kind":"scalar","scalarType":"float32"}},
                    {"name":"tag","binding":{"kind":"uniform","offset":4,"size":4},"type":{"kind":"scalar","scalarType":"uint32"}}]}},
                 {"name":"weight","binding":{"kind":"uniform","offset":8,"size":4},"type":{"kind":"scalar","scalarType":"int32"}}]}}},
            {"name":"output","binding":{"kind":"descriptorTableSlot","index":1},
             "type":{"kind":"resource","baseShape":"structuredBuffer","access":"readWrite",
               "resultType":{"kind":"scalar","scalarType":"uint32"}}}
        ],
        "entryPoints": [{"parameters":[{"name":"id","semanticName":"SV_DISPATCHTHREADID",
            "type":{"kind":"vector","elementCount":3,"elementType":{"kind":"scalar","scalarType":"uint32"}}}]}]
    }"#;
    let reflection = Reflection::from_json(Target::Wgsl, json).unwrap();
    assert_eq!(reflection.target, Target::Wgsl);
    assert_eq!(reflection.resources.len(), 2);
    let input = &reflection.resources[0];
    assert_eq!(input.name, "input");
    assert_eq!(input.access, Access::ReadOnly);
    assert_eq!(reflection.resources[1].access, Access::ReadWrite);
    assert_eq!(input.element.name.as_deref(), Some("Outer"));
    match &input.element.kind {
        ReflectedTypeKind::Struct(fields) => {
            assert_eq!(fields.len(), 2);
            assert_eq!(fields[1].name, "weight");
            assert_eq!((fields[1].offset, fields[1].size), (8, 4));
            assert!(matches!(fields[1].ty.kind, ReflectedTypeKind::Scalar(ScalarKind::I32)));
        }
        ReflectedTypeKind::Scalar(_) => panic!("expected a struct"),
    }
}

fn inner_fields() -> &'static [StructFieldLayout] {
    Box::leak(
        vec![
            StructFieldLayout {
                name: "value",
                offset: 0,
                ty: TypeLayout::scalar("f32", ScalarKind::F32),
            },
            StructFieldLayout {
                name: "tag",
                offset: 4,
                ty: TypeLayout::scalar("u32", ScalarKind::U32),
            },
        ]
        .into_boxed_slice(),
    )
}

fn scalar_type(kind: ScalarKind) -> ReflectedType {
    ReflectedType { name: None, size: None, kind: ReflectedTypeKind::Scalar(kind) }
}

#[test]
fn cross_check_counts_fields_and_reports_mismatches() {
    let element = ReflectedType {
        name: Some("Inner".to_owned()),
        size: None,
        kind: ReflectedTypeKind::Struct(vec![
            ReflectedField { name: "value".to_owned(), offset: 0, size: 4, ty: scalar_type(ScalarKind::F32) },
            ReflectedField { name: "tag".to_owned(), offset: 4, size: 4, ty: scalar_type(ScalarKind::U32) },
        ]),
    };
    let resource = ReflectedResource {
        name: "input".to_owned(),
        access: Access::ReadOnly,
        binding: 0,
        space: 0,
        element,
        element_stride: None,
    };
    let inner = TypeLayout::structure("Inner", 8, 4, inner_fields());
    assert_eq!(inner.stride, 8);
    assert!(inner.is_storage_v1());
    assert!(ResourceLayout::storage_v1(inner).element_stride == 8);
    let u32_check = cross_check_pod::<u32>(&resource).unwrap_err();
    match u32_check {
        Error::Mismatch(text) => assert_eq!(text, "input: type or field count differs"),
        other => panic!("unexpected {}", other.message()),
    }
    let mut with_stride = resource;
    with_stride.element_stride = Some(64);
    with_stride.element = scalar_type(ScalarKind::U32);
    match cross_check_pod::<u32>(&with_stride).unwrap_err() {
        Error::Mismatch(text) => assert_eq!(text, "input.stride: host 4, compiler 64"),
        other => panic!("unexpected {}", other.message()),
    }
    with_stride.element_stride = Some(4);
    let report = cross_check_pod::<u32>(&with_stride).unwrap();
    assert!(report.element_stride_verified);
    assert!(!report.aggregate_size_verified);
    assert!(!report.alignment_verified);
    assert!(!report.is_full_abi_match());
    assert_eq!(Error::Invalid("x".to_owned()).message(), "invalid Slang reflection: x");
    assert_eq!(Error::Mismatch("y".to_owned()).message(), "POD reflection mismatch: y");
}

#[test]
fn scalar_fixture_records_nonzero_space_and_rejects_unknown_layouts() {
    let source = r#"{"parameters":[{"name":"a","binding":{"kind":"descriptorTableSlot","index":7,"space":2},"type":{"kind":"resource","baseShape":"structuredBuffer","resultType":{"kind":"scalar","scalarType":"uint32"}}}]}"#;
    let reflection = Reflection::from_json(Target::Spirv, source).unwrap();
    let resource = &reflection.resources[0];
    assert_eq!((resource.binding, resource.space), (7, 2));
    assert_eq!(cross_check_pod::<u32>(resource).unwrap().checked_fields, 0);
    for invalid in [
        source.replace("uint32", "bool"),
        source.replace("structuredBuffer", "texture2D"),
        source.replace("\"space\":2", "\"space\":-1"),
        source.replace("\"space\":2", "\"count\":2"),
        source.replace("\"resultType\"", "\"access\":\"unknown\",\"resultType\""),
    ] {
        assert!(Reflection::from_json(Target::Spirv, &invalid).is_err());
    }
}

#[test]
fn rejects_malformed_or_unsupported_reflection() {
    for json in [
        "{}",
        "{\"parameters\":[],}",
        "{\"parameters\":[],\"parameters\":[]}",
        "{\"parameters\":[]} trailing",
        "{\"parameters\":[{}]}",
    ] {
        assert!(Reflection::from_json(Target::Wgsl, json).is_err(), "{json}");
    }
}

#[test]
fn entry_point_resources_are_not_silently_ignored() {
    for parameter in [
        r#"{"name":"buffer","type":{"kind":"resource"}}"#,
        r#"{"name":"uniforms","type":{"kind":"parameterBlock"}}"#,
        r#"{"name":"value","binding":{"kind":"uniform","offset":0,"size":4},"type":{"kind":"scalar","scalarType":"uint32"}}"#,
        r#"{"name":"value","type":{"kind":"scalar","scalarType":"uint32"}}"#,
    ] {
        let json = format!(r#"{{"parameters":[],"entryPoints":[{{"parameters":[{parameter}]}}]}}"#);
        assert!(
            Reflection::from_json(Target::Wgsl, &json).is_err(),
            "{json}"
        );
    }
}
