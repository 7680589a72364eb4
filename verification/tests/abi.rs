use gust::abi::{align_up, ResourceLayout, ScalarKind, StructFieldLayout, TypeLayout};
use gust::job::JobStatus;
use gust::spirv::{validate_structure, MAGIC};

#[test]
fn scalar_layouts_are_explicit() {
    let f32_layout = TypeLayout::scalar("f32", ScalarKind::F32);
    assert_eq!(f32_layout.size, 4);
    assert_eq!(f32_layout.alignment, 4);
    assert_eq!(f32_layout.stride, 4);
    assert_eq!(
        ResourceLayout::storage_v1(f32_layout).element_stride,
        4
    );
}

#[test]
fn completion_state_is_explicit() {
    assert!(!JobStatus::Pending.is_complete());
    assert!(JobStatus::Complete.is_complete());
}

#[test]
fn rejects_truncated_instruction() {
    let words = [MAGIC, 0x0001_0000, 0, 2, 0, (3 << 16) | 14, 0];
    assert_eq!(
        validate_structure(&words),
        Err("SPIR-V instruction extends beyond the module")
    );
}

#[test]
fn align_up_reaches_the_next_multiple() {
    assert_eq!(align_up(12, 4), 12);
    assert_eq!(align_up(13, 4), 16);
    assert_eq!(align_up(0, 8), 0);
    assert_eq!(TypeLayout::structure("S", 10, 4, &[]).stride, 12);
}

#[test]
fn storage_v1_requires_four_byte_scalars() {
    assert!(TypeLayout::scalar("u32", ScalarKind::U32).is_storage_v1());
    let mut odd = TypeLayout::scalar("u32", ScalarKind::U32);
    odd.stride = 8;
    assert!(!odd.is_storage_v1());
    assert!(!TypeLayout::structure("Empty", 4, 4, &[]).is_storage_v1());
}

#[test]
fn storage_v1_holds_at_any_nesting_depth() {
    let mut layout = TypeLayout::scalar("u32", ScalarKind::U32);
    for _ in 0..100 {
        let fields: &'static [StructFieldLayout] =
            Box::leak(vec![StructFieldLayout { name: "inner", offset: 0, ty: layout }].into_boxed_slice());
        layout = TypeLayout::structure("Wrapper", 4, 4, fields);
        assert!(layout.is_storage_v1());
    }
    let mut padded = layout;
    padded.size = 8;
    padded.stride = 8;
    assert!(!padded.is_storage_v1());
}
