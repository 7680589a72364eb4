use gust::runtime::{atomic_compare_exchange, Storage, StorageMut, Uniform};

#[test]
fn shadow_buffers_read_and_write_elements() {
    let input = [1.0f32, 2.0, 3.0];
    let read = Storage::new(&input);
    assert_eq!(read.len(), 3);
    assert_eq!(*read.index(1), 2.0);
    let mut output = [0u32; 4];
    let mut write = StorageMut::new(&mut output);
    *write.index_mut(2) = 7;
    assert_eq!(*write.index(2), 7);
    assert_eq!(write.len(), 4);
    assert!(!write.is_empty());
    assert_eq!(output, [0, 0, 7, 0]);
}

#[test]
fn uniform_and_atomic_shadows_do_no_cpu_work() {
    let scale = Uniform(2.5f32);
    assert_eq!(*scale.deref(), 2.5);
    let mut counter = 5u32;
    assert!(!atomic_compare_exchange(&mut counter, 5, 9));
    assert_eq!(counter, 5);
}
