use gust::abi::{ResourceLayout, ScalarKind, ShaderLayoutRules, TypeLayout, TypeLayoutKind};
use gust::backend::{BufferBinding, Error, GpuBufferAccess};
use gust::descriptor::{Access, KernelDescriptor, ParameterDescriptor, ParameterKind, ResourceBinding};
use gust::graph::{
    schedule_report, transfer_totals, BufferDispatch, GraphStep, NodeId, StagedGraph, TransferDirection,
    TransferRecord,
};
use gust::pool::PoolState;

const F32_LAYOUT: TypeLayout = TypeLayout {
    name: "f32",
    size: 4,
    alignment: 4,
    stride: 4,
    kind: TypeLayoutKind::Scalar(ScalarKind::F32),
};

const PARAMETERS: &[ParameterDescriptor] = &[ParameterDescriptor {
    name: "out",
    rust_type: "StorageMut<f32>",
    kind: ParameterKind::Storage,
    access: Access::ReadWrite,
    resource_layout: Some(ResourceLayout {
        rules: ShaderLayoutRules::StorageV1,
        element: F32_LAYOUT,
        element_stride: 4,
    }),
    binding: Some(ResourceBinding { group: 0, binding: 0 }),
}];

const DESCRIPTOR: KernelDescriptor = KernelDescriptor {
    module: "test",
    name: "kernel",
    entry_point: "gpu_test_kernel",
    workgroup_size: [64, 1, 1],
    parameters: PARAMETERS,
    slang_source: "void gpu_test_kernel() {}",
};

fn buffer(id: u64, len: usize) -> BufferBinding {
    BufferBinding::new(id, len, F32_LAYOUT, GpuBufferAccess::ReadWrite, Access::ReadWrite, 7, false)
}

#[test]
fn upload_dispatch_readback_chain_validates() {
    let mut graph = StagedGraph::new();
    assert!(graph.is_empty());
    let up = graph.upload(buffer(1, 16), 64, 16, &[]);
    let run = graph.dispatch(BufferDispatch::new(DESCRIPTOR, 16, vec![buffer(1, 16)]), &[up]);
    let back = graph.readback(buffer(1, 16), F32_LAYOUT, &[run]);
    assert_eq!(graph.len(), 3);
    assert_eq!(back.index(), 2);
    assert!(graph.validate(7).is_ok());
    assert_eq!(graph.resident_bytes(), Some(0));
    let mut resident = StagedGraph::new();
    let scratch = buffer(2, 16);
    resident.dispatch(BufferDispatch::new(DESCRIPTOR, 16, vec![scratch]), &[]);
    resident.dispatch(BufferDispatch::new(DESCRIPTOR, 16, vec![scratch]), &[]);
    assert_eq!(resident.resident_bytes(), Some(64));
}

#[test]
fn missing_dependency_is_refused_before_execution() {
    let mut graph = StagedGraph::new();
    graph.upload(buffer(1, 16), 64, 16, &[]);
    graph.dispatch(BufferDispatch::new(DESCRIPTOR, 16, vec![buffer(1, 16)]), &[]);
    let error = graph.validate(7).unwrap_err();
    assert!(matches!(error, Error::GraphMissingDependency { node: 1, producer: 0 }));
    assert_eq!(
        error.message(),
        "graph node 1 touches a buffer last written or read by node 0 without declaring a dependency on it"
    );
}

#[test]
fn foreign_buffers_and_wrong_upload_lengths_are_refused() {
    let mut graph = StagedGraph::new();
    graph.upload(buffer(1, 16), 64, 16, &[]);
    assert!(matches!(graph.validate(8), Err(Error::ForeignPersistentBuffer)));
    let mut short = StagedGraph::new();
    short.upload(buffer(1, 16), 32, 8, &[]);
    assert!(matches!(
        short.validate(7),
        Err(Error::PersistentBufferLength { expected: 16, actual: 8 })
    ));
}

#[test]
fn transfers_are_totalled_by_direction() {
    let mut graph = StagedGraph::new();
    let a: NodeId = graph.upload(buffer(1, 16), 64, 16, &[]);
    let b = graph.readback(buffer(1, 16), F32_LAYOUT, &[a]);
    let transfers = vec![
        TransferRecord { node: a, direction: TransferDirection::Upload, bytes: 64 },
        TransferRecord { node: b, direction: TransferDirection::Readback, bytes: 16 },
        TransferRecord { node: a, direction: TransferDirection::Upload, bytes: 8 },
    ];
    assert_eq!(transfer_totals(&transfers), (72, 16));
}

#[test]
fn pool_growth_at_least_doubles_and_keeps_the_live_prefix() {
    let mut pool = PoolState::new(3, 4, 16);
    assert_eq!((pool.len(), pool.capacity(), pool.generation()), (3, 4, 0));
    assert!(pool.push(1).is_none());
    let growth = pool.push(1).unwrap();
    assert_eq!(growth.old_capacity, 4);
    assert_eq!(growth.new_capacity, 8);
    assert_eq!(growth.copied_bytes, 64);
    assert_eq!((pool.len(), pool.capacity(), pool.generation()), (5, 8, 1));
    let big = pool.reserve(100).unwrap();
    assert_eq!(big.new_capacity, 100);
    assert_eq!(pool.growth_history().len(), 2);
    assert!(pool.reserve(50).is_none());
    assert!(pool.truncate(2).is_ok());
    assert_eq!(pool.len(), 2);
    assert!(pool.truncate(3).is_err());
}

#[test]
fn pool_capacity_is_never_zero() {
    let pool = PoolState::new(0, 0, 4);
    assert_eq!(pool.capacity(), 1);
    assert!(pool.is_empty());
}

fn indirect_args(id: u64) -> BufferBinding {
    BufferBinding::new(id, 1, F32_LAYOUT, GpuBufferAccess::ReadWrite, Access::ReadOnly, 7, true)
}

#[test]
fn a_graph_is_planned_one_step_per_node() {
    let mut graph = StagedGraph::new();
    let up = graph.upload(buffer(1, 100), 400, 100, &[]);
    let run = graph.dispatch(BufferDispatch::new(DESCRIPTOR, 100, vec![buffer(1, 100)]), &[up]);
    let idle = graph.dispatch(BufferDispatch::new(DESCRIPTOR, 0, vec![buffer(1, 100)]), &[run]);
    let indirect = graph.dispatch_indirect(BufferDispatch::new(DESCRIPTOR, 0, vec![buffer(1, 100)]), indirect_args(3), &[idle]);
    graph.readback(buffer(1, 100), F32_LAYOUT, &[indirect]);
    let steps = graph.schedule().unwrap();
    assert_eq!(
        steps,
        vec![
            GraphStep::Upload { bytes: 400 },
            GraphStep::Dispatch { workgroups: 2 },
            GraphStep::Skip,
            GraphStep::DispatchIndirect,
            GraphStep::Readback { bytes: 400 },
        ]
    );
    let (dispatches, indirect_dispatches, workgroups, transfers) = schedule_report(&steps).unwrap();
    assert_eq!((dispatches, indirect_dispatches, workgroups), (2, 1, 2));
    assert_eq!(transfers.len(), 2);
    assert_eq!(transfers[0].node.index(), 0);
    assert_eq!(transfers[0].direction, TransferDirection::Upload);
    assert_eq!(transfers[0].bytes, 400);
    assert_eq!(transfers[1].node.index(), 4);
    assert_eq!(transfers[1].direction, TransferDirection::Readback);
    assert_eq!(transfers[1].bytes, 400);
    assert_eq!(transfer_totals(&transfers), (400, 400));
}

#[test]
fn workgroup_counts_round_up() {
    let mut graph = StagedGraph::new();
    graph.dispatch(BufferDispatch::new(DESCRIPTOR, 64, vec![buffer(1, 64)]), &[]);
    graph.dispatch(BufferDispatch::new(DESCRIPTOR, 65, vec![buffer(2, 65)]), &[]);
    graph.dispatch(BufferDispatch::new(DESCRIPTOR, 1, vec![buffer(3, 1)]), &[]);
    let steps = graph.schedule().unwrap();
    assert_eq!(
        steps,
        vec![GraphStep::Dispatch { workgroups: 1 }, GraphStep::Dispatch { workgroups: 2 }, GraphStep::Dispatch { workgroups: 1 }]
    );
    assert_eq!(schedule_report(&steps).unwrap(), (3, 0, 4, Vec::new()));
}

#[test]
fn a_dispatch_without_workgroup_width_cannot_be_planned() {
    let mut flat = DESCRIPTOR;
    flat.workgroup_size = [0, 1, 1];
    let mut graph = StagedGraph::new();
    graph.dispatch(BufferDispatch::new(flat, 4, vec![buffer(1, 4)]), &[]);
    assert!(graph.schedule().is_none());
    assert!(graph.validate(7).is_err());
    let mut idle = StagedGraph::new();
    idle.dispatch(BufferDispatch::new(flat, 0, vec![buffer(1, 4)]), &[]);
    assert_eq!(idle.schedule(), Some(vec![GraphStep::Skip]));
}

#[test]
fn oversized_readbacks_cannot_be_planned() {
    let mut graph = StagedGraph::new();
    let huge = BufferBinding::new(1, usize::MAX, F32_LAYOUT, GpuBufferAccess::ReadWrite, Access::ReadWrite, 7, false);
    graph.readback(huge, F32_LAYOUT, &[]);
    assert!(graph.schedule().is_none());
    let steps = vec![GraphStep::Dispatch { workgroups: u32::MAX }; 3];
    assert_eq!(schedule_report(&steps).unwrap().2, 3 * u64::from(u32::MAX));
}

#[test]
fn resident_bytes_count_each_untransferred_buffer_once() {
    let mut graph = StagedGraph::new();
    let scratch = buffer(2, 16);
    let moved = buffer(3, 8);
    graph.dispatch(BufferDispatch::new(DESCRIPTOR, 16, vec![scratch, moved]), &[]);
    graph.readback(moved, F32_LAYOUT, &[]);
    assert_eq!(graph.resident_bytes(), Some(64));
    let huge = BufferBinding::new(4, usize::MAX, F32_LAYOUT, GpuBufferAccess::ReadWrite, Access::ReadWrite, 7, true);
    let mut overflowing = StagedGraph::new();
    overflowing.dispatch(BufferDispatch::new(DESCRIPTOR, 1, vec![huge]), &[]);
    assert_eq!(overflowing.resident_bytes(), None);
}
