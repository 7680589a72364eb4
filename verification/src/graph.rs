//! Explicit staged execution graphs: upload, dispatch and readback nodes with
//! host-declared dependencies, executed as one ordered submission.
//!
//! Nothing is inferred: the host declares every edge, and a graph is refused
//! when its declared edges do not cover the buffer hazards its nodes create.
//! Buffers are identified by the allocation each binding names.
use vstd::prelude::*;
use crate::abi::{ScalarKind, TypeLayout, TypeLayoutKind};
use crate::backend::{
    persistent_dispatch_check, reports_dispatch_fault, validate_persistent_dispatch, BufferBinding,
    DispatchFault, Error, GpuBufferAccess, workgroup_count,
};
use crate::descriptor::{Access, KernelDescriptor, ParameterDescriptor};

verus! {

/// Handle to one node of a [`StagedGraph`], in insertion order.
#[derive(Clone, Copy, Debug, PartialEq, Eq, Hash, Structural)]
pub struct NodeId(usize);

impl NodeId {
    pub closed spec fn spec_index(self) -> usize {
        self.0
    }

    /// The node's position in insertion order.
    pub fn index(self) -> (r: usize)
        ensures
            r == self.spec_index(),
    {
        self.0
    }
}

#[derive(Clone, Copy, Debug, PartialEq, Eq, Structural)]
pub enum TransferDirection {
    Upload,
    Readback,
}

/// One host/GPU transfer performed by an executed graph.
#[derive(Clone, Copy, Debug, PartialEq, Eq, Structural)]
pub struct TransferRecord {
    pub node: NodeId,
    pub direction: TransferDirection,
    pub bytes: u64,
}

/// What an execution moved across the host boundary and what stayed resident.
#[derive(Debug, PartialEq, Eq)]
pub struct GraphReport {
    pub transfers: Vec<TransferRecord>,
    pub upload_bytes: u64,
    pub readback_bytes: u64,
    /// Dispatch nodes that produced GPU work (zero-element dispatches are skipped).
    pub dispatches: usize,
    /// Dispatches whose workgroup count was read from a GPU buffer; the host
    /// never learned that count, so they are excluded from `workgroups`.
    pub indirect_dispatches: usize,
    pub workgroups: u64,
    /// Bytes of buffers touched by dispatches but by no transfer in this execution.
    pub resident_bytes: u64,
    pub host_elapsed: std::time::Duration,
}

/// One persistent dispatch whose bindings can have different element types.
#[derive(Clone, Debug)]
pub struct BufferDispatch {
    pub kernel: KernelDescriptor,
    pub element_count: u32,
    pub bindings: Vec<BufferBinding>,
}

impl BufferDispatch {
    pub fn new(kernel: KernelDescriptor, element_count: u32, bindings: Vec<BufferBinding>) -> (r: Self)
        ensures
            r.kernel == kernel,
            r.element_count == element_count,
            r.bindings@ == bindings@,
    {
        BufferDispatch { kernel, element_count, bindings }
    }
}

/// What one node does.
#[derive(Clone, Debug)]
pub enum NodeKind {
    /// Replace the whole of `target` with `bytes` bytes of `element_count` elements.
    Upload { target: BufferBinding, bytes: u64, element_count: usize },
    Dispatch(BufferDispatch),
    /// Workgroup counts come from `args` on the GPU; no host element count exists.
    DispatchIndirect { dispatch: BufferDispatch, args: BufferBinding },
    Readback { source: BufferBinding, layout: TypeLayout },
}

#[derive(Clone, Debug)]
pub struct Node {
    pub kind: NodeKind,
    pub dependencies: Vec<NodeId>,
}

/// An ordered set of explicit execution nodes over resident typed buffers.
pub struct StagedGraph {
    nodes: Vec<Node>,
}

impl StagedGraph {
    pub closed spec fn view(&self) -> Seq<Node> {
        self.nodes@
    }

    pub fn new() -> (r: Self)
        ensures
            r.view() == Seq::<Node>::empty(),
    {
        StagedGraph { nodes: Vec::new() }
    }

    pub fn len(&self) -> (r: usize)
        ensures
            r == self.view().len(),
    {
        self.nodes.len()
    }

    pub fn is_empty(&self) -> (r: bool)
        ensures
            r == (self.view().len() == 0),
    {
        self.nodes.len() == 0
    }

    /// The nodes, in insertion order.
    pub fn nodes(&self) -> (r: &Vec<Node>)
        ensures
            r@ == self.view(),
    {
        &self.nodes
    }

    fn push(&mut self, kind: NodeKind, dependencies: &[NodeId]) -> (r: NodeId)
        ensures
            final(self).view().len() == old(self).view().len() + 1,
            final(self).view().drop_last() == old(self).view(),
            final(self).view().last().kind == kind,
            final(self).view().last().dependencies@ == dependencies@,
            r.spec_index() == old(self).view().len(),
    {
        let mut deps: Vec<NodeId> = Vec::new();
        let mut i: usize = 0;
        while i < dependencies.len()
            invariant
                i <= dependencies@.len(),
                deps@ == dependencies@.subrange(0, i as int),
            decreases dependencies@.len() - i,
        {
            deps.push(dependencies[i]);
            proof {
                assert(deps@ =~= dependencies@.subrange(0, i + 1));
            }
            i = i + 1;
        }
        proof {
            assert(deps@ =~= dependencies@);
        }
        let index = self.nodes.len();
        self.nodes.push(Node { kind, dependencies: deps });
        proof {
            assert(self.nodes@.drop_last() =~= old(self).nodes@);
        }
        NodeId(index)
    }

    /// The handle of the node at `index` in insertion order, if there is one.
    pub fn node_at(&self, index: usize) -> (r: Option<NodeId>)
        ensures
            index < self.view().len() ==> (r matches Some(id) && id.spec_index() == index),
            index >= self.view().len() ==> r is None,
    {
        if index < self.nodes.len() {
            Some(NodeId(index))
        } else {
            None
        }
    }

    /// Replace the complete contents of a resident buffer from host memory:
    /// `bytes` bytes holding `element_count` elements.
    pub fn upload(&mut self, target: BufferBinding, bytes: u64, element_count: usize, dependencies: &[NodeId]) -> (r: NodeId)
        ensures
            final(self).view() == old(self).view().push(
                Node {
                    kind: NodeKind::Upload {
                        target: BufferBinding { access: Access::ReadWrite, ..target },
                        bytes,
                        element_count,
                    },
                    dependencies: final(self).view().last().dependencies,
                },
            ),
            final(self).view().last().dependencies@ == dependencies@,
            r.spec_index() == old(self).view().len(),
    {
        let target = BufferBinding { access: Access::ReadWrite, ..target };
        let r = self.push(NodeKind::Upload { target, bytes, element_count }, dependencies);
        proof {
            assert(self.view() =~= old(self).view().push(self.view().last()));
        }
        r
    }

    /// Run one kernel over resident buffers.
    pub fn dispatch(&mut self, dispatch: BufferDispatch, dependencies: &[NodeId]) -> (r: NodeId)
        ensures
            final(self).view().drop_last() == old(self).view(),
            final(self).view().len() == old(self).view().len() + 1,
            final(self).view().last().kind == NodeKind::Dispatch(dispatch),
            final(self).view().last().dependencies@ == dependencies@,
            r.spec_index() == old(self).view().len(),
    {
        self.push(NodeKind::Dispatch(dispatch), dependencies)
    }

    /// Run one kernel with workgroup counts read from `args` on the GPU.
    /// The dispatch's element count is ignored: every binding must have an
    /// independent length and be non-empty, and `args` must be an indirect
    /// arguments buffer.
    pub fn dispatch_indirect(&mut self, dispatch: BufferDispatch, args: BufferBinding, dependencies: &[NodeId]) -> (r: NodeId)
        ensures
            final(self).view().drop_last() == old(self).view(),
            final(self).view().len() == old(self).view().len() + 1,
            final(self).view().last().kind == (NodeKind::DispatchIndirect {
                dispatch,
                args: BufferBinding { access: Access::ReadOnly, ..args },
            }),
            final(self).view().last().dependencies@ == dependencies@,
            r.spec_index() == old(self).view().len(),
    {
        let args = BufferBinding { access: Access::ReadOnly, ..args };
        self.push(NodeKind::DispatchIndirect { dispatch, args }, dependencies)
    }

    /// Copy a resident read-write buffer back to host memory after execution,
    /// to be read as elements of `layout`.
    pub fn readback(&mut self, source: BufferBinding, layout: TypeLayout, dependencies: &[NodeId]) -> (r: NodeId)
        ensures
            final(self).view().drop_last() == old(self).view(),
            final(self).view().len() == old(self).view().len() + 1,
            final(self).view().last().kind == (NodeKind::Readback {
                source: BufferBinding { access: Access::ReadOnly, ..source },
                layout,
            }),
            final(self).view().last().dependencies@ == dependencies@,
            r.spec_index() == old(self).view().len(),
    {
        let source = BufferBinding { access: Access::ReadOnly, ..source };
        self.push(NodeKind::Readback { source, layout }, dependencies)
    }
}

// ---------------------------------------------------------------------------
// Which graphs are executed.
// ---------------------------------------------------------------------------

/// The buffers a binding list touches, with the access each is bound with.
pub open spec fn binding_accesses(bindings: Seq<BufferBinding>) -> Seq<(u64, Access)> {
    Seq::new(bindings.len(), |i: int| (bindings[i].buffer, bindings[i].access))
}

/// The buffers a node touches, with the access the hazard check must assume.
pub open spec fn node_accesses(node: Node) -> Seq<(u64, Access)> {
    match node.kind {
        NodeKind::Upload { target, .. } => seq![(target.buffer, Access::ReadWrite)],
        NodeKind::Dispatch(dispatch) => binding_accesses(dispatch.bindings@),
        NodeKind::DispatchIndirect { dispatch, args } => binding_accesses(dispatch.bindings@).push(
            (args.buffer, Access::ReadOnly),
        ),
        NodeKind::Readback { source, .. } => seq![(source.buffer, Access::ReadOnly)],
    }
}

/// `node` touches `buffer` in a way that conflicts with an `access` to it:
/// one of the two writes.
pub open spec fn conflicts(node: Node, buffer: u64, access: Access) -> bool {
    exists|k: int|
        0 <= k < node_accesses(node).len() && (#[trigger] node_accesses(node)[k]).0 == buffer && (
        access == Access::ReadWrite || node_accesses(node)[k].1 == Access::ReadWrite)
}

/// The nodes that node `i` reaches through its first `k` declared
/// dependencies, directly or through theirs.
pub open spec fn reached_through(nodes: Seq<Node>, i: int, k: int) -> Set<int>
    decreases i, k,
{
    if !(0 <= i < nodes.len()) || k <= 0 || k > nodes[i].dependencies@.len() {
        Set::empty()
    } else {
        let d = nodes[i].dependencies@[k - 1].spec_index() as int;
        let before = reached_through(nodes, i, k - 1);
        if 0 <= d < i {
            before.insert(d).union(ancestors(nodes, d))
        } else {
            before
        }
    }
}

/// The nodes that node `i` depends on, directly or transitively.
pub open spec fn ancestors(nodes: Seq<Node>, i: int) -> Set<int>
    decreases i, (if 0 <= i < nodes.len() { nodes[i].dependencies@.len() + 1 } else { 0 }),
{
    if !(0 <= i < nodes.len()) {
        Set::empty()
    } else {
        reached_through(nodes, i, nodes[i].dependencies@.len() as int)
    }
}

/// The first dependency of node `i`, from its `k`-th on, that is not an
/// earlier node.
pub open spec fn order_fault(nodes: Seq<Node>, i: int, k: int) -> Option<int>
    decreases nodes[i].dependencies@.len() - k,
{
    if !(0 <= k < nodes[i].dependencies@.len()) {
        None
    } else if nodes[i].dependencies@[k].spec_index() >= i {
        Some(nodes[i].dependencies@[k].spec_index() as int)
    } else {
        order_fault(nodes, i, k + 1)
    }
}

/// A buffer layout that can hold indirect dispatch arguments: a structure of
/// exactly three `u32` fields.
pub open spec fn indirect_args_layout(layout: TypeLayout) -> bool {
    match layout.kind {
        TypeLayoutKind::Struct(fields) => fields@.len() == 3 && forall|k: int|
            0 <= k < 3 ==> (#[trigger] fields@[k]).ty.kind == TypeLayoutKind::Scalar(ScalarKind::U32),
        TypeLayoutKind::Scalar(_) => false,
    }
}

/// Why one node is refused, apart from its edges.
pub enum NodeFault {
    Foreign,
    UploadLength(usize, usize),
    Dispatch(DispatchFault, KernelDescriptor),
    IndirectArgs(&'static str),
    IndirectBinding(ParameterDescriptor),
    NotReadable,
}

/// The first binding of an indirect dispatch, from the `k`-th on, that does
/// not have a non-empty independent length.
pub open spec fn indirect_binding_fault(rs: Seq<ParameterDescriptor>, bs: Seq<BufferBinding>, k: int) -> Option<ParameterDescriptor>
    decreases rs.len() - k,
{
    if !(0 <= k < rs.len() && k < bs.len()) {
        None
    } else if !bs[k].independent_length || bs[k].len == 0 {
        Some(rs[k])
    } else {
        indirect_binding_fault(rs, bs, k + 1)
    }
}

/// What is wrong with one node on device `device`, apart from its edges.
pub open spec fn kind_fault(node: Node, device: u64) -> Option<NodeFault> {
    match node.kind {
        NodeKind::Upload { target, element_count, .. } => if target.device_id != device {
            Some(NodeFault::Foreign)
        } else if target.len != element_count {
            Some(NodeFault::UploadLength(target.len, element_count))
        } else {
            None
        },
        NodeKind::Dispatch(d) => match persistent_dispatch_check(
            device,
            d.kernel,
            d.element_count,
            d.bindings@,
        ) {
            Err(f) => Some(NodeFault::Dispatch(f, d.kernel)),
            Ok(_) => None,
        },
        NodeKind::DispatchIndirect { dispatch: d, args } => if args.device_id != device {
            Some(NodeFault::Foreign)
        } else if !args.indirect || !indirect_args_layout(args.layout) || args.len == 0 {
            Some(NodeFault::IndirectArgs(args.layout.name))
        } else {
            match persistent_dispatch_check(device, d.kernel, 1, d.bindings@) {
                Err(f) => Some(NodeFault::Dispatch(f, d.kernel)),
                Ok(rs) => match indirect_binding_fault(rs, d.bindings@, 0) {
                    Some(p) => Some(NodeFault::IndirectBinding(p)),
                    None => None,
                },
            }
        },
        NodeKind::Readback { source, .. } => if source.device_id != device {
            Some(NodeFault::Foreign)
        } else if source.buffer_access != GpuBufferAccess::ReadWrite {
            Some(NodeFault::NotReadable)
        } else {
            None
        },
    }
}

/// The first earlier node, from `e` on, whose access to `buffer` conflicts
/// with `access` and that node `i` does not reach.
pub open spec fn unordered_producer(nodes: Seq<Node>, i: int, buffer: u64, access: Access, e: int) -> Option<int>
    decreases i - e,
{
    if !(0 <= e < i) {
        None
    } else if conflicts(nodes[e], buffer, access) && !ancestors(nodes, i).contains(e) {
        Some(e)
    } else {
        unordered_producer(nodes, i, buffer, access, e + 1)
    }
}

/// The first unordered conflict of node `i`, over its accesses from the
/// `k`-th on.
pub open spec fn missing_dependency(nodes: Seq<Node>, i: int, k: int) -> Option<int>
    decreases node_accesses(nodes[i]).len() - k,
{
    if !(0 <= k < node_accesses(nodes[i]).len()) {
        None
    } else {
        let (buffer, access) = node_accesses(nodes[i])[k];
        match unordered_producer(nodes, i, buffer, access, 0) {
            Some(e) => Some(e),
            None => missing_dependency(nodes, i, k + 1),
        }
    }
}

/// Why a graph is refused.
pub enum GraphFault {
    Order(int, int),
    Node(NodeFault),
    Missing(int, int),
}

/// What is wrong with node `i` on device `device`, if anything: a
/// dependency that is not an earlier node, a refused node, or an access that
/// conflicts with an earlier node it does not depend on.
pub open spec fn node_fault(nodes: Seq<Node>, i: int, device: u64) -> Option<GraphFault> {
    match order_fault(nodes, i, 0) {
        Some(d) => Some(GraphFault::Order(i, d)),
        None => match kind_fault(nodes[i], device) {
            Some(f) => Some(GraphFault::Node(f)),
            None => match missing_dependency(nodes, i, 0) {
                Some(e) => Some(GraphFault::Missing(i, e)),
                None => None,
            },
        },
    }
}

/// The fault of the first refused node from `i` on.
pub open spec fn graph_fault(nodes: Seq<Node>, i: int, device: u64) -> Option<GraphFault>
    decreases nodes.len() - i,
{
    if !(0 <= i < nodes.len()) {
        None
    } else if node_fault(nodes, i, device) is Some {
        node_fault(nodes, i, device)
    } else {
        graph_fault(nodes, i + 1, device)
    }
}

/// `error` reports `fault`.
pub open spec fn reports_graph_fault(error: Error, fault: GraphFault) -> bool {
    match fault {
        GraphFault::Order(i, d) => error matches Error::GraphDependencyOrder { node, dependency }
            && node == i && dependency == d,
        GraphFault::Missing(i, e) => error matches Error::GraphMissingDependency { node, producer }
            && node == i && producer == e,
        GraphFault::Node(f) => match f {
            NodeFault::Foreign => error is ForeignPersistentBuffer,
            NodeFault::UploadLength(expected, actual) => error matches Error::PersistentBufferLength {
                expected: x,
                actual: y,
            } && x == expected && y == actual,
            NodeFault::Dispatch(d, kernel) => reports_dispatch_fault(error, d, kernel),
            NodeFault::IndirectArgs(name) => error matches Error::IndirectArgsLayout(n) && n == name,
            NodeFault::IndirectBinding(p) => error matches Error::IndirectBindingLength { parameter }
                && parameter@ == p.name@,
            NodeFault::NotReadable => error is PersistentBufferNotReadable,
        },
    }
}

proof fn lemma_graph_fault_none_at(nodes: Seq<Node>, from: int, device: u64, i: int)
    requires
        0 <= from <= i < nodes.len(),
        graph_fault(nodes, from, device) is None,
    ensures
        node_fault(nodes, i, device) is None,
    decreases i - from,
{
    if from < i {
        lemma_graph_fault_none_at(nodes, from + 1, device, i);
    }
}

proof fn lemma_order_fault_none_at(nodes: Seq<Node>, i: int, from: int, d: int)
    requires
        0 <= i < nodes.len(),
        0 <= from <= d < nodes[i].dependencies@.len(),
        order_fault(nodes, i, from) is None,
    ensures
        nodes[i].dependencies@[d].spec_index() < i,
    decreases d - from,
{
    if from < d {
        lemma_order_fault_none_at(nodes, i, from + 1, d);
    }
}

proof fn lemma_unordered_none_at(nodes: Seq<Node>, i: int, buffer: u64, access: Access, from: int, e: int)
    requires
        0 <= from <= e < i,
        unordered_producer(nodes, i, buffer, access, from) is None,
    ensures
        conflicts(nodes[e], buffer, access) ==> ancestors(nodes, i).contains(e),
    decreases e - from,
{
    if from < e {
        lemma_unordered_none_at(nodes, i, buffer, access, from + 1, e);
    }
}

proof fn lemma_missing_none_at(nodes: Seq<Node>, i: int, from: int, k: int)
    requires
        0 <= i < nodes.len(),
        0 <= from <= k < node_accesses(nodes[i]).len(),
        missing_dependency(nodes, i, from) is None,
    ensures
        unordered_producer(nodes, i, node_accesses(nodes[i])[k].0, node_accesses(nodes[i])[k].1, 0) is None,
    decreases k - from,
{
    if from < k {
        lemma_missing_none_at(nodes, i, from + 1, k);
    }
}

/// A graph that passes validation on a device has every declared edge
/// pointing to an earlier node, every node acceptable on that device, and,
/// for every earlier node whose access to a buffer conflicts with a later
/// node's access to it (one of the two writes), a declared dependency path
/// from the later node to the earlier one.
pub proof fn lemma_validated_graph_orders_hazards(nodes: Seq<Node>, device: u64)
    requires
        graph_fault(nodes, 0, device) is None,
    ensures
        forall|i: int, d: int|
            0 <= i < nodes.len() && 0 <= d < nodes[i].dependencies@.len() ==> (#[trigger] nodes[i].dependencies@[d]).spec_index() < i,
        forall|i: int| 0 <= i < nodes.len() ==> kind_fault(#[trigger] nodes[i], device) is None,
        forall|i: int, e: int, k: int|
            0 <= e < i < nodes.len() && 0 <= k < node_accesses(nodes[i]).len() && conflicts(
                #[trigger] nodes[e],
                #[trigger] node_accesses(nodes[i])[k].0,
                node_accesses(nodes[i])[k].1,
            ) ==> ancestors(nodes, i).contains(e),
{
    assert forall|i: int, d: int|
        0 <= i < nodes.len() && 0 <= d < nodes[i].dependencies@.len() implies (#[trigger] nodes[i].dependencies@[d]).spec_index() < i by {
        lemma_graph_fault_none_at(nodes, 0, device, i);
        lemma_order_fault_none_at(nodes, i, 0, d);
    }
    assert forall|i: int| 0 <= i < nodes.len() implies kind_fault(#[trigger] nodes[i], device) is None by {
        lemma_graph_fault_none_at(nodes, 0, device, i);
    }
    assert forall|i: int, e: int, k: int|
        0 <= e < i < nodes.len() && 0 <= k < node_accesses(nodes[i]).len() && conflicts(
            #[trigger] nodes[e],
            #[trigger] node_accesses(nodes[i])[k].0,
            node_accesses(nodes[i])[k].1,
        ) implies ancestors(nodes, i).contains(e) by {
        lemma_graph_fault_none_at(nodes, 0, device, i);
        lemma_missing_none_at(nodes, i, 0, k);
        lemma_unordered_none_at(nodes, i, node_accesses(nodes[i])[k].0, node_accesses(nodes[i])[k].1, 0, e);
    }
}

proof fn lemma_order_fault_none_from(nodes: Seq<Node>, i: int, k: int)
    requires
        0 <= i < nodes.len(),
        0 <= k,
        forall|d: int| 0 <= d < nodes[i].dependencies@.len() ==> (#[trigger] nodes[i].dependencies@[d]).spec_index() < i,
    ensures
        order_fault(nodes, i, k) is None,
    decreases nodes[i].dependencies@.len() - k,
{
    if k < nodes[i].dependencies@.len() {
        lemma_order_fault_none_from(nodes, i, k + 1);
    }
}

proof fn lemma_unordered_none_from(nodes: Seq<Node>, i: int, buffer: u64, access: Access, e: int)
    requires
        0 <= e,
        forall|f: int| e <= f < i && conflicts(#[trigger] nodes[f], buffer, access) ==> ancestors(nodes, i).contains(f),
    ensures
        unordered_producer(nodes, i, buffer, access, e) is None,
    decreases i - e,
{
    if e < i {
        lemma_unordered_none_from(nodes, i, buffer, access, e + 1);
    }
}

proof fn lemma_missing_none_from(nodes: Seq<Node>, i: int, k: int)
    requires
        0 <= i < nodes.len(),
        0 <= k,
        forall|e: int, j: int|
            0 <= e < i && 0 <= j < node_accesses(nodes[i]).len() && conflicts(
                #[trigger] nodes[e],
                #[trigger] node_accesses(nodes[i])[j].0,
                node_accesses(nodes[i])[j].1,
            ) ==> ancestors(nodes, i).contains(e),
    ensures
        missing_dependency(nodes, i, k) is None,
    decreases node_accesses(nodes[i]).len() - k,
{
    if k < node_accesses(nodes[i]).len() {
        let (buffer, access) = node_accesses(nodes[i])[k];
        assert forall|f: int| 0 <= f < i && conflicts(#[trigger] nodes[f], buffer, access) implies ancestors(
            nodes,
            i,
        ).contains(f) by {
            assert(conflicts(nodes[f], node_accesses(nodes[i])[k].0, node_accesses(nodes[i])[k].1));
        }
        lemma_unordered_none_from(nodes, i, buffer, access, 0);
        lemma_missing_none_from(nodes, i, k + 1);
    }
}

proof fn lemma_graph_fault_none_from(nodes: Seq<Node>, from: int, device: u64)
    requires
        0 <= from,
        forall|i: int| from <= i < nodes.len() ==> (#[trigger] node_fault(nodes, i, device)) is None,
    ensures
        graph_fault(nodes, from, device) is None,
    decreases nodes.len() - from,
{
    if from < nodes.len() {
        assert(node_fault(nodes, from, device) is None);
        lemma_graph_fault_none_from(nodes, from + 1, device);
    }
}

/// The converse: a graph whose declared edges all point to earlier nodes,
/// whose nodes are all acceptable on a device, and in which every earlier
/// node whose access to a buffer conflicts with a later node's access to it
/// is reached from the later node by declared dependencies, passes
/// validation on that device.
pub proof fn lemma_ordered_hazards_validate(nodes: Seq<Node>, device: u64)
    requires
        forall|i: int, d: int|
            0 <= i < nodes.len() && 0 <= d < nodes[i].dependencies@.len() ==> (#[trigger] nodes[i].dependencies@[d]).spec_index() < i,
        forall|i: int| 0 <= i < nodes.len() ==> kind_fault(#[trigger] nodes[i], device) is None,
        forall|i: int, e: int, k: int|
            0 <= e < i < nodes.len() && 0 <= k < node_accesses(nodes[i]).len() && conflicts(
                #[trigger] nodes[e],
                #[trigger] node_accesses(nodes[i])[k].0,
                node_accesses(nodes[i])[k].1,
            ) ==> ancestors(nodes, i).contains(e),
    ensures
        graph_fault(nodes, 0, device) is None,
{
    assert forall|i: int| 0 <= i < nodes.len() implies (#[trigger] node_fault(nodes, i, device)) is None by {
        assert forall|d: int| 0 <= d < nodes[i].dependencies@.len() implies (#[trigger] nodes[i].dependencies@[d]).spec_index() < i by {
            assert(nodes[i].dependencies@[d].spec_index() < i);
        }
        lemma_order_fault_none_from(nodes, i, 0);
        assert(kind_fault(nodes[i], device) is None);
        assert forall|e: int, j: int|
            0 <= e < i && 0 <= j < node_accesses(nodes[i]).len() && conflicts(
                #[trigger] nodes[e],
                #[trigger] node_accesses(nodes[i])[j].0,
                node_accesses(nodes[i])[j].1,
            ) implies ancestors(nodes, i).contains(e) by {}
        lemma_missing_none_from(nodes, i, 0);
    }
    lemma_graph_fault_none_from(nodes, 0, device);
}

/// Every dispatch of a graph that passes validation has a non-zero
/// workgroup width, so every node of it but an oversized readback can be
/// planned.
pub proof fn lemma_validated_graph_plannable(nodes: Seq<Node>, device: u64, i: int)
    requires
        graph_fault(nodes, 0, device) is None,
        0 <= i < nodes.len(),
        !(nodes[i].kind is Readback),
    ensures
        plannable(nodes[i]),
{
    lemma_graph_fault_none_at(nodes, 0, device, i);
}

/// Whether `node` names `buffer`: an upload's target, a dispatch's bindings,
/// an indirect dispatch's bindings and arguments, a readback's source.
pub open spec fn names_buffer(node: Node, buffer: u64) -> bool {
    match node.kind {
        NodeKind::Upload { target, .. } => target.buffer == buffer,
        NodeKind::Dispatch(d) => exists|k: int| 0 <= k < d.bindings@.len() && (#[trigger] d.bindings@[k]).buffer == buffer,
        NodeKind::DispatchIndirect { dispatch, args } => args.buffer == buffer || exists|k: int|
            0 <= k < dispatch.bindings@.len() && (#[trigger] dispatch.bindings@[k]).buffer == buffer,
        NodeKind::Readback { source, .. } => source.buffer == buffer,
    }
}

/// An upload writes the whole of its target, so every later node that names
/// the uploaded buffer, to read it or to write it, must depend on the upload:
/// a graph in which one does not is refused on every device.
pub proof fn lemma_upload_orders_later_users(nodes: Seq<Node>, device: u64, e: int, i: int)
    requires
        0 <= e < i < nodes.len(),
        nodes[e].kind matches NodeKind::Upload { target, .. } && names_buffer(nodes[i], target.buffer),
        !ancestors(nodes, i).contains(e),
    ensures
        graph_fault(nodes, 0, device) is Some,
{
    if graph_fault(nodes, 0, device) is None {
        lemma_validated_graph_orders_hazards(nodes, device);
        let b = nodes[e].kind->target.buffer;
        let acc = node_accesses(nodes[i]);
        let k: int = match nodes[i].kind {
            NodeKind::Upload { .. } => 0,
            NodeKind::Readback { .. } => 0,
            NodeKind::Dispatch(d) => choose|k: int| 0 <= k < d.bindings@.len() && (#[trigger] d.bindings@[k]).buffer == b,
            NodeKind::DispatchIndirect { dispatch, args } => if args.buffer == b {
                dispatch.bindings@.len() as int
            } else {
                choose|k: int| 0 <= k < dispatch.bindings@.len() && (#[trigger] dispatch.bindings@[k]).buffer == b
            },
        };
        assert(0 <= k < acc.len() && acc[k].0 == b);
        assert(node_accesses(nodes[e])[0] == (b, Access::ReadWrite));
        assert(conflicts(nodes[e], acc[k].0, acc[k].1));
        assert(ancestors(nodes, i).contains(e));
    }
}

/// Whether `node` writes `buffer`: an upload writes its target, a dispatch
/// writes what it binds read-write; a readback writes no buffer.
pub open spec fn writes_buffer(node: Node, buffer: u64) -> bool {
    match node.kind {
        NodeKind::Upload { target, .. } => target.buffer == buffer,
        NodeKind::Dispatch(d) => exists|k: int|
            0 <= k < d.bindings@.len() && (#[trigger] d.bindings@[k]).buffer == buffer && d.bindings@[k].access
                == Access::ReadWrite,
        NodeKind::DispatchIndirect { dispatch, .. } => exists|k: int|
            0 <= k < dispatch.bindings@.len() && (#[trigger] dispatch.bindings@[k]).buffer == buffer
                && dispatch.bindings@[k].access == Access::ReadWrite,
        NodeKind::Readback { .. } => false,
    }
}

/// Where `node` names `buffer`, a position of its accesses that holds it,
/// and one holding a read-write access where `node` writes it.
proof fn lemma_access_of(node: Node, buffer: u64) -> (k: int)
    requires
        names_buffer(node, buffer),
    ensures
        0 <= k < node_accesses(node).len(),
        node_accesses(node)[k].0 == buffer,
        writes_buffer(node, buffer) ==> node_accesses(node)[k].1 == Access::ReadWrite,
{
    match node.kind {
        NodeKind::Upload { .. } => 0,
        NodeKind::Readback { .. } => 0,
        NodeKind::Dispatch(d) => if writes_buffer(node, buffer) {
            choose|k: int|
                0 <= k < d.bindings@.len() && (#[trigger] d.bindings@[k]).buffer == buffer && d.bindings@[k].access
                    == Access::ReadWrite
        } else {
            choose|k: int| 0 <= k < d.bindings@.len() && (#[trigger] d.bindings@[k]).buffer == buffer
        },
        NodeKind::DispatchIndirect { dispatch, args } => if writes_buffer(node, buffer) {
            choose|k: int|
                0 <= k < dispatch.bindings@.len() && (#[trigger] dispatch.bindings@[k]).buffer == buffer
                    && dispatch.bindings@[k].access == Access::ReadWrite
        } else if args.buffer == buffer {
            dispatch.bindings@.len() as int
        } else {
            choose|k: int| 0 <= k < dispatch.bindings@.len() && (#[trigger] dispatch.bindings@[k]).buffer == buffer
        },
    }
}

/// Two nodes that name one buffer, one of which writes it, must be ordered
/// by declared dependencies: where the later does not depend on the earlier,
/// the graph is refused on every device.
pub proof fn lemma_unordered_write_refused(nodes: Seq<Node>, device: u64, e: int, i: int, buffer: u64)
    requires
        0 <= e < i < nodes.len(),
        names_buffer(nodes[e], buffer),
        names_buffer(nodes[i], buffer),
        writes_buffer(nodes[e], buffer) || writes_buffer(nodes[i], buffer),
        !ancestors(nodes, i).contains(e),
    ensures
        graph_fault(nodes, 0, device) is Some,
{
    if graph_fault(nodes, 0, device) is None {
        lemma_validated_graph_orders_hazards(nodes, device);
        let k = lemma_access_of(nodes[i], buffer);
        let j = lemma_access_of(nodes[e], buffer);
        let acc = node_accesses(nodes[i]);
        assert(node_accesses(nodes[e])[j].0 == buffer);
        assert(conflicts(nodes[e], acc[k].0, acc[k].1));
        assert(ancestors(nodes, i).contains(e));
    }
}

/// What an access of `node` at position `j` means: the node names its
/// buffer, and writes it where the access is read-write.
proof fn lemma_access_meaning(node: Node, j: int)
    requires
        0 <= j < node_accesses(node).len(),
    ensures
        names_buffer(node, node_accesses(node)[j].0),
        node_accesses(node)[j].1 == Access::ReadWrite ==> writes_buffer(node, node_accesses(node)[j].0),
{
    match node.kind {
        NodeKind::Dispatch(d) => {
            assert(d.bindings@[j].buffer == node_accesses(node)[j].0);
        },
        NodeKind::DispatchIndirect { dispatch, args } => {
            if j < dispatch.bindings@.len() {
                assert(dispatch.bindings@[j].buffer == node_accesses(node)[j].0);
            }
        },
        _ => {},
    }
}

/// The graphs that pass validation on a device are exactly those whose
/// declared edges point to earlier nodes, whose nodes are acceptable on the
/// device, and in which any two nodes that name one buffer, one of them
/// writing it, are ordered by declared dependencies.
pub proof fn lemma_ordered_writes_validate(nodes: Seq<Node>, device: u64)
    requires
        forall|i: int, d: int|
            0 <= i < nodes.len() && 0 <= d < nodes[i].dependencies@.len() ==> (#[trigger] nodes[i].dependencies@[d]).spec_index() < i,
        forall|i: int| 0 <= i < nodes.len() ==> kind_fault(#[trigger] nodes[i], device) is None,
        forall|e: int, i: int, b: u64|
            0 <= e < i < nodes.len() && #[trigger] names_buffer(nodes[e], b) && #[trigger] names_buffer(nodes[i], b)
                && (writes_buffer(nodes[e], b) || writes_buffer(nodes[i], b)) ==> ancestors(nodes, i).contains(e),
    ensures
        graph_fault(nodes, 0, device) is None,
{
    assert forall|i: int, e: int, k: int|
        0 <= e < i < nodes.len() && 0 <= k < node_accesses(nodes[i]).len() && conflicts(
            #[trigger] nodes[e],
            #[trigger] node_accesses(nodes[i])[k].0,
            node_accesses(nodes[i])[k].1,
        ) implies ancestors(nodes, i).contains(e) by {
        let b = node_accesses(nodes[i])[k].0;
        let j = choose|j: int|
            0 <= j < node_accesses(nodes[e]).len() && (#[trigger] node_accesses(nodes[e])[j]).0 == b && (
            node_accesses(nodes[i])[k].1 == Access::ReadWrite || node_accesses(nodes[e])[j].1 == Access::ReadWrite);
        lemma_access_meaning(nodes[i], k);
        lemma_access_meaning(nodes[e], j);
        assert(names_buffer(nodes[e], b) && names_buffer(nodes[i], b));
    }
    lemma_ordered_hazards_validate(nodes, device);
}

/// A node depends only on earlier nodes.
pub proof fn lemma_ancestors_earlier(nodes: Seq<Node>, i: int)
    ensures
        forall|x: int| ancestors(nodes, i).contains(x) ==> 0 <= x < i,
    decreases i, (if 0 <= i < nodes.len() { nodes[i].dependencies@.len() + 1 } else { 0 }),
{
    if 0 <= i < nodes.len() {
        let n = nodes[i].dependencies@.len() as int;
        lemma_reached_earlier(nodes, i, n);
        assert(ancestors(nodes, i) == reached_through(nodes, i, n));
    } else {
        assert(ancestors(nodes, i) == Set::<int>::empty());
    }
}

pub proof fn lemma_reached_earlier(nodes: Seq<Node>, i: int, k: int)
    ensures
        forall|x: int| reached_through(nodes, i, k).contains(x) ==> 0 <= x < i,
    decreases i, k,
{
    let r = reached_through(nodes, i, k);
    if 0 <= i < nodes.len() && 0 < k <= nodes[i].dependencies@.len() {
        lemma_reached_earlier(nodes, i, k - 1);
        let d = nodes[i].dependencies@[k - 1].spec_index() as int;
        let before = reached_through(nodes, i, k - 1);
        if 0 <= d < i {
            lemma_ancestors_earlier(nodes, d);
            assert(r == before.insert(d).union(ancestors(nodes, d)));
            assert forall|x: int| r.contains(x) implies 0 <= x < i by {
                if !before.contains(x) && x != d {
                    assert(ancestors(nodes, d).contains(x));
                }
            }
        } else {
            assert(r == before);
        }
    } else {
        assert(r == Set::<int>::empty());
    }
}

/// The buffers `node` touches, with the access the hazard check must assume.
fn accesses(node: &Node) -> (r: Vec<(u64, Access)>)
    ensures
        r@ == node_accesses(*node),
{
    match &node.kind {
        NodeKind::Upload { target, .. } => {
            let mut r: Vec<(u64, Access)> = Vec::new();
            r.push((target.buffer, Access::ReadWrite));
            proof {
                assert(r@ =~= node_accesses(*node));
            }
            r
        },
        NodeKind::Dispatch(dispatch) => binding_access_list(&dispatch.bindings),
        NodeKind::DispatchIndirect { dispatch, args } => {
            let mut r = binding_access_list(&dispatch.bindings);
            r.push((args.buffer, Access::ReadOnly));
            r
        },
        NodeKind::Readback { source, .. } => {
            let mut r: Vec<(u64, Access)> = Vec::new();
            r.push((source.buffer, Access::ReadOnly));
            proof {
                assert(r@ =~= node_accesses(*node));
            }
            r
        },
    }
}

fn binding_access_list(bindings: &Vec<BufferBinding>) -> (r: Vec<(u64, Access)>)
    ensures
        r@ == binding_accesses(bindings@),
{
    let mut r: Vec<(u64, Access)> = Vec::new();
    let mut i: usize = 0;
    while i < bindings.len()
        invariant
            i <= bindings@.len(),
            r@ == binding_accesses(bindings@.subrange(0, i as int)),
        decreases bindings@.len() - i,
    {
        r.push((bindings[i].buffer, bindings[i].access));
        proof {
            assert(r@ =~= binding_accesses(bindings@.subrange(0, i + 1)));
        }
        i = i + 1;
    }
    proof {
        assert(bindings@.subrange(0, bindings@.len() as int) =~= bindings@);
    }
    r
}

/// Whether `node` touches `buffer` in a way that conflicts with `access`.
fn conflicts_with(node: &Node, buffer: u64, access: Access) -> (r: bool)
    ensures
        r == conflicts(*node, buffer, access),
{
    let list = accesses(node);
    let mut k: usize = 0;
    while k < list.len()
        invariant
            k <= list@.len(),
            list@ == node_accesses(*node),
            forall|j: int| 0 <= j < k ==> !((#[trigger] list@[j]).0 == buffer && (access == Access::ReadWrite
                || list@[j].1 == Access::ReadWrite)),
        decreases list@.len() - k,
    {
        let (other, other_access) = list[k];
        if other == buffer && (access == Access::ReadWrite || other_access == Access::ReadWrite) {
            return true;
        }
        k = k + 1;
    }
    false
}

/// Whether `layout` can hold indirect dispatch arguments.
pub fn is_indirect_args_layout(layout: TypeLayout) -> (r: bool)
    ensures
        r == indirect_args_layout(layout),
{
    match layout.kind {
        TypeLayoutKind::Struct(fields) => {
            if fields.len() != 3 {
                return false;
            }
            let mut k: usize = 0;
            while k < 3
                invariant
                    layout.kind == TypeLayoutKind::Struct(fields),
                    fields@.len() == 3,
                    k <= 3,
                    forall|j: int| 0 <= j < k ==> (#[trigger] fields@[j]).ty.kind
                        == TypeLayoutKind::Scalar(ScalarKind::U32),
                decreases 3 - k,
            {
                match fields[k].ty.kind {
                    TypeLayoutKind::Scalar(ScalarKind::U32) => {},
                    _ => {
                        proof {
                            assert(fields@[k as int].ty.kind != TypeLayoutKind::Scalar(ScalarKind::U32));
                        }
                        return false;
                    },
                }
                k = k + 1;
            }
            true
        },
        TypeLayoutKind::Scalar(_) => false,
    }
}

/// A string holding `t`.
fn owned(t: &str) -> (r: String)
    ensures
        r@ == t@,
{
    t.to_owned()
}

/// Checks one node on device `device_id`, apart from its edges.
fn check_kind(node: &Node, device_id: u64) -> (r: Result<(), Error>)
    ensures
        match kind_fault(*node, device_id) {
            None => r is Ok,
            Some(f) => r matches Err(e) && reports_graph_fault(e, GraphFault::Node(f)),
        },
{
    match &node.kind {
        NodeKind::Upload { target, element_count, .. } => {
            if target.device_id != device_id {
                return Err(Error::ForeignPersistentBuffer);
            }
            if target.len != *element_count {
                return Err(Error::PersistentBufferLength { expected: target.len, actual: *element_count });
            }
            Ok(())
        },
        NodeKind::Dispatch(dispatch) => {
            validate_persistent_dispatch(
                device_id,
                &dispatch.kernel,
                dispatch.element_count,
                dispatch.bindings.as_slice(),
            )?;
            Ok(())
        },
        NodeKind::DispatchIndirect { dispatch, args } => {
            if args.device_id != device_id {
                return Err(Error::ForeignPersistentBuffer);
            }
            if !args.indirect || !is_indirect_args_layout(args.layout) || args.len == 0 {
                return Err(Error::IndirectArgsLayout(args.layout.name));
            }
            let resources = validate_persistent_dispatch(
                device_id,
                &dispatch.kernel,
                1,
                dispatch.bindings.as_slice(),
            )?;
            let ghost rs = resources@;
            let ghost bs = dispatch.bindings@;
            let mut k: usize = 0;
            while k < resources.len()
                invariant
                    rs == resources@,
                    bs == dispatch.bindings@,
                    resources@.len() == dispatch.bindings@.len(),
                    k <= resources@.len(),
                    indirect_binding_fault(rs, bs, 0) == indirect_binding_fault(rs, bs, k as int),
                    kind_fault(*node, device_id) == (match indirect_binding_fault(rs, bs, 0) {
                        Some(p) => Some(NodeFault::IndirectBinding(p)),
                        None => None::<NodeFault>,
                    }),
                decreases resources@.len() - k,
            {
                let binding = dispatch.bindings[k];
                if !binding.independent_length || binding.len == 0 {
                    return Err(Error::IndirectBindingLength { parameter: owned(resources[k].name) });
                }
                k = k + 1;
            }
            Ok(())
        },
        NodeKind::Readback { source, .. } => {
            if source.device_id != device_id {
                return Err(Error::ForeignPersistentBuffer);
            }
            if source.buffer_access != GpuBufferAccess::ReadWrite {
                return Err(Error::PersistentBufferNotReadable);
            }
            Ok(())
        },
    }
}

impl StagedGraph {
    /// Checks the declared edges and every node before any GPU object is
    /// created: dependencies point to earlier nodes, each node is acceptable
    /// on device `device_id`, and every earlier conflicting access to a buffer
    /// a node touches comes from a node it depends on.
    pub fn validate(&self, device_id: u64) -> (r: Result<(), Error>)
        ensures
            match graph_fault(self.view(), 0, device_id) {
                None => r is Ok,
                Some(f) => r matches Err(e) && reports_graph_fault(e, f),
            },
    {
        let ghost nodes = self.nodes@;
        let mut ancestor_sets: Vec<Vec<bool>> = Vec::new();
        let mut index: usize = 0;
        while index < self.nodes.len()
            invariant
                nodes == self.nodes@,
                index <= nodes.len(),
                ancestor_sets@.len() == index,
                forall|j: int, x: int| 0 <= j < index && 0 <= x < j ==> (#[trigger] ancestor_sets@[j]@[x])
                    == ancestors(nodes, j).contains(x),
                forall|j: int| 0 <= j < index ==> (#[trigger] ancestor_sets@[j]@.len()) == j,
                graph_fault(nodes, 0, device_id) == graph_fault(nodes, index as int, device_id),
            decreases nodes.len() - index,
        {
            let node = &self.nodes[index];
            let reachable = self.reach(&ancestor_sets, index)?;
            check_kind(node, device_id)?;
            self.check_hazards(index, &reachable)?;
            proof {
                assert(node_fault(nodes, index as int, device_id) is None);
            }
            ancestor_sets.push(reachable);
            index = index + 1;
        }
        Ok(())
    }

    /// The ancestors of node `index`, from those of the nodes before it, or
    /// the first dependency that is not an earlier node.
    fn reach(&self, ancestor_sets: &Vec<Vec<bool>>, index: usize) -> (r: Result<Vec<bool>, Error>)
        requires
            index < self.view().len(),
            ancestor_sets@.len() == index,
            forall|j: int, x: int| 0 <= j < index && 0 <= x < j ==> (#[trigger] ancestor_sets@[j]@[x])
                == ancestors(self.view(), j).contains(x),
            forall|j: int| 0 <= j < index ==> (#[trigger] ancestor_sets@[j]@.len()) == j,
        ensures
            match order_fault(self.view(), index as int, 0) {
                Some(d) => r matches Err(e) && reports_graph_fault(e, GraphFault::Order(index as int, d)),
                None => r matches Ok(v) && v@.len() == index && forall|x: int|
                    0 <= x < index ==> v@[x] == ancestors(self.view(), index as int).contains(x),
            },
    {
        let ghost nodes = self.nodes@;
        let node = &self.nodes[index];
        let mut reachable: Vec<bool> = Vec::new();
        let mut x: usize = 0;
        while x < index
            invariant
                x <= index,
                reachable@.len() == x,
                forall|y: int| 0 <= y < x ==> !(#[trigger] reachable@[y]),
            decreases index - x,
        {
            reachable.push(false);
            x = x + 1;
        }
        proof {
            lemma_ancestors_earlier(nodes, index as int);
        }
        let mut k: usize = 0;
        while k < node.dependencies.len()
            invariant
                nodes == self.nodes@,
                index < nodes.len(),
                *node == nodes[index as int],
                k <= node.dependencies@.len(),
                reachable@.len() == index,
                ancestor_sets@.len() == index,
                forall|j: int, y: int| 0 <= j < index && 0 <= y < j ==> (#[trigger] ancestor_sets@[j]@[y])
                    == ancestors(nodes, j).contains(y),
                forall|j: int| 0 <= j < index ==> (#[trigger] ancestor_sets@[j]@.len()) == j,
                forall|y: int| 0 <= y < index ==> (#[trigger] reachable@[y]) == reached_through(
                    nodes,
                    index as int,
                    k as int,
                ).contains(y),
                order_fault(nodes, index as int, 0) == order_fault(nodes, index as int, k as int),
            decreases node.dependencies@.len() - k,
        {
            let d = node.dependencies[k].index();
            if d >= index {
                return Err(Error::GraphDependencyOrder { node: index, dependency: d });
            }
            let ghost before = reached_through(nodes, index as int, k as int);
            proof {
                lemma_ancestors_earlier(nodes, d as int);
                assert(reached_through(nodes, index as int, k + 1) == before.insert(d as int).union(
                    ancestors(nodes, d as int),
                ));
            }
            reachable.set(d, true);
            let inherited = &ancestor_sets[d];
            let mut e: usize = 0;
            while e < inherited.len()
                invariant
                    inherited@.len() == d,
                    d < index,
                    e <= d,
                    reachable@.len() == index,
                    forall|y: int| 0 <= y < d ==> (#[trigger] inherited@[y]) == ancestors(nodes, d as int).contains(y),
                    forall|y: int| 0 <= y < index ==> (#[trigger] reachable@[y]) == (before.contains(y)
                        || y == d || (y < e && inherited@[y])),
                decreases d - e,
            {
                if inherited[e] {
                    reachable.set(e, true);
                }
                e = e + 1;
            }
            proof {
                assert forall|y: int| 0 <= y < index implies (#[trigger] reachable@[y]) == reached_through(
                    nodes,
                    index as int,
                    k + 1,
                ).contains(y) by {
                    if y >= d && ancestors(nodes, d as int).contains(y) {
                        assert(y < d);
                    }
                }
            }
            k = k + 1;
        }
        proof {
            assert(ancestors(nodes, index as int) == reached_through(
                nodes,
                index as int,
                node.dependencies@.len() as int,
            ));
        }
        Ok(reachable)
    }

    /// Checks that every earlier conflicting access to a buffer node `index`
    /// touches comes from a node it depends on (those marked in `reachable`).
    fn check_hazards(&self, index: usize, reachable: &Vec<bool>) -> (r: Result<(), Error>)
        requires
            index < self.view().len(),
            reachable@.len() == index,
            forall|x: int| 0 <= x < index ==> reachable@[x] == ancestors(self.view(), index as int).contains(x),
        ensures
            match missing_dependency(self.view(), index as int, 0) {
                Some(e) => r matches Err(err) && reports_graph_fault(err, GraphFault::Missing(index as int, e)),
                None => r is Ok,
            },
    {
        let ghost nodes = self.nodes@;
        let list = accesses(&self.nodes[index]);
        let mut a: usize = 0;
        while a < list.len()
            invariant
                nodes == self.nodes@,
                index < nodes.len(),
                list@ == node_accesses(nodes[index as int]),
                a <= list@.len(),
                reachable@.len() == index,
                forall|x: int| 0 <= x < index ==> reachable@[x] == ancestors(nodes, index as int).contains(x),
                missing_dependency(nodes, index as int, 0) == missing_dependency(nodes, index as int, a as int),
            decreases list@.len() - a,
        {
            let (buffer, access) = list[a];
            let mut earlier: usize = 0;
            while earlier < index
                invariant
                    nodes == self.nodes@,
                    index < nodes.len(),
                    earlier <= index,
                    reachable@.len() == index,
                    forall|x: int| 0 <= x < index ==> reachable@[x] == ancestors(nodes, index as int).contains(x),
                    unordered_producer(nodes, index as int, buffer, access, 0) == unordered_producer(
                        nodes,
                        index as int,
                        buffer,
                        access,
                        earlier as int,
                    ),
                    list@ == node_accesses(nodes[index as int]),
                    a < list@.len(),
                    list@[a as int] == (buffer, access),
                    missing_dependency(nodes, index as int, 0) == missing_dependency(nodes, index as int, a as int),
                decreases index - earlier,
            {
                if conflicts_with(&self.nodes[earlier], buffer, access) && !reachable[earlier] {
                    return Err(Error::GraphMissingDependency { node: index, producer: earlier });
                }
                earlier = earlier + 1;
            }
            a = a + 1;
        }
        Ok(())
    }
}

// ---------------------------------------------------------------------------
// What stays resident.
// ---------------------------------------------------------------------------

/// The bindings of a dispatch node; none for a transfer node.
pub open spec fn dispatch_bindings(node: Node) -> Seq<BufferBinding> {
    match node.kind {
        NodeKind::Dispatch(d) => d.bindings@,
        NodeKind::DispatchIndirect { dispatch, .. } => dispatch.bindings@,
        _ => Seq::empty(),
    }
}

/// The dispatch bindings of `nodes[..i]`, in order.
pub open spec fn bindings_upto(nodes: Seq<Node>, i: int) -> Seq<BufferBinding>
    decreases i,
{
    if i <= 0 || i > nodes.len() {
        Seq::empty()
    } else {
        bindings_upto(nodes, i - 1) + dispatch_bindings(nodes[i - 1])
    }
}

/// The buffer a transfer node moves; none for a dispatch node.
pub open spec fn transferred_buffer(node: Node) -> Option<u64> {
    match node.kind {
        NodeKind::Upload { target, .. } => Some(target.buffer),
        NodeKind::Readback { source, .. } => Some(source.buffer),
        _ => None,
    }
}

/// Some node of `nodes` uploads or reads back `buffer`.
pub open spec fn is_transferred(nodes: Seq<Node>, buffer: u64) -> bool {
    exists|i: int| 0 <= i < nodes.len() && transferred_buffer(#[trigger] nodes[i]) == Some(buffer)
}

/// Over the bindings `bs`, the bytes of the buffers that no transfer of
/// `nodes` moves, each buffer counted once, and the buffers counted so far.
pub open spec fn resident_of(nodes: Seq<Node>, bs: Seq<BufferBinding>) -> (int, Set<u64>)
    decreases bs.len(),
{
    if bs.len() == 0 {
        (0, Set::empty())
    } else {
        let (total, seen) = resident_of(nodes, bs.drop_last());
        let b = bs.last();
        if is_transferred(nodes, b.buffer) || seen.contains(b.buffer) {
            (total, seen)
        } else {
            (total + b.spec_byte_len(), seen.insert(b.buffer))
        }
    }
}

/// Bytes of buffers touched by dispatches but by no transfer of the graph.
pub open spec fn resident_total(nodes: Seq<Node>) -> int {
    resident_of(nodes, bindings_upto(nodes, nodes.len() as int)).0
}

/// Counting more bindings never lowers the total.
pub proof fn lemma_resident_grows(nodes: Seq<Node>, bs: Seq<BufferBinding>, n: int)
    requires
        0 <= n <= bs.len(),
    ensures
        0 <= resident_of(nodes, bs.subrange(0, n)).0 <= resident_of(nodes, bs).0,
    decreases bs.len(),
{
    if n == bs.len() {
        assert(bs.subrange(0, n) =~= bs);
        lemma_resident_nonneg(nodes, bs);
    } else {
        assert(bs.drop_last().subrange(0, n) =~= bs.subrange(0, n));
        lemma_resident_grows(nodes, bs.drop_last(), n);
    }
}

pub proof fn lemma_resident_nonneg(nodes: Seq<Node>, bs: Seq<BufferBinding>)
    ensures
        0 <= resident_of(nodes, bs).0,
    decreases bs.len(),
{
    if bs.len() > 0 {
        lemma_resident_nonneg(nodes, bs.drop_last());
    }
}

/// The dispatch bindings of `nodes[..i]` are a prefix of all of them.
pub proof fn lemma_bindings_prefix(nodes: Seq<Node>, i: int)
    requires
        0 <= i <= nodes.len(),
    ensures
        bindings_upto(nodes, i).len() <= bindings_upto(nodes, nodes.len() as int).len(),
        bindings_upto(nodes, nodes.len() as int).subrange(0, bindings_upto(nodes, i).len() as int)
            == bindings_upto(nodes, i),
    decreases nodes.len() - i,
{
    if i < nodes.len() {
        lemma_bindings_prefix(nodes, i + 1);
        let all = bindings_upto(nodes, nodes.len() as int);
        let next = bindings_upto(nodes, i + 1);
        assert(next == bindings_upto(nodes, i) + dispatch_bindings(nodes[i]));
        assert(all.subrange(0, bindings_upto(nodes, i).len() as int) =~= next.subrange(
            0,
            bindings_upto(nodes, i).len() as int,
        ));
    }
}

/// Whether `id` is among `ids`.
fn contains_id(ids: &Vec<u64>, id: u64) -> (r: bool)
    ensures
        r == ids@.contains(id),
{
    let mut i: usize = 0;
    while i < ids.len()
        invariant
            i <= ids@.len(),
            forall|j: int| 0 <= j < i ==> ids@[j] != id,
        decreases ids@.len() - i,
    {
        if ids[i] == id {
            proof {
                assert(ids@[i as int] == id);
            }
            return true;
        }
        i = i + 1;
    }
    false
}

impl StagedGraph {
    /// Bytes of buffers touched by dispatches but by no transfer in this
    /// graph, each buffer counted once; `None` when the total does not fit
    /// in a `u64`.
    pub fn resident_bytes(&self) -> (r: Option<u64>)
        ensures
            r is Some <==> resident_total(self.view()) <= u64::MAX,
            r matches Some(v) ==> v == resident_total(self.view()),
    {
        let ghost nodes = self.nodes@;
        let mut transferred: Vec<u64> = Vec::new();
        let mut i: usize = 0;
        while i < self.nodes.len()
            invariant
                nodes == self.nodes@,
                i <= nodes.len(),
                forall|b: u64| transferred@.contains(b) <==> exists|j: int|
                    0 <= j < i && transferred_buffer(#[trigger] nodes[j]) == Some(b),
            decreases nodes.len() - i,
        {
            let ghost before = transferred@;
            match &self.nodes[i].kind {
                NodeKind::Upload { target, .. } => transferred.push(target.buffer),
                NodeKind::Readback { source, .. } => transferred.push(source.buffer),
                _ => {},
            }
            proof {
                let pushed = transferred_buffer(nodes[i as int]);
                assert(transferred@ == (match pushed {
                    Some(x) => before.push(x),
                    None => before,
                }));
                assert forall|b: u64| transferred@.contains(b) <==> exists|j: int|
                    0 <= j < i + 1 && transferred_buffer(#[trigger] nodes[j]) == Some(b) by {
                    if exists|j: int| 0 <= j < i + 1 && transferred_buffer(#[trigger] nodes[j]) == Some(b) {
                        let j = choose|j: int| 0 <= j < i + 1 && transferred_buffer(#[trigger] nodes[j]) == Some(b);
                        if j < i {
                            assert(before.contains(b));
                            let k = choose|k: int| 0 <= k < before.len() && before[k] == b;
                            assert(transferred@[k] == b);
                        } else {
                            assert(transferred@[before.len() as int] == b);
                        }
                    }
                    if transferred@.contains(b) {
                        let k = choose|k: int| 0 <= k < transferred@.len() && transferred@[k] == b;
                        if k < before.len() {
                            assert(before[k] == b);
                            assert(before.contains(b));
                        } else {
                            assert(transferred_buffer(nodes[i as int]) == Some(b));
                        }
                    }
                }
            }
            i = i + 1;
        }
        let ghost all = bindings_upto(nodes, nodes.len() as int);
        let mut seen: Vec<u64> = Vec::new();
        let mut bytes: u64 = 0;
        let mut n: usize = 0;
        while n < self.nodes.len()
            invariant
                nodes == self.nodes@,
                n <= nodes.len(),
                all == bindings_upto(nodes, nodes.len() as int),
                forall|b: u64| transferred@.contains(b) <==> is_transferred(nodes, b),
                bytes == resident_of(nodes, bindings_upto(nodes, n as int)).0,
                forall|b: u64| seen@.contains(b) <==> resident_of(nodes, bindings_upto(nodes, n as int)).1.contains(b),
            decreases nodes.len() - n,
        {
            let bindings: &Vec<BufferBinding> = match &self.nodes[n].kind {
                NodeKind::Dispatch(dispatch) => &dispatch.bindings,
                NodeKind::DispatchIndirect { dispatch, .. } => &dispatch.bindings,
                _ => {
                    proof {
                        assert(bindings_upto(nodes, n + 1) =~= bindings_upto(nodes, n as int));
                    }
                    n = n + 1;
                    continue;
                },
            };
            let ghost prefix = bindings_upto(nodes, n as int);
            proof {
                lemma_bindings_prefix(nodes, n + 1);
                assert(bindings@ == dispatch_bindings(nodes[n as int]));
            }
            let mut k: usize = 0;
            while k < bindings.len()
                invariant
                    nodes == self.nodes@,
                    n < nodes.len(),
                    bindings@ == dispatch_bindings(nodes[n as int]),
                    prefix == bindings_upto(nodes, n as int),
                    all == bindings_upto(nodes, nodes.len() as int),
                    all.subrange(0, (prefix + bindings@).len() as int) == prefix + bindings@,
                    (prefix + bindings@).len() <= all.len(),
                    k <= bindings@.len(),
                    forall|b: u64| transferred@.contains(b) <==> is_transferred(nodes, b),
                    bytes == resident_of(nodes, prefix + bindings@.subrange(0, k as int)).0,
                    forall|b: u64| seen@.contains(b) <==> resident_of(nodes, prefix + bindings@.subrange(0, k as int)).1.contains(b),
                decreases bindings@.len() - k,
            {
                let binding = bindings[k];
                let ghost done = prefix + bindings@.subrange(0, k as int);
                let ghost next = prefix + bindings@.subrange(0, k + 1);
                proof {
                    assert(next.drop_last() =~= done);
                    assert(next.last() == binding);
                }
                if contains_id(&transferred, binding.buffer) || contains_id(&seen, binding.buffer) {
                    k = k + 1;
                    continue;
                }
                proof {
                    let whole = prefix + bindings@;
                    assert(all.subrange(0, next.len() as int) =~= all.subrange(0, whole.len() as int).subrange(
                        0,
                        next.len() as int,
                    ));
                    assert(whole.subrange(0, next.len() as int) =~= next);
                    lemma_resident_grows(nodes, all, next.len() as int);
                    lemma_resident_nonneg(nodes, done);
                    assert(binding.spec_byte_len() >= 0);
                }
                let ghost old_seen = seen@;
                seen.push(binding.buffer);
                proof {
                    let set = resident_of(nodes, next).1;
                    assert(set == resident_of(nodes, done).1.insert(binding.buffer));
                    assert forall|b: u64| seen@.contains(b) <==> set.contains(b) by {
                        if seen@.contains(b) {
                            let j = choose|j: int| 0 <= j < seen@.len() && seen@[j] == b;
                            if j < old_seen.len() {
                                assert(old_seen[j] == b);
                                assert(old_seen.contains(b));
                            }
                        }
                        if set.contains(b) && b != binding.buffer {
                            assert(old_seen.contains(b));
                            let j = choose|j: int| 0 <= j < old_seen.len() && old_seen[j] == b;
                            assert(seen@[j] == b);
                        }
                        if b == binding.buffer {
                            assert(seen@[old_seen.len() as int] == b);
                        }
                    }
                }
                let binding_bytes = match (binding.len as u64).checked_mul(binding.layout.stride as u64) {
                    Some(b) => b,
                    None => return None,
                };
                bytes = match bytes.checked_add(binding_bytes) {
                    Some(total) => total,
                    None => return None,
                };
                k = k + 1;
            }
            proof {
                assert(bindings@.subrange(0, bindings@.len() as int) =~= bindings@);
                assert(bindings_upto(nodes, n + 1) == prefix + bindings@);
            }
            n = n + 1;
        }
        Some(bytes)
    }
}

// ---------------------------------------------------------------------------
// Reports and readbacks of an executed graph.
// ---------------------------------------------------------------------------

/// The bytes moved in direction `d` by `transfers`.
pub open spec fn transferred_bytes(transfers: Seq<TransferRecord>, d: TransferDirection) -> int
    decreases transfers.len(),
{
    if transfers.len() == 0 {
        0
    } else {
        transferred_bytes(transfers.drop_last(), d) + if transfers.last().direction == d {
            transfers.last().bytes as int
        } else {
            0
        }
    }
}

pub proof fn lemma_transferred_grows(transfers: Seq<TransferRecord>, d: TransferDirection, n: int)
    requires
        0 <= n <= transfers.len(),
    ensures
        0 <= transferred_bytes(transfers.subrange(0, n), d) <= transferred_bytes(transfers, d),
    decreases transfers.len(),
{
    if n == transfers.len() {
        assert(transfers.subrange(0, n) =~= transfers);
        lemma_transferred_nonneg(transfers, d);
    } else {
        assert(transfers.drop_last().subrange(0, n) =~= transfers.subrange(0, n));
        lemma_transferred_grows(transfers.drop_last(), d, n);
    }
}

pub proof fn lemma_transferred_nonneg(transfers: Seq<TransferRecord>, d: TransferDirection)
    ensures
        0 <= transferred_bytes(transfers, d),
    decreases transfers.len(),
{
    if transfers.len() > 0 {
        lemma_transferred_nonneg(transfers.drop_last(), d);
    }
}

/// The bytes uploaded and read back by `transfers`.
pub fn transfer_totals(transfers: &Vec<TransferRecord>) -> (r: (u64, u64))
    requires
        transferred_bytes(transfers@, TransferDirection::Upload) <= u64::MAX,
        transferred_bytes(transfers@, TransferDirection::Readback) <= u64::MAX,
    ensures
        r.0 == transferred_bytes(transfers@, TransferDirection::Upload),
        r.1 == transferred_bytes(transfers@, TransferDirection::Readback),
{
    let mut upload: u64 = 0;
    let mut readback: u64 = 0;
    let mut i: usize = 0;
    while i < transfers.len()
        invariant
            i <= transfers@.len(),
            transferred_bytes(transfers@, TransferDirection::Upload) <= u64::MAX,
            transferred_bytes(transfers@, TransferDirection::Readback) <= u64::MAX,
            upload == transferred_bytes(transfers@.subrange(0, i as int), TransferDirection::Upload),
            readback == transferred_bytes(transfers@.subrange(0, i as int), TransferDirection::Readback),
        decreases transfers@.len() - i,
    {
        let t = transfers[i];
        proof {
            assert(transfers@.subrange(0, i + 1).drop_last() =~= transfers@.subrange(0, i as int));
            lemma_transferred_grows(transfers@, TransferDirection::Upload, i + 1);
            lemma_transferred_grows(transfers@, TransferDirection::Readback, i + 1);
        }
        match t.direction {
            TransferDirection::Upload => {
                upload = upload + t.bytes;
            },
            TransferDirection::Readback => {
                readback = readback + t.bytes;
            },
        }
        i = i + 1;
    }
    proof {
        assert(transfers@.subrange(0, transfers@.len() as int) =~= transfers@);
    }
    (upload, readback)
}

// ---------------------------------------------------------------------------
// The plan an execution follows.
// ---------------------------------------------------------------------------

/// What executing one node puts on the GPU queue.
#[derive(Clone, Copy, Debug, PartialEq, Eq, Structural)]
pub enum GraphStep {
    /// Copy `bytes` bytes from host memory into the node's target.
    Upload { bytes: u64 },
    /// One compute pass of `workgroups` workgroups.
    Dispatch { workgroups: u32 },
    /// A dispatch over zero elements: nothing is encoded.
    Skip,
    /// One compute pass whose workgroup count the GPU reads from a buffer.
    DispatchIndirect,
    /// Copy the `bytes` bytes of the node's source back to host memory.
    Readback { bytes: u64 },
}

/// Whether a node can be planned: a dispatch over some elements has a
/// non-zero workgroup width, and a readback's size fits in a `u64`.
pub open spec fn plannable(node: Node) -> bool {
    match node.kind {
        NodeKind::Dispatch(d) => d.element_count > 0 ==> d.kernel.workgroup_size[0] > 0,
        NodeKind::Readback { source, .. } => source.spec_byte_len() <= u64::MAX,
        _ => true,
    }
}

/// The step that executes `node`.
pub open spec fn graph_step(node: Node) -> GraphStep {
    match node.kind {
        NodeKind::Upload { bytes, .. } => GraphStep::Upload { bytes },
        NodeKind::Dispatch(d) => if d.element_count == 0 {
            GraphStep::Skip
        } else {
            GraphStep::Dispatch {
                workgroups: ((d.element_count + d.kernel.workgroup_size[0] - 1)
                    / (d.kernel.workgroup_size[0] as int)) as u32,
            }
        },
        NodeKind::DispatchIndirect { .. } => GraphStep::DispatchIndirect,
        NodeKind::Readback { source, .. } => GraphStep::Readback { bytes: source.spec_byte_len() as u64 },
    }
}

/// The steps that execute `nodes`, one per node, in order.
pub open spec fn graph_steps(nodes: Seq<Node>) -> Seq<GraphStep> {
    nodes.map_values(|node: Node| graph_step(node))
}

impl StagedGraph {
    /// The steps that execute this graph, one per node and in insertion
    /// order; `None` when a node cannot be planned.
    pub fn schedule(&self) -> (r: Option<Vec<GraphStep>>)
        ensures
            r is Some <==> forall|i: int| 0 <= i < self.view().len() ==> plannable(#[trigger] self.view()[i]),
            r matches Some(steps) ==> steps@ == graph_steps(self.view()),
    {
        let mut steps: Vec<GraphStep> = Vec::new();
        let mut i: usize = 0;
        while i < self.nodes.len()
            invariant
                i <= self.nodes@.len(),
                forall|j: int| 0 <= j < i ==> plannable(#[trigger] self.nodes@[j]),
                steps@ == graph_steps(self.nodes@.subrange(0, i as int)),
            decreases self.nodes@.len() - i,
        {
            let step = match &self.nodes[i].kind {
                NodeKind::Upload { bytes, .. } => GraphStep::Upload { bytes: *bytes },
                NodeKind::Dispatch(d) => if d.element_count == 0 {
                    GraphStep::Skip
                } else if d.kernel.workgroup_size[0] == 0 {
                    proof {
                        assert(!plannable(self.view()[i as int]));
                    }
                    return None;
                } else {
                    GraphStep::Dispatch { workgroups: workgroup_count(d.element_count, d.kernel.workgroup_size[0]) }
                },
                NodeKind::DispatchIndirect { .. } => GraphStep::DispatchIndirect,
                NodeKind::Readback { source, .. } => match (source.len as u64).checked_mul(source.layout.stride as u64) {
                    Some(bytes) => GraphStep::Readback { bytes },
                    None => {
                        proof {
                            assert(!plannable(self.view()[i as int]));
                        }
                        return None;
                    },
                },
            };
            proof {
                assert(step == graph_step(self.nodes@[i as int]));
            }
            steps.push(step);
            proof {
                assert(self.nodes@.subrange(0, i + 1) =~= self.nodes@.subrange(0, i as int).push(self.nodes@[i as int]));
                assert(graph_steps(self.nodes@.subrange(0, i + 1)) =~= graph_steps(self.nodes@.subrange(0, i as int)).push(
                    graph_step(self.nodes@[i as int]),
                ));
            }
            i = i + 1;
        }
        proof {
            assert(self.nodes@.subrange(0, i as int) =~= self.nodes@);
        }
        Some(steps)
    }
}

/// The compute passes among `steps`: direct and indirect dispatches.
pub open spec fn dispatch_steps(steps: Seq<GraphStep>) -> int
    decreases steps.len(),
{
    if steps.len() == 0 {
        0
    } else {
        dispatch_steps(steps.drop_last()) + match steps.last() {
            GraphStep::Dispatch { .. } | GraphStep::DispatchIndirect => 1int,
            _ => 0int,
        }
    }
}

/// The indirect dispatches among `steps`.
pub open spec fn indirect_steps(steps: Seq<GraphStep>) -> int
    decreases steps.len(),
{
    if steps.len() == 0 {
        0
    } else {
        indirect_steps(steps.drop_last()) + if steps.last() is DispatchIndirect {
            1int
        } else {
            0int
        }
    }
}

/// The workgroups of the direct dispatches among `steps`.
pub open spec fn step_workgroups(steps: Seq<GraphStep>) -> int
    decreases steps.len(),
{
    if steps.len() == 0 {
        0
    } else {
        step_workgroups(steps.drop_last()) + match steps.last() {
            GraphStep::Dispatch { workgroups } => workgroups as int,
            _ => 0int,
        }
    }
}

/// The transfers of `steps`, as (position of the step, direction, bytes).
pub open spec fn step_transfers(steps: Seq<GraphStep>) -> Seq<(int, TransferDirection, u64)>
    decreases steps.len(),
{
    if steps.len() == 0 {
        Seq::empty()
    } else {
        let i = steps.len() - 1;
        step_transfers(steps.drop_last()) + match steps.last() {
            GraphStep::Upload { bytes } => seq![(i, TransferDirection::Upload, bytes)],
            GraphStep::Readback { bytes } => seq![(i, TransferDirection::Readback, bytes)],
            _ => Seq::empty(),
        }
    }
}

proof fn lemma_step_counts(steps: Seq<GraphStep>)
    ensures
        0 <= indirect_steps(steps) <= dispatch_steps(steps) <= steps.len(),
        0 <= step_workgroups(steps),
    decreases steps.len(),
{
    if steps.len() > 0 {
        lemma_step_counts(steps.drop_last());
    }
}

proof fn lemma_workgroups_grow(steps: Seq<GraphStep>, n: int)
    requires
        0 <= n <= steps.len(),
    ensures
        step_workgroups(steps.subrange(0, n)) <= step_workgroups(steps),
    decreases steps.len(),
{
    if n == steps.len() {
        assert(steps.subrange(0, n) =~= steps);
    } else {
        assert(steps.drop_last().subrange(0, n) =~= steps.subrange(0, n));
        lemma_workgroups_grow(steps.drop_last(), n);
    }
}

/// What executing `steps` reports: the compute passes, the indirect ones
/// among them, the workgroups of the direct ones, and one transfer record
/// per upload and readback, naming the step's position as its node; `None`
/// when the workgroup total does not fit in a `u64`.
pub fn schedule_report(steps: &Vec<GraphStep>) -> (r: Option<(usize, usize, u64, Vec<TransferRecord>)>)
    ensures
        r is Some <==> step_workgroups(steps@) <= u64::MAX,
        r matches Some(report) ==> {
            &&& report.0 == dispatch_steps(steps@)
            &&& report.1 == indirect_steps(steps@)
            &&& report.2 == step_workgroups(steps@)
            &&& report.3@.len() == step_transfers(steps@).len()
            &&& forall|k: int| 0 <= k < report.3@.len() ==> {
                &&& (#[trigger] report.3@[k]).node.spec_index() == step_transfers(steps@)[k].0
                &&& report.3@[k].direction == step_transfers(steps@)[k].1
                &&& report.3@[k].bytes == step_transfers(steps@)[k].2
            }
        },
{
    let mut dispatches: usize = 0;
    let mut indirect: usize = 0;
    let mut workgroups: u64 = 0;
    let mut transfers: Vec<TransferRecord> = Vec::new();
    let mut i: usize = 0;
    while i < steps.len()
        invariant
            i <= steps@.len(),
            dispatches == dispatch_steps(steps@.subrange(0, i as int)),
            indirect == indirect_steps(steps@.subrange(0, i as int)),
            workgroups == step_workgroups(steps@.subrange(0, i as int)),
            transfers@.len() == step_transfers(steps@.subrange(0, i as int)).len(),
            forall|k: int| 0 <= k < transfers@.len() ==> {
                &&& (#[trigger] transfers@[k]).node.spec_index() == step_transfers(steps@.subrange(0, i as int))[k].0
                &&& transfers@[k].direction == step_transfers(steps@.subrange(0, i as int))[k].1
                &&& transfers@[k].bytes == step_transfers(steps@.subrange(0, i as int))[k].2
            },
        decreases steps@.len() - i,
    {
        let ghost prefix = steps@.subrange(0, i as int);
        let ghost next = steps@.subrange(0, i + 1);
        proof {
            assert(next.drop_last() =~= prefix);
            assert(next.last() == steps@[i as int]);
            lemma_step_counts(prefix);
        }
        match steps[i] {
            GraphStep::Upload { bytes } => {
                transfers.push(TransferRecord { node: NodeId(i), direction: TransferDirection::Upload, bytes });
            },
            GraphStep::Readback { bytes } => {
                transfers.push(TransferRecord { node: NodeId(i), direction: TransferDirection::Readback, bytes });
            },
            GraphStep::Dispatch { workgroups: count } => {
                dispatches = dispatches + 1;
                workgroups = match workgroups.checked_add(count as u64) {
                    Some(total) => total,
                    None => {
                        proof {
                            lemma_workgroups_grow(steps@, i + 1);
                        }
                        return None;
                    },
                };
            },
            GraphStep::DispatchIndirect => {
                dispatches = dispatches + 1;
                indirect = indirect + 1;
            },
            GraphStep::Skip => {},
        }
        proof {
            assert(step_transfers(next) =~= step_transfers(prefix) + match next.last() {
                GraphStep::Upload { bytes } => seq![(i as int, TransferDirection::Upload, bytes)],
                GraphStep::Readback { bytes } => seq![(i as int, TransferDirection::Readback, bytes)],
                _ => Seq::empty(),
            });
        }
        i = i + 1;
    }
    proof {
        assert(steps@.subrange(0, i as int) =~= steps@);
    }
    Some((dispatches, indirect, workgroups, transfers))
}

/// Readbacks and the transfer report of one executed graph.
pub struct GraphOutput {
    pub report: GraphReport,
    /// The readbacks, in execution order: node, element layout and bytes.
    pub readbacks: Vec<(NodeId, TypeLayout, Vec<u8>)>,
}

/// The first readback of `node` among `readbacks`.
pub open spec fn find_readback(readbacks: Seq<(NodeId, TypeLayout, Vec<u8>)>, node: NodeId) -> Option<int>
    decreases readbacks.len(),
{
    if readbacks.len() == 0 {
        None
    } else if readbacks[0].0 == node {
        Some(0)
    } else {
        match find_readback(readbacks.drop_first(), node) {
            Some(k) => Some(k + 1),
            None => None,
        }
    }
}

impl GraphOutput {
    pub fn new(report: GraphReport, readbacks: Vec<(NodeId, TypeLayout, Vec<u8>)>) -> (r: Self)
        ensures
            r.report == report,
            r.readback_list() == readbacks@,
    {
        GraphOutput { report, readbacks }
    }

    pub open spec fn readback_list(&self) -> Seq<(NodeId, TypeLayout, Vec<u8>)> {
        self.readbacks@
    }

    /// The bytes read back by `node`, once `expected` is checked to be the
    /// element layout of the buffer the node read.
    pub fn readback_bytes(&self, node: NodeId, expected: TypeLayout) -> (r: Result<&Vec<u8>, Error>)
        ensures
            match find_readback(self.readback_list(), node) {
                None => r matches Err(Error::GraphUnknownReadback(n)) && n == node.spec_index(),
                Some(k) => {
                    let (_, layout, bytes) = self.readback_list()[k];
                    if crate::backend::layouts_equal_within(layout, expected, crate::abi::MAX_LAYOUT_DEPTH as nat) {
                        r matches Ok(b) && b@ == bytes@
                    } else {
                        r matches Err(Error::GraphReadbackType { expected: x, actual: y })
                            && x == layout.name && y == expected.name
                    }
                },
            },
    {
        let ghost list = self.readbacks@;
        let mut i: usize = 0;
        proof {
            assert(list.subrange(0, list.len() as int) =~= list);
        }
        while i < self.readbacks.len()
            invariant
                list == self.readbacks@,
                i <= list.len(),
                find_readback(list, node) == match find_readback(list.subrange(i as int, list.len() as int), node) {
                    Some(k) => Some(k + i),
                    None => None::<int>,
                },
            decreases list.len() - i,
        {
            let ghost rest = list.subrange(i as int, list.len() as int);
            proof {
                assert(rest.drop_first() =~= list.subrange(i + 1, list.len() as int));
            }
            if self.readbacks[i].0 == node {
                let layout = self.readbacks[i].1;
                if !crate::backend::same_layout(layout, expected) {
                    return Err(Error::GraphReadbackType { expected: layout.name, actual: expected.name });
                }
                return Ok(&self.readbacks[i].2);
            }
            i = i + 1;
        }
        Err(Error::GraphUnknownReadback(node.index()))
    }
}

} // verus!
