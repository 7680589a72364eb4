//! What a checked `#[gpu]` module declares to the host: for each kernel its
//! entry point, workgroup size and parameters, with the resource binding of
//! each storage or uniform parameter.
use vstd::prelude::*;
use crate::dialect::{
    KernelAttributeError, ParameterFlavor, flavor_of, is_resource, kernel_options, parameter_flavor,
    spec_kernel_options,
};
use crate::descriptor::{Access, ParameterKind, ResourceBinding};
use crate::rejection::Rejection;
use crate::subset::{Dialect, check_module, module_check};
use crate::syntax::{FnArg, GenericArg, Item, ItemMod, Pat, Ty};

verus! {

/// How one kernel parameter is declared to the host.
#[derive(Debug)]
pub struct ParameterPlan {
    pub name: String,
    /// The parameter's type, as the parser printed its tokens.
    pub rust_type: String,
    pub kind: ParameterKind,
    pub access: Access,
    /// The resource binding of a storage or uniform parameter.
    pub binding: Option<ResourceBinding>,
    /// The element type of a storage buffer, whose layout describes it.
    pub element: Option<String>,
}

/// What one kernel declares to the host.
#[derive(Debug)]
pub struct KernelPlan {
    pub module: String,
    pub name: String,
    /// The prefixed entry point, `gpu_<module>_<kernel>`.
    pub entry_point: String,
    pub workgroup_size: [u32; 3],
    pub parameters: Vec<ParameterPlan>,
}

/// Why a module yields no plan.
#[derive(Debug)]
pub enum ExpandError {
    /// The module is outside the compatibility subset.
    Rejected(Vec<Rejection>),
    KernelAttribute(KernelAttributeError),
    Parameter(ParameterError),
}

/// Why a module yields no plan, as values.
pub enum ExpandFailure {
    Rejected(Seq<Rejection>),
    KernelAttribute(KernelAttributeError),
    Parameter(ParameterError),
}

/// A parameter plan as values.
pub struct PlanModel {
    pub name: Seq<char>,
    pub rust_type: Seq<char>,
    pub kind: ParameterKind,
    pub access: Access,
    pub binding: Option<ResourceBinding>,
    pub element: Option<Seq<char>>,
}

/// A kernel plan as values.
pub struct KernelModel {
    pub module: Seq<char>,
    pub name: Seq<char>,
    pub entry_point: Seq<char>,
    pub workgroup_size: Seq<u32>,
    pub parameters: Seq<PlanModel>,
}

/// Why a parameter list yields no plan.
#[derive(Clone, Copy, PartialEq, Eq, Structural, Debug)]
pub enum ParameterError {
    SelfParameter,
    ParameterName,
    StorageElement,
}

impl ParameterPlan {
    pub open spec fn model(&self) -> PlanModel {
        PlanModel {
            name: self.name@,
            rust_type: self.rust_type@,
            kind: self.kind,
            access: self.access,
            binding: self.binding,
            element: match self.element {
                Some(e) => Some(e@),
                None => None,
            },
        }
    }
}

/// The models of a list of parameter plans.
pub open spec fn plan_models(s: Seq<ParameterPlan>) -> Seq<PlanModel> {
    s.map_values(|p: ParameterPlan| p.model())
}

impl KernelPlan {
    pub open spec fn model(&self) -> KernelModel {
        KernelModel {
            module: self.module@,
            name: self.name@,
            entry_point: self.entry_point@,
            workgroup_size: self.workgroup_size@,
            parameters: plan_models(self.parameters@),
        }
    }
}

impl ParameterError {
    /// The report of this error.
    pub open spec fn spec_message(self) -> Seq<char> {
        match self {
            ParameterError::SelfParameter => "GPU functions cannot use self"@,
            ParameterError::ParameterName => "GPU parameters need identifier names"@,
            ParameterError::StorageElement => "storage parameters need a named element type"@,
        }
    }

    /// The report of this error.
    pub fn message(&self) -> (r: String)
        ensures
            r@ == self.spec_message(),
    {
        match self {
            ParameterError::SelfParameter => String::from_str("GPU functions cannot use self"),
            ParameterError::ParameterName => String::from_str("GPU parameters need identifier names"),
            ParameterError::StorageElement => String::from_str(
                "storage parameters need a named element type",
            ),
        }
    }
}

impl ExpandError {
    /// This error as values.
    pub open spec fn failure(&self) -> ExpandFailure {
        match self {
            ExpandError::Rejected(v) => ExpandFailure::Rejected(v@),
            ExpandError::KernelAttribute(e) => ExpandFailure::KernelAttribute(*e),
            ExpandError::Parameter(e) => ExpandFailure::Parameter(*e),
        }
    }

    /// The report of this error.
    pub open spec fn spec_message(&self) -> Seq<char> {
        match self {
            ExpandError::Rejected(v) => if v@.len() > 0 {
                v@[0].spec_message()
            } else {
                Seq::empty()
            },
            ExpandError::KernelAttribute(e) => e.spec_message(),
            ExpandError::Parameter(e) => e.spec_message(),
        }
    }

    /// The report of this error: for a module outside the subset, its first
    /// rejection.
    pub fn message(&self) -> (r: String)
        ensures
            r@ == self.spec_message(),
    {
        match self {
            ExpandError::Rejected(v) => if v.len() > 0 {
                v[0].message()
            } else {
                String::new()
            },
            ExpandError::KernelAttribute(e) => e.message(),
            ExpandError::Parameter(e) => e.message(),
        }
    }
}

/// The kind and access a parameter of a flavor is declared with.
pub open spec fn declared_as(f: ParameterFlavor) -> (ParameterKind, Access) {
    match f {
        ParameterFlavor::Invocation => (ParameterKind::Invocation, Access::NotApplicable),
        ParameterFlavor::StorageRead => (ParameterKind::Storage, Access::ReadOnly),
        ParameterFlavor::StorageReadWrite => (ParameterKind::Storage, Access::ReadWrite),
        ParameterFlavor::Uniform => (ParameterKind::Uniform, Access::ReadOnly),
        ParameterFlavor::Value => (ParameterKind::Value, Access::NotApplicable),
    }
}

/// The element type of a storage buffer type: the bare name of the first type
/// argument of its last segment.
pub open spec fn storage_element(t: Ty) -> Option<Seq<char>> {
    match t {
        Ty::Path(p) => if p.segments@.len() > 0 && p.segments@.last().args@.len() > 0 {
            match p.segments@.last().args@[0] {
                GenericArg::Type(Ty::Path(e)) => e.ident_view(),
                _ => None,
            }
        } else {
            None
        },
        _ => None,
    }
}

/// The number of resource parameters among `ins[0..n]`.
pub open spec fn resource_count(ins: Seq<FnArg>, n: int) -> nat
    decreases n,
{
    if n <= 0 || n > ins.len() {
        0
    } else {
        resource_count(ins, n - 1) + match ins[n - 1] {
            FnArg::Typed(_, _, t, _) => if is_resource(flavor_of(t)) {
                1nat
            } else {
                0nat
            },
            FnArg::Receiver => 0nat,
        }
    }
}

/// The plans of the parameters `ins[0..n]`: each named, with the text of its
/// type and the kind and access of its flavor; storage and uniform
/// parameters take the bindings `0, 1, 2, ..` of group 0 in order; a storage
/// buffer names its element.
pub open spec fn parameter_plans(ins: Seq<FnArg>, n: int) -> Result<Seq<PlanModel>, ParameterError>
    decreases n,
{
    if n <= 0 || n > ins.len() {
        Ok(seq![])
    } else {
        match parameter_plans(ins, n - 1) {
            Err(e) => Err(e),
            Ok(before) => match ins[n - 1] {
                FnArg::Receiver => Err(ParameterError::SelfParameter),
                FnArg::Typed(_, Pat::Ident { name, .. }, t, text) => {
                    let f = flavor_of(t);
                    let binding = if is_resource(f) {
                        Some(ResourceBinding { group: 0, binding: resource_count(ins, n - 1) as u32 })
                    } else {
                        None
                    };
                    let storage = f == ParameterFlavor::StorageRead || f
                        == ParameterFlavor::StorageReadWrite;
                    if storage && storage_element(t) is None {
                        Err(ParameterError::StorageElement)
                    } else {
                        Ok(
                            before.push(
                                PlanModel {
                                    name: name@,
                                    rust_type: text@,
                                    kind: declared_as(f).0,
                                    access: declared_as(f).1,
                                    binding,
                                    element: if storage {
                                        storage_element(t)
                                    } else {
                                        None
                                    },
                                },
                            ),
                        )
                    }
                },
                FnArg::Typed(_, _, _, _) => Err(ParameterError::ParameterName),
            },
        }
    }
}

proof fn lemma_resource_count_bound(ins: Seq<FnArg>, n: int)
    requires
        0 <= n <= ins.len(),
    ensures
        resource_count(ins, n) <= n,
    decreases n,
{
    if n > 0 {
        lemma_resource_count_bound(ins, n - 1);
    }
}

/// Parameters without a resource between positions `a` and `b` leave the
/// count of resources unchanged.
proof fn lemma_resource_count_flat(ins: Seq<FnArg>, a: int, b: int)
    requires
        0 <= a <= b <= ins.len(),
        forall|m: int| a <= m < b ==> !(#[trigger] ins[m] matches FnArg::Typed(_, _, t, _) && is_resource(flavor_of(t))),
    ensures
        resource_count(ins, b) == resource_count(ins, a),
    decreases b - a,
{
    if a < b {
        lemma_resource_count_flat(ins, a, b - 1);
    }
}

/// The plan of each parameter, with its binding given by the number of
/// resources before it.
proof fn lemma_plans_by_position(ins: Seq<FnArg>, n: int)
    requires
        0 <= n <= ins.len(),
        parameter_plans(ins, n) is Ok,
    ensures
        parameter_plans(ins, n)->Ok_0.len() == n,
        forall|k: int|
            0 <= k < n ==> {
                let p = #[trigger] parameter_plans(ins, n)->Ok_0[k];
                &&& ins[k] matches FnArg::Typed(_, Pat::Ident { name, .. }, t, _)
                &&& p.name == ins[k]->Typed_1->name@
                &&& p.kind == declared_as(flavor_of(ins[k]->Typed_2)).0
                &&& p.access == declared_as(flavor_of(ins[k]->Typed_2)).1
                &&& p.binding == if is_resource(flavor_of(ins[k]->Typed_2)) {
                    Some(ResourceBinding { group: 0, binding: resource_count(ins, k) as u32 })
                } else {
                    None
                }
            },
    decreases n,
{
    if n > 0 {
        lemma_plans_by_position(ins, n - 1);
    }
}

/// Each parameter of a function is planned in order, under its own name,
/// with the kind and access its type declares: a dispatch-thread parameter
/// is an invocation; a read-only buffer is read-only storage and a read-write
/// buffer read-write storage; a uniform is read-only; any other parameter is
/// a plain value. Only storage and uniform parameters are bound, all in
/// group 0, numbered `0, 1, 2, ..` in parameter order.
pub proof fn lemma_planned_parameters(ins: Seq<FnArg>)
    requires
        ins.len() <= u32::MAX,
        parameter_plans(ins, ins.len() as int) is Ok,
    ensures
        ({
            let ps = parameter_plans(ins, ins.len() as int)->Ok_0;
            &&& ps.len() == ins.len()
            &&& forall|k: int|
                0 <= k < ins.len() ==> {
                    &&& #[trigger] ins[k] matches FnArg::Typed(_, Pat::Ident { name, .. }, t, _)
                    &&& ps[k].name == ins[k]->Typed_1->name@
                    &&& (ps[k].kind == ParameterKind::Invocation <==> flavor_of(ins[k]->Typed_2)
                        == ParameterFlavor::Invocation)
                    &&& (ps[k].kind == ParameterKind::Storage <==> (flavor_of(ins[k]->Typed_2)
                        == ParameterFlavor::StorageRead || flavor_of(ins[k]->Typed_2)
                        == ParameterFlavor::StorageReadWrite))
                    &&& (ps[k].kind == ParameterKind::Uniform <==> flavor_of(ins[k]->Typed_2)
                        == ParameterFlavor::Uniform)
                    &&& (ps[k].access == Access::ReadWrite <==> flavor_of(ins[k]->Typed_2)
                        == ParameterFlavor::StorageReadWrite)
                    &&& (ps[k].access == Access::ReadOnly <==> (flavor_of(ins[k]->Typed_2)
                        == ParameterFlavor::StorageRead || flavor_of(ins[k]->Typed_2)
                        == ParameterFlavor::Uniform))
                    &&& (ps[k].binding is Some <==> (ps[k].kind == ParameterKind::Storage || ps[k].kind
                        == ParameterKind::Uniform))
                    &&& (ps[k].binding matches Some(b) ==> b.group == 0)
                }
            &&& forall|k: int|
                0 <= k < ins.len() && ps[k].binding is Some && (forall|j: int| 0 <= j < k ==> #[trigger] ps[j].binding is None)
                    ==> (#[trigger] ps[k].binding)->0.binding == 0
            &&& forall|j: int, k: int|
                0 <= j < k < ins.len() && ps[j].binding is Some && ps[k].binding is Some && (forall|m: int|
                    j < m < k ==> #[trigger] ps[m].binding is None) ==> (#[trigger] ps[k].binding)->0.binding
                    == (#[trigger] ps[j].binding)->0.binding + 1
        }),
{
    let n = ins.len() as int;
    lemma_plans_by_position(ins, n);
    let ps = parameter_plans(ins, n)->Ok_0;
    assert forall|k: int| 0 <= k < n implies (ps[k].binding is Some <==> (#[trigger] ins[k] matches FnArg::Typed(_, _, t, _) && is_resource(flavor_of(t)))) by {
        assert(ps[k] == parameter_plans(ins, n)->Ok_0[k]);
    }
    assert forall|k: int|
        0 <= k < n && ps[k].binding is Some && (forall|j: int| 0 <= j < k ==> #[trigger] ps[j].binding is None)
        implies (#[trigger] ps[k].binding)->0.binding == 0 by {
        assert forall|m: int| 0 <= m < k implies !(#[trigger] ins[m] matches FnArg::Typed(_, _, t, _) && is_resource(flavor_of(t))) by {
            assert(ps[m].binding is None);
        }
        lemma_resource_count_flat(ins, 0, k);
    }
    assert forall|j: int, k: int|
        0 <= j < k < n && ps[j].binding is Some && ps[k].binding is Some && (forall|m: int|
            j < m < k ==> #[trigger] ps[m].binding is None) implies (#[trigger] ps[k].binding)->0.binding
            == (#[trigger] ps[j].binding)->0.binding + 1 by {
        assert forall|m: int| j + 1 <= m < k implies !(#[trigger] ins[m] matches FnArg::Typed(_, _, t, _) && is_resource(flavor_of(t))) by {
            assert(ps[m].binding is None);
        }
        lemma_resource_count_flat(ins, j + 1, k);
        lemma_resource_count_bound(ins, k);
        lemma_resource_count_bound(ins, j);
        assert(ins[j] matches FnArg::Typed(_, _, t, _) && is_resource(flavor_of(t)));
        assert(resource_count(ins, j + 1) == resource_count(ins, j) + 1);
    }
}

/// The plans of a function's parameters.
pub fn parameter_descriptors(ins: &Vec<FnArg>) -> (r: Result<Vec<ParameterPlan>, ParameterError>)
    requires
        ins@.len() <= u32::MAX,
    ensures
        match parameter_plans(ins@, ins@.len() as int) {
            Ok(ps) => r matches Ok(v) && plan_models(v@) == ps,
            Err(e) => r == Err::<Vec<ParameterPlan>, ParameterError>(e),
        },
{
    let mut plans: Vec<ParameterPlan> = Vec::new();
    let mut next: u32 = 0;
    let mut i: usize = 0;
    proof {
        assert(plan_models(plans@) =~= seq![]);
    }
    while i < ins.len()
        invariant
            i <= ins@.len() <= u32::MAX,
            parameter_plans(ins@, i as int) == Ok::<Seq<PlanModel>, ParameterError>(
                plan_models(plans@),
            ),
            next == resource_count(ins@, i as int),
            next <= i,
        decreases ins@.len() - i,
    {
        match &ins[i] {
            FnArg::Receiver => {
                proof {
                    lemma_plans_error_sticks(ins@, i + 1, ins@.len() as int);
                }
                return Err(ParameterError::SelfParameter);
            },
            FnArg::Typed(_, pat, t, text) => {
                let name = match pat {
                    Pat::Ident { name, .. } => name,
                    _ => {
                        proof {
                            lemma_plans_error_sticks(ins@, i + 1, ins@.len() as int);
                        }
                        return Err(ParameterError::ParameterName);
                    },
                };
                let f = parameter_flavor(t);
                let (kind, access) = match f {
                    ParameterFlavor::Invocation => (ParameterKind::Invocation, Access::NotApplicable),
                    ParameterFlavor::StorageRead => (ParameterKind::Storage, Access::ReadOnly),
                    ParameterFlavor::StorageReadWrite => (ParameterKind::Storage, Access::ReadWrite),
                    ParameterFlavor::Uniform => (ParameterKind::Uniform, Access::ReadOnly),
                    ParameterFlavor::Value => (ParameterKind::Value, Access::NotApplicable),
                };
                let resource = f == ParameterFlavor::StorageRead || f
                    == ParameterFlavor::StorageReadWrite || f == ParameterFlavor::Uniform;
                let binding = if resource {
                    Some(ResourceBinding { group: 0, binding: next })
                } else {
                    None
                };
                let storage = f == ParameterFlavor::StorageRead || f
                    == ParameterFlavor::StorageReadWrite;
                let element = if storage {
                    match element_name(t) {
                        Some(e) => Some(e.clone()),
                        None => {
                            proof {
                                lemma_plans_error_sticks(ins@, i + 1, ins@.len() as int);
                            }
                            return Err(ParameterError::StorageElement);
                        },
                    }
                } else {
                    None
                };
                let plan = ParameterPlan { name: name.clone(), rust_type: text.clone(), kind, access, binding, element };
                let ghost before = plans@;
                plans.push(plan);
                proof {
                    assert(plan_models(plans@) =~= plan_models(before).push(plan.model()));
                }
                if resource {
                    next = next + 1;
                }
            },
        }
        i = i + 1;
    }
    Ok(plans)
}

/// The element type's name of a storage buffer type.
fn element_name(t: &Ty) -> (r: Option<&String>)
    ensures
        match r {
            Some(e) => storage_element(*t) == Some(e@),
            None => storage_element(*t) is None,
        },
{
    match t {
        Ty::Path(p) => {
            if p.segments.len() > 0 && p.segments[p.segments.len() - 1].args.len() > 0 {
                match &p.segments[p.segments.len() - 1].args[0] {
                    GenericArg::Type(Ty::Path(e)) => e.get_ident(),
                    _ => None,
                }
            } else {
                None
            }
        },
        _ => None,
    }
}

/// Once a parameter is refused, the plan of every longer prefix is refused
/// the same way.
proof fn lemma_plans_error_sticks(ins: Seq<FnArg>, k: int, m: int)
    requires
        0 <= k <= m <= ins.len(),
        parameter_plans(ins, k) is Err,
    ensures
        parameter_plans(ins, m) == parameter_plans(ins, k),
    decreases m - k,
{
    if m > k {
        lemma_plans_error_sticks(ins, k, m - 1);
    }
}


/// The entry point of a kernel: `gpu_<module>_<kernel>`.
pub open spec fn entry_point_name(module: Seq<char>, name: Seq<char>) -> Seq<char> {
    "gpu_"@ + module + "_"@ + name
}

/// The models of a list of kernel plans.
pub open spec fn kernel_models(s: Seq<KernelPlan>) -> Seq<KernelModel> {
    s.map_values(|k: KernelPlan| k.model())
}

/// The plans of the kernels among `items[0..n]` of the module `module`, in
/// order; functions without `#[kernel]` declare nothing.
pub open spec fn kernels_of(module: Seq<char>, items: Seq<Item>, n: int) -> Result<
    Seq<KernelModel>,
    ExpandFailure,
>
    decreases n,
{
    if n <= 0 || n > items.len() {
        Ok(seq![])
    } else {
        match kernels_of(module, items, n - 1) {
            Err(e) => Err(e),
            Ok(before) => match items[n - 1] {
                Item::Fn(f) => match spec_kernel_options(f.attrs@) {
                    Err(e) => Err(ExpandFailure::KernelAttribute(e)),
                    Ok(None) => Ok(before),
                    Ok(Some(d)) => match parameter_plans(f.sig.inputs@, f.sig.inputs@.len() as int) {
                        Err(e) => Err(ExpandFailure::Parameter(e)),
                        Ok(ps) => Ok(
                            before.push(
                                KernelModel {
                                    module,
                                    name: f.sig.name@,
                                    entry_point: entry_point_name(module, f.sig.name@),
                                    workgroup_size: d,
                                    parameters: ps,
                                },
                            ),
                        ),
                    },
                },
                _ => Ok(before),
            },
        }
    }
}

/// What a module declares to the host: refused when it is outside the
/// compatibility subset, else the plan of each kernel in order.
pub open spec fn expand_model(m: ItemMod) -> Result<Seq<KernelModel>, ExpandFailure> {
    match module_check(Dialect::Compat, m) {
        Err(e) => Err(ExpandFailure::Rejected(e)),
        Ok(()) => kernels_of(m.name@, m.content->0@, m.content->0@.len() as int),
    }
}

/// Whether every function of a module has at most `u32::MAX` parameters.
pub open spec fn parameters_fit(m: ItemMod) -> bool {
    match m.content {
        Some(items) => forall|i: int|
            0 <= i < items@.len() ==> (#[trigger] items@[i] matches Item::Fn(f)
                ==> f.sig.inputs@.len() <= u32::MAX),
        None => true,
    }
}

/// Once a kernel's plan fails, the plans of every longer prefix fail the
/// same way.
proof fn lemma_kernels_error_sticks(module: Seq<char>, items: Seq<Item>, k: int, m: int)
    requires
        0 <= k <= m <= items.len(),
        kernels_of(module, items, k) is Err,
    ensures
        kernels_of(module, items, m) == kernels_of(module, items, k),
    decreases m - k,
{
    if m > k {
        lemma_kernels_error_sticks(module, items, k, m - 1);
    }
}

/// The host declarations of a `#[gpu]` module of the compatibility dialect:
/// each kernel's entry point `gpu_<module>_<kernel>`, workgroup size and
/// parameter plans, in order.
pub fn expand(module: &ItemMod) -> (r: Result<Vec<KernelPlan>, ExpandError>)
    requires
        parameters_fit(*module),
    ensures
        match expand_model(*module) {
            Ok(ks) => r matches Ok(v) && kernel_models(v@) == ks,
            Err(e) => r matches Err(x) && x.failure() == e,
        },
{
    match check_module(Dialect::Compat, module) {
        Err(v) => {
            return Err(ExpandError::Rejected(v));
        },
        Ok(()) => {},
    }
    let items = match &module.content {
        Some(items) => items,
        None => {
            return Err(ExpandError::Rejected(Vec::new()));
        },
    };
    let mut plans: Vec<KernelPlan> = Vec::new();
    let mut i: usize = 0;
    proof {
        assert(kernel_models(plans@) =~= seq![]);
    }
    while i < items.len()
        invariant
            i <= items@.len(),
            parameters_fit(*module),
            module.content == Some(*items),
            expand_model(*module) == kernels_of(module.name@, items@, items@.len() as int),
            kernels_of(module.name@, items@, i as int) == Ok::<Seq<KernelModel>, ExpandFailure>(
                kernel_models(plans@),
            ),
        decreases items@.len() - i,
    {
        if let Item::Fn(f) = &items[i] {
            let options = match kernel_options(f) {
                Err(e) => {
                    proof {
                        lemma_kernels_error_sticks(module.name@, items@, i + 1, items@.len() as int);
                    }
                    return Err(ExpandError::KernelAttribute(e));
                },
                Ok(o) => o,
            };
            if let Some(options) = options {
                proof {
                    assert(items@[i as int] matches Item::Fn(g) && g.sig.inputs@.len() <= u32::MAX);
                }
                let parameters = match parameter_descriptors(&f.sig.inputs) {
                    Err(e) => {
                        proof {
                            lemma_kernels_error_sticks(module.name@, items@, i + 1, items@.len() as int);
                        }
                        return Err(ExpandError::Parameter(e));
                    },
                    Ok(p) => p,
                };
                let mut entry_point = String::from_str("gpu_");
                entry_point.append(module.name.as_str());
                entry_point.append("_");
                entry_point.append(f.sig.name.as_str());
                let plan = KernelPlan {
                    module: module.name.clone(),
                    name: f.sig.name.clone(),
                    entry_point,
                    workgroup_size: options.workgroup_size,
                    parameters,
                };
                let ghost before = plans@;
                plans.push(plan);
                proof {
                    assert(plan.entry_point@ =~= entry_point_name(module.name@, f.sig.name@));
                    assert(kernel_models(plans@) =~= kernel_models(before).push(plan.model()));
                }
            }
        }
        i = i + 1;
    }
    Ok(plans)
}


/// The number of plans among `ps[0..i]` that have a binding.
pub open spec fn bound_count(ps: Seq<PlanModel>, i: int) -> nat
    decreases i,
{
    if i <= 0 || i > ps.len() {
        0
    } else {
        bound_count(ps, i - 1) + if ps[i - 1].binding is Some {
            1nat
        } else {
            0nat
        }
    }
}

/// Counting bindings in a prefix ignores what follows it.
proof fn lemma_bound_count_prefix(ps: Seq<PlanModel>, x: PlanModel, i: int)
    requires
        0 <= i <= ps.len(),
    ensures
        bound_count(ps.push(x), i) == bound_count(ps, i),
        bound_count(ps, i) <= i,
    decreases i,
{
    if i > 0 {
        lemma_bound_count_prefix(ps, x, i - 1);
        assert(ps.push(x)[i - 1] == ps[i - 1]);
    }
}

/// The bindings of the plans of `ins[0..n]`.
proof fn lemma_plans_bindings(ins: Seq<FnArg>, n: int)
    requires
        0 <= n <= ins.len() <= u32::MAX,
        parameter_plans(ins, n) is Ok,
    ensures
        parameter_plans(ins, n)->Ok_0.len() == n,
        resource_count(ins, n) == bound_count(parameter_plans(ins, n)->Ok_0, n),
        forall|i: int|
            0 <= i < n ==> {
                let p = #[trigger] parameter_plans(ins, n)->Ok_0[i];
                &&& p.binding is Some <==> (p.kind == ParameterKind::Storage || p.kind
                    == ParameterKind::Uniform)
                &&& p.binding matches Some(b) ==> b.group == 0 && b.binding == bound_count(
                    parameter_plans(ins, n)->Ok_0,
                    i,
                )
            },
    decreases n,
{
    if n > 0 {
        lemma_plans_bindings(ins, n - 1);
        let before = parameter_plans(ins, n - 1)->Ok_0;
        let ps = parameter_plans(ins, n)->Ok_0;
        let x = ps[n - 1];
        assert(ps == before.push(x));
        lemma_bound_count_prefix(before, x, n - 1);
        assert forall|i: int| 0 <= i < n - 1 implies bound_count(ps, i) == bound_count(before, i) by {
            lemma_bound_count_prefix(before, x, i);
        }
        assert forall|i: int| 0 <= i < n - 1 implies #[trigger] ps[i] == before[i] by {}
    }
}

/// In the plans of a kernel's parameters, exactly the storage and uniform
/// parameters have a binding; the bindings are all in group 0 and numbered
/// `0, 1, 2, ..` in declaration order, so no two parameters share one.
pub proof fn lemma_bindings_consecutive(ins: Seq<FnArg>)
    requires
        ins.len() <= u32::MAX,
        parameter_plans(ins, ins.len() as int) is Ok,
    ensures
        ({
            let ps = parameter_plans(ins, ins.len() as int)->Ok_0;
            &&& ps.len() == ins.len()
            &&& forall|i: int|
                0 <= i < ps.len() ==> (#[trigger] ps[i].binding is Some <==> (ps[i].kind
                    == ParameterKind::Storage || ps[i].kind == ParameterKind::Uniform))
            &&& forall|i: int|
                0 <= i < ps.len() ==> (#[trigger] ps[i].binding matches Some(b) ==> b.group == 0
                    && b.binding == bound_count(ps, i))
            &&& forall|i: int, j: int|
                0 <= i < j < ps.len() && #[trigger] ps[i].binding is Some && #[trigger] ps[j].binding is Some
                    ==> ps[i].binding->0.binding < ps[j].binding->0.binding
        }),
{
    let n = ins.len() as int;
    lemma_plans_bindings(ins, n);
    let ps = parameter_plans(ins, n)->Ok_0;
    assert forall|i: int, j: int|
        0 <= i < j < ps.len() && #[trigger] ps[i].binding is Some && #[trigger] ps[j].binding is Some
            implies ps[i].binding->0.binding < ps[j].binding->0.binding by {
        lemma_bound_count_monotone(ps, i + 1, j);
        assert(ps[i] == parameter_plans(ins, n)->Ok_0[i]);
        assert(ps[j] == parameter_plans(ins, n)->Ok_0[j]);
    }
    assert forall|i: int| 0 <= i < ps.len() implies (#[trigger] ps[i].binding is Some <==> (ps[i].kind
        == ParameterKind::Storage || ps[i].kind == ParameterKind::Uniform)) by {
        assert(ps[i] == parameter_plans(ins, n)->Ok_0[i]);
    }
    assert forall|i: int| 0 <= i < ps.len() implies (#[trigger] ps[i].binding matches Some(b) ==> b.group
        == 0 && b.binding == bound_count(ps, i)) by {
        assert(ps[i] == parameter_plans(ins, n)->Ok_0[i]);
    }
}

/// Bindings counted over a longer prefix are at least as many.
proof fn lemma_bound_count_monotone(ps: Seq<PlanModel>, i: int, j: int)
    requires
        0 <= i <= j <= ps.len(),
    ensures
        bound_count(ps, i) <= bound_count(ps, j),
    decreases j - i,
{
    if j > i {
        lemma_bound_count_monotone(ps, i, j - 1);
    }
}

} // verus!
