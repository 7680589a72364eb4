//! Slang JSON reflection for the restricted scalar/struct storage ABI, and the
//! cross-check of a reflected resource against a host `GpuPod` layout.
//!
//! Slang's JSON omits aggregate size, alignment and buffer stride, so a
//! successful cross-check is explicitly partial evidence, not an upload-safety
//! proof. Only global structured-buffer resources are read; entry-point
//! parameters must be the generated `SV_DispatchThreadID` system value.
use vstd::prelude::*;
use crate::abi::{
    storage_v1_within, GpuPod, ScalarKind, StructFieldLayout, TypeLayout, TypeLayoutKind,
    MAX_LAYOUT_DEPTH,
};
use vstd::layout::{align_of, size_of};
use crate::descriptor::{spec_qualified_name, Access, KernelDescriptor};
use crate::json::{
    array_of, get_of, optional_of, parse_json, text_of, u32_of, Json, JsonModel, Parser,
    element_models,
};
use crate::slang::{self, Target};
use crate::text::{chars_of, decimal, push_decimal};
use vstd::string::StringSliceAdditionalSpecFns;

verus! {

/// Why reflection failed or disagreed with the host layout.
#[derive(Debug)]
pub enum Error {
    Compiler(slang::Error),
    Invalid(String),
    Mismatch(String),
}

/// The resources a compiled kernel declares, as Slang reported them.
#[derive(Debug)]
pub struct Reflection {
    pub target: Target,
    pub resources: Vec<ReflectedResource>,
}

/// One global structured buffer.
#[derive(Debug)]
pub struct ReflectedResource {
    pub name: String,
    pub access: Access,
    pub binding: u32,
    pub space: u32,
    pub element: ReflectedType,
    /// `None` means the compiler did not report a buffer element stride.
    pub element_stride: Option<u32>,
}

/// The element type of a buffer, or of a structure field.
#[derive(Debug)]
pub struct ReflectedType {
    pub name: Option<String>,
    pub size: Option<u32>,
    pub kind: ReflectedTypeKind,
}

#[derive(Debug)]
pub enum ReflectedTypeKind {
    Scalar(ScalarKind),
    Struct(Vec<ReflectedField>),
}

/// One structure field with its compiler-reported placement.
#[derive(Debug)]
pub struct ReflectedField {
    pub name: String,
    pub offset: u32,
    pub size: u32,
    pub ty: ReflectedType,
}

/// What a cross-check established. `Ok` is not confirmation of a complete ABI
/// match: the flags say which parts of the layout the compiler reported.
#[derive(Clone, Copy, Debug, PartialEq, Eq, Structural)]
pub struct PodCrossCheck {
    pub checked_fields: usize,
    pub aggregate_size_verified: bool,
    pub element_stride_verified: bool,
    pub alignment_verified: bool,
}

impl PodCrossCheck {
    /// Whether size, stride and alignment were all confirmed by the compiler.
    pub fn is_full_abi_match(&self) -> (r: bool)
        ensures
            r == (self.aggregate_size_verified && self.element_stride_verified
                && self.alignment_verified),
    {
        self.aggregate_size_verified && self.element_stride_verified && self.alignment_verified
    }
}

// ---------------------------------------------------------------------------
// Mathematical values of reflected types.
// ---------------------------------------------------------------------------

pub enum KindModel {
    Scalar(ScalarKind),
    Struct(Seq<FieldModel>),
}

pub struct TypeModel {
    pub name: Option<Seq<char>>,
    pub size: Option<u32>,
    pub kind: KindModel,
}

pub struct FieldModel {
    pub name: Seq<char>,
    pub offset: u32,
    pub size: u32,
    pub ty: TypeModel,
}

pub struct ResourceModel {
    pub name: Seq<char>,
    pub access: Access,
    pub binding: u32,
    pub space: u32,
    pub element: TypeModel,
    pub element_stride: Option<u32>,
}

pub open spec fn opt_text(s: Option<String>) -> Option<Seq<char>> {
    match s {
        Some(t) => Some(t@),
        None => None,
    }
}

impl ReflectedType {
    pub open spec fn model(&self) -> TypeModel
        decreases self,
    {
        TypeModel {
            name: opt_text(self.name),
            size: self.size,
            kind: match self.kind {
                ReflectedTypeKind::Scalar(k) => KindModel::Scalar(k),
                ReflectedTypeKind::Struct(fields) => KindModel::Struct(
                    Seq::new(
                        fields@.len(),
                        |i: int|
                            if 0 <= i < fields@.len() {
                                proof {
                                    broadcast use vstd::std_specs::vec::axiom_vec_decreases_to_view;
                                    assert(decreases_to!(self.kind => fields));
                                    assert(decreases_to!(fields => fields@));
                                    assert(decreases_to!(fields@ => fields@[i]));
                                }
                                FieldModel {
                                    name: fields@[i].name@,
                                    offset: fields@[i].offset,
                                    size: fields@[i].size,
                                    ty: fields@[i].ty.model(),
                                }
                            } else {
                                FieldModel {
                                    name: Seq::empty(),
                                    offset: 0,
                                    size: 0,
                                    ty: TypeModel { name: None, size: None, kind: KindModel::Struct(Seq::empty()) },
                                }
                            },
                    ),
                ),
            },
        }
    }
}

impl ReflectedResource {
    pub open spec fn model(&self) -> ResourceModel {
        ResourceModel {
            name: self.name@,
            access: self.access,
            binding: self.binding,
            space: self.space,
            element: self.element.model(),
            element_stride: self.element_stride,
        }
    }
}

/// The models of `fields`.
pub open spec fn field_models(fields: Seq<ReflectedField>) -> Seq<FieldModel> {
    Seq::new(
        fields.len(),
        |i: int| FieldModel {
            name: fields[i].name@,
            offset: fields[i].offset,
            size: fields[i].size,
            ty: fields[i].ty.model(),
        },
    )
}

/// The models of `resources`.
pub open spec fn resource_models(resources: Seq<ReflectedResource>) -> Seq<ResourceModel> {
    Seq::new(resources.len(), |i: int| resources[i].model())
}

pub proof fn lemma_struct_model(t: ReflectedType)
    requires
        t.kind is Struct,
    ensures
        t.model().kind == KindModel::Struct(field_models(t.kind->Struct_0@)),
{
    if let KindModel::Struct(s) = t.model().kind {
        assert(s =~= field_models(t.kind->Struct_0@));
    }
}

// ---------------------------------------------------------------------------
// Reading reflected types.
// ---------------------------------------------------------------------------

/// The string member `key`.
pub open spec fn text_at(j: JsonModel, key: Seq<char>) -> Result<Seq<char>, Seq<char>> {
    match get_of(j, key) {
        Err(e) => Err(e),
        Ok(v) => text_of(v),
    }
}

/// The unsigned integer member `key`.
pub open spec fn u32_at(j: JsonModel, key: Seq<char>) -> Result<u32, Seq<char>> {
    match get_of(j, key) {
        Err(e) => Err(e),
        Ok(v) => u32_of(v),
    }
}

/// The optional string member `key`.
pub open spec fn optional_text_at(j: JsonModel, key: Seq<char>) -> Result<Option<Seq<char>>, Seq<char>> {
    match optional_of(j, key) {
        Err(e) => Err(e),
        Ok(None) => Ok(None),
        Ok(Some(v)) => match text_of(v) {
            Err(e) => Err(e),
            Ok(t) => Ok(Some(t)),
        },
    }
}

/// The scalar a Slang `scalarType` names.
pub open spec fn scalar_of(name: Seq<char>) -> Result<ScalarKind, Seq<char>> {
    if name == "float32"@ {
        Ok(ScalarKind::F32)
    } else if name == "int32"@ {
        Ok(ScalarKind::I32)
    } else if name == "uint32"@ {
        Ok(ScalarKind::U32)
    } else {
        Err("unsupported scalar type"@)
    }
}

/// A field named `name` is among `fields`.
pub open spec fn has_field(fields: Seq<FieldModel>, name: Seq<char>) -> bool {
    exists|i: int| 0 <= i < fields.len() && (#[trigger] fields[i]).name == name
}

/// The element type described by the reflection value `j`.
pub open spec fn read_type_of(j: JsonModel) -> Result<TypeModel, Seq<char>>
    decreases j, 0int,
{
    let kind: Result<KindModel, Seq<char>> = match text_at(j, "kind"@) {
        Err(e) => Err(e),
        Ok(kind) => if kind == "scalar"@ {
            match text_at(j, "scalarType"@) {
                Err(e) => Err(e),
                Ok(t) => match scalar_of(t) {
                    Err(e) => Err(e),
                    Ok(k) => Ok(KindModel::Scalar(k)),
                },
            }
        } else if kind == "struct"@ {
            match get_of(j, "fields"@) {
                Err(e) => Err(e),
                Ok(list) => match array_of(list) {
                    Err(e) => Err(e),
                    Ok(elements) => {
                        proof {
                            crate::json::lemma_get_decreases(j, "fields"@);
                            assert(decreases_to!(list => elements));
                        }
                        match fields_of(elements, 0, Seq::empty()) {
                            Err(e) => Err(e),
                            Ok(fields) => if fields.len() == 0 {
                                Err("empty struct layout"@)
                            } else {
                                Ok(KindModel::Struct(fields))
                            },
                        }
                    },
                },
            }
        } else {
            Err("unsupported element type (only 32-bit scalars and structs)"@)
        },
    };
    match kind {
        Err(e) => Err(e),
        Ok(kind) => match optional_text_at(j, "name"@) {
            Err(e) => Err(e),
            Ok(name) => Ok(TypeModel { name, size: None, kind }),
        },
    }
}

/// The structure fields `elements[i..]`, after the fields `acc`.
pub open spec fn fields_of(elements: Seq<JsonModel>, i: int, acc: Seq<FieldModel>) -> Result<Seq<FieldModel>, Seq<char>>
    decreases elements, elements.len() - i,
{
    if !(0 <= i < elements.len()) {
        Ok(acc)
    } else {
        let field = elements[i];
        match text_at(field, "name"@) {
            Err(e) => Err(e),
            Ok(name) => if has_field(acc, name) {
                Err("duplicate struct field"@)
            } else {
                match get_of(field, "binding"@) {
                    Err(e) => Err(e),
                    Ok(binding) => match text_at(binding, "kind"@) {
                        Err(e) => Err(e),
                        Ok(category) => if category != "uniform"@ {
                            Err("unsupported field layout category"@)
                        } else {
                            match u32_at(binding, "offset"@) {
                                Err(e) => Err(e),
                                Ok(offset) => match u32_at(binding, "size"@) {
                                    Err(e) => Err(e),
                                    Ok(size) => match get_of(field, "type"@) {
                                        Err(e) => Err(e),
                                        Ok(t) => {
                                            proof {
                                                crate::json::lemma_get_decreases(field, "type"@);
                                                assert(decreases_to!(elements => elements[i]));
                                            }
                                            match read_type_of(t) {
                                                Err(e) => Err(e),
                                                Ok(ty) => fields_of(
                                                    elements,
                                                    i + 1,
                                                    acc.push(FieldModel { name, offset, size, ty }),
                                                ),
                                            }
                                        },
                                    },
                                },
                            }
                        },
                    },
                }
            }
        }
    }
}

/// Whether two texts are equal.
pub fn same_text(a: &str, b: &str) -> (r: bool)
    ensures
        r == (a@ == b@),
{
    let x = chars_of(a);
    let y = chars_of(b);
    if x.len() != y.len() {
        proof {
            assert(x@.len() != y@.len());
        }
        return false;
    }
    let mut i: usize = 0;
    while i < x.len()
        invariant
            x@ == a@,
            y@ == b@,
            x@.len() == y@.len(),
            i <= x@.len(),
            forall|k: int| 0 <= k < i ==> x@[k] == y@[k],
        decreases x@.len() - i,
    {
        if x[i] != y[i] {
            proof {
                assert(x@[i as int] != y@[i as int]);
            }
            return false;
        }
        i = i + 1;
    }
    proof {
        assert(x@ =~= y@);
    }
    true
}

/// A string holding `t`.
fn owned(t: &str) -> (r: String)
    ensures
        r@ == t@,
{
    t.to_owned()
}

/// Whether a field named `name` is among `fields`.
fn has_field_named(fields: &Vec<ReflectedField>, name: &String) -> (r: bool)
    ensures
        r == has_field(field_models(fields@), name@),
{
    let mut i: usize = 0;
    while i < fields.len()
        invariant
            i <= fields@.len(),
            forall|k: int| 0 <= k < i ==> (#[trigger] fields@[k]).name@ != name@,
        decreases fields@.len() - i,
    {
        if fields[i].name == *name {
            proof {
                assert(field_models(fields@)[i as int].name == name@);
            }
            return true;
        }
        i = i + 1;
    }
    proof {
        if has_field(field_models(fields@), name@) {
            let k = choose|k: int| 0 <= k < field_models(fields@).len()
                && (#[trigger] field_models(fields@)[k]).name == name@;
            assert(fields@[k].name@ == name@);
        }
    }
    false
}

/// The element type described by the reflection value `value`.
fn read_type(value: &Json) -> (r: Result<ReflectedType, String>)
    ensures
        match read_type_of(value.model()) {
            Ok(m) => r matches Ok(t) && t.model() == m,
            Err(e) => r matches Err(x) && x@ == e,
        },
    decreases value.model(),
{
    let kind_text = value.get("kind")?.string()?;
    let kind = if same_text(kind_text, "scalar") {
        let scalar = value.get("scalarType")?.string()?;
        let k = if same_text(scalar, "float32") {
            ScalarKind::F32
        } else if same_text(scalar, "int32") {
            ScalarKind::I32
        } else if same_text(scalar, "uint32") {
            ScalarKind::U32
        } else {
            return Err(owned("unsupported scalar type"));
        };
        ReflectedTypeKind::Scalar(k)
    } else if same_text(kind_text, "struct") {
        let list = value.get("fields")?;
        let elements = list.array()?;
        let ghost models = element_models(elements@);
        let mut fields: Vec<ReflectedField> = Vec::new();
        proof {
            crate::json::lemma_get_decreases(value.model(), "fields"@);
            assert(field_models(fields@) =~= Seq::<FieldModel>::empty());
        }
        let mut i: usize = 0;
        while i < elements.len()
            invariant
                i <= elements@.len(),
                models == element_models(elements@),
                list.model() == JsonModel::Array(models),
                decreases_to!(value.model() => list.model()),
                fields_of(models, i as int, field_models(fields@))
                    == fields_of(models, 0, Seq::empty()),
                fields_of(models, 0, Seq::empty()) matches Err(e)
                    ==> read_type_of(value.model()) == Err::<TypeModel, Seq<char>>(e),
            decreases elements@.len() - i,
        {
            let field = &elements[i];
            let name = owned(field.get("name")?.string()?);
            if has_field_named(&fields, &name) {
                return Err(owned("duplicate struct field"));
            }
            let binding = field.get("binding")?;
            if !same_text(binding.get("kind")?.string()?, "uniform") {
                return Err(owned("unsupported field layout category"));
            }
            let offset = binding.get("offset")?.u32()?;
            let size = binding.get("size")?.u32()?;
            let t = field.get("type")?;
            proof {
                crate::json::lemma_element_decreases(list.model(), i as int);
                crate::json::lemma_get_decreases(field.model(), "type"@);
            }
            let ty = read_type(t)?;
            let ghost before = field_models(fields@);
            fields.push(ReflectedField { name, offset, size, ty });
            proof {
                assert(field_models(fields@) =~= before.push(
                    FieldModel { name: name@, offset, size, ty: ty.model() },
                ));
            }
            i = i + 1;
        }
        if fields.len() == 0 {
            return Err(owned("empty struct layout"));
        }
        ReflectedTypeKind::Struct(fields)
    } else {
        return Err(owned("unsupported element type (only 32-bit scalars and structs)"));
    };
    let name = match value.optional("name")? {
        None => None,
        Some(v) => Some(owned(v.string()?)),
    };
    let t = ReflectedType { name, size: None, kind };
    proof {
        if t.kind is Struct {
            lemma_struct_model(t);
        }
    }
    Ok(t)
}

// ---------------------------------------------------------------------------
// Reading a whole reflection document.
// ---------------------------------------------------------------------------

/// Refusal of an entry-point parameter bound to a resource or uniform.
pub open spec fn bound_entry_parameter() -> Seq<char> {
    "entry-point resource/uniform bindings are unsupported"@
}

/// Refusal of an entry-point parameter other than the dispatch thread ID.
pub open spec fn other_entry_parameter() -> Seq<char> {
    "only dispatch-thread-ID entry-point parameters are supported"@
}

/// One entry-point parameter must be the generated `SV_DispatchThreadID`
/// system value: a `uint32` vector of three, bound to nothing.
pub open spec fn entry_parameter_check(param: JsonModel) -> Result<(), Seq<char>> {
    match optional_of(param, "binding"@) {
        Err(e) => Err(e),
        Ok(Some(_)) => Err(bound_entry_parameter()),
        Ok(None) => match optional_of(param, "bindings"@) {
            Err(e) => Err(e),
            Ok(Some(_)) => Err(bound_entry_parameter()),
            Ok(None) => match get_of(param, "type"@) {
                Err(e) => Err(e),
                Ok(ty) => match optional_text_at(param, "semanticName"@) {
                    Err(e) => Err(e),
                    Ok(semantic) => if semantic != Some("SV_DISPATCHTHREADID"@) {
                        Err(other_entry_parameter())
                    } else {
                        match text_at(ty, "kind"@) {
                            Err(e) => Err(e),
                            Ok(kind) => if kind != "vector"@ {
                                Err(other_entry_parameter())
                            } else {
                                match u32_at(ty, "elementCount"@) {
                                    Err(e) => Err(e),
                                    Ok(count) => if count != 3 {
                                        Err(other_entry_parameter())
                                    } else {
                                        match get_of(ty, "elementType"@) {
                                            Err(e) => Err(e),
                                            Ok(element) => match text_at(element, "kind"@) {
                                                Err(e) => Err(e),
                                                Ok(ek) => if ek != "scalar"@ {
                                                    Err(other_entry_parameter())
                                                } else {
                                                    match text_at(element, "scalarType"@) {
                                                        Err(e) => Err(e),
                                                        Ok(st) => if st != "uint32"@ {
                                                            Err(other_entry_parameter())
                                                        } else {
                                                            Ok(())
                                                        },
                                                    }
                                                },
                                            },
                                        }
                                    },
                                }
                            },
                        }
                    },
                },
            },
        },
    }
}

/// The parameters `params[i..]` of one entry point pass the check.
pub open spec fn parameters_check(params: Seq<JsonModel>, i: int) -> Result<(), Seq<char>>
    decreases params.len() - i,
{
    if !(0 <= i < params.len()) {
        Ok(())
    } else {
        match entry_parameter_check(params[i]) {
            Err(e) => Err(e),
            Ok(()) => parameters_check(params, i + 1),
        }
    }
}

/// The entry points `entries[i..]` pass the check.
pub open spec fn entries_check(entries: Seq<JsonModel>, i: int) -> Result<(), Seq<char>>
    decreases entries.len() - i,
{
    if !(0 <= i < entries.len()) {
        Ok(())
    } else {
        match optional_of(entries[i], "parameters"@) {
            Err(e) => Err(e),
            Ok(None) => entries_check(entries, i + 1),
            Ok(Some(list)) => match array_of(list) {
                Err(e) => Err(e),
                Ok(params) => match parameters_check(params, 0) {
                    Err(e) => Err(e),
                    Ok(()) => entries_check(entries, i + 1),
                },
            },
        }
    }
}

/// The entry points of a reflection document, if it lists any, pass the check.
pub open spec fn entry_points_check(root: JsonModel) -> Result<(), Seq<char>> {
    match optional_of(root, "entryPoints"@) {
        Err(e) => Err(e),
        Ok(None) => Ok(()),
        Ok(Some(list)) => match array_of(list) {
            Err(e) => Err(e),
            Ok(entries) => entries_check(entries, 0),
        },
    }
}

/// The access a resource's `access` member names; none means read-only.
pub open spec fn access_of(access: Option<Seq<char>>) -> Result<Access, Seq<char>> {
    match access {
        None => Ok(Access::ReadOnly),
        Some(a) => if a == "read"@ {
            Ok(Access::ReadOnly)
        } else if a == "readWrite"@ {
            Ok(Access::ReadWrite)
        } else {
            Err("unsupported resource access"@)
        },
    }
}

/// A resource in `acc` already has this name, or this binding in this space.
pub open spec fn clashes(acc: Seq<ResourceModel>, name: Seq<char>, index: u32, space: u32) -> bool {
    exists|i: int|
        0 <= i < acc.len() && ((#[trigger] acc[i]).name == name || (acc[i].binding == index
            && acc[i].space == space))
}

/// The global parameter `value`, read after the resources `acc`.
pub open spec fn resource_of(value: JsonModel, acc: Seq<ResourceModel>) -> Result<ResourceModel, Seq<char>> {
    match text_at(value, "name"@) {
        Err(e) => Err(e),
        Ok(name) => match get_of(value, "binding"@) {
            Err(e) => Err(e),
            Ok(binding) => match text_at(binding, "kind"@) {
                Err(e) => Err(e),
                Ok(bk) => if bk != "descriptorTableSlot"@ {
                    Err("unsupported resource binding kind"@)
                } else {
                    match u32_at(binding, "index"@) {
                        Err(e) => Err(e),
                        Ok(index) => {
                            let space = match optional_of(binding, "space"@) {
                                Err(e) => Err(e),
                                Ok(None) => Ok(0u32),
                                Ok(Some(v)) => u32_of(v),
                            };
                            match space {
                                Err(e) => Err(e),
                                Ok(space) => resource_rest(value, binding, name, index, space, acc),
                            }
                        },
                    }
                },
            },
        },
    }
}

/// The rest of `resource_of`, once the binding slot is known.
pub open spec fn resource_rest(
    value: JsonModel,
    binding: JsonModel,
    name: Seq<char>,
    index: u32,
    space: u32,
    acc: Seq<ResourceModel>,
) -> Result<ResourceModel, Seq<char>> {
    match get_of(value, "type"@) {
        Err(e) => Err(e),
        Ok(ty) => {
            let shape = match text_at(ty, "kind"@) {
                Err(e) => Err(e),
                Ok(kind) => if kind != "resource"@ {
                    Err("only structured buffers are supported"@)
                } else {
                    match text_at(ty, "baseShape"@) {
                        Err(e) => Err(e),
                        Ok(shape) => if shape != "structuredBuffer"@ {
                            Err("only structured buffers are supported"@)
                        } else {
                            Ok(())
                        },
                    }
                },
            };
            match shape {
                Err(e) => Err(e),
                Ok(()) => match optional_text_at(ty, "access"@) {
                    Err(e) => Err(e),
                    Ok(a) => match access_of(a) {
                        Err(e) => Err(e),
                        Ok(access) => {
                            let count = match optional_of(binding, "count"@) {
                                Err(e) => Err(e),
                                Ok(None) => Ok(()),
                                Ok(Some(c)) => match u32_of(c) {
                                    Err(e) => Err(e),
                                    Ok(n) => if n != 1 {
                                        Err("binding arrays are unsupported"@)
                                    } else {
                                        Ok(())
                                    },
                                },
                            };
                            match count {
                                Err(e) => Err(e),
                                Ok(()) => if clashes(acc, name, index, space) {
                                    Err("duplicate resource name or binding"@)
                                } else {
                                    match get_of(ty, "resultType"@) {
                                        Err(e) => Err(e),
                                        Ok(rt) => match read_type_of(rt) {
                                            Err(e) => Err(e),
                                            Ok(element) => Ok(
                                                ResourceModel {
                                                    name,
                                                    access,
                                                    binding: index,
                                                    space,
                                                    element,
                                                    element_stride: None,
                                                },
                                            ),
                                        },
                                    }
                                },
                            }
                        },
                    },
                },
            }
        },
    }
}

/// The global parameters `values[i..]`, after the resources `acc`.
pub open spec fn resources_of(values: Seq<JsonModel>, i: int, acc: Seq<ResourceModel>) -> Result<Seq<ResourceModel>, Seq<char>>
    decreases values.len() - i,
{
    if !(0 <= i < values.len()) {
        Ok(acc)
    } else {
        match resource_of(values[i], acc) {
            Err(e) => Err(e),
            Ok(resource) => resources_of(values, i + 1, acc.push(resource)),
        }
    }
}

/// The resources a reflection document declares.
pub open spec fn reflection_of(root: JsonModel) -> Result<Seq<ResourceModel>, Seq<char>> {
    match entry_points_check(root) {
        Err(e) => Err(e),
        Ok(()) => match get_of(root, "parameters"@) {
            Err(e) => Err(e),
            Ok(list) => match array_of(list) {
                Err(e) => Err(e),
                Ok(values) => resources_of(values, 0, Seq::empty()),
            },
        },
    }
}

/// The resources that the reflection JSON text `source` declares.
pub open spec fn spec_from_json(source: Seq<u8>) -> Result<Seq<ResourceModel>, Seq<char>> {
    match parse_json(source) {
        Err(e) => Err(e),
        Ok(root) => reflection_of(root),
    }
}

/// The string member `key` of `j`.
fn text_member<'b>(j: &'b Json, key: &str) -> (r: Result<&'b str, String>)
    ensures
        match text_at(j.model(), key@) {
            Ok(t) => r matches Ok(x) && x@ == t,
            Err(e) => r matches Err(x) && x@ == e,
        },
{
    j.get(key)?.string()
}

/// The unsigned integer member `key` of `j`.
fn u32_member(j: &Json, key: &str) -> (r: Result<u32, String>)
    ensures
        match u32_at(j.model(), key@) {
            Ok(n) => r == Ok::<u32, String>(n),
            Err(e) => r matches Err(x) && x@ == e,
        },
{
    j.get(key)?.u32()
}

/// The optional string member `key` of `j`.
fn optional_text<'b>(j: &'b Json, key: &str) -> (r: Result<Option<&'b str>, String>)
    ensures
        match optional_text_at(j.model(), key@) {
            Ok(None) => r matches Ok(None),
            Ok(Some(t)) => r matches Ok(Some(x)) && x@ == t,
            Err(e) => r matches Err(x) && x@ == e,
        },
{
    match j.optional(key)? {
        None => Ok(None),
        Some(v) => Ok(Some(v.string()?)),
    }
}

/// Checks one entry-point parameter.
fn check_entry_parameter(param: &Json) -> (r: Result<(), String>)
    ensures
        match entry_parameter_check(param.model()) {
            Ok(()) => r is Ok,
            Err(e) => r matches Err(x) && x@ == e,
        },
{
    if param.optional("binding")?.is_some() {
        return Err(owned("entry-point resource/uniform bindings are unsupported"));
    }
    if param.optional("bindings")?.is_some() {
        return Err(owned("entry-point resource/uniform bindings are unsupported"));
    }
    let ty = param.get("type")?;
    let dispatch_id = match optional_text(param, "semanticName")? {
        Some(semantic) => same_text(semantic, "SV_DISPATCHTHREADID"),
        None => false,
    };
    if !dispatch_id || !same_text(text_member(ty, "kind")?, "vector")
        || u32_member(ty, "elementCount")? != 3 {
        return Err(owned("only dispatch-thread-ID entry-point parameters are supported"));
    }
    let element = ty.get("elementType")?;
    if !same_text(text_member(element, "kind")?, "scalar")
        || !same_text(text_member(element, "scalarType")?, "uint32") {
        return Err(owned("only dispatch-thread-ID entry-point parameters are supported"));
    }
    Ok(())
}

/// Checks the entry points of a reflection document.
fn check_entry_points(root: &Json) -> (r: Result<(), String>)
    ensures
        match entry_points_check(root.model()) {
            Ok(()) => r is Ok,
            Err(e) => r matches Err(x) && x@ == e,
        },
{
    let list = match root.optional("entryPoints")? {
        None => {
            return Ok(());
        },
        Some(list) => list,
    };
    let entries = list.array()?;
    let ghost models = element_models(entries@);
    let mut i: usize = 0;
    while i < entries.len()
        invariant
            i <= entries@.len(),
            models == element_models(entries@),
            entries_check(models, i as int) == entries_check(models, 0),
            entry_points_check(root.model()) == entries_check(models, 0),
        decreases entries@.len() - i,
    {
        if let Some(parameters) = entries[i].optional("parameters")? {
            let params = parameters.array()?;
            let ghost pmodels = element_models(params@);
            let mut k: usize = 0;
            while k < params.len()
                invariant
                    i < entries@.len(),
                    k <= params@.len(),
                    pmodels == element_models(params@),
                    optional_of(models[i as int], "parameters"@) == Ok::<Option<JsonModel>, Seq<char>>(
                        Some(parameters.model()),
                    ),
                    array_of(parameters.model()) == Ok::<Seq<JsonModel>, Seq<char>>(pmodels),
                    parameters_check(pmodels, k as int) == parameters_check(pmodels, 0),
                    entries_check(models, i as int) == entries_check(models, 0),
                    entry_points_check(root.model()) == entries_check(models, 0),
                    models == element_models(entries@),
                decreases params@.len() - k,
            {
                check_entry_parameter(&params[k])?;
                k = k + 1;
            }
        }
        i = i + 1;
    }
    Ok(())
}

/// Whether a resource in `resources` has this name, or this binding in this space.
fn clashes_with(resources: &Vec<ReflectedResource>, name: &String, index: u32, space: u32) -> (r: bool)
    ensures
        r == clashes(resource_models(resources@), name@, index, space),
{
    let mut i: usize = 0;
    while i < resources.len()
        invariant
            i <= resources@.len(),
            forall|k: int|
                0 <= k < i ==> !((#[trigger] resources@[k]).name@ == name@ || (resources@[k].binding
                    == index && resources@[k].space == space)),
        decreases resources@.len() - i,
    {
        let other = &resources[i];
        if other.name == *name || (other.binding == index && other.space == space) {
            proof {
                assert(resource_models(resources@)[i as int] == resources@[i as int].model());
            }
            return true;
        }
        i = i + 1;
    }
    proof {
        if clashes(resource_models(resources@), name@, index, space) {
            let k = choose|k: int|
                0 <= k < resource_models(resources@).len() && ((#[trigger] resource_models(
                    resources@,
                )[k]).name == name@ || (resource_models(resources@)[k].binding == index
                    && resource_models(resources@)[k].space == space));
            assert(resource_models(resources@)[k] == resources@[k].model());
        }
    }
    false
}

/// One global parameter, read after `resources`.
fn read_resource(value: &Json, resources: &Vec<ReflectedResource>) -> (r: Result<ReflectedResource, String>)
    ensures
        match resource_of(value.model(), resource_models(resources@)) {
            Ok(m) => r matches Ok(x) && x.model() == m,
            Err(e) => r matches Err(x) && x@ == e,
        },
{
    let name = owned(text_member(value, "name")?);
    let binding = value.get("binding")?;
    if !same_text(text_member(binding, "kind")?, "descriptorTableSlot") {
        return Err(owned("unsupported resource binding kind"));
    }
    let index = u32_member(binding, "index")?;
    let space = match binding.optional("space")? {
        None => 0,
        Some(v) => v.u32()?,
    };
    let ty = value.get("type")?;
    if !same_text(text_member(ty, "kind")?, "resource")
        || !same_text(text_member(ty, "baseShape")?, "structuredBuffer") {
        return Err(owned("only structured buffers are supported"));
    }
    let access = match optional_text(ty, "access")? {
        None => Access::ReadOnly,
        Some(a) => if same_text(a, "read") {
            Access::ReadOnly
        } else if same_text(a, "readWrite") {
            Access::ReadWrite
        } else {
            return Err(owned("unsupported resource access"));
        },
    };
    if let Some(count) = binding.optional("count")? {
        if count.u32()? != 1 {
            return Err(owned("binding arrays are unsupported"));
        }
    }
    if clashes_with(resources, &name, index, space) {
        return Err(owned("duplicate resource name or binding"));
    }
    let element = read_type(ty.get("resultType")?)?;
    Ok(ReflectedResource { name, access, binding: index, space, element, element_stride: None })
}

/// The resources of a parsed reflection document.
fn read_resources(root: &Json) -> (r: Result<Vec<ReflectedResource>, String>)
    ensures
        match reflection_of(root.model()) {
            Ok(ms) => r matches Ok(v) && resource_models(v@) == ms,
            Err(e) => r matches Err(x) && x@ == e,
        },
{
    check_entry_points(root)?;
    let values = root.get("parameters")?.array()?;
    let ghost models = element_models(values@);
    let mut resources: Vec<ReflectedResource> = Vec::new();
    proof {
        assert(resource_models(resources@) =~= Seq::<ResourceModel>::empty());
    }
    let mut i: usize = 0;
    while i < values.len()
        invariant
            i <= values@.len(),
            models == element_models(values@),
            resources_of(models, i as int, resource_models(resources@))
                == resources_of(models, 0, Seq::empty()),
            reflection_of(root.model()) == resources_of(models, 0, Seq::empty()),
        decreases values@.len() - i,
    {
        let resource = read_resource(&values[i], &resources)?;
        let ghost before = resource_models(resources@);
        resources.push(resource);
        proof {
            assert(resource_models(resources@) =~= before.push(resource.model()));
        }
        i = i + 1;
    }
    Ok(resources)
}

impl Reflection {
    /// Reads Slang's reflection JSON: the global structured buffers, after
    /// checking that every entry-point parameter is the generated dispatch
    /// thread ID. Entry-point resources and value parameters are refused.
    pub fn from_json(target: Target, source: &str) -> (r: Result<Reflection, Error>)
        ensures
            match spec_from_json(source.spec_bytes()) {
                Ok(ms) => r matches Ok(x) && x.target == target && resource_models(x.resources@) == ms,
                Err(e) => r matches Err(Error::Invalid(x)) && x@ == e,
            },
    {
        let root = match Parser::parse(source) {
            Ok(root) => root,
            Err(e) => {
                return Err(Error::Invalid(e));
            },
        };
        match read_resources(&root) {
            Ok(resources) => Ok(Reflection { target, resources }),
            Err(e) => Err(Error::Invalid(e)),
        }
    }
}

// ---------------------------------------------------------------------------
// Cross-checking a reflected resource against a host layout.
// ---------------------------------------------------------------------------

/// "`path`: host `host`, compiler `compiler`".
pub open spec fn mismatch_message(path: Seq<char>, host: u32, compiler: u32) -> Seq<char> {
    path + ": host "@ + decimal(host as nat) + ", compiler "@ + decimal(compiler as nat)
}

/// A host value and a compiler value must agree.
pub open spec fn equal_of(host: u32, compiler: u32, path: Seq<char>) -> Result<(), Seq<char>> {
    if host == compiler {
        Ok(())
    } else {
        Err(mismatch_message(path, host, compiler))
    }
}

/// "`path`: type or field count differs".
pub open spec fn shape_message(path: Seq<char>) -> Seq<char> {
    path + ": type or field count differs"@
}

/// The number of structure fields in `t`, nested ones included.
pub open spec fn total_fields(t: TypeModel) -> nat
    decreases t, 1int, 0int,
{
    match t.kind {
        KindModel::Scalar(_) => 0,
        KindModel::Struct(fields) => fields_total(t, 0),
    }
}

/// The number of structure fields in the fields `i..` of `t`, nested ones included.
pub open spec fn fields_total(t: TypeModel, i: int) -> nat
    decreases t, 0int, (if t.kind is Struct { t.kind->Struct_0.len() - i } else { 0 }),
{
    match t.kind {
        KindModel::Scalar(_) => 0,
        KindModel::Struct(fields) => if !(0 <= i < fields.len()) {
            0
        } else {
            proof {
                assert(decreases_to!(t => t.kind));
                assert(decreases_to!(t.kind => fields));
                assert(decreases_to!(fields => fields[i]));
            }
            1 + total_fields(fields[i].ty) + fields_total(t, i + 1)
        },
    }
}

/// Compares a host layout with a reflected type at `path`: the number of
/// fields compared, or the first disagreement.
pub open spec fn check_type_of(host: TypeLayout, compiler: TypeModel, path: Seq<char>) -> Result<nat, Seq<char>>
    decreases compiler, 1int, 0int,
{
    let size = match compiler.size {
        Some(size) => equal_of(host.size, size, path + ".size"@),
        None => Ok(()),
    };
    match size {
        Err(e) => Err(e),
        Ok(()) => match host.kind {
            TypeLayoutKind::Scalar(a) => match compiler.kind {
                KindModel::Scalar(b) => if a == b {
                    Ok(0)
                } else {
                    Err(shape_message(path))
                },
                KindModel::Struct(_) => Err(shape_message(path)),
            },
            TypeLayoutKind::Struct(a) => match compiler.kind {
                KindModel::Struct(b) => if a@.len() == b.len() {
                    check_fields_of(a@, compiler, 0, path)
                } else {
                    Err(shape_message(path))
                },
                KindModel::Scalar(_) => Err(shape_message(path)),
            },
        },
    }
}

/// Compares the host fields `host[i..]` with the fields of `compiler`.
pub open spec fn check_fields_of(host: Seq<StructFieldLayout>, compiler: TypeModel, i: int, path: Seq<char>) -> Result<nat, Seq<char>>
    decreases compiler, 0int, host.len() - i,
{
    match compiler.kind {
        KindModel::Scalar(_) => Ok(0),
        KindModel::Struct(fields) => if !(0 <= i < host.len() && i < fields.len()) {
            Ok(0)
        } else {
            let h = host[i];
            let c = fields[i];
            if h.name@ != c.name {
                Err(path + ": field name/order differs"@)
            } else {
                let child = path + "."@ + h.name@;
                match equal_of(h.offset, c.offset, child + ".offset"@) {
                    Err(e) => Err(e),
                    Ok(()) => match equal_of(h.ty.size, c.size, child + ".size"@) {
                        Err(e) => Err(e),
                        Ok(()) => {
                            proof {
                                assert(decreases_to!(compiler => compiler.kind));
                                assert(decreases_to!(compiler.kind => fields));
                                assert(decreases_to!(fields => fields[i]));
                            }
                            match check_type_of(h.ty, c.ty, child) {
                                Err(e) => Err(e),
                                Ok(n) => match check_fields_of(host, compiler, i + 1, path) {
                                    Err(e) => Err(e),
                                    Ok(m) => Ok(1 + n + m),
                                },
                            }
                        },
                    },
                }
            }
        },
    }
}

/// The host layout is the layout the compiler reported: the same size where
/// the compiler reports one, the same scalar, or the same fields in the same
/// order with the same names, offsets and sizes, at every depth.
pub open spec fn layout_matches(host: TypeLayout, compiler: TypeModel) -> bool
    decreases compiler, 1int,
{
    &&& (compiler.size matches Some(size) ==> host.size == size)
    &&& match compiler.kind {
        KindModel::Scalar(b) => host.kind matches TypeLayoutKind::Scalar(a) && a == b,
        KindModel::Struct(fields) => match host.kind {
            TypeLayoutKind::Struct(hs) => hs@.len() == fields.len() && forall|i: int|
                0 <= i < fields.len() ==> fields_match(#[trigger] hs@[i], fields[i]),
            TypeLayoutKind::Scalar(_) => false,
        },
    }
}

/// One host field is the field the compiler reported.
pub open spec fn fields_match(h: StructFieldLayout, c: FieldModel) -> bool
    decreases c, 0int,
{
    &&& h.name@ == c.name
    &&& h.offset == c.offset
    &&& h.ty.size == c.size
    &&& layout_matches(h.ty, c.ty)
}

/// The layout gate accepts exactly the host layouts that match the compiler's
/// report: any difference in size, shape, field name, order, offset or size,
/// at any depth, is refused.
pub proof fn lemma_check_type_iff_matches(host: TypeLayout, compiler: TypeModel, path: Seq<char>)
    ensures
        check_type_of(host, compiler, path) is Ok <==> layout_matches(host, compiler),
    decreases compiler, 1int, 0int,
{
    if let TypeLayoutKind::Struct(a) = host.kind {
        if let KindModel::Struct(b) = compiler.kind {
            if a@.len() == b.len() {
                lemma_check_fields_iff_match(a@, compiler, 0, path);
            }
        }
    }
}

/// The field comparison from the `i`-th field on succeeds exactly when every
/// field from there on matches.
pub proof fn lemma_check_fields_iff_match(host: Seq<StructFieldLayout>, compiler: TypeModel, i: int, path: Seq<char>)
    requires
        compiler.kind is Struct,
        host.len() == compiler.kind->Struct_0.len(),
        0 <= i <= host.len(),
    ensures
        check_fields_of(host, compiler, i, path) is Ok <==> forall|j: int|
            i <= j < host.len() ==> fields_match(#[trigger] host[j], compiler.kind->Struct_0[j]),
    decreases compiler, 0int, host.len() - i,
{
    if let KindModel::Struct(fields) = compiler.kind {
        if i < host.len() {
            let h = host[i];
            let c = fields[i];
            let child = path + "."@ + h.name@;
            assert(decreases_to!(compiler => compiler.kind));
            assert(decreases_to!(compiler.kind => fields));
            assert(decreases_to!(fields => fields[i]));
            lemma_check_type_iff_matches(h.ty, c.ty, child);
            lemma_check_fields_iff_match(host, compiler, i + 1, path);
            if check_fields_of(host, compiler, i + 1, path) is Ok && fields_match(h, c) {
                assert forall|j: int| i <= j < host.len() implies fields_match(#[trigger] host[j], fields[j]) by {
                    if j > i {
                    }
                }
            }
        }
    }
}

/// A comparison counts no more fields than the reflected type has.
pub proof fn lemma_check_type_count(host: TypeLayout, compiler: TypeModel, path: Seq<char>)
    ensures
        check_type_of(host, compiler, path) matches Ok(n) ==> n <= total_fields(compiler),
    decreases compiler, 1int, 0int,
{
    if let TypeLayoutKind::Struct(a) = host.kind {
        if let KindModel::Struct(b) = compiler.kind {
            lemma_check_fields_count(a@, compiler, 0, path);
        }
    }
}

pub proof fn lemma_check_fields_count(host: Seq<StructFieldLayout>, compiler: TypeModel, i: int, path: Seq<char>)
    ensures
        check_fields_of(host, compiler, i, path) matches Ok(n) ==> n <= fields_total(compiler, i),
    decreases compiler, 0int, host.len() - i,
{
    if let KindModel::Struct(fields) = compiler.kind {
        if 0 <= i < host.len() && i < fields.len() {
            let h = host[i];
            let child = path + "."@ + h.name@;
            assert(decreases_to!(compiler => compiler.kind));
            assert(decreases_to!(compiler.kind => fields));
            assert(decreases_to!(fields => fields[i]));
            lemma_check_type_count(h.ty, fields[i].ty, child);
            lemma_check_fields_count(host, compiler, i + 1, path);
        }
    }
}

/// A layout fits the Rust type `T`: the v1 storage ABI, with `T`'s size and alignment.
pub open spec fn host_layout_fits<T>(host: TypeLayout) -> bool {
    &&& storage_v1_within(host, MAX_LAYOUT_DEPTH as nat)
    &&& host.size == size_of::<T>()
    &&& host.alignment == align_of::<T>()
}

/// What cross-checking `T` against `resource` establishes, or why it fails.
pub open spec fn spec_cross_check<T: GpuPod>(resource: ResourceModel) -> Result<PodCrossCheck, Seq<char>> {
    let host = T::pod_layout();
    if !host_layout_fits::<T>(host) {
        Err("host layout is not a valid storage-v1 Rust layout"@)
    } else {
        match check_type_of(host, resource.element, resource.name) {
            Err(e) => Err(e),
            Ok(n) => {
                let stride = match resource.element_stride {
                    Some(stride) => equal_of(host.stride, stride, resource.name + ".stride"@),
                    None => Ok(()),
                };
                match stride {
                    Err(e) => Err(e),
                    Ok(()) => Ok(
                        PodCrossCheck {
                            checked_fields: n as usize,
                            aggregate_size_verified: resource.element.size is Some,
                            element_stride_verified: resource.element_stride is Some,
                            alignment_verified: false,
                        },
                    ),
                }
            },
        }
    }
}

/// The mismatch report for `path`.
fn equal(host: u32, compiler: u32, path: &String) -> (r: Result<(), String>)
    ensures
        match equal_of(host, compiler, path@) {
            Ok(()) => r is Ok,
            Err(e) => r matches Err(x) && x@ == e,
        },
{
    if host == compiler {
        Ok(())
    } else {
        let mut message = path.clone();
        message.append(": host ");
        push_decimal(&mut message, host as u64);
        message.append(", compiler ");
        push_decimal(&mut message, compiler as u64);
        Err(message)
    }
}

/// `path` followed by `suffix`.
fn joined(path: &String, suffix: &str) -> (r: String)
    ensures
        r@ == path@ + suffix@,
{
    let mut r = path.clone();
    r.append(suffix);
    r
}

/// Compares `host` with `compiler` at `path`, adding the fields compared to `count`.
fn check_type(host: TypeLayout, compiler: &ReflectedType, path: &String, count: &mut usize) -> (r: Result<(), String>)
    requires
        *old(count) + total_fields(compiler.model()) <= usize::MAX,
    ensures
        match check_type_of(host, compiler.model(), path@) {
            Ok(n) => r is Ok && *final(count) == *old(count) + n,
            Err(e) => r matches Err(x) && x@ == e,
        },
    decreases compiler,
{
    proof {
        lemma_check_type_count(host, compiler.model(), path@);
    }
    if let Some(size) = compiler.size {
        equal(host.size, size, &joined(path, ".size"))?;
    }
    let shape_differs = match (host.kind, &compiler.kind) {
        (TypeLayoutKind::Scalar(a), ReflectedTypeKind::Scalar(b)) => a != *b,
        (TypeLayoutKind::Struct(a), ReflectedTypeKind::Struct(b)) => a.len() != b.len(),
        _ => true,
    };
    if shape_differs {
        return Err(joined(path, ": type or field count differs"));
    }
    match (host.kind, &compiler.kind) {
        (TypeLayoutKind::Struct(a), ReflectedTypeKind::Struct(b)) => {
            let ghost m = compiler.model();
            proof {
                lemma_struct_model(*compiler);
            }
            let ghost start = *count;
            let mut i: usize = 0;
            while i < a.len()
                invariant
                    a@.len() == b@.len(),
                    i <= a@.len(),
                    m == compiler.model(),
                    m.kind == KindModel::Struct(field_models(b@)),
                    compiler.kind == ReflectedTypeKind::Struct(*b),
                    check_fields_of(a@, m, 0, path@) matches Err(e) ==> check_type_of(host, m, path@)
                        == Err::<nat, Seq<char>>(e),
                    check_fields_of(a@, m, 0, path@) matches Ok(n) ==> check_type_of(host, m, path@)
                        == Ok::<nat, Seq<char>>(n),
                    ({
                        let rest = check_fields_of(a@, m, i as int, path@);
                        let all = check_fields_of(a@, m, 0, path@);
                        &&& rest matches Err(e) ==> all == Err::<nat, Seq<char>>(e)
                        &&& all matches Ok(n) ==> rest matches Ok(k) && n == (*count - start) + k
                        &&& rest matches Ok(k) ==> all is Ok
                    }),
                    start + total_fields(m) <= usize::MAX,
                    start <= *count,
                    *count - start + fields_total(m, i as int) <= total_fields(m),
                decreases a@.len() - i,
            {
                let h = a[i];
                let c = &b[i];
                proof {
                    assert(field_models(b@)[i as int].name == c.name@);
                }
                if !same_text(h.name, c.name.as_str()) {
                    return Err(joined(path, ": field name/order differs"));
                }
                let mut child = joined(path, ".");
                child.append(h.name);
                equal(h.offset, c.offset, &joined(&child, ".offset"))?;
                equal(h.ty.size, c.size, &joined(&child, ".size"))?;
                *count = *count + 1;
                proof {
                    broadcast use vstd::std_specs::vec::axiom_vec_decreases_to_view;
                    assert(decreases_to!(compiler => compiler.kind));
                    assert(decreases_to!(compiler.kind => *b));
                    assert(decreases_to!(*b => b@));
                    assert(decreases_to!(b@ => b@[i as int]));
                    assert(decreases_to!(b@[i as int] => b@[i as int].ty));
                }
                proof {
                    lemma_check_type_count(h.ty, c.ty.model(), child@);
                    assert(field_models(b@)[i as int].ty == c.ty.model());
                }
                check_type(h.ty, &c.ty, &child, count)?;
                i = i + 1;
            }
            Ok(())
        },
        _ => Ok(()),
    }
}

/// A cross-check never reports a full ABI match: Slang's reflection JSON
/// does not report alignment, so no report confirms it.
pub proof fn lemma_cross_check_never_full<T: GpuPod>(resource: ResourceModel)
    ensures
        spec_cross_check::<T>(resource) matches Ok(report) ==> !report.alignment_verified && !(
        report.aggregate_size_verified && report.element_stride_verified && report.alignment_verified),
{
}

/// Checks all compiler field metadata that `resource` carries against `T`,
/// keeping the gaps explicit: the result never certifies alignment, which
/// Slang's JSON does not report.
pub fn cross_check_pod<T: GpuPod>(resource: &ReflectedResource) -> (r: Result<PodCrossCheck, Error>)
    requires
        total_fields(resource.element.model()) <= usize::MAX,
    ensures
        match spec_cross_check::<T>(resource.model()) {
            Ok(report) => r == Ok::<PodCrossCheck, Error>(report),
            Err(e) => r matches Err(Error::Mismatch(x)) && x@ == e,
        },
{
    let host = T::layout();
    if !host.is_storage_v1() || host.size as usize != core::mem::size_of::<T>()
        || host.alignment as usize != core::mem::align_of::<T>() {
        return Err(Error::Mismatch(owned("host layout is not a valid storage-v1 Rust layout")));
    }
    let mut checked_fields: usize = 0;
    if let Err(e) = check_type(host, &resource.element, &resource.name, &mut checked_fields) {
        return Err(Error::Mismatch(e));
    }
    if let Some(stride) = resource.element_stride {
        if let Err(e) = equal(host.stride, stride, &joined(&resource.name, ".stride")) {
            return Err(Error::Mismatch(e));
        }
    }
    Ok(PodCrossCheck {
        checked_fields,
        aggregate_size_verified: resource.element.size.is_some(),
        element_stride_verified: resource.element_stride.is_some(),
        alignment_verified: false,
    })
}

/// `m` is the report of `e`.
pub open spec fn is_message(e: &Error, m: Seq<char>) -> bool {
    match e {
        Error::Compiler(x) => slang::is_message(x, m),
        Error::Invalid(s) => m == "invalid Slang reflection: "@ + s@,
        Error::Mismatch(s) => m == "POD reflection mismatch: "@ + s@,
    }
}

impl Error {
    /// The human-readable report of this error.
    pub fn message(&self) -> (r: String)
        ensures
            is_message(self, r@),
    {
        match self {
            Error::Compiler(e) => e.message(),
            Error::Invalid(s) => {
                let mut out = owned("invalid Slang reflection: ");
                out.append(s.as_str());
                out
            },
            Error::Mismatch(s) => {
                let mut out = owned("POD reflection mismatch: ");
                out.append(s.as_str());
                out
            },
        }
    }
}

/// The report of a reflection run of `slangc` that exited unsuccessfully:
/// its standard error, standard output and exit status, and the originating
/// Rust kernel.
pub open spec fn spec_reflection_diagnostics(
    stderr: Seq<char>,
    stdout: Seq<char>,
    exit: Seq<char>,
    kernel: Seq<char>,
) -> Seq<char> {
    stderr + "\n"@ + stdout + "\ncompiler exit: "@ + exit + "\noriginating Rust kernel: "@ + kernel
}

/// The error for a reflection run of `slangc` on `kernel` that failed.
pub fn reflection_failure(
    kernel: &KernelDescriptor,
    target: Target,
    stderr: &str,
    stdout: &str,
    exit: &str,
) -> (r: Error)
    ensures
        r matches Error::Compiler(slang::Error::CompilationFailed { target: t, diagnostics })
            && t == target && diagnostics@ == spec_reflection_diagnostics(
            stderr@,
            stdout@,
            exit@,
            spec_qualified_name(kernel.module@, kernel.name@),
        ),
{
    let mut diagnostics = owned(stderr);
    diagnostics.append("\n");
    diagnostics.append(stdout);
    diagnostics.append("\ncompiler exit: ");
    diagnostics.append(exit);
    diagnostics.append("\noriginating Rust kernel: ");
    let name = kernel.qualified_name().to_string();
    diagnostics.append(name.as_str());
    Error::Compiler(slang::Error::CompilationFailed { target, diagnostics })
}


/// Cross-checking a host type against a reflected resource succeeds exactly
/// when the host layout is a valid storage-v1 Rust layout, matches the
/// reported element layout at every depth, and has the reported stride.
pub proof fn lemma_cross_check_iff_matches<T: GpuPod>(resource: ResourceModel)
    ensures
        spec_cross_check::<T>(resource) is Ok <==> {
            &&& host_layout_fits::<T>(T::pod_layout())
            &&& layout_matches(T::pod_layout(), resource.element)
            &&& (resource.element_stride matches Some(s) ==> T::pod_layout().stride == s)
        },
{
    lemma_check_type_iff_matches(T::pod_layout(), resource.element, resource.name);
}

} // verus!
