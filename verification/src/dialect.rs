//! Rules shared by the checks of `#[gpu]` modules: the names that are CPU-only
//! or reserved, the scalar types, how a parameter's type binds it, and the
//! options of a `#[kernel]` attribute.
use vstd::prelude::*;
use crate::syntax::{Attribute, AttrArgs, Expr, ItemFn, Lit, MetaItem, Path, Ty, UnOp, text_is, text_starts_with};
use crate::text::{chars_of, parse_usize_at, parse_usize_digits};

verus! {

/// Names of CPU-only libraries, types and macros.
pub open spec fn is_banned_name(n: Seq<char>) -> bool {
    ||| n == "std"@
    ||| n == "core"@
    ||| n == "alloc"@
    ||| n == "String"@
    ||| n == "Vec"@
    ||| n == "Box"@
    ||| n == "Rc"@
    ||| n == "Arc"@
    ||| n == "HashMap"@
    ||| n == "HashSet"@
    ||| n == "println"@
    ||| n == "print"@
    ||| n == "eprintln"@
    ||| n == "dbg"@
    ||| n == "panic"@
    ||| n == "thread"@
    ||| n == "spawn"@
    ||| n == "File"@
    ||| n == "TcpStream"@
}

/// Whether `n` names a CPU-only library, type or macro.
pub fn banned_name(n: &String) -> (r: bool)
    ensures
        r == is_banned_name(n@),
{
    text_is(n, "std") || text_is(n, "core") || text_is(n, "alloc") || text_is(n, "String")
        || text_is(n, "Vec") || text_is(n, "Box") || text_is(n, "Rc") || text_is(n, "Arc")
        || text_is(n, "HashMap") || text_is(n, "HashSet") || text_is(n, "println") || text_is(
        n,
        "print",
    ) || text_is(n, "eprintln") || text_is(n, "dbg") || text_is(n, "panic") || text_is(
        n,
        "thread",
    ) || text_is(n, "spawn") || text_is(n, "File") || text_is(n, "TcpStream")
}

/// The scalar types a cast may target.
pub open spec fn is_cast_target(n: Seq<char>) -> bool {
    n == "f32"@ || n == "float"@ || n == "i32"@ || n == "int"@ || n == "u32"@ || n == "uint"@
}

/// Whether a cast to `n` is supported.
pub fn cast_target(n: &String) -> (r: bool)
    ensures
        r == is_cast_target(n@),
{
    text_is(n, "f32") || text_is(n, "float") || text_is(n, "i32") || text_is(n, "int")
        || text_is(n, "u32") || text_is(n, "uint")
}

/// Rust primitives outside the four-byte scalar subset.
pub open spec fn is_unsupported_primitive(n: Seq<char>) -> bool {
    ||| n == "i8"@
    ||| n == "i16"@
    ||| n == "i64"@
    ||| n == "i128"@
    ||| n == "isize"@
    ||| n == "u8"@
    ||| n == "u16"@
    ||| n == "u64"@
    ||| n == "u128"@
    ||| n == "usize"@
    ||| n == "f16"@
    ||| n == "f64"@
    ||| n == "f128"@
    ||| n == "char"@
    ||| n == "str"@
}

/// Whether `n` is a primitive outside the scalar subset.
pub fn unsupported_primitive(n: &String) -> (r: bool)
    ensures
        r == is_unsupported_primitive(n@),
{
    text_is(n, "i8") || text_is(n, "i16") || text_is(n, "i64") || text_is(n, "i128") || text_is(
        n,
        "isize",
    ) || text_is(n, "u8") || text_is(n, "u16") || text_is(n, "u64") || text_is(n, "u128")
        || text_is(n, "usize") || text_is(n, "f16") || text_is(n, "f64") || text_is(n, "f128")
        || text_is(n, "char") || text_is(n, "str")
}

/// Names that the generated shader code keeps for itself.
pub open spec fn is_reserved_name(n: Seq<char>) -> bool {
    crate::text::has_prefix(n, "__gust_"@) || crate::text::has_prefix(n, "__gpu_"@)
}

/// Whether `n` starts with a reserved prefix.
pub fn reserved_name(n: &String) -> (r: bool)
    ensures
        r == is_reserved_name(n@),
{
    text_starts_with(n, "__gust_") || text_starts_with(n, "__gpu_")
}

/// The attributes that may stand in a `#[gpu]` module.
pub open spec fn is_allowed_attribute(a: Attribute) -> bool {
    ||| a.named("doc"@)
    ||| a.named("allow"@)
    ||| a.named("warn"@)
    ||| a.named("deny"@)
    ||| a.named("forbid"@)
    ||| a.named("derive"@)
    ||| a.named("kernel"@)
}

/// Whether the attribute may stand in a `#[gpu]` module.
pub fn allowed_attribute(a: &Attribute) -> (r: bool)
    ensures
        r == is_allowed_attribute(*a),
{
    a.path.is_ident("doc") || a.path.is_ident("allow") || a.path.is_ident("warn")
        || a.path.is_ident("deny") || a.path.is_ident("forbid") || a.path.is_ident("derive")
        || a.path.is_ident("kernel")
}

/// Whether an expression is an integer literal of value zero, or the
/// negation of one. A float zero is no such literal.
pub open spec fn is_literal_zero(e: Expr) -> bool
    decreases e,
{
    match e {
        Expr::Lit(Lit::Int { digits, .. }) => forall|i: int|
            0 <= i < digits@.len() ==> #[trigger] digits@[i] == '0',
        Expr::Unary(UnOp::Neg, inner) => is_literal_zero(*inner),
        _ => false,
    }
}

/// Whether an expression is an integer literal of value zero, or the
/// negation of one.
pub fn literal_zero(e: &Expr) -> (r: bool)
    ensures
        r == is_literal_zero(*e),
    decreases e,
{
    match e {
        Expr::Lit(Lit::Int { digits, .. }) => {
            let v = chars_of(digits.as_str());
            let mut i: usize = 0;
            while i < v.len()
                invariant
                    i <= v@.len(),
                    v@ == digits@,
                    forall|k: int| 0 <= k < i ==> v@[k] == '0',
                    is_literal_zero(*e) == forall|j: int|
                        0 <= j < digits@.len() ==> #[trigger] digits@[j] == '0',
                decreases v@.len() - i,
            {
                if v[i] != '0' {
                    proof {
                        let k = i as int;
                        assert(0 <= k < digits@.len() && digits@[k] != '0');
                        assert(!(forall|j: int| 0 <= j < digits@.len() ==> #[trigger] digits@[j] == '0'));
                    }
                    return false;
                }
                i = i + 1;
            }
            true
        },
        Expr::Unary(UnOp::Neg, inner) => literal_zero(inner),
        _ => false,
    }
}

/// How a parameter's type binds it to a kernel.
#[derive(Clone, Copy, PartialEq, Eq, Structural, Debug)]
pub enum ParameterFlavor {
    Invocation,
    StorageRead,
    StorageReadWrite,
    Uniform,
    Value,
}

/// The last segment's identifier of a path type.
pub open spec fn type_head(t: Ty) -> Option<Seq<char>> {
    match t {
        Ty::Path(p) => if p.segments@.len() > 0 {
            Some(p.segments@.last().ident@)
        } else {
            None
        },
        _ => None,
    }
}

/// How a parameter of type `t` binds: the dispatch-thread id, a storage
/// buffer read or read and written, a uniform, or a plain value.
pub open spec fn flavor_of(t: Ty) -> ParameterFlavor {
    match type_head(t) {
        Some(h) => if h == "SV_DispatchThreadID"@ || h == "Invocation"@ {
            ParameterFlavor::Invocation
        } else if h == "StructuredBuffer"@ || h == "Storage"@ {
            ParameterFlavor::StorageRead
        } else if h == "RWStructuredBuffer"@ || h == "StorageMut"@ {
            ParameterFlavor::StorageReadWrite
        } else if h == "Uniform"@ || h == "ConstantBuffer"@ {
            ParameterFlavor::Uniform
        } else {
            ParameterFlavor::Value
        },
        None => ParameterFlavor::Value,
    }
}

/// How a parameter of type `t` binds.
pub fn parameter_flavor(t: &Ty) -> (r: ParameterFlavor)
    ensures
        r == flavor_of(*t),
{
    match t {
        Ty::Path(p) => path_flavor(p),
        _ => ParameterFlavor::Value,
    }
}

/// How a parameter whose type is the path `p` binds.
pub fn path_flavor(p: &Path) -> (r: ParameterFlavor)
    ensures
        r == flavor_of(Ty::Path(*p)),
{
    if p.segments.len() == 0 {
        return ParameterFlavor::Value;
    }
    let h = &p.segments[p.segments.len() - 1].ident;
    if text_is(h, "SV_DispatchThreadID") || text_is(h, "Invocation") {
        ParameterFlavor::Invocation
    } else if text_is(h, "StructuredBuffer") || text_is(h, "Storage") {
        ParameterFlavor::StorageRead
    } else if text_is(h, "RWStructuredBuffer") || text_is(h, "StorageMut") {
        ParameterFlavor::StorageReadWrite
    } else if text_is(h, "Uniform") || text_is(h, "ConstantBuffer") {
        ParameterFlavor::Uniform
    } else {
        ParameterFlavor::Value
    }
}

/// Whether a flavor binds a resource.
pub open spec fn is_resource(f: ParameterFlavor) -> bool {
    f == ParameterFlavor::StorageRead || f == ParameterFlavor::StorageReadWrite || f
        == ParameterFlavor::Uniform
}

/// The options of a kernel.
#[derive(Clone, Copy, Debug)]
pub struct KernelOptions {
    pub workgroup_size: [u32; 3],
}

/// Why a `#[kernel]` attribute was refused.
#[derive(Clone, Copy, PartialEq, Eq, Structural, Debug)]
pub enum KernelAttributeError {
    DuplicateKernel,
    Malformed,
    UnknownOption,
    DuplicateWorkgroupSize,
    MalformedWorkgroupSize,
    ExtraDimensions,
    DimensionTooLarge,
    ZeroDimension,
}

impl KernelAttributeError {
    /// The report of this error.
    pub open spec fn spec_message(self) -> Seq<char> {
        match self {
            KernelAttributeError::DuplicateKernel => "duplicate #[kernel] attribute"@,
            KernelAttributeError::Malformed =>
                "expected `#[kernel]` or `#[kernel(workgroup_size(x, y, z))]`"@,
            KernelAttributeError::UnknownOption => "expected `workgroup_size(x, y, z)`"@,
            KernelAttributeError::DuplicateWorkgroupSize => "duplicate workgroup_size option"@,
            KernelAttributeError::MalformedWorkgroupSize =>
                "expected three integer literals in `workgroup_size(x, y, z)`"@,
            KernelAttributeError::ExtraDimensions => "expected exactly three workgroup dimensions"@,
            KernelAttributeError::DimensionTooLarge => "number too large to fit in target type"@,
            KernelAttributeError::ZeroDimension => "workgroup dimensions must be nonzero"@,
        }
    }

    /// The report of this error.
    pub fn message(&self) -> (r: String)
        ensures
            r@ == self.spec_message(),
    {
        match self {
            KernelAttributeError::DuplicateKernel => String::from_str("duplicate #[kernel] attribute"),
            KernelAttributeError::Malformed => String::from_str(
                "expected `#[kernel]` or `#[kernel(workgroup_size(x, y, z))]`",
            ),
            KernelAttributeError::UnknownOption => String::from_str(
                "expected `workgroup_size(x, y, z)`",
            ),
            KernelAttributeError::DuplicateWorkgroupSize => String::from_str(
                "duplicate workgroup_size option",
            ),
            KernelAttributeError::MalformedWorkgroupSize => String::from_str(
                "expected three integer literals in `workgroup_size(x, y, z)`",
            ),
            KernelAttributeError::ExtraDimensions => String::from_str(
                "expected exactly three workgroup dimensions",
            ),
            KernelAttributeError::DimensionTooLarge => String::from_str(
                "number too large to fit in target type",
            ),
            KernelAttributeError::ZeroDimension => String::from_str(
                "workgroup dimensions must be nonzero",
            ),
        }
    }
}

/// The workgroup size of a kernel that names none.
pub open spec fn default_workgroup() -> Seq<u32> {
    seq![64u32, 1u32, 1u32]
}

/// The value of an integer literal's digits as a `u32`, when it fits.
pub open spec fn u32_value(l: Lit) -> Option<u32> {
    match l {
        Lit::Int { digits, .. } => match parse_usize_digits(digits@) {
            Some(n) => if n <= u32::MAX {
                Some(n as u32)
            } else {
                None
            },
            None => None,
        },
        _ => None,
    }
}

/// What one `workgroup_size(..)` list gives: three nonzero dimensions, or
/// the error.
pub open spec fn workgroup_of(values: Seq<Lit>) -> Result<Seq<u32>, KernelAttributeError> {
    if values.len() < 3 || !(values[0] is Int) || !(values[1] is Int) || !(values[2] is Int) {
        Err(KernelAttributeError::MalformedWorkgroupSize)
    } else if values.len() > 3 {
        Err(KernelAttributeError::ExtraDimensions)
    } else if u32_value(values[0]) is None || u32_value(values[1]) is None || u32_value(
        values[2],
    ) is None {
        Err(KernelAttributeError::DimensionTooLarge)
    } else {
        let d = seq![
            u32_value(values[0])->0,
            u32_value(values[1])->0,
            u32_value(values[2])->0,
        ];
        if d[0] == 0 || d[1] == 0 || d[2] == 0 {
            Err(KernelAttributeError::ZeroDimension)
        } else {
            Ok(d)
        }
    }
}

/// The options of the list items `items[0..n]`, starting from none given.
pub open spec fn kernel_list_options(items: Seq<MetaItem>, n: int) -> Result<
    Option<Seq<u32>>,
    KernelAttributeError,
>
    decreases n,
{
    if n <= 0 {
        Ok(None)
    } else {
        match kernel_list_options(items, n - 1) {
            Err(e) => Err(e),
            Ok(previous) => {
                let item = items[n - 1];
                if item.path.ident_view() == Some("workgroup_size"@) {
                    if previous is Some {
                        Err(KernelAttributeError::DuplicateWorkgroupSize)
                    } else {
                        match item.values {
                            None => Err(KernelAttributeError::MalformedWorkgroupSize),
                            Some(values) => match workgroup_of(values@) {
                                Ok(d) => Ok(Some(d)),
                                Err(e) => Err(e),
                            },
                        }
                    }
                } else {
                    Err(KernelAttributeError::UnknownOption)
                }
            },
        }
    }
}

/// The number of `#[kernel]` attributes among `attrs[0..n]`.
pub open spec fn kernel_attribute_count(attrs: Seq<Attribute>, n: int) -> nat
    decreases n,
{
    if n <= 0 {
        0
    } else {
        kernel_attribute_count(attrs, n - 1) + if attrs[n - 1].named("kernel"@) {
            1nat
        } else {
            0nat
        }
    }
}

/// Whether some attribute is `#[kernel]`.
pub open spec fn has_kernel_attribute(attrs: Seq<Attribute>) -> bool {
    exists|i: int| 0 <= i < attrs.len() && #[trigger] attrs[i].named("kernel"@)
}

/// The index of the first `#[kernel]` attribute.
pub open spec fn first_kernel_attribute(attrs: Seq<Attribute>) -> int {
    choose|i: int|
        0 <= i < attrs.len() && #[trigger] attrs[i].named("kernel"@) && forall|j: int|
            0 <= j < i ==> !#[trigger] attrs[j].named("kernel"@)
}

/// The options a function's attributes give: none for a function that is no
/// kernel, its workgroup size for a kernel, or the error.
pub open spec fn spec_kernel_options(attrs: Seq<Attribute>) -> Result<
    Option<Seq<u32>>,
    KernelAttributeError,
> {
    if kernel_attribute_count(attrs, attrs.len() as int) > 1 {
        Err(KernelAttributeError::DuplicateKernel)
    } else if !has_kernel_attribute(attrs) {
        Ok(None)
    } else {
        match attrs[first_kernel_attribute(attrs)].args {
            AttrArgs::Word => Ok(Some(default_workgroup())),
            AttrArgs::NameValue => Err(KernelAttributeError::Malformed),
            AttrArgs::List(items) => match kernel_list_options(items@, items@.len() as int) {
                Ok(Some(d)) => Ok(Some(d)),
                Ok(None) => Ok(Some(default_workgroup())),
                Err(e) => Err(e),
            },
        }
    }
}

/// The digits of an integer literal as a `u32`.
fn lit_u32(l: &Lit) -> (r: Option<u32>)
    ensures
        r == u32_value(*l),
{
    match l {
        Lit::Int { digits, .. } => {
            let v = chars_of(digits.as_str());
            proof {
                assert(v@.subrange(0, v@.len() as int) =~= v@);
            }
            match parse_usize_at(v.as_slice(), 0, v.len()) {
                Some(n) => if n <= 0xffff_ffffusize {
                    Some(n as u32)
                } else {
                    None
                },
                None => None,
            }
        },
        _ => None,
    }
}

/// The dimensions of one `workgroup_size(..)` list.
fn workgroup_dimensions(values: &Vec<Lit>) -> (r: Result<[u32; 3], KernelAttributeError>)
    ensures
        match workgroup_of(values@) {
            Ok(d) => r matches Ok(a) && a@ == d,
            Err(e) => r == Err::<[u32; 3], KernelAttributeError>(e),
        },
{
    if values.len() < 3 || !matches!(values[0], Lit::Int { .. }) || !matches!(values[1], Lit::Int { .. })
        || !matches!(values[2], Lit::Int { .. }) {
        return Err(KernelAttributeError::MalformedWorkgroupSize);
    }
    if values.len() > 3 {
        return Err(KernelAttributeError::ExtraDimensions);
    }
    let x = lit_u32(&values[0]);
    let y = lit_u32(&values[1]);
    let z = lit_u32(&values[2]);
    match (x, y, z) {
        (Some(x), Some(y), Some(z)) => {
            if x == 0 || y == 0 || z == 0 {
                Err(KernelAttributeError::ZeroDimension)
            } else {
                let a = [x, y, z];
                proof {
                    assert(a@ =~= seq![x, y, z]);
                }
                Ok(a)
            }
        },
        _ => Err(KernelAttributeError::DimensionTooLarge),
    }
}

/// The kernel options of a function: `None` when it has no `#[kernel]`
/// attribute, else the workgroup size it names (64 x 1 x 1 when it names
/// none), or why the attribute is refused.
pub fn kernel_options(function: &ItemFn) -> (r: Result<Option<KernelOptions>, KernelAttributeError>)
    ensures
        match spec_kernel_options(function.attrs@) {
            Ok(None) => r matches Ok(None),
            Ok(Some(d)) => r matches Ok(Some(o)) && o.workgroup_size@ == d,
            Err(e) => r == Err::<Option<KernelOptions>, KernelAttributeError>(e),
        },
{
    let attrs = &function.attrs;
    let mut count: usize = 0;
    let mut first: usize = attrs.len();
    let mut i: usize = 0;
    while i < attrs.len()
        invariant
            i <= attrs@.len(),
            count == kernel_attribute_count(attrs@, i as int),
            count <= i,
            first <= attrs@.len(),
            first < attrs@.len() ==> first < i && attrs@[first as int].named("kernel"@),
            forall|j: int| 0 <= j < i && j < first ==> !#[trigger] attrs@[j].named("kernel"@),
            first == attrs@.len() ==> count == 0,
        decreases attrs@.len() - i,
    {
        if attrs[i].path.is_ident("kernel") {
            if first == attrs.len() {
                first = i;
            }
            count = count + 1;
        }
        i = i + 1;
    }
    if count > 1 {
        return Err(KernelAttributeError::DuplicateKernel);
    }
    if first == attrs.len() {
        proof {
            assert(!has_kernel_attribute(attrs@));
        }
        return Ok(None);
    }
    proof {
        assert(has_kernel_attribute(attrs@));
        let c = first_kernel_attribute(attrs@);
        assert(attrs@[c].named("kernel"@) && forall|j: int| 0 <= j < c ==> !#[trigger] attrs@[j].named("kernel"@));
        assert(c == first) by {
            if c < first {
                assert(!attrs@[c].named("kernel"@));
            }
            if c > first {
                assert(!attrs@[first as int].named("kernel"@));
            }
        }
    }
    match &attrs[first].args {
        AttrArgs::Word => {
            let a = [64u32, 1u32, 1u32];
            proof {
                assert(a@ =~= default_workgroup());
            }
            Ok(Some(KernelOptions { workgroup_size: a }))
        },
        AttrArgs::NameValue => Err(KernelAttributeError::Malformed),
        AttrArgs::List(items) => {
            let ghost expected = spec_kernel_options(function.attrs@);
            proof {
                assert(expected == match kernel_list_options(items@, items@.len() as int) {
                    Ok(Some(d)) => Ok(Some(d)),
                    Ok(None) => Ok(Some(default_workgroup())),
                    Err(e) => Err(e),
                });
            }
            let mut result: Option<[u32; 3]> = None;
            let mut k: usize = 0;
            while k < items.len()
                invariant
                    k <= items@.len(),
                    match kernel_list_options(items@, k as int) {
                        Ok(None) => result is None,
                        Ok(Some(d)) => result matches Some(a) && a@ == d,
                        Err(_) => false,
                    },
                    expected == spec_kernel_options(function.attrs@),
                    expected == match kernel_list_options(items@, items@.len() as int) {
                        Ok(Some(d)) => Ok(Some(d)),
                        Ok(None) => Ok(Some(default_workgroup())),
                        Err(e) => Err(e),
                    },
                decreases items@.len() - k,
            {
                let item = &items[k];
                if item.path.is_ident("workgroup_size") {
                    if result.is_some() {
                        proof {
                            lemma_list_error_sticks(items@, k as int + 1, items@.len() as int);
                        }
                        return Err(KernelAttributeError::DuplicateWorkgroupSize);
                    }
                    match &item.values {
                        None => {
                            proof {
                                lemma_list_error_sticks(items@, k as int + 1, items@.len() as int);
                            }
                            return Err(KernelAttributeError::MalformedWorkgroupSize);
                        },
                        Some(values) => match workgroup_dimensions(values) {
                            Ok(d) => {
                                result = Some(d);
                            },
                            Err(e) => {
                                proof {
                                    lemma_list_error_sticks(items@, k as int + 1, items@.len() as int);
                                }
                                return Err(e);
                            },
                        },
                    }
                } else {
                    proof {
                        lemma_list_error_sticks(items@, k as int + 1, items@.len() as int);
                    }
                    return Err(KernelAttributeError::UnknownOption);
                }
                k = k + 1;
            }
            match result {
                Some(d) => Ok(Some(KernelOptions { workgroup_size: d })),
                None => {
                    let a = [64u32, 1u32, 1u32];
                    proof {
                        assert(a@ =~= default_workgroup());
                    }
                    Ok(Some(KernelOptions { workgroup_size: a }))
                },
            }
        },
    }
}

/// Once the options of a prefix are an error, every longer prefix gives the
/// same error.
proof fn lemma_list_error_sticks(items: Seq<MetaItem>, k: int, m: int)
    requires
        0 <= k <= m,
        kernel_list_options(items, k) is Err,
    ensures
        kernel_list_options(items, m) == kernel_list_options(items, k),
    decreases m - k,
{
    if m > k {
        lemma_list_error_sticks(items, k, m - 1);
    }
}


/// The options of a prefix of a `#[kernel(..)]` list name three nonzero
/// dimensions whenever they name any.
proof fn lemma_list_options_nonzero(items: Seq<MetaItem>, n: int)
    requires
        kernel_list_options(items, n) matches Ok(Some(_)),
    ensures
        kernel_list_options(items, n) matches Ok(Some(d)) && d.len() == 3 && d[0] > 0 && d[1] > 0
            && d[2] > 0,
    decreases n,
{
    if n > 0 {
        match kernel_list_options(items, n - 1) {
            Ok(Some(_)) => lemma_list_options_nonzero(items, n - 1),
            _ => {},
        }
    }
}

/// Every workgroup size that a function's attributes give has three
/// dimensions, none of them zero.
pub proof fn lemma_workgroup_nonzero(attrs: Seq<Attribute>)
    requires
        spec_kernel_options(attrs) matches Ok(Some(_)),
    ensures
        spec_kernel_options(attrs) matches Ok(Some(d)) && d.len() == 3 && d[0] > 0 && d[1] > 0
            && d[2] > 0,
{
    if kernel_attribute_count(attrs, attrs.len() as int) <= 1 && has_kernel_attribute(attrs) {
        match attrs[first_kernel_attribute(attrs)].args {
            AttrArgs::List(items) => {
                if kernel_list_options(items@, items@.len() as int) matches Ok(Some(_)) {
                    lemma_list_options_nonzero(items@, items@.len() as int);
                }
            },
            _ => {},
        }
    }
}

} // verus!
