//! Why a `#[gpu]` module is refused: one value per rule, with its report.
use vstd::prelude::*;
use crate::dialect::KernelAttributeError;

verus! {

/// Where `Option` and `Result` have no storage layout.
#[derive(Clone, Copy, PartialEq, Eq, Structural, Debug)]
pub enum LayoutContext {
    StructFields,
    ResourceElements,
}

impl LayoutContext {
    /// How a report names the context.
    pub open spec fn spec_text(self) -> Seq<char> {
        match self {
            LayoutContext::StructFields => "GPU struct fields"@,
            LayoutContext::ResourceElements => "resource element types"@,
        }
    }

    /// How a report names the context.
    pub fn text(&self) -> (r: &'static str)
        ensures
            r@ == self.spec_text(),
    {
        match self {
            LayoutContext::StructFields => "GPU struct fields",
            LayoutContext::ResourceElements => "resource element types",
        }
    }
}

/// An atomic operation on a buffer element.
#[derive(Clone, Copy, PartialEq, Eq, Structural, Debug)]
pub enum AtomicOp {
    Add,
    Min,
    Max,
    Exchange,
    CompareExchange,
}

impl AtomicOp {
    /// The operation's function name.
    pub open spec fn spec_name(self) -> Seq<char> {
        match self {
            AtomicOp::Add => "atomic_add"@,
            AtomicOp::Min => "atomic_min"@,
            AtomicOp::Max => "atomic_max"@,
            AtomicOp::Exchange => "atomic_exchange"@,
            AtomicOp::CompareExchange => "atomic_compare_exchange"@,
        }
    }

    /// The operation's function name.
    pub fn name(&self) -> (r: &'static str)
        ensures
            r@ == self.spec_name(),
    {
        match self {
            AtomicOp::Add => "atomic_add",
            AtomicOp::Min => "atomic_min",
            AtomicOp::Max => "atomic_max",
            AtomicOp::Exchange => "atomic_exchange",
            AtomicOp::CompareExchange => "atomic_compare_exchange",
        }
    }

    /// How many arguments the operation takes.
    pub open spec fn spec_arity(self) -> nat {
        match self {
            AtomicOp::CompareExchange => 3,
            _ => 2,
        }
    }

    /// How many arguments the operation takes, spelled out.
    pub open spec fn spec_arity_text(self) -> Seq<char> {
        match self {
            AtomicOp::CompareExchange => "3"@,
            _ => "2"@,
        }
    }

    /// How many arguments the operation takes, spelled out.
    pub fn arity_text(&self) -> (r: &'static str)
        ensures
            r@ == self.spec_arity_text(),
    {
        match self {
            AtomicOp::CompareExchange => "3",
            _ => "2",
        }
    }
}

/// One broken rule of the GPU subset.
#[derive(Debug)]
pub enum Rejection {
    ReservedName,
    CpuOnly,
    BindingMode,
    Attribute,
    OptionForbidden(LayoutContext),
    OptionPayload,
    ResultForbidden(LayoutContext),
    ResultPayload,
    UnsupportedType(String),
    Cast,
    ConstBlock,
    SomeArity,
    OkErrArity,
    AtomicValue(AtomicOp),
    ForeignCall,
    AtomicIndex,
    DivisionByZero,
    Turbofish,
    PredicateArity,
    UnwrapOrArity,
    Unwrap,
    BuiltinArguments,
    UnknownMethod,
    CompatUnknownMethod,
    LenReceiver,
    GlobalIdReceiver,
    ForeignPath,
    BareConstructor,
    IfLetPattern,
    Shadow,
    MatchValue,
    CompatMatch,
    LetPosition,
    StructUpdate,
    Try,
    UnsafeBlock,
    Macro,
    Closure,
    Loop,
    CompatLoop,
    CompatForLoop,
    While,
    CompatWhile,
    LoopLabel,
    MutableLoopVariable,
    LoopVariableShape,
    NotRange,
    InclusiveRange,
    OpenRange,
    UnsuffixedBound,
    RangeValue,
    ArmAttribute,
    MatchGuard,
    BlockArms,
    PlainBinding,
    OkErrArms,
    ArmPattern,
    MatchSemicolon,
    UnknownResult,
    AtomicArity(AtomicOp),
    AtomicReference(AtomicOp),
    AtomicMutable(AtomicOp),
    AtomicElementExpr(AtomicOp),
    AtomicReceiver(AtomicOp),
    AtomicBuffer(AtomicOp),
    AtomicElementType(AtomicOp),
    AtomicUnsigned(AtomicOp),
    BreakValue,
    BreakOutsideLoop,
    ContinueOutsideLoop,
    JumpValue,
    Await,
    Reference,
    LetIdentifier,
    LetElse,
    NotInline,
    ModuleItem,
    GenericStruct,
    UnnamedFields,
    EmptyStruct,
    ManualRepr,
    ManualCopy,
    MalformedDerive,
    KernelDispatch,
    KernelReturn,
    HelperResources,
    AsyncFunction,
    UnsafeFunction,
    ExternOrGeneric,
    KernelAttribute(KernelAttributeError),
}

impl Rejection {
    /// The report of this rejection.
    pub open spec fn spec_message(&self) -> Seq<char> {
        match self {
            Rejection::ReservedName => "the __gust_ and __gpu_ prefixes are reserved for generated shader symbols"@,
            Rejection::CpuOnly => "CPU-only library/type is not available inside a #[gpu] module"@,
            Rejection::BindingMode => "reference and @ binding modes are not supported in GPU code"@,
            Rejection::Attribute => "this attribute has no proven Rust-to-Slang meaning and cannot be dropped"@,
            Rejection::OptionForbidden(c) => "`Option` is not supported in "@ + c.spec_text() + ": it has no proven storage layout; keep Option values in locals and helper functions"@,
            Rejection::OptionPayload => "`Option` payload must be a supported scalar or a module struct; nested Options and resources are not lowered"@,
            Rejection::ResultForbidden(c) => "`Result` is not supported in "@ + c.spec_text() + ": it has no proven storage layout; keep Result values in locals and helper functions"@,
            Rejection::ResultPayload => "`Result` is supported only as `Result<T, T>` with a supported scalar or module-struct payload; mixed, nested, and resource payloads are not lowered"@,
            Rejection::UnsupportedType(n) => "`"@ + n@ + "` is not a supported GPU type; use the 32-bit scalars `f32`/`float`, `i32`/`int`, `u32`/`uint`, or `bool`"@,
            Rejection::Cast => "casts are supported only to the 32-bit scalar types `f32`/`float`, `i32`/`int`, and `u32`/`uint`"@,
            Rejection::ConstBlock => "const blocks are not in the Rust-to-Slang subset; write the value directly"@,
            Rejection::SomeArity => "`Some` takes exactly one argument"@,
            Rejection::OkErrArity => "`Ok` and `Err` take exactly one argument"@,
            Rejection::AtomicValue(op) => "`"@ + op.spec_name() + "` is supported only as a statement, not as a value"@,
            Rejection::ForeignCall => "only calls to helper functions declared in the same GPU module are allowed"@,
            Rejection::AtomicIndex => "atomic buffer elements cannot be read or written directly; use an atomic operation"@,
            Rejection::DivisionByZero => "integer division or modulo by a literal zero has no portable GPU result; guard the divisor before dividing"@,
            Rejection::Turbofish => "GPU built-ins do not accept type arguments"@,
            Rejection::PredicateArity => "`is_some`, `is_none`, `is_ok`, and `is_err` take no arguments"@,
            Rejection::UnwrapOrArity => "`unwrap_or` takes exactly one argument"@,
            Rejection::Unwrap => "`Option::unwrap`/`expect` panics on `None` in Rust and GPU code cannot panic; use `unwrap_or` or `if let Some(x) = ..`"@,
            Rejection::BuiltinArguments => "GPU built-ins do not accept arguments or type arguments"@,
            Rejection::UnknownMethod => "only the compatibility built-ins `.global_id()` and `.len()` and the Option/Result methods `.is_some()`, `.is_none()`, `.is_ok()`, `.is_err()`, `.unwrap_or(default)` are supported"@,
            Rejection::CompatUnknownMethod => "only the compatibility built-ins `.global_id()` and `.len()` are supported"@,
            Rejection::LenReceiver => "`.len()` requires a direct storage parameter receiver"@,
            Rejection::GlobalIdReceiver => "`.global_id()` requires a direct dispatch-thread parameter receiver"@,
            Rejection::ForeignPath => "associated constants and foreign paths are not in the Rust-to-Slang subset; reference local variables, parameters, or same-module helpers"@,
            Rejection::BareConstructor => "`Some`, `Ok`, and `Err` must be called with one argument"@,
            Rejection::IfLetPattern => "`if let` supports only the `Some(identifier)` or `Ok(identifier)` pattern"@,
            Rejection::Shadow => "GPU locals cannot shadow resource or dispatch-thread parameters"@,
            Rejection::MatchValue => "Result match is supported only as a statement, not as a value"@,
            Rejection::CompatMatch => "match is not supported in the Rust-to-Slang subset"@,
            Rejection::LetPosition => "`if let` is supported only as `if let Some(x) = value { .. }` or `if let Ok(x) = value { .. }`; let chains and other let positions are not"@,
            Rejection::StructUpdate => "struct update syntax (`..base`) is not supported; list every field explicitly"@,
            Rejection::Try => "the `?` operator is not in the Rust-to-Slang subset"@,
            Rejection::UnsafeBlock => "unsafe blocks are not in the Rust-to-Slang subset"@,
            Rejection::Macro => "macros cannot run inside a Rust-to-Slang module"@,
            Rejection::Closure => "closures are not supported in the Rust-to-Slang subset"@,
            Rejection::Loop => "`loop` is not supported: its trip count is not fixed at entry, so a GPU thread could never be proven to terminate; use `for i in start..end`"@,
            Rejection::CompatLoop => "loops are not supported in the Rust-to-Slang subset"@,
            Rejection::CompatForLoop => "for loops are not supported in the Rust-to-Slang subset"@,
            Rejection::While => "`while` loops are not supported: the trip count is not fixed at entry, so a GPU thread could never be proven to terminate; use `for i in start..end` with a `break`"@,
            Rejection::CompatWhile => "while loops are not supported in the Rust-to-Slang subset"@,
            Rejection::LoopLabel => "loop labels are not supported in the Rust-to-Slang subset; restructure with a flag or a helper return"@,
            Rejection::MutableLoopVariable => "the loop variable is immutable in the Rust-to-Slang subset: Slang's counter would diverge from Rust's fresh per-iteration binding; copy it into a `let mut` local"@,
            Rejection::LoopVariableShape => "the `for` loop variable must be a single identifier or `_`"@,
            Rejection::NotRange => "`for` iterates only over an exclusive integer range `start..end`; buffers, iterators, and adaptors are not iterable in the Rust-to-Slang subset"@,
            Rejection::InclusiveRange => "inclusive ranges (`..=`) are not supported: when `end` is the type maximum the Slang counter never exceeds it and the loop would not terminate; use `start..end + 1`"@,
            Rejection::OpenRange => "`for` ranges need both bounds (`start..end`) so the trip count is fixed at loop entry"@,
            Rejection::UnsuffixedBound => "integer-literal loop bounds need an explicit `u32`/`i32` suffix so the Slang counter type matches rustc's inference"@,
            Rejection::RangeValue => "ranges are supported only as the iterable of a `for` loop"@,
            Rejection::ArmAttribute => "match arm attributes are not supported"@,
            Rejection::MatchGuard => "match guards are not supported in the Rust-to-Slang subset"@,
            Rejection::BlockArms => "Result matches require block arms"@,
            Rejection::PlainBinding => "Result match bindings must be plain identifiers; `mut`, `ref`, and @ bindings are not supported"@,
            Rejection::OkErrArms => "Result matches require exactly one `Ok` arm and one `Err` arm"@,
            Rejection::ArmPattern => "Result matches support only `Ok(identifier)` and `Err(identifier)` patterns"@,
            Rejection::MatchSemicolon => "Result match is supported only as a statement; terminate it with `;`"@,
            Rejection::UnknownResult => "statement match is supported only for a known `Result<T, T>` local, parameter, or same-module helper call"@,
            Rejection::AtomicArity(op) => "`"@ + op.spec_name() + "` takes exactly "@ + op.spec_arity_text() + " arguments"@,
            Rejection::AtomicReference(op) => "`"@ + op.spec_name() + "` requires a mutable reference to a buffer element: `&mut buffer[index]`"@,
            Rejection::AtomicMutable(op) => "`"@ + op.spec_name() + "` requires a mutable reference: `&mut buffer[index]`"@,
            Rejection::AtomicElementExpr(op) => "`"@ + op.spec_name() + "` requires a read-write buffer element: `&mut buffer[index]`"@,
            Rejection::AtomicReceiver(op) => "`"@ + op.spec_name() + "` requires a direct buffer receiver: `&mut buffer[index]`"@,
            Rejection::AtomicBuffer(op) => "`"@ + op.spec_name() + "` requires a read-write buffer parameter: `RWStructuredBuffer<u32>` or `RWStructuredBuffer<i32>`"@,
            Rejection::AtomicElementType(op) => "`"@ + op.spec_name() + "` requires a `u32`/`uint` or `i32`/`int` element; other element types are not supported for atomics"@,
            Rejection::AtomicUnsigned(op) => "`"@ + op.spec_name() + "` requires an unsigned element (`u32`/`uint`); signed atomics for min/max are not supported"@,
            Rejection::BreakValue => "`break` with a value is not supported"@,
            Rejection::BreakOutsideLoop => "`break` outside a loop has no meaning"@,
            Rejection::ContinueOutsideLoop => "`continue` outside a loop has no meaning"@,
            Rejection::JumpValue => "`break` and `continue` are supported only as statements, not as values"@,
            Rejection::Await => "await is CPU-only and cannot appear in GPU code"@,
            Rejection::Reference => "references are not part of the Rust-to-Slang value model"@,
            Rejection::LetIdentifier => "GPU let bindings require a single identifier"@,
            Rejection::LetElse => "let-else requires control-flow lowering and is not supported yet"@,
            Rejection::NotInline => "#[gpu] requires an inline module; use `#[gpu] mod name { ... }`"@,
            Rejection::ModuleItem => "GPU modules may currently contain only functions and plain structs"@,
            Rejection::GenericStruct => "generic GPU structs are not supported yet"@,
            Rejection::UnnamedFields => "GPU structs must have named fields"@,
            Rejection::EmptyStruct => "GPU structs must contain at least one field"@,
            Rejection::ManualRepr => "GPU structs receive repr(C) automatically"@,
            Rejection::ManualCopy => "GPU structs receive Clone and Copy automatically"@,
            Rejection::MalformedDerive => "expected a parenthesized list of paths in `#[derive(..)]`"@,
            Rejection::KernelDispatch => "a GPU kernel requires exactly one dispatch-thread parameter"@,
            Rejection::KernelReturn => "GPU kernels must return unit"@,
            Rejection::HelperResources => "GPU helper functions currently accept value parameters only; access resources in the kernel"@,
            Rejection::AsyncFunction => "async is CPU-only in GPU modules"@,
            Rejection::UnsafeFunction => "unsafe is not part of the Rust-to-Slang subset"@,
            Rejection::ExternOrGeneric => "extern and generic GPU functions are not supported yet"@,
            Rejection::KernelAttribute(e) => e.spec_message(),
        }
    }

    /// The report of this rejection.
    pub fn message(&self) -> (r: String)
        ensures
            r@ == self.spec_message(),
    {
        match self {
            Rejection::ReservedName => String::from_str("the __gust_ and __gpu_ prefixes are reserved for generated shader symbols"),
            Rejection::CpuOnly => String::from_str("CPU-only library/type is not available inside a #[gpu] module"),
            Rejection::BindingMode => String::from_str("reference and @ binding modes are not supported in GPU code"),
            Rejection::Attribute => String::from_str("this attribute has no proven Rust-to-Slang meaning and cannot be dropped"),
            Rejection::OptionForbidden(c) => three("`Option` is not supported in ", c.text(), ": it has no proven storage layout; keep Option values in locals and helper functions"),
            Rejection::OptionPayload => String::from_str("`Option` payload must be a supported scalar or a module struct; nested Options and resources are not lowered"),
            Rejection::ResultForbidden(c) => three("`Result` is not supported in ", c.text(), ": it has no proven storage layout; keep Result values in locals and helper functions"),
            Rejection::ResultPayload => String::from_str("`Result` is supported only as `Result<T, T>` with a supported scalar or module-struct payload; mixed, nested, and resource payloads are not lowered"),
            Rejection::UnsupportedType(n) => three("`", n.as_str(), "` is not a supported GPU type; use the 32-bit scalars `f32`/`float`, `i32`/`int`, `u32`/`uint`, or `bool`"),
            Rejection::Cast => String::from_str("casts are supported only to the 32-bit scalar types `f32`/`float`, `i32`/`int`, and `u32`/`uint`"),
            Rejection::ConstBlock => String::from_str("const blocks are not in the Rust-to-Slang subset; write the value directly"),
            Rejection::SomeArity => String::from_str("`Some` takes exactly one argument"),
            Rejection::OkErrArity => String::from_str("`Ok` and `Err` take exactly one argument"),
            Rejection::AtomicValue(op) => three("`", op.name(), "` is supported only as a statement, not as a value"),
            Rejection::ForeignCall => String::from_str("only calls to helper functions declared in the same GPU module are allowed"),
            Rejection::AtomicIndex => String::from_str("atomic buffer elements cannot be read or written directly; use an atomic operation"),
            Rejection::DivisionByZero => String::from_str("integer division or modulo by a literal zero has no portable GPU result; guard the divisor before dividing"),
            Rejection::Turbofish => String::from_str("GPU built-ins do not accept type arguments"),
            Rejection::PredicateArity => String::from_str("`is_some`, `is_none`, `is_ok`, and `is_err` take no arguments"),
            Rejection::UnwrapOrArity => String::from_str("`unwrap_or` takes exactly one argument"),
            Rejection::Unwrap => String::from_str("`Option::unwrap`/`expect` panics on `None` in Rust and GPU code cannot panic; use `unwrap_or` or `if let Some(x) = ..`"),
            Rejection::BuiltinArguments => String::from_str("GPU built-ins do not accept arguments or type arguments"),
            Rejection::UnknownMethod => String::from_str("only the compatibility built-ins `.global_id()` and `.len()` and the Option/Result methods `.is_some()`, `.is_none()`, `.is_ok()`, `.is_err()`, `.unwrap_or(default)` are supported"),
            Rejection::CompatUnknownMethod => String::from_str("only the compatibility built-ins `.global_id()` and `.len()` are supported"),
            Rejection::LenReceiver => String::from_str("`.len()` requires a direct storage parameter receiver"),
            Rejection::GlobalIdReceiver => String::from_str("`.global_id()` requires a direct dispatch-thread parameter receiver"),
            Rejection::ForeignPath => String::from_str("associated constants and foreign paths are not in the Rust-to-Slang subset; reference local variables, parameters, or same-module helpers"),
            Rejection::BareConstructor => String::from_str("`Some`, `Ok`, and `Err` must be called with one argument"),
            Rejection::IfLetPattern => String::from_str("`if let` supports only the `Some(identifier)` or `Ok(identifier)` pattern"),
            Rejection::Shadow => String::from_str("GPU locals cannot shadow resource or dispatch-thread parameters"),
            Rejection::MatchValue => String::from_str("Result match is supported only as a statement, not as a value"),
            Rejection::CompatMatch => String::from_str("match is not supported in the Rust-to-Slang subset"),
            Rejection::LetPosition => String::from_str("`if let` is supported only as `if let Some(x) = value { .. }` or `if let Ok(x) = value { .. }`; let chains and other let positions are not"),
            Rejection::StructUpdate => String::from_str("struct update syntax (`..base`) is not supported; list every field explicitly"),
            Rejection::Try => String::from_str("the `?` operator is not in the Rust-to-Slang subset"),
            Rejection::UnsafeBlock => String::from_str("unsafe blocks are not in the Rust-to-Slang subset"),
            Rejection::Macro => String::from_str("macros cannot run inside a Rust-to-Slang module"),
            Rejection::Closure => String::from_str("closures are not supported in the Rust-to-Slang subset"),
            Rejection::Loop => String::from_str("`loop` is not supported: its trip count is not fixed at entry, so a GPU thread could never be proven to terminate; use `for i in start..end`"),
            Rejection::CompatLoop => String::from_str("loops are not supported in the Rust-to-Slang subset"),
            Rejection::CompatForLoop => String::from_str("for loops are not supported in the Rust-to-Slang subset"),
            Rejection::While => String::from_str("`while` loops are not supported: the trip count is not fixed at entry, so a GPU thread could never be proven to terminate; use `for i in start..end` with a `break`"),
            Rejection::CompatWhile => String::from_str("while loops are not supported in the Rust-to-Slang subset"),
            Rejection::LoopLabel => String::from_str("loop labels are not supported in the Rust-to-Slang subset; restructure with a flag or a helper return"),
            Rejection::MutableLoopVariable => String::from_str("the loop variable is immutable in the Rust-to-Slang subset: Slang's counter would diverge from Rust's fresh per-iteration binding; copy it into a `let mut` local"),
            Rejection::LoopVariableShape => String::from_str("the `for` loop variable must be a single identifier or `_`"),
            Rejection::NotRange => String::from_str("`for` iterates only over an exclusive integer range `start..end`; buffers, iterators, and adaptors are not iterable in the Rust-to-Slang subset"),
            Rejection::InclusiveRange => String::from_str("inclusive ranges (`..=`) are not supported: when `end` is the type maximum the Slang counter never exceeds it and the loop would not terminate; use `start..end + 1`"),
            Rejection::OpenRange => String::from_str("`for` ranges need both bounds (`start..end`) so the trip count is fixed at loop entry"),
            Rejection::UnsuffixedBound => String::from_str("integer-literal loop bounds need an explicit `u32`/`i32` suffix so the Slang counter type matches rustc's inference"),
            Rejection::RangeValue => String::from_str("ranges are supported only as the iterable of a `for` loop"),
            Rejection::ArmAttribute => String::from_str("match arm attributes are not supported"),
            Rejection::MatchGuard => String::from_str("match guards are not supported in the Rust-to-Slang subset"),
            Rejection::BlockArms => String::from_str("Result matches require block arms"),
            Rejection::PlainBinding => String::from_str("Result match bindings must be plain identifiers; `mut`, `ref`, and @ bindings are not supported"),
            Rejection::OkErrArms => String::from_str("Result matches require exactly one `Ok` arm and one `Err` arm"),
            Rejection::ArmPattern => String::from_str("Result matches support only `Ok(identifier)` and `Err(identifier)` patterns"),
            Rejection::MatchSemicolon => String::from_str("Result match is supported only as a statement; terminate it with `;`"),
            Rejection::UnknownResult => String::from_str("statement match is supported only for a known `Result<T, T>` local, parameter, or same-module helper call"),
            Rejection::AtomicArity(op) => five("`", op.name(), "` takes exactly ", op.arity_text(), " arguments"),
            Rejection::AtomicReference(op) => three("`", op.name(), "` requires a mutable reference to a buffer element: `&mut buffer[index]`"),
            Rejection::AtomicMutable(op) => three("`", op.name(), "` requires a mutable reference: `&mut buffer[index]`"),
            Rejection::AtomicElementExpr(op) => three("`", op.name(), "` requires a read-write buffer element: `&mut buffer[index]`"),
            Rejection::AtomicReceiver(op) => three("`", op.name(), "` requires a direct buffer receiver: `&mut buffer[index]`"),
            Rejection::AtomicBuffer(op) => three("`", op.name(), "` requires a read-write buffer parameter: `RWStructuredBuffer<u32>` or `RWStructuredBuffer<i32>`"),
            Rejection::AtomicElementType(op) => three("`", op.name(), "` requires a `u32`/`uint` or `i32`/`int` element; other element types are not supported for atomics"),
            Rejection::AtomicUnsigned(op) => three("`", op.name(), "` requires an unsigned element (`u32`/`uint`); signed atomics for min/max are not supported"),
            Rejection::BreakValue => String::from_str("`break` with a value is not supported"),
            Rejection::BreakOutsideLoop => String::from_str("`break` outside a loop has no meaning"),
            Rejection::ContinueOutsideLoop => String::from_str("`continue` outside a loop has no meaning"),
            Rejection::JumpValue => String::from_str("`break` and `continue` are supported only as statements, not as values"),
            Rejection::Await => String::from_str("await is CPU-only and cannot appear in GPU code"),
            Rejection::Reference => String::from_str("references are not part of the Rust-to-Slang value model"),
            Rejection::LetIdentifier => String::from_str("GPU let bindings require a single identifier"),
            Rejection::LetElse => String::from_str("let-else requires control-flow lowering and is not supported yet"),
            Rejection::NotInline => String::from_str("#[gpu] requires an inline module; use `#[gpu] mod name { ... }`"),
            Rejection::ModuleItem => String::from_str("GPU modules may currently contain only functions and plain structs"),
            Rejection::GenericStruct => String::from_str("generic GPU structs are not supported yet"),
            Rejection::UnnamedFields => String::from_str("GPU structs must have named fields"),
            Rejection::EmptyStruct => String::from_str("GPU structs must contain at least one field"),
            Rejection::ManualRepr => String::from_str("GPU structs receive repr(C) automatically"),
            Rejection::ManualCopy => String::from_str("GPU structs receive Clone and Copy automatically"),
            Rejection::MalformedDerive => String::from_str("expected a parenthesized list of paths in `#[derive(..)]`"),
            Rejection::KernelDispatch => String::from_str("a GPU kernel requires exactly one dispatch-thread parameter"),
            Rejection::KernelReturn => String::from_str("GPU kernels must return unit"),
            Rejection::HelperResources => String::from_str("GPU helper functions currently accept value parameters only; access resources in the kernel"),
            Rejection::AsyncFunction => String::from_str("async is CPU-only in GPU modules"),
            Rejection::UnsafeFunction => String::from_str("unsafe is not part of the Rust-to-Slang subset"),
            Rejection::ExternOrGeneric => String::from_str("extern and generic GPU functions are not supported yet"),
            Rejection::KernelAttribute(e) => e.message(),
        }
    }
}

/// `a`, `b` and `c` joined.
fn three(a: &str, b: &str, c: &str) -> (r: String)
    ensures
        r@ == a@ + b@ + c@,
{
    let mut r = String::from_str(a);
    r.append(b);
    r.append(c);
    r
}

/// `a` to `e` joined.
fn five(a: &str, b: &str, c: &str, d: &str, e: &str) -> (r: String)
    ensures
        r@ == a@ + b@ + c@ + d@ + e@,
{
    let mut r = String::from_str(a);
    r.append(b);
    r.append(c);
    r.append(d);
    r.append(e);
    r
}

} // verus!
