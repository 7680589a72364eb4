//! The Rust-to-Slang subset: which Rust a `#[gpu]` module may hold.
//!
//! The rules walk a module in source order and collect every rejection they
//! meet; the walks below are stated as spec functions that thread the list of
//! rejections (and, for code, the names known to hold a `Result`), and the
//! executable checks are proved to produce exactly that list.
use vstd::prelude::*;
use crate::dialect::{
    ParameterFlavor, banned_name, flavor_of, path_flavor, is_banned_name, is_reserved_name,
    is_unsupported_primitive, parameter_flavor, reserved_name, unsupported_primitive, is_resource,
};
use crate::rejection::{LayoutContext, Rejection};
use crate::syntax::{
    Arm, AttrArgs, Attribute, BinOp, Block, Expr, Field, FieldValue, Fields, FnArg, GenericArg,
    Item, ItemFn, ItemMod, ItemStruct, Local, Member, Pat, Path, PathSegment, Stmt, Ty, UnOp,
    text_is,
};
use crate::dialect::{has_kernel_attribute, kernel_options, spec_kernel_options};
use crate::dialect::{is_allowed_attribute, is_cast_target, is_literal_zero};
use crate::rejection::AtomicOp;

verus! {

broadcast use vstd::std_specs::vec::axiom_vec_decreases_to_view;

/// The two dialects of `#[gpu]` modules: the GUST dialect, with `Option`,
/// `Result`, bounded loops and atomics, and the older compatibility dialect.
#[derive(Clone, Copy, PartialEq, Eq, Structural, Debug)]
pub enum Dialect {
    Gust,
    Compat,
}

/// An identifier: refused when it takes a reserved prefix.
pub open spec fn ident_walk(n: String, errs: Seq<Rejection>) -> Seq<Rejection> {
    if is_reserved_name(n@) {
        errs.push(Rejection::ReservedName)
    } else {
        errs
    }
}

/// Whether a path has one segment, named `name` (whatever its arguments).
pub open spec fn single_segment(p: Path, name: Seq<char>) -> bool {
    p.segments@.len() == 1 && p.segments@[0].ident@ == name
}

/// The bare name of a type, when it is a path of one bare identifier.
pub open spec fn bare_name(t: Ty) -> Option<Seq<char>> {
    match t {
        Ty::Path(p) => p.ident_view(),
        _ => None,
    }
}

/// Whether a bare type name can carry an `Option` or a `Result`: a scalar or
/// a module struct, not itself an `Option`, a `Result` or a resource.
pub open spec fn plain_payload(t: Ty) -> bool {
    match bare_name(t) {
        Some(n) => n != "Option"@ && n != "Result"@ && flavor_of(t) == ParameterFlavor::Value,
        None => false,
    }
}

/// Whether `Option<..>` has the one payload the dialect lowers.
pub open spec fn option_supported(p: Path) -> bool {
    let args = p.segments@[0].args@;
    &&& args.len() == 1
    &&& args[0] matches GenericArg::Type(t)
    &&& bare_name(t) matches Some(n)
    &&& n != "Option"@
    &&& flavor_of(t) == ParameterFlavor::Value
}

/// Whether `Result<..>` is `Result<T, T>` with a payload the dialect lowers.
pub open spec fn result_supported(p: Path) -> bool {
    let args = p.segments@[0].args@;
    &&& args.len() == 2
    &&& args[0] matches GenericArg::Type(ok)
    &&& args[1] matches GenericArg::Type(err)
    &&& plain_payload(ok)
    &&& bare_name(err) == bare_name(ok)
}

/// A type.
pub open spec fn ty_walk(d: Dialect, t: Ty, fb: Option<LayoutContext>, errs: Seq<Rejection>) -> Seq<
    Rejection,
>
    decreases t, 0int,
{
    match t {
        Ty::Path(p) => type_path_walk(d, p, fb, errs),
        Ty::Tuple(ts) => tys_walk(d, ts@, ts@.len() as int, fb, errs),
        Ty::Reference(b) => ty_walk(d, *b, fb, errs),
        Ty::Ptr(b) => ty_walk(d, *b, fb, errs),
        Ty::Slice(b) => ty_walk(d, *b, fb, errs),
        Ty::Infer => errs,
    }
}

/// The types `ts[0..n]`, in order.
pub open spec fn tys_walk(
    d: Dialect,
    ts: Seq<Ty>,
    n: int,
    fb: Option<LayoutContext>,
    errs: Seq<Rejection>,
) -> Seq<Rejection>
    decreases ts, n,
{
    if n <= 0 || n > ts.len() {
        errs
    } else {
        ty_walk(d, ts[n - 1], fb, tys_walk(d, ts, n - 1, fb, errs))
    }
}

/// A path type. In the GUST dialect `Option` and `Result` carry one plain
/// payload and have no place in a struct field or a resource element; in both
/// dialects a primitive wider or narrower than 32 bits is refused.
pub open spec fn type_path_walk(
    d: Dialect,
    p: Path,
    fb: Option<LayoutContext>,
    errs: Seq<Rejection>,
) -> Seq<Rejection>
    decreases p, 2int,
{
    if d == Dialect::Gust && single_segment(p, "Option"@) {
        match fb {
            Some(c) => errs.push(Rejection::OptionForbidden(c)),
            None => if option_supported(p) {
                path_walk(d, p, fb, errs)
            } else {
                errs.push(Rejection::OptionPayload)
            },
        }
    } else if d == Dialect::Gust && single_segment(p, "Result"@) {
        match fb {
            Some(c) => errs.push(Rejection::ResultForbidden(c)),
            None => if result_supported(p) {
                path_walk(d, p, fb, errs)
            } else {
                errs.push(Rejection::ResultPayload)
            },
        }
    } else if p.ident_view() matches Some(n) && is_unsupported_primitive(n) {
        errs.push(Rejection::UnsupportedType(p.segments@[0].ident))
    } else if d == Dialect::Gust && is_resource(flavor_of(Ty::Path(p))) {
        path_walk(d, p, Some(LayoutContext::ResourceElements), errs)
    } else {
        path_walk(d, p, fb, errs)
    }
}

/// Whether some segment of a path names a CPU-only library or type.
pub open spec fn has_banned_segment(p: Path) -> bool {
    exists|i: int| 0 <= i < p.segments@.len() && is_banned_name(#[trigger] p.segments@[i].ident@)
}

/// A path: refused whole when a segment is CPU-only, else its segments.
pub open spec fn path_walk(d: Dialect, p: Path, fb: Option<LayoutContext>, errs: Seq<Rejection>) -> Seq<
    Rejection,
>
    decreases p, 1int,
{
    if has_banned_segment(p) {
        errs.push(Rejection::CpuOnly)
    } else {
        segments_walk(d, p.segments@, p.segments@.len() as int, fb, errs)
    }
}

/// The segments `s[0..n]`: each identifier, then its type arguments.
pub open spec fn segments_walk(
    d: Dialect,
    s: Seq<PathSegment>,
    n: int,
    fb: Option<LayoutContext>,
    errs: Seq<Rejection>,
) -> Seq<Rejection>
    decreases s, n,
{
    if n <= 0 || n > s.len() {
        errs
    } else {
        let before = segments_walk(d, s, n - 1, fb, errs);
        let seg = s[n - 1];
        args_walk(d, seg.args@, seg.args@.len() as int, fb, ident_walk(seg.ident, before))
    }
}

/// The generic arguments `a[0..n]`.
pub open spec fn args_walk(
    d: Dialect,
    a: Seq<GenericArg>,
    n: int,
    fb: Option<LayoutContext>,
    errs: Seq<Rejection>,
) -> Seq<Rejection>
    decreases a, n,
{
    if n <= 0 || n > a.len() {
        errs
    } else {
        let before = args_walk(d, a, n - 1, fb, errs);
        match a[n - 1] {
            GenericArg::Type(t) => ty_walk(d, t, fb, before),
            GenericArg::Other => before,
        }
    }
}

/// An identifier pattern: `ref` and `@` bindings are refused.
pub open spec fn pat_ident_walk(by_ref: bool, at_binding: bool, name: String, errs: Seq<Rejection>) -> Seq<
    Rejection,
> {
    if by_ref || at_binding {
        errs.push(Rejection::BindingMode)
    } else {
        ident_walk(name, errs)
    }
}

/// A pattern.
pub open spec fn pat_walk(d: Dialect, p: Pat, errs: Seq<Rejection>) -> Seq<Rejection>
    decreases p, 0int,
{
    match p {
        Pat::Ident { by_ref, mutable, name, at_binding } => pat_ident_walk(
            by_ref,
            at_binding,
            name,
            errs,
        ),
        Pat::Typed(inner, t) => ty_walk(d, t, None, pat_walk(d, *inner, errs)),
        Pat::Wild => errs,
        Pat::TupleStruct(path, elems) => pats_walk(
            d,
            elems@,
            elems@.len() as int,
            path_walk(d, path, None, errs),
        ),
        Pat::Tuple(elems) => pats_walk(d, elems@, elems@.len() as int, errs),
    }
}

/// The patterns `ps[0..n]`.
pub open spec fn pats_walk(d: Dialect, ps: Seq<Pat>, n: int, errs: Seq<Rejection>) -> Seq<Rejection>
    decreases ps, n,
{
    if n <= 0 || n > ps.len() {
        errs
    } else {
        pat_walk(d, ps[n - 1], pats_walk(d, ps, n - 1, errs))
    }
}

/// Checks an identifier.
pub fn check_ident(n: &String, errs: &mut Vec<Rejection>)
    ensures
        final(errs)@ == ident_walk(*n, old(errs)@),
{
    if reserved_name(n) {
        errs.push(Rejection::ReservedName);
    }
}

/// Whether a path has one segment named `name`.
fn is_single_segment(p: &Path, name: &str) -> (r: bool)
    ensures
        r == single_segment(*p, name@),
{
    p.segments.len() == 1 && text_is(&p.segments[0].ident, name)
}

/// The bare name of a type.
fn bare_type_name(t: &Ty) -> (r: Option<&String>)
    ensures
        match r {
            Some(s) => bare_name(*t) == Some(s@),
            None => bare_name(*t) is None,
        },
{
    match t {
        Ty::Path(p) => p.get_ident(),
        _ => None,
    }
}

/// Whether a bare type name can carry an `Option` or a `Result`.
fn is_plain_payload(t: &Ty) -> (r: bool)
    ensures
        r == plain_payload(*t),
{
    match bare_type_name(t) {
        Some(n) => !text_is(n, "Option") && !text_is(n, "Result") && parameter_flavor(t)
            == ParameterFlavor::Value,
        None => false,
    }
}

/// Whether an `Option` path has a lowered payload.
fn option_payload_supported(p: &Path) -> (r: bool)
    requires
        p.segments@.len() == 1,
    ensures
        r == option_supported(*p),
{
    let args = &p.segments[0].args;
    if args.len() != 1 {
        return false;
    }
    match &args[0] {
        GenericArg::Type(t) => match bare_type_name(t) {
            Some(n) => !text_is(n, "Option") && parameter_flavor(t) == ParameterFlavor::Value,
            None => false,
        },
        GenericArg::Other => false,
    }
}

/// Whether a `Result` path is `Result<T, T>` with a lowered payload.
fn result_payload_supported(p: &Path) -> (r: bool)
    requires
        p.segments@.len() == 1,
    ensures
        r == result_supported(*p),
{
    let args = &p.segments[0].args;
    if args.len() != 2 {
        return false;
    }
    match (&args[0], &args[1]) {
        (GenericArg::Type(ok), GenericArg::Type(err)) => {
            if !is_plain_payload(ok) {
                return false;
            }
            match (bare_type_name(ok), bare_type_name(err)) {
                (Some(a), Some(b)) => *a == *b,
                _ => false,
            }
        },
        _ => false,
    }
}

/// Checks a type.
pub fn check_ty(d: Dialect, t: &Ty, fb: Option<LayoutContext>, errs: &mut Vec<Rejection>)
    ensures
        final(errs)@ == ty_walk(d, *t, fb, old(errs)@),
    decreases t, 0int,
{
    match t {
        Ty::Path(p) => check_type_path(d, p, fb, errs),
        Ty::Tuple(ts) => check_tys(d, ts, fb, errs),
        Ty::Reference(b) => check_ty(d, b, fb, errs),
        Ty::Ptr(b) => check_ty(d, b, fb, errs),
        Ty::Slice(b) => check_ty(d, b, fb, errs),
        Ty::Infer => {},
    }
}

/// Checks types in order.
fn check_tys(d: Dialect, ts: &Vec<Ty>, fb: Option<LayoutContext>, errs: &mut Vec<Rejection>)
    ensures
        final(errs)@ == tys_walk(d, ts@, ts@.len() as int, fb, old(errs)@),
    decreases ts, ts@.len() + 1,
{
    let mut i: usize = 0;
    while i < ts.len()
        invariant
            i <= ts@.len(),
            errs@ == tys_walk(d, ts@, i as int, fb, old(errs)@),
        decreases ts@.len() - i,
    {
        check_ty(d, &ts[i], fb, errs);
        i = i + 1;
    }
}

/// Checks a path type.
pub fn check_type_path(d: Dialect, p: &Path, fb: Option<LayoutContext>, errs: &mut Vec<Rejection>)
    ensures
        final(errs)@ == type_path_walk(d, *p, fb, old(errs)@),
    decreases p, 2int,
{
    if d == Dialect::Gust && is_single_segment(p, "Option") {
        match fb {
            Some(c) => errs.push(Rejection::OptionForbidden(c)),
            None => if option_payload_supported(p) {
                check_path(d, p, fb, errs);
            } else {
                errs.push(Rejection::OptionPayload);
            },
        }
        return ;
    }
    if d == Dialect::Gust && is_single_segment(p, "Result") {
        match fb {
            Some(c) => errs.push(Rejection::ResultForbidden(c)),
            None => if result_payload_supported(p) {
                check_path(d, p, fb, errs);
            } else {
                errs.push(Rejection::ResultPayload);
            },
        }
        return ;
    }
    if let Some(n) = p.get_ident() {
        if unsupported_primitive(n) {
            errs.push(Rejection::UnsupportedType(n.clone()));
            return ;
        }
    }
    let flavor = path_flavor(p);
    if d == Dialect::Gust && (flavor == ParameterFlavor::StorageRead || flavor
        == ParameterFlavor::StorageReadWrite || flavor == ParameterFlavor::Uniform) {
        check_path(d, p, Some(LayoutContext::ResourceElements), errs);
    } else {
        check_path(d, p, fb, errs);
    }
}

/// Checks a path.
pub fn check_path(d: Dialect, p: &Path, fb: Option<LayoutContext>, errs: &mut Vec<Rejection>)
    ensures
        final(errs)@ == path_walk(d, *p, fb, old(errs)@),
    decreases p, 1int,
{
    let mut k: usize = 0;
    while k < p.segments.len()
        invariant
            k <= p.segments@.len(),
            errs@ == old(errs)@,
            forall|j: int| 0 <= j < k ==> !is_banned_name(#[trigger] p.segments@[j].ident@),
        decreases p.segments@.len() - k,
    {
        if banned_name(&p.segments[k].ident) {
            proof {
                assert(is_banned_name(p.segments@[k as int].ident@));
            }
            errs.push(Rejection::CpuOnly);
            return ;
        }
        k = k + 1;
    }
    check_segments(d, &p.segments, fb, errs);
}

/// Checks path segments in order.
fn check_segments(d: Dialect, s: &Vec<PathSegment>, fb: Option<LayoutContext>, errs: &mut Vec<Rejection>)
    ensures
        final(errs)@ == segments_walk(d, s@, s@.len() as int, fb, old(errs)@),
    decreases s, s@.len() + 1,
{
    let mut i: usize = 0;
    while i < s.len()
        invariant
            i <= s@.len(),
            errs@ == segments_walk(d, s@, i as int, fb, old(errs)@),
        decreases s@.len() - i,
    {
        check_ident(&s[i].ident, errs);
        check_args(d, &s[i].args, fb, errs);
        i = i + 1;
    }
}

/// Checks generic arguments in order.
fn check_args(d: Dialect, a: &Vec<GenericArg>, fb: Option<LayoutContext>, errs: &mut Vec<Rejection>)
    ensures
        final(errs)@ == args_walk(d, a@, a@.len() as int, fb, old(errs)@),
    decreases a, a@.len() + 1,
{
    let mut j: usize = 0;
    while j < a.len()
        invariant
            j <= a@.len(),
            errs@ == args_walk(d, a@, j as int, fb, old(errs)@),
        decreases a@.len() - j,
    {
        match &a[j] {
            GenericArg::Type(t) => check_ty(d, t, fb, errs),
            GenericArg::Other => {},
        }
        j = j + 1;
    }
}

/// Checks an identifier pattern's binding mode and name.
pub fn check_pat_ident(by_ref: bool, at_binding: bool, name: &String, errs: &mut Vec<Rejection>)
    ensures
        final(errs)@ == pat_ident_walk(by_ref, at_binding, *name, old(errs)@),
{
    if by_ref || at_binding {
        errs.push(Rejection::BindingMode);
    } else {
        check_ident(name, errs);
    }
}

/// Checks a pattern.
pub fn check_pat(d: Dialect, p: &Pat, errs: &mut Vec<Rejection>)
    ensures
        final(errs)@ == pat_walk(d, *p, old(errs)@),
    decreases p, 0int,
{
    match p {
        Pat::Ident { by_ref, mutable, name, at_binding } => check_pat_ident(
            *by_ref,
            *at_binding,
            name,
            errs,
        ),
        Pat::Typed(inner, t) => {
            check_pat(d, inner, errs);
            check_ty(d, t, None, errs);
        },
        Pat::Wild => {},
        Pat::TupleStruct(path, elems) => {
            check_path(d, path, None, errs);
            check_pats(d, elems, errs);
        },
        Pat::Tuple(elems) => check_pats(d, elems, errs),
    }
}

/// Checks patterns in order.
fn check_pats(d: Dialect, ps: &Vec<Pat>, errs: &mut Vec<Rejection>)
    ensures
        final(errs)@ == pats_walk(d, ps@, ps@.len() as int, old(errs)@),
    decreases ps, ps@.len() + 1,
{
    let mut i: usize = 0;
    while i < ps.len()
        invariant
            i <= ps@.len(),
            errs@ == pats_walk(d, ps@, i as int, old(errs)@),
        decreases ps@.len() - i,
    {
        check_pat(d, &ps[i], errs);
        i = i + 1;
    }
}


/// The attributes `a[0..n]`: each one outside the allowed list is refused.
pub open spec fn attrs_walk(a: Seq<Attribute>, n: int, errs: Seq<Rejection>) -> Seq<Rejection>
    decreases n,
{
    if n <= 0 || n > a.len() {
        errs
    } else {
        let before = attrs_walk(a, n - 1, errs);
        if is_allowed_attribute(a[n - 1]) {
            before
        } else {
            before.push(Rejection::Attribute)
        }
    }
}

/// What a function's checks know while they walk its body.
pub struct Scope {
    pub dialect: Dialect,
    /// The module's helper functions (its functions that are no kernels).
    pub functions: Seq<Seq<char>>,
    /// The module's functions that return a `Result`.
    pub result_helpers: Seq<Seq<char>>,
    /// The storage-buffer parameters.
    pub resources: Seq<Seq<char>>,
    /// The dispatch-thread parameters.
    pub invocations: Seq<Seq<char>>,
    /// The read-write buffer parameters with their element type.
    pub rw_buffers: Seq<(Seq<char>, Seq<char>)>,
    /// The buffers that an atomic operation of the function uses.
    pub atomic_buffers: Seq<Seq<char>>,
}

/// The state of a walk: the rejections so far, and the names known to hold a
/// `Result`.
pub struct Walk {
    pub errs: Seq<Rejection>,
    pub results: Seq<Seq<char>>,
}

/// `w` with one more rejection.
pub open spec fn rej(w: Walk, r: Rejection) -> Walk {
    Walk { errs: w.errs.push(r), results: w.results }
}

/// `w` with its rejections replaced.
pub open spec fn with_errs(w: Walk, errs: Seq<Rejection>) -> Walk {
    Walk { errs, results: w.results }
}

/// Whether a name would shadow a resource or dispatch-thread parameter.
pub open spec fn shadowing(sc: Scope, n: Seq<char>) -> bool {
    sc.resources.contains(n) || sc.invocations.contains(n)
}

/// The element type of the last read-write buffer parameter named `n`.
pub open spec fn rw_lookup(s: Seq<(Seq<char>, Seq<char>)>, n: Seq<char>) -> Option<Seq<char>>
    decreases s.len(),
{
    if s.len() == 0 {
        None
    } else if s.last().0 == n {
        Some(s.last().1)
    } else {
        rw_lookup(s.drop_last(), n)
    }
}

/// The atomic operation a callee names.
pub open spec fn atomic_op_of(f: Expr) -> Option<AtomicOp> {
    match f {
        Expr::Path(p) => match p.ident_view() {
            Some(n) => if n == "atomic_add"@ {
                Some(AtomicOp::Add)
            } else if n == "atomic_min"@ {
                Some(AtomicOp::Min)
            } else if n == "atomic_max"@ {
                Some(AtomicOp::Max)
            } else if n == "atomic_exchange"@ {
                Some(AtomicOp::Exchange)
            } else if n == "atomic_compare_exchange"@ {
                Some(AtomicOp::CompareExchange)
            } else {
                None
            },
            None => None,
        },
        _ => None,
    }
}

/// Whether an expression is known to hold a `Result`: a name bound to one,
/// or a call of a module function that returns one.
pub open spec fn is_known_result(sc: Scope, results: Seq<Seq<char>>, e: Expr) -> bool
    decreases e,
{
    match e {
        Expr::Path(p) => p.ident_view() matches Some(n) && results.contains(n),
        Expr::Call(f, _) => *f matches Expr::Path(p) && p.ident_view() matches Some(n)
            && sc.result_helpers.contains(n),
        Expr::Paren(inner) => is_known_result(sc, results, *inner),
        Expr::Group(inner) => is_known_result(sc, results, *inner),
        _ => false,
    }
}

/// Whether a loop bound is an integer literal without a suffix (through
/// parentheses and negation).
pub open spec fn is_unsuffixed_literal(e: Expr) -> bool
    decreases e,
{
    match e {
        Expr::Lit(crate::syntax::Lit::Int { suffix, .. }) => suffix@.len() == 0,
        Expr::Paren(inner) => is_unsuffixed_literal(*inner),
        Expr::Group(inner) => is_unsuffixed_literal(*inner),
        Expr::Unary(UnOp::Neg, inner) => is_unsuffixed_literal(*inner),
        _ => false,
    }
}

/// The binding of `ctor(identifier)`, as in `Some(x)` or `Ok(x)`.
pub open spec fn ctor_binding(p: Pat, ctor: Seq<char>) -> Option<Pat> {
    match p {
        Pat::TupleStruct(path, elems) => if path.ident_view() == Some(ctor) && elems@.len() == 1
            && elems@[0] is Ident {
            Some(elems@[0])
        } else {
            None
        },
        _ => None,
    }
}

/// The name a `let` binds: `x` or `x: T`.
pub open spec fn local_name(p: Pat) -> Option<String> {
    match p {
        Pat::Ident { name, .. } => Some(name),
        Pat::Typed(inner, _) => match *inner {
            Pat::Ident { name, .. } => Some(name),
            _ => None,
        },
        _ => None,
    }
}

/// What a `for` loop's variable is: `_`, a plain identifier, or refused.
pub open spec fn loop_var(p: Pat) -> Result<Option<Pat>, Rejection> {
    match p {
        Pat::Wild => Ok(None),
        Pat::Ident { by_ref, mutable, at_binding, .. } => if mutable {
            Err(Rejection::MutableLoopVariable)
        } else if by_ref || at_binding {
            Err(Rejection::BindingMode)
        } else {
            Ok(Some(p))
        },
        _ => Err(Rejection::LoopVariableShape),
    }
}

/// The bounds of a `for` loop's range, or why it has none.
pub open spec fn range_of(e: Expr) -> Result<(Expr, Expr), Rejection> {
    match e {
        Expr::Range { start, end, closed } => if closed {
            Err(Rejection::InclusiveRange)
        } else {
            match (start, end) {
                (Some(a), Some(b)) => Ok((*a, *b)),
                _ => Err(Rejection::OpenRange),
            }
        },
        _ => Err(Rejection::NotRange),
    }
}

/// Whether a pattern is a plain identifier: no `mut`, `ref` or `@`.
pub open spec fn plain_ident(p: Pat) -> bool {
    p matches Pat::Ident { by_ref, mutable, at_binding, .. } && !by_ref && !mutable && !at_binding
}

/// The `Ok` and `Err` arms (binding and block) found in `arms[0..n]`, or the
/// first refusal.
pub open spec fn arms_scan(arms: Seq<Arm>, n: int) -> Result<
    (Option<(Pat, Block)>, Option<(Pat, Block)>),
    Rejection,
>
    decreases n,
{
    if n <= 0 || n > arms.len() {
        Ok((None, None))
    } else {
        match arms_scan(arms, n - 1) {
            Err(r) => Err(r),
            Ok((ok, err)) => {
                let arm = arms[n - 1];
                if arm.attrs@.len() > 0 {
                    Err(Rejection::ArmAttribute)
                } else if arm.guard is Some {
                    Err(Rejection::MatchGuard)
                } else {
                    match *arm.body {
                        Expr::Block(body) => match ctor_binding(arm.pat, "Ok"@) {
                            Some(b) => if !plain_ident(b) {
                                Err(Rejection::PlainBinding)
                            } else if ok is Some {
                                Err(Rejection::OkErrArms)
                            } else {
                                Ok((Some((b, body)), err))
                            },
                            None => match ctor_binding(arm.pat, "Err"@) {
                                Some(b) => if !plain_ident(b) {
                                    Err(Rejection::PlainBinding)
                                } else if err is Some {
                                    Err(Rejection::OkErrArms)
                                } else {
                                    Ok((ok, Some((b, body))))
                                },
                                None => Err(Rejection::ArmPattern),
                            },
                        },
                        _ => Err(Rejection::BlockArms),
                    }
                }
            },
        }
    }
}

/// The `Ok` and `Err` arms of a statement `match` on a `Result`: exactly one
/// block arm each, binding plain identifiers, with no guards or attributes.
pub open spec fn match_arms(arms: Seq<Arm>) -> Result<(Pat, Block, Pat, Block), Rejection> {
    match arms_scan(arms, arms.len() as int) {
        Ok((Some((o, ob)), Some((e, eb)))) => Ok((o, ob, e, eb)),
        Ok(_) => Err(Rejection::OkErrArms),
        Err(r) => Err(r),
    }
}

/// The bare name an expression path is.
pub open spec fn path_name(e: Expr) -> Option<Seq<char>> {
    match e {
        Expr::Path(p) => p.ident_view(),
        _ => None,
    }
}

/// Whether a name is given and among `names`.
pub open spec fn named_in(n: Option<Seq<char>>, names: Seq<Seq<char>>) -> bool {
    match n {
        Some(x) => names.contains(x),
        None => false,
    }
}

/// Whether a callee path names something CPU-only.
pub open spec fn callee_banned(f: Expr) -> bool {
    match f {
        Expr::Path(p) => has_banned_segment(p),
        _ => false,
    }
}

/// Whether a cast targets a supported scalar.
pub open spec fn cast_supported(t: Ty) -> bool {
    match bare_name(t) {
        Some(n) => is_cast_target(n),
        None => false,
    }
}

/// Whether a method is one of the `Option` and `Result` predicates.
pub open spec fn is_predicate_method(m: Seq<char>) -> bool {
    m == "is_some"@ || m == "is_none"@ || m == "is_ok"@ || m == "is_err"@
}

/// An expression.
pub open spec fn expr_walk(sc: Scope, e: Expr, lp: bool, w: Walk) -> Walk
    decreases e, 5int,
{
    let g = sc.dialect == Dialect::Gust;
    let d = sc.dialect;
    match e {
        Expr::Lit(_) => w,
        Expr::Path(p) => match p.ident_view() {
            None => rej(w, Rejection::ForeignPath),
            Some(n) => if g && (n == "Some"@ || n == "Ok"@ || n == "Err"@) {
                rej(w, Rejection::BareConstructor)
            } else {
                w
            },
        },
        Expr::Unary(_, inner) => expr_walk(sc, *inner, lp, w),
        Expr::Binary(op, l, r) => if (op == BinOp::Div || op == BinOp::Rem) && is_literal_zero(
            *r,
        ) {
            rej(w, Rejection::DivisionByZero)
        } else {
            expr_walk(sc, *r, lp, expr_walk(sc, *l, lp, w))
        },
        Expr::Paren(inner) => expr_walk(sc, *inner, lp, w),
        Expr::Group(inner) => expr_walk(sc, *inner, lp, w),
        Expr::Call(_, _) => call_walk(sc, e, lp, w),
        Expr::MethodCall { .. } => method_walk(sc, e, lp, w),
        Expr::Field(base, m) => {
            let w1 = expr_walk(sc, *base, lp, w);
            match m {
                Member::Named(n) => with_errs(w1, ident_walk(n, w1.errs)),
                Member::Unnamed(_) => w1,
            }
        },
        Expr::Index(b, i) => if g && named_in(path_name(*b), sc.atomic_buffers) {
            rej(w, Rejection::AtomicIndex)
        } else {
            expr_walk(sc, *i, lp, expr_walk(sc, *b, lp, w))
        },
        Expr::Cast(inner, t) => if cast_supported(t) {
            let w1 = expr_walk(sc, *inner, lp, w);
            with_errs(w1, ty_walk(d, t, None, w1.errs))
        } else {
            rej(w, Rejection::Cast)
        },
        Expr::Reference { .. } => rej(w, Rejection::Reference),
        Expr::Struct { path, fields, rest } => if rest {
            rej(w, Rejection::StructUpdate)
        } else {
            fields_walk(sc, fields@, fields@.len() as int, lp, with_errs(w, path_walk(d, path, None, w.errs)))
        },
        Expr::Assign(l, r) => expr_walk(sc, *r, lp, expr_walk(sc, *l, lp, w)),
        Expr::Block(b) => stmts_walk(sc, b.stmts@, b.stmts@.len() as int, lp, w),
        Expr::If { .. } => if_walk(sc, e, lp, w),
        Expr::Let(pat, scrutinee) => if g {
            rej(w, Rejection::LetPosition)
        } else {
            expr_walk(sc, *scrutinee, lp, with_errs(w, pat_walk(d, pat, w.errs)))
        },
        Expr::ForLoop { .. } => if g {
            for_walk(sc, e, lp, w)
        } else {
            rej(w, Rejection::CompatForLoop)
        },
        Expr::Match(_, _) => if g {
            rej(w, Rejection::MatchValue)
        } else {
            rej(w, Rejection::CompatMatch)
        },
        Expr::Range { start, end, .. } => if g {
            rej(w, Rejection::RangeValue)
        } else {
            opt_walk(sc, end, lp, opt_walk(sc, start, lp, w))
        },
        Expr::Break { label, value } => if g {
            rej(w, Rejection::JumpValue)
        } else {
            let w1 = match label {
                Some(l) => with_errs(w, ident_walk(l, w.errs)),
                None => w,
            };
            opt_walk(sc, value, lp, w1)
        },
        Expr::Continue { label } => if g {
            rej(w, Rejection::JumpValue)
        } else {
            match label {
                Some(l) => with_errs(w, ident_walk(l, w.errs)),
                None => w,
            }
        },
        Expr::Return(value) => opt_walk(sc, value, lp, w),
        Expr::Tuple(es) => exprs_walk(sc, es@, 0, es@.len() as int, lp, w),
        Expr::Array(es) => exprs_walk(sc, es@, 0, es@.len() as int, lp, w),
        Expr::Const => rej(w, Rejection::ConstBlock),
        Expr::Try => rej(w, Rejection::Try),
        Expr::Unsafe => rej(w, Rejection::UnsafeBlock),
        Expr::Macro => rej(w, Rejection::Macro),
        Expr::Closure => rej(w, Rejection::Closure),
        Expr::Loop => if g {
            rej(w, Rejection::Loop)
        } else {
            rej(w, Rejection::CompatLoop)
        },
        Expr::While => if g {
            rej(w, Rejection::While)
        } else {
            rej(w, Rejection::CompatWhile)
        },
        Expr::Await => rej(w, Rejection::Await),
    }
}

/// An optional expression.
pub open spec fn opt_walk(sc: Scope, o: Option<Box<Expr>>, lp: bool, w: Walk) -> Walk
    decreases o, 0int,
{
    match o {
        Some(e) => expr_walk(sc, *e, lp, w),
        None => w,
    }
}

/// The expressions `s[lo..n]`, in order.
pub open spec fn exprs_walk(sc: Scope, s: Seq<Expr>, lo: int, n: int, lp: bool, w: Walk) -> Walk
    decreases s, n,
{
    if n <= lo || n > s.len() || lo < 0 {
        w
    } else {
        expr_walk(sc, s[n - 1], lp, exprs_walk(sc, s, lo, n - 1, lp, w))
    }
}

/// The fields `fs[0..n]` of a struct literal: each member, then its value.
pub open spec fn fields_walk(sc: Scope, fs: Seq<FieldValue>, n: int, lp: bool, w: Walk) -> Walk
    decreases fs, n,
{
    if n <= 0 || n > fs.len() {
        w
    } else {
        let w1 = fields_walk(sc, fs, n - 1, lp, w);
        let f = fs[n - 1];
        let w2 = match f.member {
            Member::Named(name) => with_errs(w1, ident_walk(name, w1.errs)),
            Member::Unnamed(_) => w1,
        };
        expr_walk(sc, f.expr, lp, w2)
    }
}

/// A call: in the GUST dialect `Some`, `Ok` and `Err` take one argument and an
/// atomic operation is no value; in both dialects only helpers of the module
/// may be called.
pub open spec fn call_walk(sc: Scope, e: Expr, lp: bool, w: Walk) -> Walk
    decreases e, 1int,
{
    let g = sc.dialect == Dialect::Gust;
    match e {
        Expr::Call(f, args) => {
            let name = path_name(*f);
            if callee_banned(*f) {
                rej(w, Rejection::CpuOnly)
            } else if g && name == Some("Some"@) {
                if args@.len() != 1 {
                    rej(w, Rejection::SomeArity)
                } else {
                    expr_walk(sc, args@[0], lp, w)
                }
            } else if g && (name == Some("Ok"@) || name == Some("Err"@)) {
                if args@.len() != 1 {
                    rej(w, Rejection::OkErrArity)
                } else {
                    expr_walk(sc, args@[0], lp, w)
                }
            } else if g && atomic_op_of(*f) is Some {
                rej(w, Rejection::AtomicValue(atomic_op_of(*f)->0))
            } else if !named_in(name, sc.functions) {
                rej(w, Rejection::ForeignCall)
            } else {
                exprs_walk(sc, args@, 0, args@.len() as int, lp, w)
            }
        },
        _ => w,
    }
}

/// A method call: the `Option` and `Result` methods of the GUST dialect, and
/// the built-ins `.len()` on a storage parameter and `.global_id()` on a
/// dispatch-thread parameter.
pub open spec fn method_walk(sc: Scope, e: Expr, lp: bool, w: Walk) -> Walk
    decreases e, 1int,
{
    let g = sc.dialect == Dialect::Gust;
    match e {
        Expr::MethodCall { receiver, method, turbofish, args } => {
            let m = method@;
            let visit = {
                let w1 = expr_walk(sc, *receiver, lp, w);
                exprs_walk(sc, args@, 0, args@.len() as int, lp, with_errs(w1, ident_walk(method, w1.errs)))
            };
            let builtin = if m != "global_id"@ && m != "len"@ {
                if g {
                    rej(w, Rejection::UnknownMethod)
                } else {
                    rej(w, Rejection::CompatUnknownMethod)
                }
            } else if !named_in(
                path_name(*receiver),
                if m == "len"@ {
                    sc.resources
                } else {
                    sc.invocations
                },
            ) {
                if m == "len"@ {
                    rej(w, Rejection::LenReceiver)
                } else {
                    rej(w, Rejection::GlobalIdReceiver)
                }
            } else {
                visit
            };
            if g {
                if turbofish {
                    rej(w, Rejection::Turbofish)
                } else if is_predicate_method(m) && args@.len() == 0 {
                    visit
                } else if m == "unwrap_or"@ && args@.len() == 1 {
                    visit
                } else if is_predicate_method(m) {
                    rej(w, Rejection::PredicateArity)
                } else if m == "unwrap_or"@ {
                    rej(w, Rejection::UnwrapOrArity)
                } else if m == "unwrap"@ || m == "expect"@ {
                    rej(w, Rejection::Unwrap)
                } else if args@.len() > 0 {
                    rej(w, Rejection::BuiltinArguments)
                } else {
                    builtin
                }
            } else if args@.len() > 0 || turbofish {
                rej(w, Rejection::BuiltinArguments)
            } else {
                builtin
            }
        },
        _ => w,
    }
}

/// An `if`: in the GUST dialect `if let` binds `Some(x)` or `Ok(x)`, and the
/// name may not shadow a resource or dispatch-thread parameter.
pub open spec fn if_walk(sc: Scope, e: Expr, lp: bool, w: Walk) -> Walk
    decreases e, 1int,
{
    let g = sc.dialect == Dialect::Gust;
    match e {
        Expr::If { cond, then_branch, else_branch } => {
            match *cond {
                Expr::Let(pat, scrutinee) if g => {
                    let binding = match ctor_binding(pat, "Some"@) {
                        Some(b) => Some(b),
                        None => ctor_binding(pat, "Ok"@),
                    };
                    match binding {
                        None => rej(w, Rejection::IfLetPattern),
                        Some(Pat::Ident { by_ref, at_binding, name, .. }) => if shadowing(sc, name@) {
                            rej(w, Rejection::Shadow)
                        } else {
                            let w1 = with_errs(w, pat_ident_walk(by_ref, at_binding, name, w.errs));
                            opt_walk(sc, else_branch, lp, stmts_walk(sc, then_branch.stmts@, then_branch.stmts@.len() as int, lp, expr_walk(sc, *scrutinee, lp, w1)))
                        },
                        Some(_) => w,
                    }
                },
                _ => opt_walk(sc, else_branch, lp, stmts_walk(sc, then_branch.stmts@, then_branch.stmts@.len() as int, lp, expr_walk(sc, *cond, lp, w))),
            }
        },
        _ => w,
    }
}

/// A `for` loop of the GUST dialect: no label, a plain loop variable that
/// shadows no parameter, and an exclusive range whose literal bounds carry a
/// suffix; its body runs inside a loop.
pub open spec fn for_walk(sc: Scope, e: Expr, lp: bool, w: Walk) -> Walk
    decreases e, 1int,
{
    match e {
        Expr::ForLoop { label, pat, iterable, body } => if label is Some {
            rej(w, Rejection::LoopLabel)
        } else {
            match loop_var(pat) {
                Err(r) => rej(w, r),
                Ok(v) => {
                    let shadow = v matches Some(Pat::Ident { name, .. }) && shadowing(sc, name@);
                    if shadow {
                        rej(w, Rejection::Shadow)
                    } else {
                        let w1 = match v {
                            Some(Pat::Ident { by_ref, at_binding, name, .. }) => with_errs(
                                w,
                                pat_ident_walk(by_ref, at_binding, name, w.errs),
                            ),
                            _ => w,
                        };
                        match range_of(*iterable) {
                            Err(r) => rej(w1, r),
                            Ok((start, end)) => if is_unsuffixed_literal(start)
                                || is_unsuffixed_literal(end) {
                                rej(w1, Rejection::UnsuffixedBound)
                            } else {
                                stmts_walk(sc, body.stmts@, body.stmts@.len() as int, true, expr_walk(sc, end, lp, expr_walk(sc, start, lp, w1)))
                            },
                        }
                    }
                },
            }
        },
        _ => w,
    }
}

/// The statements `ss[0..n]`, in order.
pub open spec fn stmts_walk(sc: Scope, ss: Seq<Stmt>, n: int, lp: bool, w: Walk) -> Walk
    decreases ss, n,
{
    if n <= 0 || n > ss.len() {
        w
    } else {
        stmt_walk(sc, ss[n - 1], lp, stmts_walk(sc, ss, n - 1, lp, w))
    }
}

/// A statement. In the GUST dialect a `match` on a known `Result`, an atomic
/// operation, `break` and `continue` stand only as statements.
pub open spec fn stmt_walk(sc: Scope, s: Stmt, lp: bool, w: Walk) -> Walk
    decreases s, 5int,
{
    let g = sc.dialect == Dialect::Gust;
    match s {
        Stmt::Local(l) => local_walk(sc, l, lp, w),
        Stmt::Macro(attrs, path) => with_errs(
            w,
            path_walk(sc.dialect, path, None, attrs_walk(attrs@, attrs@.len() as int, w.errs)),
        ),
        Stmt::Expr(e, semi) => if !g {
            expr_walk(sc, e, lp, w)
        } else {
            match e {
                Expr::Match(_, _) => match_stmt_walk(sc, s, lp, w),
                Expr::Call(f, args) => if atomic_op_of(*f) is Some {
                    atomic_walk(sc, s, lp, w)
                } else {
                    expr_walk(sc, e, lp, w)
                },
                Expr::Break { label, value } => if value is Some {
                    rej(w, Rejection::BreakValue)
                } else if label is Some {
                    rej(w, Rejection::LoopLabel)
                } else if !lp {
                    rej(w, Rejection::BreakOutsideLoop)
                } else {
                    w
                },
                Expr::Continue { label } => if label is Some {
                    rej(w, Rejection::LoopLabel)
                } else if !lp {
                    rej(w, Rejection::ContinueOutsideLoop)
                } else {
                    w
                },
                _ => expr_walk(sc, e, lp, w),
            }
        },
    }
}

/// A `let`: one name that shadows no parameter, no `else`; in the GUST
/// dialect a name annotated `Result` or bound to a known `Result` becomes
/// known to hold one.
pub open spec fn local_walk(sc: Scope, l: Local, lp: bool, w: Walk) -> Walk
    decreases l, 0int,
{
    match local_name(l.pat) {
        None => rej(w, Rejection::LetIdentifier),
        Some(n) => if shadowing(sc, n@) {
            rej(w, Rejection::Shadow)
        } else if l.init is Some && l.diverge is Some {
            rej(w, Rejection::LetElse)
        } else {
            let w1 = with_errs(
                w,
                pat_walk(sc.dialect, l.pat, attrs_walk(l.attrs@, l.attrs@.len() as int, w.errs)),
            );
            let w2 = opt_walk(sc, l.init, lp, w1);
            let annotated = l.pat matches Pat::Typed(_, Ty::Path(p)) && single_segment(
                p,
                "Result"@,
            );
            let initialized = l.init matches Some(i) && is_known_result(sc, w2.results, *i);
            if sc.dialect == Dialect::Gust && (annotated || initialized) {
                Walk { errs: w2.errs, results: w2.results.push(n@) }
            } else {
                w2
            }
        },
    }
}

/// A statement `match` of the GUST dialect: the arms' shape, a `;`, a known
/// `Result` scrutinee and bindings that shadow no parameter.
pub open spec fn match_stmt_walk(sc: Scope, s: Stmt, lp: bool, w: Walk) -> Walk
    decreases s, 1int,
{
    match s {
        Stmt::Expr(Expr::Match(scrutinee, arms), semi) => match match_arms(arms@) {
            Err(r) => rej(w, r),
            Ok((Pat::Ident { by_ref: ok_ref, at_binding: ok_at, name: ok_name, .. }, _, Pat::Ident { by_ref: err_ref, at_binding: err_at, name: err_name, .. }, _)) => if !semi {
                rej(w, Rejection::MatchSemicolon)
            } else if !is_known_result(sc, w.results, *scrutinee) {
                rej(w, Rejection::UnknownResult)
            } else if shadowing(sc, ok_name@) {
                rej(w, Rejection::Shadow)
            } else {
                let w1 = with_errs(w, pat_ident_walk(ok_ref, ok_at, ok_name, w.errs));
                if shadowing(sc, err_name@) {
                    rej(w1, Rejection::Shadow)
                } else {
                    let w2 = with_errs(w1, pat_ident_walk(err_ref, err_at, err_name, w1.errs));
                    arm_bodies_walk(sc, arms@, arms@.len() as int, lp, expr_walk(sc, *scrutinee, lp, w2))
                }
            },
            Ok(_) => w,
        },
        _ => w,
    }
}

/// The block bodies of the arms `arms[0..n]`, in order.
pub open spec fn arm_bodies_walk(sc: Scope, arms: Seq<Arm>, n: int, lp: bool, w: Walk) -> Walk
    decreases arms, n,
{
    if n <= 0 || n > arms.len() {
        w
    } else {
        let w1 = arm_bodies_walk(sc, arms, n - 1, lp, w);
        match *arms[n - 1].body {
            Expr::Block(b) => stmts_walk(sc, b.stmts@, b.stmts@.len() as int, lp, w1),
            _ => w1,
        }
    }
}

/// Whether an atomic element type is unsigned (`u32` or `uint`).
pub open spec fn unsigned_element(t: Seq<char>) -> bool {
    t == "u32"@ || t == "uint"@
}

/// Whether an atomic element type is signed (`i32` or `int`).
pub open spec fn signed_element(t: Seq<char>) -> bool {
    t == "i32"@ || t == "int"@
}

/// An atomic operation statement: its arity, a `&mut buffer[index]` first
/// argument on a read-write buffer parameter of 32-bit integers (unsigned for
/// `atomic_min` and `atomic_max`); then the index and the other arguments.
pub open spec fn atomic_walk(sc: Scope, s: Stmt, lp: bool, w: Walk) -> Walk
    decreases s, 1int,
{
    match s {
        Stmt::Expr(Expr::Call(f, args), _) => match atomic_op_of(*f) {
            None => w,
            Some(op) => if args@.len() != op.spec_arity() {
                rej(w, Rejection::AtomicArity(op))
            } else {
                match args@[0] {
                    Expr::Reference { mutable, expr } => if !mutable {
                        rej(w, Rejection::AtomicMutable(op))
                    } else {
                        match *expr {
                            Expr::Index(b, index) => match *b {
                                Expr::Path(p) => {
                                    let element = match p.ident_view() {
                                        Some(n) => rw_lookup(sc.rw_buffers, n),
                                        None => None,
                                    };
                                    match element {
                                        None => rej(w, Rejection::AtomicBuffer(op)),
                                        Some(t) => if !unsigned_element(t) && !signed_element(t) {
                                            rej(w, Rejection::AtomicElementType(op))
                                        } else if (op == AtomicOp::Min || op == AtomicOp::Max)
                                            && !unsigned_element(t) {
                                            rej(w, Rejection::AtomicUnsigned(op))
                                        } else {
                                            exprs_walk(sc, args@, 1, args@.len() as int, lp, expr_walk(sc, *index, lp, w))
                                        },
                                    }
                                },
                                _ => rej(w, Rejection::AtomicReceiver(op)),
                            },
                            _ => rej(w, Rejection::AtomicElementExpr(op)),
                        }
                    },
                    _ => rej(w, Rejection::AtomicReference(op)),
                }
            },
        },
        _ => w,
    }
}


/// The characters of each name.
pub open spec fn names(s: Seq<String>) -> Seq<Seq<char>> {
    s.map_values(|x: String| x@)
}

/// The characters of each pair of names.
pub open spec fn name_pairs(s: Seq<(String, String)>) -> Seq<(Seq<char>, Seq<char>)> {
    s.map_values(|x: (String, String)| (x.0@, x.1@))
}

/// Whether `n` is among `v`.
fn has_name(v: &Vec<String>, n: &String) -> (r: bool)
    ensures
        r == names(v@).contains(n@),
{
    let mut i: usize = 0;
    while i < v.len()
        invariant
            i <= v@.len(),
            forall|j: int| 0 <= j < i ==> v@[j]@ != n@,
        decreases v@.len() - i,
    {
        if v[i] == *n {
            proof {
                assert(names(v@)[i as int] == n@);
            }
            return true;
        }
        i = i + 1;
    }
    proof {
        if names(v@).contains(n@) {
            let j = choose|j: int| 0 <= j < names(v@).len() && names(v@)[j] == n@;
            assert(v@[j]@ == n@);
        }
    }
    false
}

/// The element type of the last read-write buffer named `n` in `v`.
fn find_rw<'a>(v: &'a Vec<(String, String)>, n: &String) -> (r: Option<&'a String>)
    ensures
        match r {
            Some(t) => rw_lookup(name_pairs(v@), n@) == Some(t@),
            None => rw_lookup(name_pairs(v@), n@) is None,
        },
{
    let mut i: usize = v.len();
    proof {
        assert(name_pairs(v@).take(v@.len() as int) =~= name_pairs(v@));
    }
    while i > 0
        invariant
            i <= v@.len(),
            rw_lookup(name_pairs(v@), n@) == rw_lookup(name_pairs(v@).take(i as int), n@),
        decreases i,
    {
        let ghost t = name_pairs(v@).take(i as int);
        proof {
            assert(t.drop_last() =~= name_pairs(v@).take(i - 1));
            assert(t.last() == (v@[i - 1].0@, v@[i - 1].1@));
        }
        if v[i - 1].0 == *n {
            return Some(&v[i - 1].1);
        }
        i = i - 1;
    }
    None
}

/// The bare name an expression path is.
fn expr_path_name(e: &Expr) -> (r: Option<&String>)
    ensures
        match r {
            Some(s) => path_name(*e) == Some(s@),
            None => path_name(*e) is None,
        },
{
    match e {
        Expr::Path(p) => p.get_ident(),
        _ => None,
    }
}

/// The atomic operation a callee names.
fn atomic_op(f: &Expr) -> (r: Option<AtomicOp>)
    ensures
        r == atomic_op_of(*f),
{
    match expr_path_name(f) {
        Some(n) => if text_is(n, "atomic_add") {
            Some(AtomicOp::Add)
        } else if text_is(n, "atomic_min") {
            Some(AtomicOp::Min)
        } else if text_is(n, "atomic_max") {
            Some(AtomicOp::Max)
        } else if text_is(n, "atomic_exchange") {
            Some(AtomicOp::Exchange)
        } else if text_is(n, "atomic_compare_exchange") {
            Some(AtomicOp::CompareExchange)
        } else {
            None
        },
        None => None,
    }
}

/// Whether a loop bound is an integer literal without a suffix.
fn unsuffixed_literal(e: &Expr) -> (r: bool)
    ensures
        r == is_unsuffixed_literal(*e),
    decreases e,
{
    match e {
        Expr::Lit(crate::syntax::Lit::Int { suffix, .. }) => crate::text::chars_of(suffix.as_str()).len() == 0,
        Expr::Paren(inner) => unsuffixed_literal(inner),
        Expr::Group(inner) => unsuffixed_literal(inner),
        Expr::Unary(UnOp::Neg, inner) => unsuffixed_literal(inner),
        _ => false,
    }
}

/// The binding of `ctor(identifier)`.
fn ctor_bind<'a>(p: &'a Pat, ctor: &str) -> (r: Option<&'a Pat>)
    ensures
        match r {
            Some(b) => ctor_binding(*p, ctor@) == Some(*b),
            None => ctor_binding(*p, ctor@) is None,
        },
{
    match p {
        Pat::TupleStruct(path, elems) => {
            if path.is_ident(ctor) && elems.len() == 1 && matches!(elems[0], Pat::Ident { .. }) {
                Some(&elems[0])
            } else {
                None
            }
        },
        _ => None,
    }
}

/// `Some(identifier)` in an `if let`, the one `Option` pattern the dialect
/// lowers.
pub fn option_pattern(p: &Pat) -> (r: Option<&Pat>)
    ensures
        match r {
            Some(b) => ctor_binding(*p, "Some"@) == Some(*b),
            None => ctor_binding(*p, "Some"@) is None,
        },
{
    ctor_bind(p, "Some")
}

/// `Ok(identifier)`, the `Result` pattern of an `if let` or a `match` arm.
pub fn result_pattern(p: &Pat) -> (r: Option<&Pat>)
    ensures
        match r {
            Some(b) => ctor_binding(*p, "Ok"@) == Some(*b),
            None => ctor_binding(*p, "Ok"@) is None,
        },
{
    ctor_bind(p, "Ok")
}

/// The variable of a `for` loop: `_` (none) or a plain immutable identifier.
pub fn loop_variable(p: &Pat) -> (r: Result<Option<&Pat>, Rejection>)
    ensures
        match loop_var(*p) {
            Ok(None) => r matches Ok(None),
            Ok(Some(q)) => r matches Ok(Some(x)) && *x == q,
            Err(e) => r matches Err(x) && x == e,
        },
{
    match p {
        Pat::Wild => Ok(None),
        Pat::Ident { by_ref, mutable, at_binding, .. } => if *mutable {
            Err(Rejection::MutableLoopVariable)
        } else if *by_ref || *at_binding {
            Err(Rejection::BindingMode)
        } else {
            Ok(Some(p))
        },
        _ => Err(Rejection::LoopVariableShape),
    }
}

/// The `start..end` bounds of a `for` loop, or why the iterable has no
/// bounded lowering.
pub fn range_bounds(e: &Expr) -> (r: Result<(&Expr, &Expr), Rejection>)
    ensures
        match range_of(*e) {
            Ok((a, b)) => r matches Ok((x, y)) && *x == a && *y == b,
            Err(q) => r matches Err(x) && x == q,
        },
{
    match e {
        Expr::Range { start, end, closed } => if *closed {
            Err(Rejection::InclusiveRange)
        } else {
            match (start, end) {
                (Some(a), Some(b)) => Ok((&**a, &**b)),
                _ => Err(Rejection::OpenRange),
            }
        },
        _ => Err(Rejection::NotRange),
    }
}

/// An arm found so far, as values.
pub open spec fn arm_view(o: Option<(&Pat, &Block)>) -> Option<(Pat, Block)> {
    match o {
        Some((p, b)) => Some((*p, *b)),
        None => None,
    }
}

/// Once the scan of a prefix of the arms fails, every longer prefix fails the
/// same way.
proof fn lemma_arms_scan_sticks(arms: Seq<Arm>, k: int, m: int)
    requires
        0 <= k <= m <= arms.len(),
        arms_scan(arms, k) is Err,
    ensures
        arms_scan(arms, m) == arms_scan(arms, k),
    decreases m - k,
{
    if m > k {
        lemma_arms_scan_sticks(arms, k, m - 1);
    }
}

/// The `Ok` and `Err` arms of a statement `match` on a `Result`: their
/// bindings and blocks, or the first refusal.
pub fn result_match_arms(arms: &Vec<Arm>) -> (r: Result<(&Pat, &Block, &Pat, &Block), Rejection>)
    ensures
        match match_arms(arms@) {
            Ok((o, ob, e, eb)) => r matches Ok((a, b, c, d)) && *a == o && *b == ob && *c == e
                && *d == eb,
            Err(q) => r matches Err(x) && x == q,
        },
{
    let mut ok: Option<(&Pat, &Block)> = None;
    let mut err: Option<(&Pat, &Block)> = None;
    let mut i: usize = 0;
    while i < arms.len()
        invariant
            i <= arms@.len(),
            arms_scan(arms@, i as int) == Ok::<_, Rejection>((arm_view(ok), arm_view(err))),
        decreases arms@.len() - i,
    {
        let arm = &arms[i];
        if arm.attrs.len() > 0 {
            proof {
                lemma_arms_scan_sticks(arms@, i + 1, arms@.len() as int);
            }
            return Err(Rejection::ArmAttribute);
        }
        if arm.guard.is_some() {
            proof {
                lemma_arms_scan_sticks(arms@, i + 1, arms@.len() as int);
            }
            return Err(Rejection::MatchGuard);
        }
        let body = match &*arm.body {
            Expr::Block(b) => b,
            _ => {
                proof {
                    lemma_arms_scan_sticks(arms@, i + 1, arms@.len() as int);
                }
                return Err(Rejection::BlockArms);
            },
        };
        match ctor_bind(&arm.pat, "Ok") {
            Some(b) => {
                let plain = match b {
                    Pat::Ident { by_ref, mutable, at_binding, .. } => !*by_ref && !*mutable
                        && !*at_binding,
                    _ => false,
                };
                if !plain {
                    proof {
                        lemma_arms_scan_sticks(arms@, i + 1, arms@.len() as int);
                    }
                    return Err(Rejection::PlainBinding);
                }
                if ok.is_some() {
                    proof {
                        lemma_arms_scan_sticks(arms@, i + 1, arms@.len() as int);
                    }
                    return Err(Rejection::OkErrArms);
                }
                ok = Some((b, body));
            },
            None => match ctor_bind(&arm.pat, "Err") {
                Some(b) => {
                    let plain = match b {
                        Pat::Ident { by_ref, mutable, at_binding, .. } => !*by_ref && !*mutable
                            && !*at_binding,
                        _ => false,
                    };
                    if !plain {
                        proof {
                            lemma_arms_scan_sticks(arms@, i + 1, arms@.len() as int);
                        }
                        return Err(Rejection::PlainBinding);
                    }
                    if err.is_some() {
                        proof {
                            lemma_arms_scan_sticks(arms@, i + 1, arms@.len() as int);
                        }
                        return Err(Rejection::OkErrArms);
                    }
                    err = Some((b, body));
                },
                None => {
                    proof {
                        lemma_arms_scan_sticks(arms@, i + 1, arms@.len() as int);
                    }
                    return Err(Rejection::ArmPattern);
                },
            },
        }
        i = i + 1;
    }
    match (ok, err) {
        (Some((o, ob)), Some((e, eb))) => Ok((o, ob, e, eb)),
        _ => Err(Rejection::OkErrArms),
    }
}


/// The state of the checks of one item.
struct Checker {
    dialect: Dialect,
    functions: Vec<String>,
    result_helpers: Vec<String>,
    resources: Vec<String>,
    invocations: Vec<String>,
    rw_buffers: Vec<(String, String)>,
    atomic_buffers: Vec<String>,
    results: Vec<String>,
    errors: Vec<Rejection>,
}

impl Checker {
    spec fn scope(&self) -> Scope {
        Scope {
            dialect: self.dialect,
            functions: names(self.functions@),
            result_helpers: names(self.result_helpers@),
            resources: names(self.resources@),
            invocations: names(self.invocations@),
            rw_buffers: name_pairs(self.rw_buffers@),
            atomic_buffers: names(self.atomic_buffers@),
        }
    }

    spec fn walk(&self) -> Walk {
        Walk { errs: self.errors@, results: names(self.results@) }
    }

    fn reject(&mut self, r: Rejection)
        ensures
            final(self).scope() == old(self).scope(),
            final(self).walk() == rej(old(self).walk(), r),
    {
        self.errors.push(r);
    }

    fn shadows(&self, n: &String) -> (r: bool)
        ensures
            r == shadowing(self.scope(), n@),
    {
        has_name(&self.resources, n) || has_name(&self.invocations, n)
    }

    fn known_result(&self, e: &Expr) -> (r: bool)
        ensures
            r == is_known_result(self.scope(), self.walk().results, *e),
        decreases e,
    {
        match e {
            Expr::Path(p) => match p.get_ident() {
                Some(n) => has_name(&self.results, n),
                None => false,
            },
            Expr::Call(f, _) => match expr_path_name(f) {
                Some(n) => has_name(&self.result_helpers, n),
                None => false,
            },
            Expr::Paren(inner) => self.known_result(inner),
            Expr::Group(inner) => self.known_result(inner),
            _ => false,
        }
    }

    fn expr(&mut self, e: &Expr, lp: bool)
        ensures
            final(self).scope() == old(self).scope(),
            final(self).walk() == expr_walk(old(self).scope(), *e, lp, old(self).walk()),
        decreases e, 5int,
    {
        let g = self.dialect == Dialect::Gust;
        match e {
            Expr::Lit(_) => {},
            Expr::Path(p) => match p.get_ident() {
                None => self.reject(Rejection::ForeignPath),
                Some(n) => if g && (text_is(n, "Some") || text_is(n, "Ok") || text_is(n, "Err")) {
                    self.reject(Rejection::BareConstructor);
                },
            },
            Expr::Unary(_, inner) => self.expr(inner, lp),
            Expr::Binary(op, l, r) => {
                if (*op == BinOp::Div || *op == BinOp::Rem) && crate::dialect::literal_zero(r) {
                    self.reject(Rejection::DivisionByZero);
                } else {
                    self.expr(l, lp);
                    self.expr(r, lp);
                }
            },
            Expr::Paren(inner) => self.expr(inner, lp),
            Expr::Group(inner) => self.expr(inner, lp),
            Expr::Call(_, _) => self.call(e, lp),
            Expr::MethodCall { .. } => self.method(e, lp),
            Expr::Field(base, m) => {
                self.expr(base, lp);
                match m {
                    Member::Named(n) => check_ident(n, &mut self.errors),
                    Member::Unnamed(_) => {},
                }
            },
            Expr::Index(b, i) => {
                let atomic = g && match expr_path_name(b) {
                    Some(n) => has_name(&self.atomic_buffers, n),
                    None => false,
                };
                if atomic {
                    self.reject(Rejection::AtomicIndex);
                } else {
                    self.expr(b, lp);
                    self.expr(i, lp);
                }
            },
            Expr::Cast(inner, t) => {
                let supported = match bare_type_name(t) {
                    Some(n) => crate::dialect::cast_target(n),
                    None => false,
                };
                if supported {
                    self.expr(inner, lp);
                    check_ty(self.dialect, t, None, &mut self.errors);
                } else {
                    self.reject(Rejection::Cast);
                }
            },
            Expr::Reference { .. } => self.reject(Rejection::Reference),
            Expr::Struct { path, fields, rest } => {
                if *rest {
                    self.reject(Rejection::StructUpdate);
                } else {
                    check_path(self.dialect, path, None, &mut self.errors);
                    self.fields(fields, lp);
                }
            },
            Expr::Assign(l, r) => {
                self.expr(l, lp);
                self.expr(r, lp);
            },
            Expr::Block(b) => self.stmts(&b.stmts, lp),
            Expr::If { .. } => self.if_expr(e, lp),
            Expr::Let(pat, scrutinee) => {
                if g {
                    self.reject(Rejection::LetPosition);
                } else {
                    check_pat(self.dialect, pat, &mut self.errors);
                    self.expr(scrutinee, lp);
                }
            },
            Expr::ForLoop { .. } => {
                if g {
                    self.for_loop(e, lp);
                } else {
                    self.reject(Rejection::CompatForLoop);
                }
            },
            Expr::Match(_, _) => {
                if g {
                    self.reject(Rejection::MatchValue);
                } else {
                    self.reject(Rejection::CompatMatch);
                }
            },
            Expr::Range { start, end, .. } => {
                if g {
                    self.reject(Rejection::RangeValue);
                } else {
                    self.opt(start, lp);
                    self.opt(end, lp);
                }
            },
            Expr::Break { label, value } => {
                if g {
                    self.reject(Rejection::JumpValue);
                } else {
                    if let Some(l) = label {
                        check_ident(l, &mut self.errors);
                    }
                    self.opt(value, lp);
                }
            },
            Expr::Continue { label } => {
                if g {
                    self.reject(Rejection::JumpValue);
                } else if let Some(l) = label {
                    check_ident(l, &mut self.errors);
                }
            },
            Expr::Return(value) => self.opt(value, lp),
            Expr::Tuple(es) => self.exprs(es, 0, lp),
            Expr::Array(es) => self.exprs(es, 0, lp),
            Expr::Const => self.reject(Rejection::ConstBlock),
            Expr::Try => self.reject(Rejection::Try),
            Expr::Unsafe => self.reject(Rejection::UnsafeBlock),
            Expr::Macro => self.reject(Rejection::Macro),
            Expr::Closure => self.reject(Rejection::Closure),
            Expr::Loop => {
                if g {
                    self.reject(Rejection::Loop);
                } else {
                    self.reject(Rejection::CompatLoop);
                }
            },
            Expr::While => {
                if g {
                    self.reject(Rejection::While);
                } else {
                    self.reject(Rejection::CompatWhile);
                }
            },
            Expr::Await => self.reject(Rejection::Await),
        }
    }

    fn opt(&mut self, o: &Option<Box<Expr>>, lp: bool)
        ensures
            final(self).scope() == old(self).scope(),
            final(self).walk() == opt_walk(old(self).scope(), *o, lp, old(self).walk()),
        decreases o, 0int,
    {
        match o {
            Some(e) => self.expr(e, lp),
            None => {},
        }
    }

    fn exprs(&mut self, s: &Vec<Expr>, lo: usize, lp: bool)
        requires
            lo <= s@.len(),
        ensures
            final(self).scope() == old(self).scope(),
            final(self).walk() == exprs_walk(
                old(self).scope(),
                s@,
                lo as int,
                s@.len() as int,
                lp,
                old(self).walk(),
            ),
        decreases s, s@.len() + 1,
    {
        let mut i: usize = lo;
        while i < s.len()
            invariant
                lo <= i <= s@.len(),
                self.scope() == old(self).scope(),
                self.walk() == exprs_walk(self.scope(), s@, lo as int, i as int, lp, old(self).walk()),
            decreases s@.len() - i,
        {
            self.expr(&s[i], lp);
            i = i + 1;
        }
    }

    fn fields(&mut self, fs: &Vec<FieldValue>, lp: bool)
        ensures
            final(self).scope() == old(self).scope(),
            final(self).walk() == fields_walk(
                old(self).scope(),
                fs@,
                fs@.len() as int,
                lp,
                old(self).walk(),
            ),
        decreases fs, fs@.len() + 1,
    {
        let mut i: usize = 0;
        while i < fs.len()
            invariant
                i <= fs@.len(),
                self.scope() == old(self).scope(),
                self.walk() == fields_walk(self.scope(), fs@, i as int, lp, old(self).walk()),
            decreases fs@.len() - i,
        {
            match &fs[i].member {
                Member::Named(n) => check_ident(n, &mut self.errors),
                Member::Unnamed(_) => {},
            }
            self.expr(&fs[i].expr, lp);
            i = i + 1;
        }
    }

    fn call(&mut self, e: &Expr, lp: bool)
        ensures
            final(self).scope() == old(self).scope(),
            final(self).walk() == call_walk(old(self).scope(), *e, lp, old(self).walk()),
        decreases e, 1int,
    {
        let g = self.dialect == Dialect::Gust;
        match e {
            Expr::Call(f, args) => {
                let banned = match &**f {
                    Expr::Path(p) => {
                        let mut k: usize = 0;
                        let mut found = false;
                        while k < p.segments.len()
                            invariant
                                k <= p.segments@.len(),
                                found ==> has_banned_segment(*p),
                                !found ==> forall|j: int|
                                    0 <= j < k ==> !is_banned_name(#[trigger] p.segments@[j].ident@),
                            decreases p.segments@.len() - k,
                        {
                            if banned_name(&p.segments[k].ident) {
                                proof {
                                    assert(is_banned_name(p.segments@[k as int].ident@));
                                }
                                found = true;
                            }
                            k = k + 1;
                        }
                        found
                    },
                    _ => false,
                };
                if banned {
                    self.reject(Rejection::CpuOnly);
                    return ;
                }
                let name = expr_path_name(f);
                let is_some = match name {
                    Some(n) => text_is(n, "Some"),
                    None => false,
                };
                let is_ok_err = match name {
                    Some(n) => text_is(n, "Ok") || text_is(n, "Err"),
                    None => false,
                };
                if g && is_some {
                    if args.len() != 1 {
                        self.reject(Rejection::SomeArity);
                    } else {
                        self.expr(&args[0], lp);
                    }
                    return ;
                }
                if g && is_ok_err {
                    if args.len() != 1 {
                        self.reject(Rejection::OkErrArity);
                    } else {
                        self.expr(&args[0], lp);
                    }
                    return ;
                }
                if g {
                    if let Some(op) = atomic_op(f) {
                        self.reject(Rejection::AtomicValue(op));
                        return ;
                    }
                }
                let allowed = match name {
                    Some(n) => has_name(&self.functions, n),
                    None => false,
                };
                if !allowed {
                    self.reject(Rejection::ForeignCall);
                } else {
                    self.exprs(args, 0, lp);
                }
            },
            _ => {},
        }
    }

    fn method(&mut self, e: &Expr, lp: bool)
        ensures
            final(self).scope() == old(self).scope(),
            final(self).walk() == method_walk(old(self).scope(), *e, lp, old(self).walk()),
        decreases e, 1int,
    {
        let g = self.dialect == Dialect::Gust;
        match e {
            Expr::MethodCall { receiver, method, turbofish, args } => {
                let predicate = text_is(method, "is_some") || text_is(method, "is_none") || text_is(
                    method,
                    "is_ok",
                ) || text_is(method, "is_err");
                let unwrap_or = text_is(method, "unwrap_or");
                if g {
                    if *turbofish {
                        self.reject(Rejection::Turbofish);
                        return ;
                    }
                    if (predicate && args.len() == 0) || (unwrap_or && args.len() == 1) {
                        self.expr(receiver, lp);
                        check_ident(method, &mut self.errors);
                        self.exprs(args, 0, lp);
                        return ;
                    }
                    if predicate {
                        self.reject(Rejection::PredicateArity);
                        return ;
                    }
                    if unwrap_or {
                        self.reject(Rejection::UnwrapOrArity);
                        return ;
                    }
                    if text_is(method, "unwrap") || text_is(method, "expect") {
                        self.reject(Rejection::Unwrap);
                        return ;
                    }
                    if args.len() > 0 {
                        self.reject(Rejection::BuiltinArguments);
                        return ;
                    }
                } else if args.len() > 0 || *turbofish {
                    self.reject(Rejection::BuiltinArguments);
                    return ;
                }
                let is_len = text_is(method, "len");
                if !is_len && !text_is(method, "global_id") {
                    if g {
                        self.reject(Rejection::UnknownMethod);
                    } else {
                        self.reject(Rejection::CompatUnknownMethod);
                    }
                    return ;
                }
                let valid = match expr_path_name(receiver) {
                    Some(n) => if is_len {
                        has_name(&self.resources, n)
                    } else {
                        has_name(&self.invocations, n)
                    },
                    None => false,
                };
                if !valid {
                    if is_len {
                        self.reject(Rejection::LenReceiver);
                    } else {
                        self.reject(Rejection::GlobalIdReceiver);
                    }
                    return ;
                }
                self.expr(receiver, lp);
                check_ident(method, &mut self.errors);
                self.exprs(args, 0, lp);
            },
            _ => {},
        }
    }

    fn if_expr(&mut self, e: &Expr, lp: bool)
        ensures
            final(self).scope() == old(self).scope(),
            final(self).walk() == if_walk(old(self).scope(), *e, lp, old(self).walk()),
        decreases e, 1int,
    {
        let g = self.dialect == Dialect::Gust;
        match e {
            Expr::If { cond, then_branch, else_branch } => {
                if g {
                    if let Expr::Let(pat, scrutinee) = &**cond {
                        let binding = match ctor_bind(pat, "Some") {
                            Some(b) => Some(b),
                            None => ctor_bind(pat, "Ok"),
                        };
                        match binding {
                            None => {
                                self.reject(Rejection::IfLetPattern);
                            },
                            Some(b) => match b {
                                Pat::Ident { by_ref, at_binding, name, .. } => {
                                    if self.shadows(name) {
                                        self.reject(Rejection::Shadow);
                                    } else {
                                        check_pat_ident(*by_ref, *at_binding, name, &mut self.errors);
                                        self.expr(scrutinee, lp);
                                        self.stmts(&then_branch.stmts, lp);
                                        self.opt(else_branch, lp);
                                    }
                                },
                                _ => {},
                            },
                        }
                        return ;
                    }
                }
                self.expr(cond, lp);
                self.stmts(&then_branch.stmts, lp);
                self.opt(else_branch, lp);
            },
            _ => {},
        }
    }

    fn for_loop(&mut self, e: &Expr, lp: bool)
        ensures
            final(self).scope() == old(self).scope(),
            final(self).walk() == for_walk(old(self).scope(), *e, lp, old(self).walk()),
        decreases e, 1int,
    {
        match e {
            Expr::ForLoop { label, pat, iterable, body } => {
                if label.is_some() {
                    self.reject(Rejection::LoopLabel);
                    return ;
                }
                match loop_variable(pat) {
                    Err(r) => {
                        self.reject(r);
                    },
                    Ok(v) => {
                        if let Some(b) = v {
                            if let Pat::Ident { by_ref, at_binding, name, .. } = b {
                                if self.shadows(name) {
                                    self.reject(Rejection::Shadow);
                                    return ;
                                }
                                check_pat_ident(*by_ref, *at_binding, name, &mut self.errors);
                            }
                        }
                        match range_bounds(iterable) {
                            Err(r) => {
                                self.reject(r);
                            },
                            Ok((start, end)) => {
                                if unsuffixed_literal(start) || unsuffixed_literal(end) {
                                    self.reject(Rejection::UnsuffixedBound);
                                } else {
                                    self.expr(start, lp);
                                    self.expr(end, lp);
                                    self.stmts(&body.stmts, true);
                                }
                            },
                        }
                    },
                }
            },
            _ => {},
        }
    }

    fn stmts(&mut self, ss: &Vec<Stmt>, lp: bool)
        ensures
            final(self).scope() == old(self).scope(),
            final(self).walk() == stmts_walk(
                old(self).scope(),
                ss@,
                ss@.len() as int,
                lp,
                old(self).walk(),
            ),
        decreases ss, ss@.len() + 1,
    {
        let mut i: usize = 0;
        while i < ss.len()
            invariant
                i <= ss@.len(),
                self.scope() == old(self).scope(),
                self.walk() == stmts_walk(self.scope(), ss@, i as int, lp, old(self).walk()),
            decreases ss@.len() - i,
        {
            self.stmt(&ss[i], lp);
            i = i + 1;
        }
    }

    fn stmt(&mut self, s: &Stmt, lp: bool)
        ensures
            final(self).scope() == old(self).scope(),
            final(self).walk() == stmt_walk(old(self).scope(), *s, lp, old(self).walk()),
        decreases s, 5int,
    {
        let g = self.dialect == Dialect::Gust;
        match s {
            Stmt::Local(l) => self.local(l, lp),
            Stmt::Macro(attrs, path) => {
                check_attrs(attrs, &mut self.errors);
                check_path(self.dialect, path, None, &mut self.errors);
            },
            Stmt::Expr(e, _) => {
                if !g {
                    self.expr(e, lp);
                    return ;
                }
                match e {
                    Expr::Match(_, _) => self.match_stmt(s, lp),
                    Expr::Call(f, _) => {
                        if atomic_op(f).is_some() {
                            self.atomic(s, lp);
                        } else {
                            self.expr(e, lp);
                        }
                    },
                    Expr::Break { label, value } => {
                        if value.is_some() {
                            self.reject(Rejection::BreakValue);
                        } else if label.is_some() {
                            self.reject(Rejection::LoopLabel);
                        } else if !lp {
                            self.reject(Rejection::BreakOutsideLoop);
                        }
                    },
                    Expr::Continue { label } => {
                        if label.is_some() {
                            self.reject(Rejection::LoopLabel);
                        } else if !lp {
                            self.reject(Rejection::ContinueOutsideLoop);
                        }
                    },
                    _ => self.expr(e, lp),
                }
            },
        }
    }

    fn local(&mut self, l: &Local, lp: bool)
        ensures
            final(self).scope() == old(self).scope(),
            final(self).walk() == local_walk(old(self).scope(), *l, lp, old(self).walk()),
        decreases l, 0int,
    {
        let name = match &l.pat {
            Pat::Ident { name, .. } => Some(name),
            Pat::Typed(inner, _) => match &**inner {
                Pat::Ident { name, .. } => Some(name),
                _ => None,
            },
            _ => None,
        };
        let n = match name {
            None => {
                self.reject(Rejection::LetIdentifier);
                return ;
            },
            Some(n) => n,
        };
        if self.shadows(n) {
            self.reject(Rejection::Shadow);
            return ;
        }
        if l.init.is_some() && l.diverge.is_some() {
            self.reject(Rejection::LetElse);
            return ;
        }
        check_attrs(&l.attrs, &mut self.errors);
        check_pat(self.dialect, &l.pat, &mut self.errors);
        self.opt(&l.init, lp);
        if self.dialect == Dialect::Gust {
            let annotated = match &l.pat {
                Pat::Typed(_, Ty::Path(p)) => is_single_segment(p, "Result"),
                _ => false,
            };
            let initialized = match &l.init {
                Some(i) => self.known_result(i),
                None => false,
            };
            if annotated || initialized {
                let ghost before = self.results@;
                self.results.push(n.clone());
                proof {
                    assert(names(self.results@) =~= names(before).push(n@));
                }
            }
        }
    }

    fn match_stmt(&mut self, s: &Stmt, lp: bool)
        ensures
            final(self).scope() == old(self).scope(),
            final(self).walk() == match_stmt_walk(old(self).scope(), *s, lp, old(self).walk()),
        decreases s, 1int,
    {
        match s {
            Stmt::Expr(Expr::Match(scrutinee, arms), semi) => {
                match result_match_arms(arms) {
                    Err(r) => {
                        self.reject(r);
                    },
                    Ok((ok, _, err, _)) => {
                        match (ok, err) {
                            (
                                Pat::Ident { by_ref: ok_ref, at_binding: ok_at, name: ok_name, .. },
                                Pat::Ident {
                                    by_ref: err_ref,
                                    at_binding: err_at,
                                    name: err_name,
                                    ..
                                },
                            ) => {
                                if !*semi {
                                    self.reject(Rejection::MatchSemicolon);
                                    return ;
                                }
                                if !self.known_result(scrutinee) {
                                    self.reject(Rejection::UnknownResult);
                                    return ;
                                }
                                if self.shadows(ok_name) {
                                    self.reject(Rejection::Shadow);
                                    return ;
                                }
                                check_pat_ident(*ok_ref, *ok_at, ok_name, &mut self.errors);
                                if self.shadows(err_name) {
                                    self.reject(Rejection::Shadow);
                                    return ;
                                }
                                check_pat_ident(*err_ref, *err_at, err_name, &mut self.errors);
                                self.expr(scrutinee, lp);
                                self.arm_bodies(arms, lp);
                            },
                            _ => {},
                        }
                    },
                }
            },
            _ => {},
        }
    }

    fn arm_bodies(&mut self, arms: &Vec<Arm>, lp: bool)
        ensures
            final(self).scope() == old(self).scope(),
            final(self).walk() == arm_bodies_walk(
                old(self).scope(),
                arms@,
                arms@.len() as int,
                lp,
                old(self).walk(),
            ),
        decreases arms, arms@.len() + 1,
    {
        let mut i: usize = 0;
        while i < arms.len()
            invariant
                i <= arms@.len(),
                self.scope() == old(self).scope(),
                self.walk() == arm_bodies_walk(self.scope(), arms@, i as int, lp, old(self).walk()),
            decreases arms@.len() - i,
        {
            match &*arms[i].body {
                Expr::Block(b) => self.stmts(&b.stmts, lp),
                _ => {},
            }
            i = i + 1;
        }
    }

    fn atomic(&mut self, s: &Stmt, lp: bool)
        ensures
            final(self).scope() == old(self).scope(),
            final(self).walk() == atomic_walk(old(self).scope(), *s, lp, old(self).walk()),
        decreases s, 1int,
    {
        match s {
            Stmt::Expr(Expr::Call(f, args), _) => {
                let op = match atomic_op(f) {
                    Some(op) => op,
                    None => {
                        return ;
                    },
                };
                let arity: usize = match op {
                    AtomicOp::CompareExchange => 3,
                    _ => 2,
                };
                if args.len() != arity {
                    self.reject(Rejection::AtomicArity(op));
                    return ;
                }
                match &args[0] {
                    Expr::Reference { mutable, expr } => {
                        if !*mutable {
                            self.reject(Rejection::AtomicMutable(op));
                            return ;
                        }
                        match &**expr {
                            Expr::Index(b, index) => match &**b {
                                Expr::Path(p) => {
                                    let element = match p.get_ident() {
                                        Some(n) => find_rw(&self.rw_buffers, n),
                                        None => None,
                                    };
                                    match element {
                                        None => {
                                            self.reject(Rejection::AtomicBuffer(op));
                                        },
                                        Some(t) => {
                                            let unsigned = text_is(t, "u32") || text_is(t, "uint");
                                            let signed = text_is(t, "i32") || text_is(t, "int");
                                            if !unsigned && !signed {
                                                self.reject(Rejection::AtomicElementType(op));
                                            } else if (op == AtomicOp::Min || op == AtomicOp::Max)
                                                && !unsigned {
                                                self.reject(Rejection::AtomicUnsigned(op));
                                            } else {
                                                self.expr(index, lp);
                                                self.exprs(args, 1, lp);
                                            }
                                        },
                                    }
                                },
                                _ => {
                                    self.reject(Rejection::AtomicReceiver(op));
                                },
                            },
                            _ => {
                                self.reject(Rejection::AtomicElementExpr(op));
                            },
                        }
                    },
                    _ => {
                        self.reject(Rejection::AtomicReference(op));
                    },
                }
            },
            _ => {},
        }
    }
}

/// Checks attributes in order.
pub fn check_attrs(a: &Vec<Attribute>, errs: &mut Vec<Rejection>)
    ensures
        final(errs)@ == attrs_walk(a@, a@.len() as int, old(errs)@),
{
    let mut i: usize = 0;
    while i < a.len()
        invariant
            i <= a@.len(),
            errs@ == attrs_walk(a@, i as int, old(errs)@),
        decreases a@.len() - i,
    {
        if !crate::dialect::allowed_attribute(&a[i]) {
            errs.push(Rejection::Attribute);
        }
        i = i + 1;
    }
}


/// The buffer an atomic call's first argument `&mut buffer[index]` names.
pub open spec fn atomic_target(args: Seq<Expr>) -> Option<Seq<char>> {
    if args.len() > 0 {
        match args[0] {
            Expr::Reference { expr, .. } => match *expr {
                Expr::Index(b, _) => path_name(*b),
                _ => None,
            },
            _ => None,
        }
    } else {
        None
    }
}

/// The buffers that atomic operations in an expression name, appended to
/// `acc` in source order.
pub open spec fn uses_expr(e: Expr, acc: Seq<Seq<char>>) -> Seq<Seq<char>>
    decreases e, 5int,
{
    match e {
        Expr::Unary(_, i) => uses_expr(*i, acc),
        Expr::Paren(i) => uses_expr(*i, acc),
        Expr::Group(i) => uses_expr(*i, acc),
        Expr::Binary(_, l, r) => uses_expr(*r, uses_expr(*l, acc)),
        Expr::Assign(l, r) => uses_expr(*r, uses_expr(*l, acc)),
        Expr::Index(b, i) => uses_expr(*i, uses_expr(*b, acc)),
        Expr::Call(f, args) => {
            let acc1 = if atomic_op_of(*f) is Some && atomic_target(args@) is Some {
                acc.push(atomic_target(args@)->0)
            } else {
                acc
            };
            uses_exprs(args@, args@.len() as int, uses_expr(*f, acc1))
        },
        Expr::MethodCall { receiver, args, .. } => uses_exprs(
            args@,
            args@.len() as int,
            uses_expr(*receiver, acc),
        ),
        Expr::Field(b, _) => uses_expr(*b, acc),
        Expr::Cast(i, _) => uses_expr(*i, acc),
        Expr::Reference { expr, .. } => uses_expr(*expr, acc),
        Expr::Struct { fields, .. } => uses_fields(fields@, fields@.len() as int, acc),
        Expr::Block(b) => uses_stmts(b.stmts@, b.stmts@.len() as int, acc),
        Expr::If { cond, then_branch, else_branch } => uses_opt(
            else_branch,
            uses_stmts(then_branch.stmts@, then_branch.stmts@.len() as int, uses_expr(*cond, acc)),
        ),
        Expr::Let(_, scrutinee) => uses_expr(*scrutinee, acc),
        Expr::ForLoop { iterable, body, .. } => uses_stmts(
            body.stmts@,
            body.stmts@.len() as int,
            uses_expr(*iterable, acc),
        ),
        Expr::Match(scrutinee, arms) => uses_arms(arms@, arms@.len() as int, uses_expr(*scrutinee, acc)),
        Expr::Range { start, end, .. } => uses_opt(end, uses_opt(start, acc)),
        Expr::Break { value, .. } => uses_opt(value, acc),
        Expr::Return(value) => uses_opt(value, acc),
        Expr::Tuple(es) => uses_exprs(es@, es@.len() as int, acc),
        Expr::Array(es) => uses_exprs(es@, es@.len() as int, acc),
        _ => acc,
    }
}

/// An optional expression's atomic buffers.
pub open spec fn uses_opt(o: Option<Box<Expr>>, acc: Seq<Seq<char>>) -> Seq<Seq<char>>
    decreases o, 0int,
{
    match o {
        Some(e) => uses_expr(*e, acc),
        None => acc,
    }
}

/// The atomic buffers of `s[0..n]`.
pub open spec fn uses_exprs(s: Seq<Expr>, n: int, acc: Seq<Seq<char>>) -> Seq<Seq<char>>
    decreases s, n,
{
    if n <= 0 || n > s.len() {
        acc
    } else {
        uses_expr(s[n - 1], uses_exprs(s, n - 1, acc))
    }
}

/// The atomic buffers of struct literal fields `fs[0..n]`.
pub open spec fn uses_fields(fs: Seq<FieldValue>, n: int, acc: Seq<Seq<char>>) -> Seq<Seq<char>>
    decreases fs, n,
{
    if n <= 0 || n > fs.len() {
        acc
    } else {
        uses_expr(fs[n - 1].expr, uses_fields(fs, n - 1, acc))
    }
}

/// The atomic buffers of match arms `arms[0..n]`: guards, then bodies.
pub open spec fn uses_arms(arms: Seq<Arm>, n: int, acc: Seq<Seq<char>>) -> Seq<Seq<char>>
    decreases arms, n,
{
    if n <= 0 || n > arms.len() {
        acc
    } else {
        let a = arms[n - 1];
        uses_expr(*a.body, uses_opt(a.guard, uses_arms(arms, n - 1, acc)))
    }
}

/// The atomic buffers of statements `ss[0..n]`.
pub open spec fn uses_stmts(ss: Seq<Stmt>, n: int, acc: Seq<Seq<char>>) -> Seq<Seq<char>>
    decreases ss, n,
{
    if n <= 0 || n > ss.len() {
        acc
    } else {
        uses_stmt(ss[n - 1], uses_stmts(ss, n - 1, acc))
    }
}

/// The atomic buffers of a statement.
pub open spec fn uses_stmt(s: Stmt, acc: Seq<Seq<char>>) -> Seq<Seq<char>>
    decreases s, 5int,
{
    match s {
        Stmt::Local(l) => match l.init {
            Some(i) => uses_opt(l.diverge, uses_expr(*i, acc)),
            None => acc,
        },
        Stmt::Expr(e, _) => uses_expr(e, acc),
        Stmt::Macro(_, _) => acc,
    }
}

/// Appends a name.
fn push_name(acc: &mut Vec<String>, n: &String)
    ensures
        names(final(acc)@) == names(old(acc)@).push(n@),
{
    acc.push(n.clone());
    proof {
        assert(names(acc@) =~= names(old(acc)@).push(n@));
    }
}

/// Collects the buffers that atomic operations in an expression name.
fn collect_uses(e: &Expr, acc: &mut Vec<String>)
    ensures
        names(final(acc)@) == uses_expr(*e, names(old(acc)@)),
    decreases e, 5int,
{
    match e {
        Expr::Unary(_, i) => collect_uses(i, acc),
        Expr::Paren(i) => collect_uses(i, acc),
        Expr::Group(i) => collect_uses(i, acc),
        Expr::Binary(_, l, r) => {
            collect_uses(l, acc);
            collect_uses(r, acc);
        },
        Expr::Assign(l, r) => {
            collect_uses(l, acc);
            collect_uses(r, acc);
        },
        Expr::Index(b, i) => {
            collect_uses(b, acc);
            collect_uses(i, acc);
        },
        Expr::Call(f, args) => {
            if atomic_op(f).is_some() && args.len() > 0 {
                if let Expr::Reference { expr, .. } = &args[0] {
                    if let Expr::Index(b, _) = &**expr {
                        if let Some(n) = expr_path_name(b) {
                            push_name(acc, n);
                        }
                    }
                }
            }
            collect_uses(f, acc);
            collect_uses_all(args, acc);
        },
        Expr::MethodCall { receiver, args, .. } => {
            collect_uses(receiver, acc);
            collect_uses_all(args, acc);
        },
        Expr::Field(b, _) => collect_uses(b, acc),
        Expr::Cast(i, _) => collect_uses(i, acc),
        Expr::Reference { expr, .. } => collect_uses(expr, acc),
        Expr::Struct { fields, .. } => collect_uses_fields(fields, acc),
        Expr::Block(b) => collect_uses_stmts(&b.stmts, acc),
        Expr::If { cond, then_branch, else_branch } => {
            collect_uses(cond, acc);
            collect_uses_stmts(&then_branch.stmts, acc);
            collect_uses_opt(else_branch, acc);
        },
        Expr::Let(_, scrutinee) => collect_uses(scrutinee, acc),
        Expr::ForLoop { iterable, body, .. } => {
            collect_uses(iterable, acc);
            collect_uses_stmts(&body.stmts, acc);
        },
        Expr::Match(scrutinee, arms) => {
            collect_uses(scrutinee, acc);
            collect_uses_arms(arms, acc);
        },
        Expr::Range { start, end, .. } => {
            collect_uses_opt(start, acc);
            collect_uses_opt(end, acc);
        },
        Expr::Break { value, .. } => collect_uses_opt(value, acc),
        Expr::Return(value) => collect_uses_opt(value, acc),
        Expr::Tuple(es) => collect_uses_all(es, acc),
        Expr::Array(es) => collect_uses_all(es, acc),
        _ => {},
    }
}

/// Collects the atomic buffers of an optional expression.
fn collect_uses_opt(o: &Option<Box<Expr>>, acc: &mut Vec<String>)
    ensures
        names(final(acc)@) == uses_opt(*o, names(old(acc)@)),
    decreases o, 0int,
{
    match o {
        Some(e) => collect_uses(e, acc),
        None => {},
    }
}

/// Collects the atomic buffers of expressions in order.
fn collect_uses_all(s: &Vec<Expr>, acc: &mut Vec<String>)
    ensures
        names(final(acc)@) == uses_exprs(s@, s@.len() as int, names(old(acc)@)),
    decreases s, s@.len() + 1,
{
    let mut i: usize = 0;
    while i < s.len()
        invariant
            i <= s@.len(),
            names(acc@) == uses_exprs(s@, i as int, names(old(acc)@)),
        decreases s@.len() - i,
    {
        collect_uses(&s[i], acc);
        i = i + 1;
    }
}

/// Collects the atomic buffers of statements in order.
fn collect_uses_stmts(ss: &Vec<Stmt>, acc: &mut Vec<String>)
    ensures
        names(final(acc)@) == uses_stmts(ss@, ss@.len() as int, names(old(acc)@)),
    decreases ss, ss@.len() + 1,
{
    let mut i: usize = 0;
    while i < ss.len()
        invariant
            i <= ss@.len(),
            names(acc@) == uses_stmts(ss@, i as int, names(old(acc)@)),
        decreases ss@.len() - i,
    {
        collect_uses_stmt(&ss[i], acc);
        i = i + 1;
    }
}


/// Collects the atomic buffers of a statement.
fn collect_uses_stmt(s: &Stmt, acc: &mut Vec<String>)
    ensures
        names(final(acc)@) == uses_stmt(*s, names(old(acc)@)),
    decreases s, 5int,
{
    match s {
        Stmt::Local(l) => match &l.init {
            Some(init) => {
                collect_uses(init, acc);
                collect_uses_opt(&l.diverge, acc);
            },
            None => {},
        },
        Stmt::Expr(e, _) => collect_uses(e, acc),
        Stmt::Macro(_, _) => {},
    }
}

/// Collects the atomic buffers of struct literal fields.
fn collect_uses_fields(fields: &Vec<FieldValue>, acc: &mut Vec<String>)
    ensures
        names(final(acc)@) == uses_fields(fields@, fields@.len() as int, names(old(acc)@)),
    decreases fields, fields@.len() + 1,
{
    let mut i: usize = 0;
    while i < fields.len()
        invariant
            i <= fields@.len(),
            names(acc@) == uses_fields(fields@, i as int, names(old(acc)@)),
        decreases fields@.len() - i,
    {
        collect_uses(&fields[i].expr, acc);
        i = i + 1;
    }
}

/// Collects the atomic buffers of match arms.
fn collect_uses_arms(arms: &Vec<Arm>, acc: &mut Vec<String>)
    ensures
        names(final(acc)@) == uses_arms(arms@, arms@.len() as int, names(old(acc)@)),
    decreases arms, arms@.len() + 1,
{
    let mut i: usize = 0;
    while i < arms.len()
        invariant
            i <= arms@.len(),
            names(acc@) == uses_arms(arms@, i as int, names(old(acc)@)),
        decreases arms@.len() - i,
    {
        collect_uses_opt(&arms[i].guard, acc);
        collect_uses(&arms[i].body, acc);
        i = i + 1;
    }
}


/// The element type named by a `RWStructuredBuffer<T>` parameter type.
pub open spec fn rw_element(t: Ty) -> Option<Seq<char>> {
    match t {
        Ty::Path(p) => if p.segments@.len() == 1 && p.segments@[0].ident@ == "RWStructuredBuffer"@
            && p.segments@[0].args@.len() > 0 {
            match p.segments@[0].args@[0] {
                GenericArg::Type(Ty::Path(e)) => e.ident_view(),
                _ => None,
            }
        } else {
            None
        },
        _ => None,
    }
}

/// Whether a type is a path of one segment `Result`.
pub open spec fn is_result_type(t: Ty) -> bool {
    match t {
        Ty::Path(p) => single_segment(p, "Result"@),
        _ => false,
    }
}

/// The parameters a body's walk keeps track of.
#[derive(Clone, Copy, PartialEq, Eq, Structural, Debug)]
pub enum ParamKind {
    /// Storage buffers, read or read and written.
    Storage,
    /// The dispatch-thread id.
    Invocation,
    /// Plain values of a `Result` type.
    ResultValue,
}

/// Whether a parameter of type `t` is of kind `k`.
pub open spec fn of_kind(k: ParamKind, t: Ty) -> bool {
    match k {
        ParamKind::Storage => flavor_of(t) == ParameterFlavor::StorageRead || flavor_of(t)
            == ParameterFlavor::StorageReadWrite,
        ParamKind::Invocation => flavor_of(t) == ParameterFlavor::Invocation,
        ParamKind::ResultValue => flavor_of(t) == ParameterFlavor::Value && is_result_type(t),
    }
}

/// The named parameters among `ins[0..n]` of kind `k`.
pub open spec fn params_where(ins: Seq<FnArg>, n: int, k: ParamKind) -> Seq<Seq<char>>
    decreases n,
{
    if n <= 0 || n > ins.len() {
        seq![]
    } else {
        let before = params_where(ins, n - 1, k);
        match ins[n - 1] {
            FnArg::Typed(_, Pat::Ident { name, .. }, t, _) => if of_kind(k, t) {
                before.push(name@)
            } else {
                before
            },
            _ => before,
        }
    }
}

/// The read-write buffer parameters among `ins[0..n]` and their element type.
pub open spec fn rw_params(ins: Seq<FnArg>, n: int) -> Seq<(Seq<char>, Seq<char>)>
    decreases n,
{
    if n <= 0 || n > ins.len() {
        seq![]
    } else {
        let before = rw_params(ins, n - 1);
        match ins[n - 1] {
            FnArg::Typed(_, Pat::Ident { name, .. }, t, _) => if flavor_of(t)
                == ParameterFlavor::StorageReadWrite && rw_element(t) is Some {
                before.push((name@, rw_element(t)->0))
            } else {
                before
            },
            _ => before,
        }
    }
}

/// The number of dispatch-thread parameters among `ins[0..n]`.
pub open spec fn invocation_count(ins: Seq<FnArg>, n: int) -> nat
    decreases n,
{
    if n <= 0 || n > ins.len() {
        0
    } else {
        invocation_count(ins, n - 1) + match ins[n - 1] {
            FnArg::Typed(_, _, t, _) => if flavor_of(t) == ParameterFlavor::Invocation {
                1nat
            } else {
                0nat
            },
            _ => 0nat,
        }
    }
}

/// Whether a parameter binds a resource.
pub open spec fn resource_param(a: FnArg) -> bool {
    match a {
        FnArg::Typed(_, _, t, _) => is_resource(flavor_of(t)),
        FnArg::Receiver => false,
    }
}

/// Whether some parameter binds a resource.
pub open spec fn has_resource_param(ins: Seq<FnArg>) -> bool {
    exists|i: int| 0 <= i < ins.len() && #[trigger] resource_param(ins[i])
}

/// Whether a return type is unit: none, or `()`.
pub open spec fn returns_unit(o: Option<Ty>) -> bool {
    match o {
        None => true,
        Some(Ty::Tuple(ts)) => ts@.len() == 0,
        _ => false,
    }
}

/// What the walk of a function's body knows.
pub open spec fn function_scope(d: Dialect, f: ItemFn, functions: Seq<Seq<char>>, helpers: Seq<
    Seq<char>,
>) -> Scope {
    let ins = f.sig.inputs@;
    let n = ins.len() as int;
    let g = d == Dialect::Gust;
    Scope {
        dialect: d,
        functions,
        result_helpers: if g {
            helpers
        } else {
            seq![]
        },
        resources: params_where(ins, n, ParamKind::Storage),
        invocations: params_where(ins, n, ParamKind::Invocation),
        rw_buffers: if g {
            rw_params(ins, n)
        } else {
            seq![]
        },
        atomic_buffers: if g {
            uses_stmts(f.body.stmts@, f.body.stmts@.len() as int, seq![])
        } else {
            seq![]
        },
    }
}

/// The parameters known to hold a `Result` when a function's body starts.
pub open spec fn initial_results(d: Dialect, f: ItemFn) -> Seq<Seq<char>> {
    if d == Dialect::Gust {
        params_where(f.sig.inputs@, f.sig.inputs@.len() as int, ParamKind::ResultValue)
    } else {
        seq![]
    }
}

/// The parameters `ins[0..n]`: attributes, pattern, type.
pub open spec fn inputs_walk(d: Dialect, ins: Seq<FnArg>, n: int, errs: Seq<Rejection>) -> Seq<
    Rejection,
>
    decreases n,
{
    if n <= 0 || n > ins.len() {
        errs
    } else {
        let before = inputs_walk(d, ins, n - 1, errs);
        match ins[n - 1] {
            FnArg::Typed(attrs, pat, t, _) => ty_walk(
                d,
                t,
                None,
                pat_walk(d, pat, attrs_walk(attrs@, attrs@.len() as int, before)),
            ),
            FnArg::Receiver => before,
        }
    }
}

/// The rejections of a function's attributes, name, parameters, return type
/// and body, in source order.
pub open spec fn function_walk(d: Dialect, f: ItemFn, functions: Seq<Seq<char>>, helpers: Seq<
    Seq<char>,
>) -> Seq<Rejection> {
    let head = ident_walk(f.sig.name, attrs_walk(f.attrs@, f.attrs@.len() as int, seq![]));
    let params = inputs_walk(d, f.sig.inputs@, f.sig.inputs@.len() as int, head);
    let sig = match f.sig.output {
        Some(t) => ty_walk(d, t, None, params),
        None => params,
    };
    stmts_walk(
        function_scope(d, f, functions, helpers),
        f.body.stmts@,
        f.body.stmts@.len() as int,
        false,
        Walk { errs: sig, results: initial_results(d, f) },
    ).errs
}

/// A function: its kernel attribute; a kernel takes one dispatch-thread
/// parameter and returns unit, a helper takes no resource; no `async`,
/// `unsafe`, `extern` or generics; then every rule of its walk.
pub open spec fn function_check(d: Dialect, f: ItemFn, functions: Seq<Seq<char>>, helpers: Seq<
    Seq<char>,
>) -> Result<(), Seq<Rejection>> {
    match spec_kernel_options(f.attrs@) {
        Err(e) => Err(seq![Rejection::KernelAttribute(e)]),
        Ok(options) => {
            let ins = f.sig.inputs@;
            if options is Some && invocation_count(ins, ins.len() as int) != 1 {
                Err(seq![Rejection::KernelDispatch])
            } else if options is Some && !returns_unit(f.sig.output) {
                Err(seq![Rejection::KernelReturn])
            } else if options is None && has_resource_param(ins) {
                Err(seq![Rejection::HelperResources])
            } else if f.sig.is_async {
                Err(seq![Rejection::AsyncFunction])
            } else if f.sig.is_unsafe {
                Err(seq![Rejection::UnsafeFunction])
            } else if f.sig.is_extern || f.sig.generic_params > 0 {
                Err(seq![Rejection::ExternOrGeneric])
            } else {
                let errs = function_walk(d, f, functions, helpers);
                if errs.len() == 0 {
                    Ok(())
                } else {
                    Err(errs)
                }
            }
        },
    }
}

/// Whether a derived path names `Clone` or `Copy` (by its last segment).
pub open spec fn names_clone_or_copy(p: Path) -> bool {
    p.segments@.len() > 0 && (p.segments@.last().ident@ == "Clone"@
        || p.segments@.last().ident@ == "Copy"@)
}

/// Whether a derive list's item carries arguments, which no derive path has.
pub open spec fn has_values(m: crate::syntax::MetaItem) -> bool {
    m.values is Some
}

/// The problem of a derive list: an item that is no path, or `Clone` or
/// `Copy`.
pub open spec fn derive_list_problem_of(items: Seq<crate::syntax::MetaItem>) -> Option<Rejection> {
    if exists|i: int| 0 <= i < items.len() && #[trigger] has_values(items[i]) {
        Some(Rejection::MalformedDerive)
    } else if exists|i: int| 0 <= i < items.len() && #[trigger] names_clone_or_copy(items[i].path) {
        Some(Rejection::ManualCopy)
    } else {
        None
    }
}

/// Whether a derive attribute's arguments are malformed or name `Clone` or
/// `Copy`.
pub open spec fn derive_problem(args: AttrArgs) -> Option<Rejection> {
    match args {
        AttrArgs::List(items) => derive_list_problem_of(items@),
        _ => Some(Rejection::MalformedDerive),
    }
}

/// The first problem among the derive attributes `attrs[0..n]`.
pub open spec fn derive_scan(attrs: Seq<Attribute>, n: int) -> Option<Rejection>
    decreases n,
{
    if n <= 0 || n > attrs.len() {
        None
    } else {
        match derive_scan(attrs, n - 1) {
            Some(r) => Some(r),
            None => if attrs[n - 1].named("derive"@) {
                derive_problem(attrs[n - 1].args)
            } else {
                None
            },
        }
    }
}

/// The fields `fs[0..n]` of a struct: attributes, name, type.
pub open spec fn struct_fields_walk(
    d: Dialect,
    fs: Seq<Field>,
    n: int,
    fb: Option<LayoutContext>,
    errs: Seq<Rejection>,
) -> Seq<Rejection>
    decreases n,
{
    if n <= 0 || n > fs.len() {
        errs
    } else {
        let f = fs[n - 1];
        let e1 = attrs_walk(f.attrs@, f.attrs@.len() as int, struct_fields_walk(d, fs, n - 1, fb, errs));
        let e2 = match f.name {
            Some(name) => ident_walk(name, e1),
            None => e1,
        };
        ty_walk(d, f.ty, fb, e2)
    }
}

/// A struct with named fields `fs`, at least one: no `#[repr]` and no
/// derived `Clone` or `Copy`, which it receives; then every rule of its walk.
pub open spec fn named_struct_check(d: Dialect, s: ItemStruct, fs: Seq<Field>) -> Result<
    (),
    Seq<Rejection>,
> {
    if exists|i: int| 0 <= i < s.attrs@.len() && #[trigger] s.attrs@[i].named("repr"@) {
        Err(seq![Rejection::ManualRepr])
    } else {
        match derive_scan(s.attrs@, s.attrs@.len() as int) {
            Some(r) => Err(seq![r]),
            None => {
                let fb = if d == Dialect::Gust {
                    Some(LayoutContext::StructFields)
                } else {
                    None
                };
                let errs = struct_fields_walk(
                    d,
                    fs,
                    fs.len() as int,
                    fb,
                    ident_walk(s.name, attrs_walk(s.attrs@, s.attrs@.len() as int, seq![])),
                );
                if errs.len() == 0 {
                    Ok(())
                } else {
                    Err(errs)
                }
            },
        }
    }
}

/// A struct: no generics, named fields, at least one; then the checks of
/// [`named_struct_check`].
pub open spec fn struct_check(d: Dialect, s: ItemStruct) -> Result<(), Seq<Rejection>> {
    if s.generic {
        Err(seq![Rejection::GenericStruct])
    } else {
        match s.fields {
            Fields::Named(fs) => if fs@.len() == 0 {
                Err(seq![Rejection::EmptyStruct])
            } else {
                named_struct_check(d, s, fs@)
            },
            _ => Err(seq![Rejection::UnnamedFields]),
        }
    }
}

/// The module's helper functions among `items[0..n]`: those without a
/// `#[kernel]` attribute.
pub open spec fn helper_names(items: Seq<Item>, n: int) -> Seq<Seq<char>>
    decreases n,
{
    if n <= 0 || n > items.len() {
        seq![]
    } else {
        let before = helper_names(items, n - 1);
        match items[n - 1] {
            Item::Fn(f) => if !has_kernel_attribute(f.attrs@) {
                before.push(f.sig.name@)
            } else {
                before
            },
            _ => before,
        }
    }
}

/// The module's functions among `items[0..n]` that return a `Result`.
pub open spec fn result_helper_names(items: Seq<Item>, n: int) -> Seq<Seq<char>>
    decreases n,
{
    if n <= 0 || n > items.len() {
        seq![]
    } else {
        let before = result_helper_names(items, n - 1);
        match items[n - 1] {
            Item::Fn(f) => match f.sig.output {
                Some(t) => if is_result_type(t) {
                    before.push(f.sig.name@)
                } else {
                    before
                },
                None => before,
            },
            _ => before,
        }
    }
}

/// The items `items[0..n]`, checked in order up to the first refused one.
pub open spec fn items_check(
    d: Dialect,
    items: Seq<Item>,
    n: int,
    functions: Seq<Seq<char>>,
    helpers: Seq<Seq<char>>,
) -> Result<(), Seq<Rejection>>
    decreases n,
{
    if n <= 0 || n > items.len() {
        Ok(())
    } else {
        match items_check(d, items, n - 1, functions, helpers) {
            Err(e) => Err(e),
            Ok(()) => match items[n - 1] {
                Item::Fn(f) => function_check(d, f, functions, helpers),
                Item::Struct(s) => struct_check(d, s),
                Item::Other => Err(seq![Rejection::ModuleItem]),
            },
        }
    }
}

/// A `#[gpu]` module: inline, holding only functions and plain structs, each
/// in the subset of the dialect.
pub open spec fn module_check(d: Dialect, m: ItemMod) -> Result<(), Seq<Rejection>> {
    match m.content {
        None => Err(seq![Rejection::NotInline]),
        Some(items) => items_check(
            d,
            items@,
            items@.len() as int,
            helper_names(items@, items@.len() as int),
            if d == Dialect::Gust {
                result_helper_names(items@, items@.len() as int)
            } else {
                seq![]
            },
        ),
    }
}


/// A list of one rejection.
fn one(r: Rejection) -> (v: Vec<Rejection>)
    ensures
        v@ == seq![r],
{
    let mut v = Vec::new();
    v.push(r);
    proof {
        assert(v@ =~= seq![r]);
    }
    v
}

/// A copy of a list of names.
fn copy_names(v: &Vec<String>) -> (r: Vec<String>)
    ensures
        names(r@) == names(v@),
{
    let mut r: Vec<String> = Vec::new();
    let mut i: usize = 0;
    while i < v.len()
        invariant
            i <= v@.len(),
            names(r@) == names(v@).take(i as int),
        decreases v@.len() - i,
    {
        push_name(&mut r, &v[i]);
        proof {
            assert(names(v@).take(i + 1) =~= names(v@).take(i as int).push(v@[i as int]@));
        }
        i = i + 1;
    }
    proof {
        assert(names(v@).take(v@.len() as int) =~= names(v@));
    }
    r
}

/// Whether a type is a path of one segment `Result`.
fn result_type(t: &Ty) -> (r: bool)
    ensures
        r == is_result_type(*t),
{
    match t {
        Ty::Path(p) => is_single_segment(p, "Result"),
        _ => false,
    }
}

/// The element type of a `RWStructuredBuffer<T>` parameter.
fn rw_buffer_element(t: &Ty) -> (r: Option<&String>)
    ensures
        match r {
            Some(e) => rw_element(*t) == Some(e@),
            None => rw_element(*t) is None,
        },
{
    match t {
        Ty::Path(p) => {
            if p.segments.len() == 1 && text_is(&p.segments[0].ident, "RWStructuredBuffer")
                && p.segments[0].args.len() > 0 {
                match &p.segments[0].args[0] {
                    GenericArg::Type(Ty::Path(e)) => e.get_ident(),
                    _ => None,
                }
            } else {
                None
            }
        },
        _ => None,
    }
}

/// Whether some attribute is `#[kernel]`.
fn kernel_attribute(attrs: &Vec<Attribute>) -> (r: bool)
    ensures
        r == has_kernel_attribute(attrs@),
{
    let mut i: usize = 0;
    while i < attrs.len()
        invariant
            i <= attrs@.len(),
            forall|j: int| 0 <= j < i ==> !#[trigger] attrs@[j].named("kernel"@),
        decreases attrs@.len() - i,
    {
        if attrs[i].path.is_ident("kernel") {
            proof {
                assert(attrs@[i as int].named("kernel"@));
            }
            return true;
        }
        i = i + 1;
    }
    false
}

/// The problem of a derive attribute's arguments, if any.
fn derive_list_problem(args: &AttrArgs) -> (r: Option<Rejection>)
    ensures
        r == derive_problem(*args),
{
    match args {
        AttrArgs::List(items) => list_problem(items),
        _ => Some(Rejection::MalformedDerive),
    }
}

/// The problem of a derive list, if any.
fn list_problem(items: &Vec<crate::syntax::MetaItem>) -> (r: Option<Rejection>)
    ensures
        r == derive_list_problem_of(items@),
{
    let mut i: usize = 0;
    while i < items.len()
        invariant
            i <= items@.len(),
            forall|j: int| 0 <= j < i ==> !#[trigger] has_values(items@[j]),
        decreases items@.len() - i,
    {
        if items[i].values.is_some() {
            proof {
                assert(has_values(items@[i as int]));
            }
            return Some(Rejection::MalformedDerive);
        }
        i = i + 1;
    }
    let mut k: usize = 0;
    while k < items.len()
        invariant
            k <= items@.len(),
            forall|j: int| 0 <= j < items@.len() ==> !#[trigger] has_values(items@[j]),
            forall|j: int| 0 <= j < k ==> !#[trigger] names_clone_or_copy(items@[j].path),
        decreases items@.len() - k,
    {
        let segs = &items[k].path.segments;
        if segs.len() > 0 {
            let last = &segs[segs.len() - 1].ident;
            if text_is(last, "Clone") || text_is(last, "Copy") {
                proof {
                    assert(names_clone_or_copy(items@[k as int].path));
                }
                return Some(Rejection::ManualCopy);
            }
        }
        k = k + 1;
    }
    None
}

/// Checks a function.
fn check_function(d: Dialect, f: &ItemFn, functions: &Vec<String>, helpers: &Vec<String>) -> (r:
    Result<(), Vec<Rejection>>)
    ensures
        match function_check(d, *f, names(functions@), names(helpers@)) {
            Ok(()) => r is Ok,
            Err(e) => r matches Err(v) && v@ == e,
        },
{
    let options = match kernel_options(f) {
        Err(e) => {
            return Err(one(Rejection::KernelAttribute(e)));
        },
        Ok(o) => o,
    };
    let g = d == Dialect::Gust;
    let ins = &f.sig.inputs;
    let mut resources: Vec<String> = Vec::new();
    let mut invocations: Vec<String> = Vec::new();
    let mut rw_buffers: Vec<(String, String)> = Vec::new();
    let mut results: Vec<String> = Vec::new();
    let mut count: usize = 0;
    let mut resource_seen = false;
    let mut i: usize = 0;
    proof {
        assert(names(resources@) =~= seq![]);
        assert(names(invocations@) =~= seq![]);
        assert(names(results@) =~= seq![]);
        assert(name_pairs(rw_buffers@) =~= seq![]);
    }
    while i < ins.len()
        invariant
            i <= ins@.len(),
            g == (d == Dialect::Gust),
            names(resources@) == params_where(ins@, i as int, ParamKind::Storage),
            names(invocations@) == params_where(ins@, i as int, ParamKind::Invocation),
            name_pairs(rw_buffers@) == (if g {
                rw_params(ins@, i as int)
            } else {
                seq![]
            }),
            names(results@) == (if g {
                params_where(ins@, i as int, ParamKind::ResultValue)
            } else {
                seq![]
            }),
            count == invocation_count(ins@, i as int),
            count <= i,
            resource_seen == exists|j: int| 0 <= j < i && #[trigger] resource_param(ins@[j]),
        decreases ins@.len() - i,
    {
        proof {
            assert forall|j: int| 0 <= j < i + 1 implies (#[trigger] resource_param(ins@[j])) == (
            resource_param(ins@[j])) by {}
        }
        match &ins[i] {
            FnArg::Typed(_, pat, t, _) => {
                let flavor = parameter_flavor(t);
                if flavor == ParameterFlavor::Invocation {
                    count = count + 1;
                }
                if flavor == ParameterFlavor::StorageRead || flavor
                    == ParameterFlavor::StorageReadWrite || flavor == ParameterFlavor::Uniform {
                    resource_seen = true;
                }
                if let Pat::Ident { name, .. } = pat {
                    if flavor == ParameterFlavor::StorageRead || flavor
                        == ParameterFlavor::StorageReadWrite {
                        push_name(&mut resources, name);
                    }
                    if flavor == ParameterFlavor::Invocation {
                        push_name(&mut invocations, name);
                    }
                    if g && flavor == ParameterFlavor::StorageReadWrite {
                        if let Some(e) = rw_buffer_element(t) {
                            let ghost before = rw_buffers@;
                            rw_buffers.push((name.clone(), e.clone()));
                            proof {
                                assert(name_pairs(rw_buffers@) =~= name_pairs(before).push(
                                    (name@, e@),
                                ));
                            }
                        }
                    }
                    if g && flavor == ParameterFlavor::Value && result_type(t) {
                        push_name(&mut results, name);
                    }
                }
            },
            FnArg::Receiver => {},
        }
        proof {
            assert(resource_param(ins@[i as int]) ==> exists|j: int|
                0 <= j < i + 1 && #[trigger] resource_param(ins@[j]));
        }
        i = i + 1;
    }
    if options.is_some() && count != 1 {
        return Err(one(Rejection::KernelDispatch));
    }
    if options.is_some() {
        let unit = match &f.sig.output {
            None => true,
            Some(Ty::Tuple(ts)) => ts.len() == 0,
            _ => false,
        };
        if !unit {
            return Err(one(Rejection::KernelReturn));
        }
    }
    if options.is_none() && resource_seen {
        return Err(one(Rejection::HelperResources));
    }
    if f.sig.is_async {
        return Err(one(Rejection::AsyncFunction));
    }
    if f.sig.is_unsafe {
        return Err(one(Rejection::UnsafeFunction));
    }
    if f.sig.is_extern || f.sig.generic_params > 0 {
        return Err(one(Rejection::ExternOrGeneric));
    }
    let mut errs: Vec<Rejection> = Vec::new();
    check_attrs(&f.attrs, &mut errs);
    check_ident(&f.sig.name, &mut errs);
    let ghost head = errs@;
    let mut k: usize = 0;
    while k < ins.len()
        invariant
            k <= ins@.len(),
            errs@ == inputs_walk(d, ins@, k as int, head),
        decreases ins@.len() - k,
    {
        match &ins[k] {
            FnArg::Typed(attrs, pat, t, _) => {
                check_attrs(attrs, &mut errs);
                check_pat(d, pat, &mut errs);
                check_ty(d, t, None, &mut errs);
            },
            FnArg::Receiver => {},
        }
        k = k + 1;
    }
    match &f.sig.output {
        Some(t) => check_ty(d, t, None, &mut errs),
        None => {},
    }
    let mut atomic_buffers: Vec<String> = Vec::new();
    proof {
        assert(names(atomic_buffers@) =~= seq![]);
    }
    if g {
        collect_uses_stmts(&f.body.stmts, &mut atomic_buffers);
    }
    let result_helpers = if g {
        copy_names(helpers)
    } else {
        let v: Vec<String> = Vec::new();
        proof {
            assert(names(v@) =~= seq![]);
        }
        v
    };
    let mut c = Checker {
        dialect: d,
        functions: copy_names(functions),
        result_helpers,
        resources,
        invocations,
        rw_buffers,
        atomic_buffers,
        results,
        errors: errs,
    };
    proof {
        assert(c.scope() == function_scope(d, *f, names(functions@), names(helpers@)));
    }
    c.stmts(&f.body.stmts, false);
    if c.errors.len() == 0 {
        Ok(())
    } else {
        Err(c.errors)
    }
}


/// Checks a struct.
fn check_struct(d: Dialect, s: &ItemStruct) -> (r: Result<(), Vec<Rejection>>)
    ensures
        match struct_check(d, *s) {
            Ok(()) => r is Ok,
            Err(e) => r matches Err(v) && v@ == e,
        },
{
    if s.generic {
        return Err(one(Rejection::GenericStruct));
    }
    let fs = match &s.fields {
        Fields::Named(fs) => fs,
        _ => {
            return Err(one(Rejection::UnnamedFields));
        },
    };
    if fs.len() == 0 {
        return Err(one(Rejection::EmptyStruct));
    }
    let attrs = &s.attrs;
    let ghost expected = struct_check(d, *s);
    proof {
        assert(expected == named_struct_check(d, *s, fs@));
    }
    let mut i: usize = 0;
    while i < attrs.len()
        invariant
            i <= attrs@.len(),
            expected == named_struct_check(d, *s, fs@),
            expected == struct_check(d, *s),
            attrs@ == s.attrs@,
            forall|j: int| 0 <= j < i ==> !#[trigger] attrs@[j].named("repr"@),
        decreases attrs@.len() - i,
    {
        if attrs[i].path.is_ident("repr") {
            proof {
                assert(attrs@[i as int].named("repr"@));
            }
            return Err(one(Rejection::ManualRepr));
        }
        i = i + 1;
    }
    let mut k: usize = 0;
    while k < attrs.len()
        invariant
            k <= attrs@.len(),
            expected == named_struct_check(d, *s, fs@),
            expected == struct_check(d, *s),
            attrs@ == s.attrs@,
            !(exists|i: int| 0 <= i < s.attrs@.len() && #[trigger] s.attrs@[i].named("repr"@)),
            derive_scan(attrs@, k as int) is None,
        decreases attrs@.len() - k,
    {
        if attrs[k].path.is_ident("derive") {
            if let Some(problem) = derive_list_problem(&attrs[k].args) {
                proof {
                    lemma_derive_scan_sticks(attrs@, k + 1, attrs@.len() as int);
                }
                return Err(one(problem));
            }
        }
        k = k + 1;
    }
    let fb = if d == Dialect::Gust {
        Some(LayoutContext::StructFields)
    } else {
        None
    };
    let mut errs: Vec<Rejection> = Vec::new();
    check_attrs(attrs, &mut errs);
    check_ident(&s.name, &mut errs);
    let ghost head = errs@;
    let mut m: usize = 0;
    while m < fs.len()
        invariant
            m <= fs@.len(),
            errs@ == struct_fields_walk(d, fs@, m as int, fb, head),
        decreases fs@.len() - m,
    {
        let field = &fs[m];
        check_attrs(&field.attrs, &mut errs);
        if let Some(name) = &field.name {
            check_ident(name, &mut errs);
        }
        check_ty(d, &field.ty, fb, &mut errs);
        m = m + 1;
    }
    if errs.len() == 0 {
        Ok(())
    } else {
        Err(errs)
    }
}

/// Once a derive attribute has a problem, the scan keeps it.
proof fn lemma_derive_scan_sticks(attrs: Seq<Attribute>, k: int, m: int)
    requires
        0 <= k <= m <= attrs.len(),
        derive_scan(attrs, k) is Some,
    ensures
        derive_scan(attrs, m) == derive_scan(attrs, k),
    decreases m - k,
{
    if m > k {
        lemma_derive_scan_sticks(attrs, k, m - 1);
    }
}

/// Once an item is refused, the check of the module keeps that refusal.
proof fn lemma_items_check_sticks(
    d: Dialect,
    items: Seq<Item>,
    k: int,
    m: int,
    functions: Seq<Seq<char>>,
    helpers: Seq<Seq<char>>,
)
    requires
        0 <= k <= m <= items.len(),
        items_check(d, items, k, functions, helpers) is Err,
    ensures
        items_check(d, items, m, functions, helpers) == items_check(d, items, k, functions, helpers),
    decreases m - k,
{
    if m > k {
        lemma_items_check_sticks(d, items, k, m - 1, functions, helpers);
    }
}

/// Checks a module against a dialect: `Ok` when every rule holds, else the
/// rejections of the first refused item, in source order.
pub fn check_module(d: Dialect, module: &ItemMod) -> (r: Result<(), Vec<Rejection>>)
    ensures
        match module_check(d, *module) {
            Ok(()) => r is Ok,
            Err(e) => r matches Err(v) && v@ == e,
        },
{
    let items = match &module.content {
        None => {
            return Err(one(Rejection::NotInline));
        },
        Some(items) => items,
    };
    let g = d == Dialect::Gust;
    let mut functions: Vec<String> = Vec::new();
    let mut helpers: Vec<String> = Vec::new();
    proof {
        assert(names(functions@) =~= seq![]);
        assert(names(helpers@) =~= seq![]);
    }
    let mut i: usize = 0;
    while i < items.len()
        invariant
            i <= items@.len(),
            g == (d == Dialect::Gust),
            names(functions@) == helper_names(items@, i as int),
            names(helpers@) == (if g {
                result_helper_names(items@, i as int)
            } else {
                seq![]
            }),
        decreases items@.len() - i,
    {
        if let Item::Fn(f) = &items[i] {
            if !kernel_attribute(&f.attrs) {
                push_name(&mut functions, &f.sig.name);
            }
            if g {
                if let Some(t) = &f.sig.output {
                    if result_type(t) {
                        push_name(&mut helpers, &f.sig.name);
                    }
                }
            }
        }
        i = i + 1;
    }
    let ghost fnames = names(functions@);
    let ghost hnames = names(helpers@);
    let mut k: usize = 0;
    while k < items.len()
        invariant
            k <= items@.len(),
            fnames == names(functions@),
            hnames == names(helpers@),
            module_check(d, *module) == items_check(d, items@, items@.len() as int, fnames, hnames),
            items_check(d, items@, k as int, fnames, hnames) is Ok,
        decreases items@.len() - k,
    {
        let checked = match &items[k] {
            Item::Fn(f) => check_function(d, f, &functions, &helpers),
            Item::Struct(s) => check_struct(d, s),
            Item::Other => Err(one(Rejection::ModuleItem)),
        };
        if checked.is_err() {
            proof {
                lemma_items_check_sticks(d, items@, k + 1, items@.len() as int, fnames, hnames);
            }
            return checked;
        }
        k = k + 1;
    }
    Ok(())
}

/// Checks a `#[gpu]` module against the GUST subset of Rust: `Ok` when every
/// rule holds, else every rejection of the first refused item, in source
/// order (see [`module_check`]).
pub fn validate_module(module: &ItemMod) -> (r: Result<(), Vec<Rejection>>)
    ensures
        match module_check(Dialect::Gust, *module) {
            Ok(()) => r is Ok,
            Err(e) => r matches Err(v) && v@ == e,
        },
{
    check_module(Dialect::Gust, module)
}


/// The shape every function of an accepted module has: a well-formed kernel
/// attribute; a kernel takes exactly one dispatch-thread parameter and
/// returns unit; a helper takes no resource; none is `async`, `unsafe`,
/// `extern` or generic.
pub open spec fn accepted_function_shape(f: ItemFn) -> bool {
    let ins = f.sig.inputs@;
    &&& spec_kernel_options(f.attrs@) is Ok
    &&& has_kernel_attribute(f.attrs@) ==> invocation_count(ins, ins.len() as int) == 1
        && returns_unit(f.sig.output)
    &&& !has_kernel_attribute(f.attrs@) ==> !has_resource_param(ins)
    &&& !f.sig.is_async && !f.sig.is_unsafe && !f.sig.is_extern && f.sig.generic_params == 0
}

/// The shape every struct of an accepted module has: no generics, at least
/// one named field, no `#[repr]`.
pub open spec fn accepted_struct_shape(s: ItemStruct) -> bool {
    &&& !s.generic
    &&& s.fields matches Fields::Named(fs) && fs@.len() > 0
    &&& !exists|i: int| 0 <= i < s.attrs@.len() && #[trigger] s.attrs@[i].named("repr"@)
}

/// Whether a module item has the shape of an accepted one.
pub open spec fn accepted_item_shape(item: Item) -> bool {
    match item {
        Item::Fn(f) => accepted_function_shape(f),
        Item::Struct(s) => accepted_struct_shape(s),
        Item::Other => false,
    }
}

/// A function the check accepts has the accepted shape.
proof fn lemma_function_accepted(
    d: Dialect,
    f: ItemFn,
    functions: Seq<Seq<char>>,
    helpers: Seq<Seq<char>>,
)
    requires
        function_check(d, f, functions, helpers) is Ok,
    ensures
        accepted_function_shape(f),
{
    let o = spec_kernel_options(f.attrs@);
    assert(o is Ok);
    assert(has_kernel_attribute(f.attrs@) <==> o->Ok_0 is Some);
}

/// A struct the check accepts has the accepted shape.
proof fn lemma_struct_accepted(d: Dialect, s: ItemStruct)
    requires
        struct_check(d, s) is Ok,
    ensures
        accepted_struct_shape(s),
{
}

/// The items of a prefix accepted by the module check are each accepted.
proof fn lemma_items_accepted(
    d: Dialect,
    items: Seq<Item>,
    n: int,
    functions: Seq<Seq<char>>,
    helpers: Seq<Seq<char>>,
)
    requires
        0 <= n <= items.len(),
        items_check(d, items, n, functions, helpers) is Ok,
    ensures
        forall|i: int| 0 <= i < n ==> accepted_item_shape(#[trigger] items[i]),
    decreases n,
{
    if n > 0 {
        lemma_items_accepted(d, items, n - 1, functions, helpers);
        match items[n - 1] {
            Item::Fn(f) => lemma_function_accepted(d, f, functions, helpers),
            Item::Struct(s) => lemma_struct_accepted(d, s),
            Item::Other => {},
        }
    }
}

/// A module that the check of either dialect accepts is inline and holds
/// only functions and structs; each kernel has exactly one dispatch-thread
/// parameter and returns unit, each helper takes no resource, no function is
/// `async`, `unsafe`, `extern` or generic, and each struct has named fields,
/// at least one, no generics and no `#[repr]`.
pub proof fn lemma_accepted_module_shape(d: Dialect, m: ItemMod)
    requires
        module_check(d, m) is Ok,
    ensures
        m.content is Some,
        forall|i: int|
            0 <= i < m.content->0@.len() ==> accepted_item_shape(#[trigger] m.content->0@[i]),
{
    let items = m.content->0@;
    lemma_items_accepted(
        d,
        items,
        items.len() as int,
        helper_names(items, items.len() as int),
        if d == Dialect::Gust {
            result_helper_names(items, items.len() as int)
        } else {
            seq![]
        },
    );
}


/// The rejections of attributes only grow.
proof fn lemma_attrs_grow(a: Seq<Attribute>, n: int, errs: Seq<Rejection>)
    ensures
        attrs_walk(a, n, errs).len() >= errs.len(),
    decreases n,
{
    if n > 0 && n <= a.len() {
        lemma_attrs_grow(a, n - 1, errs);
    }
}

/// The walk of a type only adds rejections.
proof fn lemma_ty_grows(d: Dialect, t: Ty, fb: Option<LayoutContext>, errs: Seq<Rejection>)
    ensures
        ty_walk(d, t, fb, errs).len() >= errs.len(),
    decreases t, 0int,
{
    match t {
        Ty::Path(p) => lemma_type_path_grows(d, p, fb, errs),
        Ty::Tuple(ts) => lemma_tys_grow(d, ts@, ts@.len() as int, fb, errs),
        Ty::Reference(b) => lemma_ty_grows(d, *b, fb, errs),
        Ty::Ptr(b) => lemma_ty_grows(d, *b, fb, errs),
        Ty::Slice(b) => lemma_ty_grows(d, *b, fb, errs),
        Ty::Infer => {},
    }
}

proof fn lemma_tys_grow(d: Dialect, ts: Seq<Ty>, n: int, fb: Option<LayoutContext>, errs: Seq<Rejection>)
    ensures
        tys_walk(d, ts, n, fb, errs).len() >= errs.len(),
    decreases ts, n,
{
    if n > 0 && n <= ts.len() {
        lemma_tys_grow(d, ts, n - 1, fb, errs);
        lemma_ty_grows(d, ts[n - 1], fb, tys_walk(d, ts, n - 1, fb, errs));
    }
}

proof fn lemma_type_path_grows(d: Dialect, p: Path, fb: Option<LayoutContext>, errs: Seq<Rejection>)
    ensures
        type_path_walk(d, p, fb, errs).len() >= errs.len(),
    decreases p, 2int,
{
    lemma_path_grows(d, p, fb, errs);
    lemma_path_grows(d, p, Some(LayoutContext::ResourceElements), errs);
}

proof fn lemma_path_grows(d: Dialect, p: Path, fb: Option<LayoutContext>, errs: Seq<Rejection>)
    ensures
        path_walk(d, p, fb, errs).len() >= errs.len(),
    decreases p, 1int,
{
    if !has_banned_segment(p) {
        lemma_segments_grow(d, p.segments@, p.segments@.len() as int, fb, errs);
    }
}

proof fn lemma_segments_grow(
    d: Dialect,
    s: Seq<PathSegment>,
    n: int,
    fb: Option<LayoutContext>,
    errs: Seq<Rejection>,
)
    ensures
        segments_walk(d, s, n, fb, errs).len() >= errs.len(),
    decreases s, n,
{
    if n > 0 && n <= s.len() {
        lemma_segments_grow(d, s, n - 1, fb, errs);
        let before = segments_walk(d, s, n - 1, fb, errs);
        let seg = s[n - 1];
        lemma_args_grow(d, seg.args@, seg.args@.len() as int, fb, ident_walk(seg.ident, before));
    }
}

proof fn lemma_args_grow(
    d: Dialect,
    a: Seq<GenericArg>,
    n: int,
    fb: Option<LayoutContext>,
    errs: Seq<Rejection>,
)
    ensures
        args_walk(d, a, n, fb, errs).len() >= errs.len(),
    decreases a, n,
{
    if n > 0 && n <= a.len() {
        lemma_args_grow(d, a, n - 1, fb, errs);
        match a[n - 1] {
            GenericArg::Type(t) => lemma_ty_grows(d, t, fb, args_walk(d, a, n - 1, fb, errs)),
            GenericArg::Other => {},
        }
    }
}

/// The walk of a pattern only adds rejections.
proof fn lemma_pat_grows(d: Dialect, p: Pat, errs: Seq<Rejection>)
    ensures
        pat_walk(d, p, errs).len() >= errs.len(),
    decreases p, 0int,
{
    match p {
        Pat::Ident { .. } => {},
        Pat::Typed(inner, t) => {
            lemma_pat_grows(d, *inner, errs);
            lemma_ty_grows(d, t, None, pat_walk(d, *inner, errs));
        },
        Pat::Wild => {},
        Pat::TupleStruct(path, elems) => {
            lemma_path_grows(d, path, None, errs);
            lemma_pats_grow(d, elems@, elems@.len() as int, path_walk(d, path, None, errs));
        },
        Pat::Tuple(elems) => lemma_pats_grow(d, elems@, elems@.len() as int, errs),
    }
}

proof fn lemma_pats_grow(d: Dialect, ps: Seq<Pat>, n: int, errs: Seq<Rejection>)
    ensures
        pats_walk(d, ps, n, errs).len() >= errs.len(),
    decreases ps, n,
{
    if n > 0 && n <= ps.len() {
        lemma_pats_grow(d, ps, n - 1, errs);
        lemma_pat_grows(d, ps[n - 1], pats_walk(d, ps, n - 1, errs));
    }
}

/// The walk of an expression only adds rejections.
proof fn lemma_expr_grows(sc: Scope, e: Expr, lp: bool, w: Walk)
    ensures
        expr_walk(sc, e, lp, w).errs.len() >= w.errs.len(),
    decreases e, 5int,
{
    let d = sc.dialect;
    match e {
        Expr::Unary(_, inner) => lemma_expr_grows(sc, *inner, lp, w),
        Expr::Binary(_, l, r) => {
            lemma_expr_grows(sc, *l, lp, w);
            lemma_expr_grows(sc, *r, lp, expr_walk(sc, *l, lp, w));
        },
        Expr::Paren(inner) => lemma_expr_grows(sc, *inner, lp, w),
        Expr::Group(inner) => lemma_expr_grows(sc, *inner, lp, w),
        Expr::Call(_, _) => lemma_call_grows(sc, e, lp, w),
        Expr::MethodCall { .. } => lemma_method_grows(sc, e, lp, w),
        Expr::Field(base, _) => lemma_expr_grows(sc, *base, lp, w),
        Expr::Index(b, i) => {
            lemma_expr_grows(sc, *b, lp, w);
            lemma_expr_grows(sc, *i, lp, expr_walk(sc, *b, lp, w));
        },
        Expr::Cast(inner, t) => {
            lemma_expr_grows(sc, *inner, lp, w);
            let w1 = expr_walk(sc, *inner, lp, w);
            lemma_ty_grows(d, t, None, w1.errs);
        },
        Expr::Struct { path, fields, .. } => {
            lemma_path_grows(d, path, None, w.errs);
            lemma_fields_grow(
                sc,
                fields@,
                fields@.len() as int,
                lp,
                with_errs(w, path_walk(d, path, None, w.errs)),
            );
        },
        Expr::Assign(l, r) => {
            lemma_expr_grows(sc, *l, lp, w);
            lemma_expr_grows(sc, *r, lp, expr_walk(sc, *l, lp, w));
        },
        Expr::Block(b) => lemma_stmts_grow(sc, b.stmts@, b.stmts@.len() as int, lp, w),
        Expr::If { .. } => lemma_if_grows(sc, e, lp, w),
        Expr::Let(pat, scrutinee) => {
            lemma_pat_grows(d, pat, w.errs);
            lemma_expr_grows(sc, *scrutinee, lp, with_errs(w, pat_walk(d, pat, w.errs)));
        },
        Expr::ForLoop { .. } => lemma_for_grows(sc, e, lp, w),
        Expr::Range { start, end, .. } => {
            lemma_opt_grows(sc, start, lp, w);
            lemma_opt_grows(sc, end, lp, opt_walk(sc, start, lp, w));
        },
        Expr::Break { label, value } => {
            let w1 = match label {
                Some(l) => with_errs(w, ident_walk(l, w.errs)),
                None => w,
            };
            lemma_opt_grows(sc, value, lp, w1);
        },
        Expr::Return(value) => lemma_opt_grows(sc, value, lp, w),
        Expr::Tuple(es) => lemma_exprs_grow(sc, es@, 0, es@.len() as int, lp, w),
        Expr::Array(es) => lemma_exprs_grow(sc, es@, 0, es@.len() as int, lp, w),
        _ => {},
    }
}

proof fn lemma_opt_grows(sc: Scope, o: Option<Box<Expr>>, lp: bool, w: Walk)
    ensures
        opt_walk(sc, o, lp, w).errs.len() >= w.errs.len(),
    decreases o, 0int,
{
    match o {
        Some(e) => lemma_expr_grows(sc, *e, lp, w),
        None => {},
    }
}

proof fn lemma_exprs_grow(sc: Scope, s: Seq<Expr>, lo: int, n: int, lp: bool, w: Walk)
    ensures
        exprs_walk(sc, s, lo, n, lp, w).errs.len() >= w.errs.len(),
    decreases s, n,
{
    if !(n <= lo || n > s.len() || lo < 0) {
        lemma_exprs_grow(sc, s, lo, n - 1, lp, w);
        lemma_expr_grows(sc, s[n - 1], lp, exprs_walk(sc, s, lo, n - 1, lp, w));
    }
}

proof fn lemma_fields_grow(sc: Scope, fs: Seq<FieldValue>, n: int, lp: bool, w: Walk)
    ensures
        fields_walk(sc, fs, n, lp, w).errs.len() >= w.errs.len(),
    decreases fs, n,
{
    if n > 0 && n <= fs.len() {
        lemma_fields_grow(sc, fs, n - 1, lp, w);
        let w1 = fields_walk(sc, fs, n - 1, lp, w);
        let f = fs[n - 1];
        let w2 = match f.member {
            Member::Named(name) => with_errs(w1, ident_walk(name, w1.errs)),
            Member::Unnamed(_) => w1,
        };
        lemma_expr_grows(sc, f.expr, lp, w2);
    }
}

proof fn lemma_call_grows(sc: Scope, e: Expr, lp: bool, w: Walk)
    ensures
        call_walk(sc, e, lp, w).errs.len() >= w.errs.len(),
    decreases e, 1int,
{
    match e {
        Expr::Call(_, args) => {
            if args@.len() == 1 {
                lemma_expr_grows(sc, args@[0], lp, w);
            }
            lemma_exprs_grow(sc, args@, 0, args@.len() as int, lp, w);
        },
        _ => {},
    }
}

proof fn lemma_method_grows(sc: Scope, e: Expr, lp: bool, w: Walk)
    ensures
        method_walk(sc, e, lp, w).errs.len() >= w.errs.len(),
    decreases e, 1int,
{
    match e {
        Expr::MethodCall { receiver, method, args, .. } => {
            lemma_expr_grows(sc, *receiver, lp, w);
            let w1 = expr_walk(sc, *receiver, lp, w);
            lemma_exprs_grow(
                sc,
                args@,
                0,
                args@.len() as int,
                lp,
                with_errs(w1, ident_walk(method, w1.errs)),
            );
        },
        _ => {},
    }
}

proof fn lemma_if_grows(sc: Scope, e: Expr, lp: bool, w: Walk)
    ensures
        if_walk(sc, e, lp, w).errs.len() >= w.errs.len(),
    decreases e, 1int,
{
    match e {
        Expr::If { cond, then_branch, else_branch } => {
            let n = then_branch.stmts@.len() as int;
            match *cond {
                Expr::Let(pat, scrutinee) => {
                    let binding = match ctor_binding(pat, "Some"@) {
                        Some(b) => Some(b),
                        None => ctor_binding(pat, "Ok"@),
                    };
                    match binding {
                        Some(Pat::Ident { by_ref, at_binding, name, .. }) => {
                            let w1 = with_errs(w, pat_ident_walk(by_ref, at_binding, name, w.errs));
                            lemma_expr_grows(sc, *scrutinee, lp, w1);
                            let w2 = expr_walk(sc, *scrutinee, lp, w1);
                            lemma_stmts_grow(sc, then_branch.stmts@, n, lp, w2);
                            lemma_opt_grows(sc, else_branch, lp, stmts_walk(sc, then_branch.stmts@, n, lp, w2));
                        },
                        _ => {},
                    }
                },
                _ => {},
            }
            lemma_expr_grows(sc, *cond, lp, w);
            let w3 = expr_walk(sc, *cond, lp, w);
            lemma_stmts_grow(sc, then_branch.stmts@, n, lp, w3);
            lemma_opt_grows(sc, else_branch, lp, stmts_walk(sc, then_branch.stmts@, n, lp, w3));
        },
        _ => {},
    }
}

proof fn lemma_for_grows(sc: Scope, e: Expr, lp: bool, w: Walk)
    ensures
        for_walk(sc, e, lp, w).errs.len() >= w.errs.len(),
    decreases e, 1int,
{
    match e {
        Expr::ForLoop { label, pat, iterable, body } => {
            if label is None {
                match loop_var(pat) {
                    Ok(v) => {
                        let w1 = match v {
                            Some(Pat::Ident { by_ref, at_binding, name, .. }) => with_errs(
                                w,
                                pat_ident_walk(by_ref, at_binding, name, w.errs),
                            ),
                            _ => w,
                        };
                        match range_of(*iterable) {
                            Ok((start, end)) => {
                                lemma_expr_grows(sc, start, lp, w1);
                                let w2 = expr_walk(sc, start, lp, w1);
                                lemma_expr_grows(sc, end, lp, w2);
                                lemma_stmts_grow(
                                    sc,
                                    body.stmts@,
                                    body.stmts@.len() as int,
                                    true,
                                    expr_walk(sc, end, lp, w2),
                                );
                            },
                            Err(_) => {},
                        }
                    },
                    Err(_) => {},
                }
            }
        },
        _ => {},
    }
}

/// The walk of statements only adds rejections.
proof fn lemma_stmts_grow(sc: Scope, ss: Seq<Stmt>, n: int, lp: bool, w: Walk)
    ensures
        stmts_walk(sc, ss, n, lp, w).errs.len() >= w.errs.len(),
    decreases ss, n,
{
    if n > 0 && n <= ss.len() {
        lemma_stmts_grow(sc, ss, n - 1, lp, w);
        lemma_stmt_grows(sc, ss[n - 1], lp, stmts_walk(sc, ss, n - 1, lp, w));
    }
}

proof fn lemma_stmt_grows(sc: Scope, s: Stmt, lp: bool, w: Walk)
    ensures
        stmt_walk(sc, s, lp, w).errs.len() >= w.errs.len(),
    decreases s, 5int,
{
    match s {
        Stmt::Local(l) => lemma_local_grows(sc, l, lp, w),
        Stmt::Macro(attrs, path) => {
            lemma_attrs_grow(attrs@, attrs@.len() as int, w.errs);
            lemma_path_grows(sc.dialect, path, None, attrs_walk(attrs@, attrs@.len() as int, w.errs));
        },
        Stmt::Expr(e, _) => {
            lemma_expr_grows(sc, e, lp, w);
            match e {
                Expr::Match(_, _) => lemma_match_stmt_grows(sc, s, lp, w),
                Expr::Call(_, _) => lemma_atomic_grows(sc, s, lp, w),
                _ => {},
            }
        },
    }
}

proof fn lemma_local_grows(sc: Scope, l: Local, lp: bool, w: Walk)
    ensures
        local_walk(sc, l, lp, w).errs.len() >= w.errs.len(),
    decreases l, 0int,
{
    lemma_attrs_grow(l.attrs@, l.attrs@.len() as int, w.errs);
    let a = attrs_walk(l.attrs@, l.attrs@.len() as int, w.errs);
    lemma_pat_grows(sc.dialect, l.pat, a);
    lemma_opt_grows(sc, l.init, lp, with_errs(w, pat_walk(sc.dialect, l.pat, a)));
}

proof fn lemma_match_stmt_grows(sc: Scope, s: Stmt, lp: bool, w: Walk)
    ensures
        match_stmt_walk(sc, s, lp, w).errs.len() >= w.errs.len(),
    decreases s, 1int,
{
    match s {
        Stmt::Expr(Expr::Match(scrutinee, arms), _) => match match_arms(arms@) {
            Ok((Pat::Ident { by_ref: ok_ref, at_binding: ok_at, name: ok_name, .. }, _, Pat::Ident { by_ref: err_ref, at_binding: err_at, name: err_name, .. }, _)) => {
                let w1 = with_errs(w, pat_ident_walk(ok_ref, ok_at, ok_name, w.errs));
                let w2 = with_errs(w1, pat_ident_walk(err_ref, err_at, err_name, w1.errs));
                lemma_expr_grows(sc, *scrutinee, lp, w2);
                lemma_arm_bodies_grow(sc, arms@, arms@.len() as int, lp, expr_walk(sc, *scrutinee, lp, w2));
            },
            _ => {},
        },
        _ => {},
    }
}

proof fn lemma_arm_bodies_grow(sc: Scope, arms: Seq<Arm>, n: int, lp: bool, w: Walk)
    ensures
        arm_bodies_walk(sc, arms, n, lp, w).errs.len() >= w.errs.len(),
    decreases arms, n,
{
    if n > 0 && n <= arms.len() {
        lemma_arm_bodies_grow(sc, arms, n - 1, lp, w);
        let w1 = arm_bodies_walk(sc, arms, n - 1, lp, w);
        match *arms[n - 1].body {
            Expr::Block(b) => lemma_stmts_grow(sc, b.stmts@, b.stmts@.len() as int, lp, w1),
            _ => {},
        }
    }
}

proof fn lemma_atomic_grows(sc: Scope, s: Stmt, lp: bool, w: Walk)
    ensures
        atomic_walk(sc, s, lp, w).errs.len() >= w.errs.len(),
    decreases s, 1int,
{
    match s {
        Stmt::Expr(Expr::Call(_, args), _) => {
            if args@.len() > 0 {
                match args@[0] {
                    Expr::Reference { expr, .. } => match *expr {
                        Expr::Index(_, index) => {
                            lemma_expr_grows(sc, *index, lp, w);
                            lemma_exprs_grow(
                                sc,
                                args@,
                                1,
                                args@.len() as int,
                                lp,
                                expr_walk(sc, *index, lp, w),
                            );
                        },
                        _ => {},
                    },
                    _ => {},
                }
            }
        },
        _ => {},
    }
}


/// Whether a parameter bound to a plain name avoids the reserved prefixes.
pub open spec fn param_name_unreserved(a: FnArg) -> bool {
    match a {
        FnArg::Typed(_, Pat::Ident { name, .. }, _, _) => !is_reserved_name(name@),
        _ => true,
    }
}

/// Whether a struct field's name avoids the reserved prefixes.
pub open spec fn field_name_unreserved(f: Field) -> bool {
    match f.name {
        Some(n) => !is_reserved_name(n@),
        None => true,
    }
}

/// Whether the names an item declares avoid the reserved prefixes: a
/// function's name and plain-named parameters, a struct's name and fields.
pub open spec fn names_unreserved(item: Item) -> bool {
    match item {
        Item::Fn(f) => !is_reserved_name(f.sig.name@) && forall|j: int|
            0 <= j < f.sig.inputs@.len() ==> param_name_unreserved(#[trigger] f.sig.inputs@[j]),
        Item::Struct(s) => !is_reserved_name(s.name@) && match s.fields {
            Fields::Named(fs) => forall|j: int|
                0 <= j < fs@.len() ==> field_name_unreserved(#[trigger] fs@[j]),
            _ => true,
        },
        Item::Other => true,
    }
}

/// The rejections of parameters only grow, prefix by prefix.
proof fn lemma_inputs_grow(d: Dialect, ins: Seq<FnArg>, k: int, n: int, errs: Seq<Rejection>)
    requires
        0 <= k <= n <= ins.len(),
    ensures
        inputs_walk(d, ins, n, errs).len() >= inputs_walk(d, ins, k, errs).len(),
        inputs_walk(d, ins, n, errs).len() >= errs.len(),
    decreases n,
{
    if n > 0 {
        let before = inputs_walk(d, ins, n - 1, errs);
        if k < n {
            lemma_inputs_grow(d, ins, k, n - 1, errs);
        } else {
            lemma_inputs_grow(d, ins, 0, n - 1, errs);
        }
        match ins[n - 1] {
            FnArg::Typed(attrs, pat, t, _) => {
                lemma_attrs_grow(attrs@, attrs@.len() as int, before);
                let a = attrs_walk(attrs@, attrs@.len() as int, before);
                lemma_pat_grows(d, pat, a);
                lemma_ty_grows(d, t, None, pat_walk(d, pat, a));
            },
            FnArg::Receiver => {},
        }
    }
}

/// A parameter bound to a reserved name leaves a rejection.
proof fn lemma_reserved_param_rejected(d: Dialect, ins: Seq<FnArg>, i: int, errs: Seq<Rejection>)
    requires
        0 <= i < ins.len(),
        !param_name_unreserved(ins[i]),
    ensures
        inputs_walk(d, ins, i + 1, errs).len() >= 1,
{
    match ins[i] {
        FnArg::Typed(attrs, pat, t, _) => {
            let before = inputs_walk(d, ins, i, errs);
            let a = attrs_walk(attrs@, attrs@.len() as int, before);
            lemma_ty_grows(d, t, None, pat_walk(d, pat, a));
        },
        FnArg::Receiver => {},
    }
}

/// The rejections of struct fields only grow, prefix by prefix.
proof fn lemma_struct_fields_grow(
    d: Dialect,
    fs: Seq<Field>,
    k: int,
    n: int,
    fb: Option<LayoutContext>,
    errs: Seq<Rejection>,
)
    requires
        0 <= k <= n <= fs.len(),
    ensures
        struct_fields_walk(d, fs, n, fb, errs).len() >= struct_fields_walk(d, fs, k, fb, errs).len(),
        struct_fields_walk(d, fs, n, fb, errs).len() >= errs.len(),
    decreases n,
{
    if n > 0 {
        if k < n {
            lemma_struct_fields_grow(d, fs, k, n - 1, fb, errs);
        } else {
            lemma_struct_fields_grow(d, fs, 0, n - 1, fb, errs);
        }
        let f = fs[n - 1];
        let before = struct_fields_walk(d, fs, n - 1, fb, errs);
        lemma_attrs_grow(f.attrs@, f.attrs@.len() as int, before);
        let e1 = attrs_walk(f.attrs@, f.attrs@.len() as int, before);
        let e2 = match f.name {
            Some(name) => ident_walk(name, e1),
            None => e1,
        };
        lemma_ty_grows(d, f.ty, fb, e2);
    }
}

/// A function the check accepts declares no reserved name.
proof fn lemma_function_names(d: Dialect, f: ItemFn, functions: Seq<Seq<char>>, helpers: Seq<Seq<char>>)
    requires
        function_check(d, f, functions, helpers) is Ok,
    ensures
        names_unreserved(Item::Fn(f)),
{
    let ins = f.sig.inputs@;
    let attrs_errs = attrs_walk(f.attrs@, f.attrs@.len() as int, seq![]);
    lemma_attrs_grow(f.attrs@, f.attrs@.len() as int, seq![]);
    let head = ident_walk(f.sig.name, attrs_errs);
    let params = inputs_walk(d, ins, ins.len() as int, head);
    lemma_inputs_grow(d, ins, 0, ins.len() as int, head);
    let sig = match f.sig.output {
        Some(t) => ty_walk(d, t, None, params),
        None => params,
    };
    match f.sig.output {
        Some(t) => lemma_ty_grows(d, t, None, params),
        None => {},
    }
    let sc = function_scope(d, f, functions, helpers);
    let start = Walk { errs: sig, results: initial_results(d, f) };
    lemma_stmts_grow(sc, f.body.stmts@, f.body.stmts@.len() as int, false, start);
    assert(function_walk(d, f, functions, helpers).len() == 0);
    assert forall|j: int| 0 <= j < ins.len() implies param_name_unreserved(#[trigger] ins[j]) by {
        if !param_name_unreserved(ins[j]) {
            lemma_reserved_param_rejected(d, ins, j, head);
            lemma_inputs_grow(d, ins, j + 1, ins.len() as int, head);
        }
    }
}

/// A struct the check accepts declares no reserved name.
proof fn lemma_struct_names(d: Dialect, s: ItemStruct)
    requires
        struct_check(d, s) is Ok,
    ensures
        names_unreserved(Item::Struct(s)),
{
    match s.fields {
        Fields::Named(fs) => {
            let fb = if d == Dialect::Gust {
                Some(LayoutContext::StructFields)
            } else {
                None
            };
            lemma_attrs_grow(s.attrs@, s.attrs@.len() as int, seq![]);
            let head = ident_walk(s.name, attrs_walk(s.attrs@, s.attrs@.len() as int, seq![]));
            lemma_struct_fields_grow(d, fs@, 0, fs@.len() as int, fb, head);
            assert forall|j: int| 0 <= j < fs@.len() implies field_name_unreserved(#[trigger] fs@[j]) by {
                if !field_name_unreserved(fs@[j]) {
                    lemma_struct_fields_grow(d, fs@, j + 1, fs@.len() as int, fb, head);
                    let f = fs@[j];
                    let before = struct_fields_walk(d, fs@, j, fb, head);
                    lemma_attrs_grow(f.attrs@, f.attrs@.len() as int, before);
                    let e1 = attrs_walk(f.attrs@, f.attrs@.len() as int, before);
                    lemma_ty_grows(d, f.ty, fb, ident_walk(f.name->0, e1));
                }
            }
        },
        _ => {},
    }
}

proof fn lemma_items_names(
    d: Dialect,
    items: Seq<Item>,
    n: int,
    functions: Seq<Seq<char>>,
    helpers: Seq<Seq<char>>,
)
    requires
        0 <= n <= items.len(),
        items_check(d, items, n, functions, helpers) is Ok,
    ensures
        forall|i: int| 0 <= i < n ==> names_unreserved(#[trigger] items[i]),
    decreases n,
{
    if n > 0 {
        lemma_items_names(d, items, n - 1, functions, helpers);
        match items[n - 1] {
            Item::Fn(f) => lemma_function_names(d, f, functions, helpers),
            Item::Struct(s) => lemma_struct_names(d, s),
            Item::Other => {},
        }
    }
}

/// The `__gust_` and `__gpu_` prefixes are reserved for generated shader
/// symbols: no module that either dialect accepts declares such a name, not
/// as a function, a parameter bound to a plain name, a struct or a struct
/// field.
pub proof fn lemma_reserved_names_refused(d: Dialect, m: ItemMod)
    requires
        module_check(d, m) is Ok,
    ensures
        forall|i: int|
            0 <= i < m.content->0@.len() ==> names_unreserved(#[trigger] m.content->0@[i]),
{
    let items = m.content->0@;
    lemma_items_names(
        d,
        items,
        items.len() as int,
        helper_names(items, items.len() as int),
        if d == Dialect::Gust {
            result_helper_names(items, items.len() as int)
        } else {
            seq![]
        },
    );
}

} // verus!
