use gust::compat;
use gust::descriptor::{Access, ParameterKind};
use gust::expand::expand;
use gust::dialect::{KernelAttributeError, kernel_options};
use gust::rejection::Rejection;
use gust::subset::{loop_variable, range_bounds, validate_module};
use gust::syntax::{
    Arm, AttrArgs, Attribute, BinOp, Block, Expr, Field, FieldValue, Fields, FnArg, GenericArg,
    Item, ItemFn, ItemMod, ItemStruct, Lit, Local, Member, MetaItem, Pat, Path, PathSegment,
    Signature, Stmt, Ty, UnOp,
};

fn text(s: &str) -> String {
    s.to_string()
}

fn path(segments: &[&str]) -> Path {
    Path {
        leading_colon: false,
        segments: segments
            .iter()
            .map(|s| PathSegment { ident: text(s), args: vec![] })
            .collect(),
    }
}

fn ty(name: &str) -> Ty {
    Ty::Path(path(&[name]))
}

fn generic(name: &str, arg: Ty) -> Ty {
    Ty::Path(Path {
        leading_colon: false,
        segments: vec![PathSegment { ident: text(name), args: vec![GenericArg::Type(arg)] }],
    })
}

fn boxed(e: Expr) -> Box<Expr> {
    Box::new(e)
}

fn var(name: &str) -> Expr {
    Expr::Path(path(&[name]))
}

fn int_lit(digits: &str, suffix: &str) -> Expr {
    Expr::Lit(Lit::Int { digits: text(digits), suffix: text(suffix) })
}

fn u32_lit(digits: &str) -> Expr {
    int_lit(digits, "u32")
}

fn float(t: &str) -> Expr {
    Expr::Lit(Lit::Float(text(t)))
}

fn field(base: Expr, name: &str) -> Expr {
    Expr::Field(boxed(base), Member::Named(text(name)))
}

fn method(receiver: Expr, name: &str, args: Vec<Expr>) -> Expr {
    Expr::MethodCall { receiver: boxed(receiver), method: text(name), turbofish: false, args }
}

fn call(name: &str, args: Vec<Expr>) -> Expr {
    Expr::Call(boxed(var(name)), args)
}

fn index(base: &str, i: Expr) -> Expr {
    Expr::Index(boxed(var(base)), boxed(i))
}

fn bin(op: BinOp, l: Expr, r: Expr) -> Expr {
    Expr::Binary(op, boxed(l), boxed(r))
}

fn assign(l: Expr, r: Expr) -> Expr {
    Expr::Assign(boxed(l), boxed(r))
}

fn id_x() -> Expr {
    field(var("id"), "x")
}

fn ident_pat(name: &str) -> Pat {
    Pat::Ident { by_ref: false, mutable: false, name: text(name), at_binding: false }
}

fn mut_pat(name: &str) -> Pat {
    Pat::Ident { by_ref: false, mutable: true, name: text(name), at_binding: false }
}

fn let_stmt(pat: Pat, init: Expr) -> Stmt {
    Stmt::Local(Local { attrs: vec![], pat, init: Some(boxed(init)), diverge: None })
}

fn let_var(name: &str, init: Expr) -> Stmt {
    let_stmt(ident_pat(name), init)
}

fn let_typed(name: &str, t: Ty, init: Expr) -> Stmt {
    let_stmt(Pat::Typed(Box::new(ident_pat(name)), t), init)
}

fn stmt(e: Expr) -> Stmt {
    Stmt::Expr(e, true)
}

fn block(stmts: Vec<Stmt>) -> Block {
    Block { stmts }
}

fn if_stmt(cond: Expr, then_branch: Vec<Stmt>) -> Stmt {
    Stmt::Expr(Expr::If { cond: boxed(cond), then_branch: block(then_branch), else_branch: None }, false)
}

fn for_range(pat: Pat, start: Expr, end: Expr, body: Vec<Stmt>) -> Stmt {
    Stmt::Expr(
        Expr::ForLoop {
            label: None,
            pat,
            iterable: boxed(Expr::Range { start: Some(boxed(start)), end: Some(boxed(end)), closed: false }),
            body: block(body),
        },
        false,
    )
}

fn word(name: &str) -> Attribute {
    Attribute { path: path(&[name]), args: AttrArgs::Word }
}

fn list_attr(name: &str, items: Vec<MetaItem>) -> Attribute {
    Attribute { path: path(&[name]), args: AttrArgs::List(items) }
}

fn meta(name: &str) -> MetaItem {
    MetaItem { path: path(&[name]), values: None }
}

fn workgroup(x: &str, y: &str, z: &str) -> MetaItem {
    let lit = |d: &str| Lit::Int { digits: text(d), suffix: text("") };
    MetaItem { path: path(&["workgroup_size"]), values: Some(vec![lit(x), lit(y), lit(z)]) }
}

fn tokens(t: &Ty) -> String {
    match t {
        Ty::Path(p) => {
            let segments: Vec<String> = p
                .segments
                .iter()
                .map(|s| {
                    if s.args.is_empty() {
                        s.ident.clone()
                    } else {
                        let args: Vec<String> = s
                            .args
                            .iter()
                            .map(|a| match a {
                                GenericArg::Type(t) => tokens(t),
                                GenericArg::Other => text("'a"),
                            })
                            .collect();
                        format!("{} < {} >", s.ident, args.join(" , "))
                    }
                })
                .collect();
            let joined = segments.join(" :: ");
            if p.leading_colon { format!(":: {joined}") } else { joined }
        }
        Ty::Tuple(items) => format!("({})", items.iter().map(tokens).collect::<Vec<_>>().join(" , ")),
        Ty::Reference(inner) => format!("& {}", tokens(inner)),
        Ty::Ptr(inner) => format!("* const {}", tokens(inner)),
        Ty::Slice(inner) => format!("[{}]", tokens(inner)),
        Ty::Infer => text("_"),
    }
}

fn typed(pat: Pat, t: Ty) -> FnArg {
    let written = tokens(&t);
    FnArg::Typed(vec![], pat, t, written)
}

fn param(name: &str, t: Ty) -> FnArg {
    typed(ident_pat(name), t)
}

fn id_param() -> FnArg {
    param("id", ty("SV_DispatchThreadID"))
}

fn rw(name: &str, element: &str) -> FnArg {
    typed(mut_pat(name), generic("RWStructuredBuffer", ty(element)))
}

fn function(attrs: Vec<Attribute>, name: &str, inputs: Vec<FnArg>, output: Option<Ty>, body: Vec<Stmt>) -> ItemFn {
    ItemFn {
        attrs,
        sig: Signature {
            is_async: false,
            is_unsafe: false,
            is_extern: false,
            name: text(name),
            generic_params: 0,
            inputs,
            output,
        },
        body: block(body),
    }
}

fn kernel(name: &str, inputs: Vec<FnArg>, body: Vec<Stmt>) -> Item {
    Item::Fn(function(vec![word("kernel")], name, inputs, None, body))
}

fn run(inputs: Vec<FnArg>, body: Vec<Stmt>) -> Item {
    kernel("run", inputs, body)
}

fn helper(name: &str, inputs: Vec<FnArg>, output: Option<Ty>, body: Vec<Stmt>) -> Item {
    Item::Fn(function(vec![], name, inputs, output, body))
}

fn plain_struct(name: &str, attrs: Vec<Attribute>, fields: Vec<(&str, Ty)>) -> Item {
    Item::Struct(ItemStruct {
        attrs,
        name: text(name),
        generic: false,
        fields: Fields::Named(
            fields
                .into_iter()
                .map(|(n, t)| Field { attrs: vec![], name: Some(text(n)), ty: t })
                .collect(),
        ),
    })
}

fn module(items: Vec<Item>) -> ItemMod {
    ItemMod { attrs: vec![], name: text("m"), content: Some(items) }
}

fn first(r: Result<(), Vec<Rejection>>) -> String {
    match r {
        Ok(()) => panic!("expected a rejection"),
        Err(v) => v[0].message(),
    }
}

fn gust_message(items: Vec<Item>) -> String {
    first(validate_module(&module(items)))
}

fn compat_message(items: Vec<Item>) -> String {
    first(compat::validate_module(&module(items)))
}

fn run_body(body: Vec<Stmt>) -> Vec<Item> {
    vec![run(vec![id_param()], body)]
}

fn vector_add() -> ItemMod {
    module(vec![kernel(
        "add",
        vec![
            param("ctx", ty("Invocation")),
            param("a", generic("Storage", ty("f32"))),
            param("b", generic("Storage", ty("f32"))),
            typed(mut_pat("out"), generic("StorageMut", ty("f32"))),
        ],
        vec![
            let_var("i", field(method(var("ctx"), "global_id", vec![]), "x")),
            if_stmt(
                bin(BinOp::Lt, var("i"), method(var("out"), "len", vec![])),
                vec![stmt(assign(
                    index("out", var("i")),
                    bin(BinOp::Add, index("a", var("i")), index("b", var("i"))),
                ))],
            ),
        ],
    )])
}

fn cpu_allocation() -> ItemMod {
    module(vec![kernel(
        "bad",
        vec![param("ctx", ty("Invocation"))],
        vec![let_var("values", Expr::Call(boxed(Expr::Path(path(&["Vec", "new"]))), vec![]))],
    )])
}

fn struct_checks(check: fn(&ItemMod) -> Result<(), Vec<Rejection>>) {
    let empty = module(vec![plain_struct("Empty", vec![], vec![])]);
    assert!(first(check(&empty)).contains("at least one field"));
    let represented = module(vec![plain_struct(
        "Params",
        vec![list_attr("repr", vec![meta("C")])],
        vec![("value", ty("f32"))],
    )]);
    assert!(first(check(&represented)).contains("receive repr(C)"));
    let copied = module(vec![plain_struct(
        "Params",
        vec![list_attr("derive", vec![meta("Debug"), meta("Copy")])],
        vec![("value", ty("f32"))],
    )]);
    assert!(first(check(&copied)).contains("receive Clone and Copy"));
}

fn non_abi_derives() -> ItemMod {
    module(vec![plain_struct(
        "Params",
        vec![list_attr("derive", vec![meta("Debug"), meta("PartialEq")])],
        vec![("scale", ty("f32")), ("bias", ty("f32"))],
    )])
}

#[test]
fn mod_rejects_cpu_allocation() {
    let error = first(validate_module(&cpu_allocation()));
    assert!(error.contains("CPU-only"));
}

#[test]
fn mod_accepts_vector_add_subset() {
    assert!(validate_module(&vector_add()).is_ok());
}

#[test]
fn mod_rejects_empty_or_manually_represented_gpu_structs() {
    struct_checks(validate_module);
}

#[test]
fn mod_accepts_non_abi_derives_on_gpu_structs() {
    assert!(validate_module(&non_abi_derives()).is_ok());
}

#[test]
fn validate_rejects_cpu_allocation() {
    let error = first(compat::validate_module(&cpu_allocation()));
    assert!(error.contains("CPU-only"));
}

#[test]
fn validate_accepts_vector_add_subset() {
    assert!(compat::validate_module(&vector_add()).is_ok());
}

#[test]
fn validate_rejects_empty_or_manually_represented_gpu_structs() {
    struct_checks(compat::validate_module);
}

#[test]
fn validate_accepts_non_abi_derives_on_gpu_structs() {
    assert!(compat::validate_module(&non_abi_derives()).is_ok());
}

fn reserved_prefix_modules() -> Vec<Vec<Item>> {
    vec![
        vec![run(vec![param("__gpu_len_out", ty("SV_DispatchThreadID"))], vec![])],
        vec![
            helper("__gust_not", vec![param("x", ty("uint"))], Some(ty("uint")), vec![stmt(var("x"))]),
            run(vec![id_param()], vec![]),
        ],
    ]
}

#[test]
fn regression_generated_symbol_prefixes_are_reserved() {
    for items in reserved_prefix_modules() {
        assert!(gust_message(items).contains("reserved"));
    }
}

#[test]
fn regression_tests_generated_symbol_prefixes_are_reserved() {
    for items in reserved_prefix_modules() {
        assert!(compat_message(items).contains("reserved"));
    }
}

fn invalid_kernel_contracts() -> Vec<(Vec<Item>, &'static str)> {
    vec![
        (
            vec![run(vec![param("a", ty("SV_DispatchThreadID")), param("b", ty("SV_DispatchThreadID"))], vec![])],
            "exactly one",
        ),
        (vec![run(vec![], vec![])], "exactly one"),
        (
            vec![Item::Fn(function(
                vec![word("kernel")],
                "run",
                vec![id_param()],
                Some(ty("uint")),
                vec![stmt(u32_lit("1"))],
            ))],
            "return unit",
        ),
        (
            vec![Item::Fn(function(
                vec![list_attr("kernel", vec![workgroup("0", "1", "1")])],
                "run",
                vec![id_param()],
                None,
                vec![],
            ))],
            "nonzero",
        ),
        (
            vec![Item::Fn(function(vec![word("kernel"), word("kernel")], "run", vec![id_param()], None, vec![]))],
            "duplicate",
        ),
        (
            vec![Item::Fn(function(
                vec![list_attr("kernel", vec![workgroup("64", "1", "1"), workgroup("32", "1", "1")])],
                "run",
                vec![id_param()],
                None,
                vec![],
            ))],
            "duplicate",
        ),
    ]
}

#[test]
fn regression_invalid_kernel_contracts_are_rejected_early() {
    for (items, message) in invalid_kernel_contracts() {
        let error = gust_message(items);
        assert!(error.contains(message), "{error}");
    }
}

#[test]
fn regression_tests_invalid_kernel_contracts_are_rejected_early() {
    for (items, message) in invalid_kernel_contracts() {
        let error = expand(&module(items)).unwrap_err().message();
        assert!(error.contains(message), "{error}");
    }
}

fn unsupported_attributes_and_receivers() -> Vec<(Vec<Item>, &'static str)> {
    vec![
        (
            vec![run(
                vec![id_param(), param("out", generic("RWStructuredBuffer", ty("uint")))],
                vec![let_var("out", u32_lit("1")), let_var("n", method(var("out"), "len", vec![]))],
            )],
            "cannot shadow",
        ),
        (
            run_body(vec![Stmt::Local(Local {
                attrs: vec![list_attr("cfg", vec![meta("any")])],
                pat: ident_pat("ignored"),
                init: Some(boxed(u32_lit("1"))),
                diverge: None,
            })]),
            "attribute",
        ),
        (run_body(vec![let_var("n", method(var("id"), "len", vec![]))]), "storage parameter"),
        (
            vec![run(
                vec![id_param(), param("out", generic("RWStructuredBuffer", ty("uint")))],
                vec![let_var("n", method(var("out"), "len", vec![u32_lit("1")]))],
            )],
            "arguments",
        ),
        (
            vec![
                helper(
                    "helper",
                    vec![param("b", generic("StructuredBuffer", ty("uint")))],
                    Some(ty("uint")),
                    vec![stmt(method(var("b"), "len", vec![]))],
                ),
                run(vec![id_param()], vec![]),
            ],
            "value parameters",
        ),
        (
            vec![
                Item::Struct(ItemStruct {
                    attrs: vec![],
                    name: text("Generic"),
                    generic: true,
                    fields: Fields::Named(vec![Field { attrs: vec![], name: Some(text("field")), ty: ty("T") }]),
                }),
                run(vec![id_param()], vec![]),
            ],
            "generic GPU structs",
        ),
    ]
}

#[test]
fn regression_unsupported_attributes_and_builtin_receivers_are_diagnosed() {
    for (items, message) in unsupported_attributes_and_receivers() {
        let error = gust_message(items);
        assert!(error.contains(message), "{error}");
    }
}

#[test]
fn regression_tests_unsupported_attributes_and_builtin_receivers_are_diagnosed() {
    for (items, message) in unsupported_attributes_and_receivers() {
        let error = compat_message(items);
        assert!(error.contains(message), "{error}");
    }
}

fn binding_mode_cases() -> Vec<(Vec<Item>, &'static str)> {
    vec![
        (run_body(vec![let_stmt(Pat::Typed(Box::new(by_ref_named("x")), ty("uint")), u32_lit("1"))]), "binding modes"),
        (run_body(vec![let_typed("id", ty("uint"), u32_lit("1"))]), "cannot shadow"),
        (
            vec![run(vec![typed(by_ref_named("id"), ty("SV_DispatchThreadID"))], vec![])],
            "binding modes",
        ),
    ]
}

fn by_ref_named(name: &str) -> Pat {
    Pat::Ident { by_ref: true, mutable: false, name: text(name), at_binding: false }
}

#[test]
fn regression_binding_modes_and_typed_resource_shadowing_fail_explicitly() {
    for (items, message) in binding_mode_cases() {
        let error = gust_message(items);
        assert!(error.contains(message), "{error}");
    }
}

#[test]
fn regression_tests_binding_modes_and_typed_resource_shadowing_fail_explicitly() {
    for (items, message) in binding_mode_cases() {
        let error = compat_message(items);
        assert!(error.contains(message), "{error}");
    }
}

fn division_by_zero_cases() -> Vec<Vec<Item>> {
    let divide = |element: &str, op: BinOp, divisor: Expr| {
        vec![run(
            vec![id_param(), rw("out", element)],
            vec![stmt(assign(index("out", id_x()), bin(op, index("out", id_x()), divisor)))],
        )]
    };
    vec![
        divide("uint", BinOp::Div, u32_lit("0")),
        divide("int", BinOp::Rem, int_lit("0", "")),
        divide("uint", BinOp::Div, Expr::Unary(UnOp::Neg, boxed(u32_lit("0")))),
    ]
}

fn float_division() -> ItemMod {
    module(vec![run(
        vec![id_param(), rw("out", "float")],
        vec![stmt(assign(index("out", id_x()), bin(BinOp::Div, index("out", id_x()), float("0.0"))))],
    )])
}

#[test]
fn regression_integer_division_by_literal_zero_is_diagnosed() {
    for items in division_by_zero_cases() {
        assert!(gust_message(items).contains("literal zero"));
    }
    assert!(validate_module(&float_division()).is_ok());
}

#[test]
fn regression_tests_integer_division_by_literal_zero_is_diagnosed() {
    for items in division_by_zero_cases() {
        assert!(compat_message(items).contains("literal zero"));
    }
    assert!(compat::validate_module(&float_division()).is_ok());
}

fn for_stmt(label: Option<&str>, pat: Pat, iterable: Expr, body: Vec<Stmt>) -> Stmt {
    Stmt::Expr(
        Expr::ForLoop { label: label.map(text), pat, iterable: boxed(iterable), body: block(body) },
        false,
    )
}

fn range(start: Option<Expr>, end: Option<Expr>, closed: bool) -> Expr {
    Expr::Range { start: start.map(boxed), end: end.map(boxed), closed }
}

#[test]
fn unbounded_or_unproven_loop_forms_are_rejected() {
    let cases: Vec<(Vec<Item>, &str)> = vec![
        (run_body(vec![let_stmt(mut_pat("i"), u32_lit("0")), stmt(Expr::While)]), "`while`"),
        (run_body(vec![Stmt::Expr(Expr::Loop, false)]), "`loop`"),
        (
            run_body(vec![for_stmt(None, ident_pat("i"), range(Some(u32_lit("0")), Some(u32_lit("4")), true), vec![])]),
            "inclusive",
        ),
        (run_body(vec![for_stmt(None, ident_pat("i"), range(Some(u32_lit("0")), None, false), vec![])]), "both bounds"),
        (run_body(vec![for_stmt(None, ident_pat("i"), range(None, Some(u32_lit("4")), false), vec![])]), "both bounds"),
        (
            vec![run(
                vec![id_param(), param("input", generic("StructuredBuffer", ty("uint")))],
                vec![for_stmt(None, ident_pat("v"), var("input"), vec![])],
            )],
            "exclusive integer range",
        ),
        (
            run_body(vec![for_stmt(
                None,
                Pat::Tuple(vec![ident_pat("a"), ident_pat("b")]),
                range(Some(u32_lit("0")), Some(u32_lit("4")), false),
                vec![],
            )]),
            "single identifier",
        ),
        (
            run_body(vec![for_range(mut_pat("i"), u32_lit("0"), u32_lit("4"), vec![stmt(assign(
                var("i"),
                bin(BinOp::Add, var("i"), u32_lit("1")),
            ))])]),
            "immutable",
        ),
        (
            run_body(vec![for_stmt(
                Some("outer"),
                ident_pat("i"),
                range(Some(u32_lit("0")), Some(u32_lit("4")), false),
                vec![stmt(Expr::Break { label: Some(text("outer")), value: None })],
            )]),
            "labels",
        ),
        (
            run_body(vec![for_range(
                ident_pat("i"),
                u32_lit("0"),
                u32_lit("4"),
                vec![stmt(Expr::Break { label: Some(text("x")), value: None })],
            )]),
            "labels",
        ),
        (
            run_body(vec![if_stmt(
                bin(BinOp::Gt, id_x(), u32_lit("1")),
                vec![stmt(Expr::Break { label: None, value: None })],
            )]),
            "outside a loop",
        ),
        (run_body(vec![stmt(Expr::Continue { label: None })]), "outside a loop"),
        (run_body(vec![let_var("r", range(Some(u32_lit("0")), Some(u32_lit("4")), false))]), "only as the iterable"),
        (run_body(vec![for_range(ident_pat("i"), int_lit("0", ""), u32_lit("4"), vec![])]), "suffix"),
        (
            run_body(vec![for_range(
                ident_pat("i"),
                u32_lit("0"),
                Expr::Paren(boxed(Expr::Unary(UnOp::Neg, boxed(int_lit("4", ""))))),
                vec![],
            )]),
            "suffix",
        ),
        (
            vec![run(
                vec![id_param(), param("out", generic("RWStructuredBuffer", ty("uint")))],
                vec![for_range(ident_pat("out"), u32_lit("0"), u32_lit("4"), vec![])],
            )],
            "cannot shadow",
        ),
        (
            run_body(vec![for_range(
                ident_pat("i"),
                u32_lit("0"),
                u32_lit("4"),
                vec![let_var("v", Expr::Break { label: None, value: None })],
            )]),
            "statement",
        ),
    ];
    for (items, message) in cases {
        let error = gust_message(items);
        assert!(error.contains(message), "{error}");
    }
}

fn some_pat(inner: Pat) -> Pat {
    Pat::TupleStruct(path(&["Some"]), vec![inner])
}

fn if_let(pat: Pat, scrutinee: Expr) -> Stmt {
    Stmt::Expr(
        Expr::If {
            cond: boxed(Expr::Let(pat, boxed(scrutinee))),
            then_branch: block(vec![]),
            else_branch: None,
        },
        false,
    )
}

fn option_local() -> Stmt {
    let_typed("o", generic("Option", ty("uint")), call("Some", vec![u32_lit("1")]))
}

#[test]
fn option_unsafe_forms_are_rejected() {
    let cases: Vec<(Vec<Item>, &str)> = vec![
        (run_body(vec![option_local(), let_var("v", method(var("o"), "unwrap", vec![]))]), "panics"),
        (
            run_body(vec![option_local(), let_var("v", method(var("o"), "expect", vec![Expr::Lit(Lit::Str(text("x")))]))]),
            "panics",
        ),
        (
            vec![plain_struct("Holder", vec![], vec![("slot", generic("Option", ty("uint")))]), run(vec![id_param()], vec![])],
            "struct fields",
        ),
        (
            vec![run(vec![id_param(), param("out", generic("RWStructuredBuffer", generic("Option", ty("uint"))))], vec![])],
            "resource element",
        ),
        (
            run_body(vec![let_typed("o", generic("Option", generic("Option", ty("uint"))), var("None"))]),
            "payload",
        ),
        (run_body(vec![option_local(), if_let(some_pat(Pat::Wild), var("o"))]), "`Some(identifier)`"),
        (run_body(vec![option_local(), if_let(ident_pat("None"), var("o"))]), "`Some(identifier)`"),
        (
            run_body(vec![
                option_local(),
                Stmt::Expr(
                    Expr::If {
                        cond: boxed(bin(
                            BinOp::And,
                            Expr::Let(some_pat(ident_pat("v")), boxed(var("o"))),
                            bin(BinOp::Gt, var("v"), u32_lit("0")),
                        )),
                        then_branch: block(vec![]),
                        else_branch: None,
                    },
                    false,
                ),
            ]),
            "`if let`",
        ),
        (
            vec![run(
                vec![id_param(), param("out", generic("RWStructuredBuffer", ty("uint")))],
                vec![option_local(), if_let(some_pat(ident_pat("out")), var("o"))],
            )],
            "cannot shadow",
        ),
        (
            run_body(vec![let_typed("o", generic("Option", ty("uint")), call("Some", vec![u32_lit("1"), u32_lit("2")]))]),
            "one argument",
        ),
        (
            run_body(vec![option_local(), let_var("v", method(var("o"), "unwrap_or", vec![u32_lit("1"), u32_lit("2")]))]),
            "one argument",
        ),
    ];
    for (items, message) in cases {
        let error = gust_message(items);
        assert!(error.contains(message), "{error}");
    }
}

fn pair_struct() -> Item {
    plain_struct("Pair", vec![], vec![("first", ty("uint")), ("second", ty("uint"))])
}

fn pair_literal(rest: bool) -> Expr {
    Expr::Struct {
        path: path(&["Pair"]),
        fields: vec![FieldValue { member: Member::Named(text("first")), expr: u32_lit("9") }],
        rest,
    }
}

#[test]
fn struct_update_syntax_is_rejected_instead_of_dropping_fields() {
    for last in [let_var("q", pair_literal(true)), stmt(assign(var("p"), pair_literal(true)))] {
        let items = vec![
            pair_struct(),
            run(
                vec![id_param()],
                vec![
                    let_stmt(
                        mut_pat("p"),
                        Expr::Struct {
                            path: path(&["Pair"]),
                            fields: vec![
                                FieldValue { member: Member::Named(text("first")), expr: u32_lit("1") },
                                FieldValue { member: Member::Named(text("second")), expr: u32_lit("2") },
                            ],
                            rest: false,
                        },
                    ),
                    last,
                ],
            ),
        ];
        let error = gust_message(items);
        assert!(error.contains("struct update"), "{error}");
    }
}

#[test]
fn casts_to_unproven_targets_are_rejected() {
    let targets = vec![
        ty("f64"),
        ty("u64"),
        ty("i64"),
        ty("usize"),
        ty("isize"),
        ty("u8"),
        ty("u16"),
        ty("i8"),
        ty("i16"),
        ty("bool"),
        ty("char"),
        ty("double"),
        ty("Pair"),
        Ty::Infer,
        Ty::Ptr(Box::new(ty("uint"))),
        Ty::Path(path(&["gpu_dialect", "uint"])),
    ];
    for target in targets {
        let items = vec![pair_struct(), run(vec![id_param()], vec![let_var("v", Expr::Cast(boxed(id_x()), target))])];
        let error = gust_message(items);
        assert!(error.contains("cast"), "{error}");
    }
    for target in ["f32", "float", "i32", "int", "u32", "uint"] {
        let m = module(run_body(vec![let_var("v", Expr::Cast(boxed(id_x()), ty(target)))]));
        assert!(validate_module(&m).is_ok());
    }
}

#[test]
fn non_32_bit_primitive_types_are_rejected_before_slang() {
    let cases: Vec<(Vec<Item>, &str)> = vec![
        (run_body(vec![let_typed("v", ty("f64"), float("1.0"))]), "f64"),
        (
            vec![helper("helper", vec![param("x", ty("u64"))], Some(ty("uint")), vec![stmt(u32_lit("1"))]), run(vec![id_param()], vec![])],
            "u64",
        ),
        (
            vec![helper("helper", vec![param("x", ty("uint"))], Some(ty("usize")), vec![stmt(int_lit("1", ""))]), run(vec![id_param()], vec![])],
            "usize",
        ),
        (vec![plain_struct("Wide", vec![], vec![("value", ty("f64"))]), run(vec![id_param()], vec![])], "f64"),
        (vec![run(vec![id_param(), rw("out", "i64")], vec![])], "i64"),
        (run_body(vec![let_typed("c", ty("char"), Expr::Lit(Lit::Str(text("a"))))]), "char"),
    ];
    for (items, name) in cases {
        let message = gust_message(items);
        assert!(message.contains("not a supported GPU type") && message.contains(name), "{message}");
    }
    let ok = module(vec![
        plain_struct(
            "Mixed",
            vec![],
            vec![
                ("a", ty("float")),
                ("b", ty("int")),
                ("c", ty("uint")),
                ("d", ty("bool")),
                ("e", ty("f32")),
                ("f", ty("i32")),
                ("g", ty("u32")),
            ],
        ),
        run(vec![id_param()], vec![let_typed("flag", ty("bool"), Expr::Lit(Lit::Bool(true)))]),
    ]);
    assert!(validate_module(&ok).is_ok());
}

#[test]
fn const_blocks_are_rejected() {
    let cases = vec![
        run_body(vec![let_var("v", Expr::Const)]),
        vec![run(
            vec![id_param(), rw("out", "uint")],
            vec![stmt(assign(index("out", id_x()), bin(BinOp::Add, Expr::Const, u32_lit("1"))))],
        )],
        vec![helper("helper", vec![], Some(ty("uint")), vec![Stmt::Expr(Expr::Const, false)]), run(vec![id_param()], vec![])],
    ];
    for items in cases {
        let error = gust_message(items);
        assert!(error.contains("const blocks"), "{error}");
    }
}

#[test]
fn unsupported_name_paths_are_rejected() {
    let cases: Vec<(Vec<Item>, &str)> = vec![
        (run_body(vec![let_var("v", Expr::Path(path(&["f32", "INFINITY"])))]), "associated constants"),
        (run_body(vec![let_var("v", Expr::Path(path(&["u32", "MAX"])))]), "associated constants"),
        (run_body(vec![let_var("v", Expr::Path(path(&["core", "f32", "consts", "PI"])))]), "associated constants"),
        (run_body(vec![let_typed("v", Ty::Path(path(&["core", "f32"])), float("1.0"))]), "CPU-only"),
    ];
    for (items, message) in cases {
        let error = gust_message(items);
        assert!(error.contains(message), "{error}");
    }
}

#[test]
fn unsupported_effects_are_rejected() {
    let cases: Vec<(Vec<Item>, &str)> = vec![
        (
            vec![
                helper("maybe", vec![], Some(generic("Option", ty("uint"))), vec![stmt(u32_lit("1"))]),
                run(vec![id_param()], vec![let_var("v", Expr::Try)]),
            ],
            "`?` operator",
        ),
        (run_body(vec![Stmt::Expr(Expr::Unsafe, false)]), "unsafe blocks"),
    ];
    for (items, message) in cases {
        let error = gust_message(items);
        assert!(error.contains(message), "{error}");
    }
}

#[test]
fn kernel_options_default_and_explicit_sizes() {
    let plain = function(vec![word("kernel")], "run", vec![id_param()], None, vec![]);
    assert_eq!(kernel_options(&plain).unwrap().unwrap().workgroup_size, [64, 1, 1]);
    let sized = function(vec![list_attr("kernel", vec![workgroup("8", "4", "2")])], "run", vec![id_param()], None, vec![]);
    assert_eq!(kernel_options(&sized).unwrap().unwrap().workgroup_size, [8, 4, 2]);
    let helper_fn = function(vec![], "f", vec![], None, vec![]);
    assert!(kernel_options(&helper_fn).unwrap().is_none());
    let huge = function(
        vec![list_attr("kernel", vec![workgroup("4294967296", "1", "1")])],
        "run",
        vec![id_param()],
        None,
        vec![],
    );
    assert_eq!(kernel_options(&huge).unwrap_err(), KernelAttributeError::DimensionTooLarge);
    let unknown = function(vec![list_attr("kernel", vec![meta("threads")])], "run", vec![id_param()], None, vec![]);
    assert_eq!(kernel_options(&unknown).unwrap_err(), KernelAttributeError::UnknownOption);
}

#[test]
fn result_match_statement_is_accepted_only_on_known_results() {
    let arm = |ctor: &str, name: &str| Arm {
        attrs: vec![],
        pat: Pat::TupleStruct(path(&[ctor]), vec![ident_pat(name)]),
        guard: None,
        body: boxed(Expr::Block(block(vec![]))),
    };
    let matched = |scrutinee: Expr, semicolon: bool| {
        Stmt::Expr(Expr::Match(boxed(scrutinee), vec![arm("Ok", "v"), arm("Err", "e")]), semicolon)
    };
    let result_ty = Ty::Path(Path {
        leading_colon: false,
        segments: vec![PathSegment {
            ident: text("Result"),
            args: vec![GenericArg::Type(ty("uint")), GenericArg::Type(ty("uint"))],
        }],
    });
    let known = module(run_body(vec![
        let_typed("r", result_ty, call("Ok", vec![u32_lit("1")])),
        matched(var("r"), true),
    ]));
    assert!(validate_module(&known).is_ok());
    let unknown = module(run_body(vec![let_var("r", u32_lit("1")), matched(var("r"), true)]));
    assert!(first(validate_module(&unknown)).contains("known `Result<T, T>`"));
    let no_semicolon = module(run_body(vec![matched(var("r"), false)]));
    assert!(first(validate_module(&no_semicolon)).contains("terminate it with `;`"));
    let compat_match = module(run_body(vec![matched(var("r"), true)]));
    assert!(first(compat::validate_module(&compat_match)).contains("match is not supported"));
}

#[test]
fn atomics_need_a_read_write_integer_buffer_element() {
    let atomic = |op: &str, element: &str, mutable: bool| {
        module(vec![run(
            vec![id_param(), rw("counts", element)],
            vec![stmt(call(
                op,
                vec![Expr::Reference { mutable, expr: boxed(index("counts", id_x())) }, u32_lit("1")],
            ))],
        )])
    };
    assert!(validate_module(&atomic("atomic_add", "uint", true)).is_ok());
    assert!(validate_module(&atomic("atomic_add", "int", true)).is_ok());
    assert!(first(validate_module(&atomic("atomic_min", "int", true))).contains("unsigned element"));
    assert!(first(validate_module(&atomic("atomic_add", "float", true))).contains("`atomic_add` requires a `u32`/`uint` or `i32`/`int` element"));
    assert!(first(validate_module(&atomic("atomic_add", "uint", false))).contains("requires a mutable reference"));
    let direct_read = module(vec![run(
        vec![id_param(), rw("counts", "uint")],
        vec![
            stmt(call("atomic_add", vec![Expr::Reference { mutable: true, expr: boxed(index("counts", id_x())) }, u32_lit("1")])),
            let_var("v", index("counts", id_x())),
        ],
    )]);
    assert!(first(validate_module(&direct_read)).contains("cannot be read or written directly"));
    let as_value = module(run_body(vec![let_var("v", call("atomic_add", vec![]))]));
    assert!(first(validate_module(&as_value)).contains("only as a statement"));
    let arity = module(vec![run(
        vec![id_param(), rw("counts", "uint")],
        vec![stmt(call("atomic_compare_exchange", vec![Expr::Reference { mutable: true, expr: boxed(index("counts", id_x())) }, u32_lit("1")]))],
    )]);
    assert_eq!(first(validate_module(&arity)), "`atomic_compare_exchange` takes exactly 3 arguments");
}

#[test]
fn rejections_are_collected_in_source_order() {
    let items = run_body(vec![let_var("a", Expr::Try), let_var("b", Expr::Unsafe), let_var("c", Expr::Macro)]);
    let errors = validate_module(&module(items)).unwrap_err();
    assert_eq!(errors.len(), 3);
    assert!(errors[0].message().contains("`?` operator"));
    assert!(errors[1].message().contains("unsafe blocks"));
    assert!(errors[2].message().contains("macros"));
}

#[test]
fn module_shape_is_checked_before_items() {
    let outline = ItemMod { attrs: vec![], name: text("m"), content: None };
    assert!(first(validate_module(&outline)).contains("inline module"));
    assert!(gust_message(vec![Item::Other]).contains("only functions and plain structs"));
}

#[test]
fn loop_helpers_report_their_refusals() {
    assert!(loop_variable(&Pat::Wild).unwrap().is_none());
    assert!(loop_variable(&ident_pat("i")).unwrap().is_some());
    assert!(loop_variable(&mut_pat("i")).unwrap_err().message().contains("immutable"));
    let closed = range(Some(u32_lit("0")), Some(u32_lit("4")), true);
    assert!(range_bounds(&closed).unwrap_err().message().contains("inclusive"));
    assert!(range_bounds(&range(Some(u32_lit("0")), Some(u32_lit("4")), false)).is_ok());
}

#[test]
fn expand_declares_entry_points_and_bindings() {
    let m = module(vec![
        helper("twice", vec![param("x", ty("float"))], Some(ty("float")), vec![stmt(bin(BinOp::Mul, var("x"), float("2.0")))]),
        Item::Fn(function(
            vec![list_attr("kernel", vec![workgroup("8", "8", "1")])],
            "add",
            vec![
                id_param(),
                param("a", generic("StructuredBuffer", ty("float"))),
                param("b", generic("StructuredBuffer", ty("float"))),
                param("scale", ty("float")),
                rw("out", "float"),
            ],
            None,
            vec![],
        )),
    ]);
    let plans = expand(&m).unwrap();
    assert_eq!(plans.len(), 1);
    let plan = &plans[0];
    assert_eq!(plan.entry_point, "gpu_m_add");
    assert_eq!(plan.module, "m");
    assert_eq!(plan.name, "add");
    assert_eq!(plan.workgroup_size, [8, 8, 1]);
    let kinds: Vec<(ParameterKind, Access, Option<u32>)> = plan
        .parameters
        .iter()
        .map(|p| (p.kind, p.access, p.binding.map(|b| b.binding)))
        .collect();
    assert_eq!(
        kinds,
        vec![
            (ParameterKind::Invocation, Access::NotApplicable, None),
            (ParameterKind::Storage, Access::ReadOnly, Some(0)),
            (ParameterKind::Storage, Access::ReadOnly, Some(1)),
            (ParameterKind::Value, Access::NotApplicable, None),
            (ParameterKind::Storage, Access::ReadWrite, Some(2)),
        ]
    );
    assert!(plan.parameters.iter().all(|p| p.binding.map_or(true, |b| b.group == 0)));
    assert_eq!(plan.parameters[4].element.as_deref(), Some("float"));
    assert_eq!(plan.parameters[3].name, "scale");
    let types: Vec<&str> = plan.parameters.iter().map(|p| p.rust_type.as_str()).collect();
    assert_eq!(
        types,
        vec![
            "SV_DispatchThreadID",
            "StructuredBuffer < float >",
            "StructuredBuffer < float >",
            "float",
            "RWStructuredBuffer < float >",
        ]
    );
}

#[test]
fn expand_refuses_modules_outside_the_subset() {
    let loops = module(run_body(vec![for_range(ident_pat("i"), u32_lit("0"), u32_lit("4"), vec![])]));
    let error = expand(&loops).unwrap_err();
    assert!(error.message().contains("for loops are not supported"));
    let unnamed = module(vec![run(vec![id_param(), typed(Pat::Wild, ty("float"))], vec![])]);
    assert!(expand(&unnamed).unwrap_err().message().contains("identifier names"));
}
