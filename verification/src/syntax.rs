//! The Rust syntax that a `#[gpu]` module is checked against: the part of a
//! parsed module that the subset rules read, held as plain values.
use vstd::prelude::*;
use crate::text::{chars_of, equals_at};

verus! {

/// A path such as `a::b::C<T>`.
#[derive(Debug)]
pub struct Path {
    pub leading_colon: bool,
    pub segments: Vec<PathSegment>,
}

/// One segment of a path and its angle-bracketed arguments (none when empty).
#[derive(Debug)]
pub struct PathSegment {
    pub ident: String,
    pub args: Vec<GenericArg>,
}

/// A generic argument: a type, or anything else (a lifetime, a constant).
#[derive(Debug)]
pub enum GenericArg {
    Type(Ty),
    Other,
}

/// A type.
#[derive(Debug)]
pub enum Ty {
    Path(Path),
    Tuple(Vec<Ty>),
    Reference(Box<Ty>),
    Ptr(Box<Ty>),
    Slice(Box<Ty>),
    Infer,
}

/// A pattern.
#[derive(Debug)]
pub enum Pat {
    Ident { by_ref: bool, mutable: bool, name: String, at_binding: bool },
    Typed(Box<Pat>, Ty),
    Wild,
    TupleStruct(Path, Vec<Pat>),
    Tuple(Vec<Pat>),
}

/// A literal; an integer literal keeps its base-10 digits and its suffix.
#[derive(Debug)]
pub enum Lit {
    Int { digits: String, suffix: String },
    Float(String),
    Bool(bool),
    Str(String),
}

/// A unary operator.
#[derive(Debug, Clone, Copy, PartialEq, Eq, Structural)]
pub enum UnOp {
    Neg,
    Not,
    Deref,
}

/// A binary operator, compound assignments included.
#[derive(Debug, Clone, Copy, PartialEq, Eq, Structural)]
pub enum BinOp {
    Add,
    Sub,
    Mul,
    Div,
    Rem,
    And,
    Or,
    BitAnd,
    BitOr,
    BitXor,
    Shl,
    Shr,
    Eq,
    Lt,
    Le,
    Ne,
    Ge,
    Gt,
    AddAssign,
    SubAssign,
    MulAssign,
    DivAssign,
    RemAssign,
}

/// The member named by a field access or a struct literal field.
#[derive(Debug)]
pub enum Member {
    Named(String),
    Unnamed(u32),
}

/// One `member: value` of a struct literal.
#[derive(Debug)]
pub struct FieldValue {
    pub member: Member,
    pub expr: Expr,
}

/// An expression. Forms that the subset rejects whole carry nothing.
#[derive(Debug)]
pub enum Expr {
    Lit(Lit),
    Path(Path),
    Unary(UnOp, Box<Expr>),
    Binary(BinOp, Box<Expr>, Box<Expr>),
    Paren(Box<Expr>),
    Group(Box<Expr>),
    Call(Box<Expr>, Vec<Expr>),
    MethodCall { receiver: Box<Expr>, method: String, turbofish: bool, args: Vec<Expr> },
    Field(Box<Expr>, Member),
    Index(Box<Expr>, Box<Expr>),
    Cast(Box<Expr>, Ty),
    Reference { mutable: bool, expr: Box<Expr> },
    Struct { path: Path, fields: Vec<FieldValue>, rest: bool },
    Assign(Box<Expr>, Box<Expr>),
    Block(Block),
    If { cond: Box<Expr>, then_branch: Block, else_branch: Option<Box<Expr>> },
    Let(Pat, Box<Expr>),
    ForLoop { label: Option<String>, pat: Pat, iterable: Box<Expr>, body: Block },
    Match(Box<Expr>, Vec<Arm>),
    Range { start: Option<Box<Expr>>, end: Option<Box<Expr>>, closed: bool },
    Break { label: Option<String>, value: Option<Box<Expr>> },
    Continue { label: Option<String> },
    Return(Option<Box<Expr>>),
    Tuple(Vec<Expr>),
    Array(Vec<Expr>),
    Const,
    Try,
    Unsafe,
    Macro,
    Closure,
    Loop,
    While,
    Await,
}

/// A match arm.
#[derive(Debug)]
pub struct Arm {
    pub attrs: Vec<Attribute>,
    pub pat: Pat,
    pub guard: Option<Box<Expr>>,
    pub body: Box<Expr>,
}

/// A `let` statement; `diverge` is the `else` block of a let-else.
#[derive(Debug)]
pub struct Local {
    pub attrs: Vec<Attribute>,
    pub pat: Pat,
    pub init: Option<Box<Expr>>,
    pub diverge: Option<Box<Expr>>,
}

/// A statement.
#[derive(Debug)]
pub enum Stmt {
    Local(Local),
    Expr(Expr, bool),
    Macro(Vec<Attribute>, Path),
}

/// A block of statements.
#[derive(Debug)]
pub struct Block {
    pub stmts: Vec<Stmt>,
}

/// An attribute: its path and its arguments.
#[derive(Debug)]
pub struct Attribute {
    pub path: Path,
    pub args: AttrArgs,
}

/// The arguments of an attribute.
#[derive(Debug)]
pub enum AttrArgs {
    Word,
    List(Vec<MetaItem>),
    NameValue,
}

/// One item of an attribute's list: a path with an optional parenthesized
/// list of literals, as in `workgroup_size(64, 1, 1)`.
#[derive(Debug)]
pub struct MetaItem {
    pub path: Path,
    pub values: Option<Vec<Lit>>,
}

/// A function parameter: `self`, or attributes, a pattern, a type, and the
/// type's source text as the parser that read the module prints its tokens.
#[derive(Debug)]
pub enum FnArg {
    Receiver,
    Typed(Vec<Attribute>, Pat, Ty, String),
}

/// A function's signature; `output` is `None` for the default unit return.
#[derive(Debug)]
pub struct Signature {
    pub is_async: bool,
    pub is_unsafe: bool,
    pub is_extern: bool,
    pub name: String,
    pub generic_params: usize,
    pub inputs: Vec<FnArg>,
    pub output: Option<Ty>,
}

/// A function item.
#[derive(Debug)]
pub struct ItemFn {
    pub attrs: Vec<Attribute>,
    pub sig: Signature,
    pub body: Block,
}

/// A struct field; unnamed fields have no name.
#[derive(Debug)]
pub struct Field {
    pub attrs: Vec<Attribute>,
    pub name: Option<String>,
    pub ty: Ty,
}

/// The fields of a struct.
#[derive(Debug)]
pub enum Fields {
    Named(Vec<Field>),
    Unnamed(Vec<Field>),
    Unit,
}

/// A struct item; `generic` says whether it has generic parameters or a
/// `where` clause.
#[derive(Debug)]
pub struct ItemStruct {
    pub attrs: Vec<Attribute>,
    pub name: String,
    pub generic: bool,
    pub fields: Fields,
}

/// An item of a module.
#[derive(Debug)]
pub enum Item {
    Fn(ItemFn),
    Struct(ItemStruct),
    Other,
}

/// A module; `content` is `None` for `mod name;`.
#[derive(Debug)]
pub struct ItemMod {
    pub attrs: Vec<Attribute>,
    pub name: String,
    pub content: Option<Vec<Item>>,
}

impl Path {
    /// The path's single identifier, when it is one bare name.
    pub open spec fn ident_view(&self) -> Option<Seq<char>> {
        if !self.leading_colon && self.segments@.len() == 1 && self.segments@[0].args@.len() == 0 {
            Some(self.segments@[0].ident@)
        } else {
            None
        }
    }

    /// The path's single identifier, when it is one bare name.
    pub fn get_ident(&self) -> (r: Option<&String>)
        ensures
            match r {
                Some(s) => self.ident_view() == Some(s@) && *s == self.segments@[0].ident,
                None => self.ident_view() is None,
            },
    {
        if !self.leading_colon && self.segments.len() == 1 && self.segments[0].args.len() == 0 {
            Some(&self.segments[0].ident)
        } else {
            None
        }
    }

    /// Whether the path is the bare name `name`.
    pub fn is_ident(&self, name: &str) -> (r: bool)
        ensures
            r == (self.ident_view() == Some(name@)),
    {
        match self.get_ident() {
            Some(s) => text_is(s, name),
            None => false,
        }
    }
}

impl Attribute {
    /// Whether the attribute's path is the bare name `name`.
    pub open spec fn named(&self, name: Seq<char>) -> bool {
        self.path.ident_view() == Some(name)
    }
}

/// Whether `s` spells `t`.
pub fn text_is(s: &String, t: &str) -> (r: bool)
    ensures
        r == (s@ == t@),
{
    let v = chars_of(s.as_str());
    let n = chars_of(t);
    let r = equals_at(v.as_slice(), 0, v.len(), n.as_slice());
    proof {
        assert(v@.subrange(0, v@.len() as int) =~= v@);
    }
    r
}

/// Whether `s` starts with `p`.
pub fn text_starts_with(s: &String, p: &str) -> (r: bool)
    ensures
        r == crate::text::has_prefix(s@, p@),
{
    let v = chars_of(s.as_str());
    let n = chars_of(p);
    let r = crate::text::starts_with_at(v.as_slice(), 0, v.len(), n.as_slice());
    proof {
        assert(v@.subrange(0, v@.len() as int) =~= v@);
    }
    r
}

} // verus!
