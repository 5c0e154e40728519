//! AST nodes, and the mathematical model that contracts speak of: each node
//! has a view in which names are character sequences and lists are `Seq`s.
use crate::diag::Span;
use vstd::prelude::*;

verus! {

#[derive(Debug, Clone, Copy, PartialEq, Eq, Structural)]
pub enum AccessConvention {
    /// Default: shared read borrow (`&T` in Rust).
    Read,
    /// Mutable borrow (`&mut T`).
    Mutate,
    /// Ownership transfer (`T` by value).
    Move,
}

#[derive(Debug, PartialEq, Eq)]
pub enum Type {
    Int,
    Float,
    Bool,
    String,
    List(Box<Type>),
    Shared(Box<Type>),
    Named(String),
}

#[derive(Debug)]
pub struct Program {
    pub items: Vec<Item>,
}

#[derive(Debug)]
pub enum Item {
    Func(Func),
    Struct(StructDef),
    Const(ConstDef),
}

#[derive(Debug)]
pub struct Func {
    pub is_pub: bool,
    pub name: String,
    pub name_span: Span,
    pub params: Vec<Param>,
    pub return_type: Option<Type>,
    pub is_view_return: bool,
    pub body: Vec<Stmt>,
}

#[derive(Debug)]
pub struct Param {
    pub convention: AccessConvention,
    pub name: String,
    pub name_span: Span,
    pub ty: Type,
    pub ty_span: Span,
}

#[derive(Debug)]
pub struct StructDef {
    pub is_pub: bool,
    pub name: String,
    pub name_span: Span,
    pub fields: Vec<Field>,
}

#[derive(Debug)]
pub struct Field {
    pub is_stored_ref: bool,
    pub stored_ref_label: Option<String>,
    pub name: String,
    pub name_span: Span,
    pub ty: Type,
    pub ty_span: Span,
}

#[derive(Debug, Clone, Copy, PartialEq, Eq, Structural)]
pub enum ConstAttr {
    ForceStatic,
    ForceInline,
}

#[derive(Debug)]
pub struct ConstDef {
    pub name: String,
    pub name_span: Span,
    pub value: Expr,
    pub attrs: Vec<ConstAttr>,
    pub rust_kind: RustConstKind,
}

#[derive(Debug)]
pub enum Stmt {
    Call(Call),
    Val(Binding),
    Return(Expr, Span),
    Loop(Vec<Stmt>, Span),
    Unsafe(Vec<Stmt>, Span),
}

#[derive(Debug)]
pub struct Binding {
    pub mutable: bool,
    pub name: String,
    pub name_span: Span,
    pub ty: Option<Type>,
    pub init: Expr,
}

#[derive(Debug)]
pub struct Call {
    pub name: String,
    pub name_span: Span,
    pub args: Vec<CallArg>,
}

#[derive(Debug, Default)]
pub struct CallArgFlags {
    pub implicit_clone: bool,
    pub shared_auto_clone: bool,
}

#[derive(Debug)]
pub struct CallArg {
    pub convention: AccessConvention,
    pub expr: Expr,
    pub span: Span,
    pub flags: CallArgFlags,
}

#[derive(Debug, Clone, Copy, PartialEq, Eq, Structural)]
pub enum RustConstKind {
    Const,
    Static,
}

#[derive(Debug)]
pub enum Expr {
    Str(String),
    Int(i64),
    Ident(String, Span),
    Deref(Box<Expr>, Span),
    Member(Box<Expr>, String, Span),
}

// ---------------------------------------------------------------------
// The model.
// ---------------------------------------------------------------------

pub enum SpecType {
    Int,
    Float,
    Bool,
    Str,
    List(Box<SpecType>),
    Shared(Box<SpecType>),
    Named(Seq<char>),
}

pub enum SpecExpr {
    Str(Seq<char>),
    Int(i64),
    Ident(Seq<char>, Span),
    Deref(Box<SpecExpr>, Span),
    Member(Box<SpecExpr>, Seq<char>, Span),
}

pub struct SpecCallArg {
    pub convention: AccessConvention,
    pub expr: SpecExpr,
    pub span: Span,
    pub implicit_clone: bool,
    pub shared_auto_clone: bool,
}

pub struct SpecCall {
    pub name: Seq<char>,
    pub name_span: Span,
    pub args: Seq<SpecCallArg>,
}

pub struct SpecBinding {
    pub mutable: bool,
    pub name: Seq<char>,
    pub name_span: Span,
    pub ty: Option<SpecType>,
    pub init: SpecExpr,
}

pub enum SpecStmt {
    Call(SpecCall),
    Val(SpecBinding),
    Return(SpecExpr, Span),
    Loop(Seq<SpecStmt>, Span),
    Unsafe(Seq<SpecStmt>, Span),
}

pub struct SpecParam {
    pub convention: AccessConvention,
    pub name: Seq<char>,
    pub name_span: Span,
    pub ty: SpecType,
    pub ty_span: Span,
}

pub struct SpecFunc {
    pub is_pub: bool,
    pub name: Seq<char>,
    pub name_span: Span,
    pub params: Seq<SpecParam>,
    pub return_type: Option<SpecType>,
    pub is_view_return: bool,
    pub body: Seq<SpecStmt>,
}

pub struct SpecField {
    pub is_stored_ref: bool,
    pub stored_ref_label: Option<Seq<char>>,
    pub name: Seq<char>,
    pub name_span: Span,
    pub ty: SpecType,
    pub ty_span: Span,
}

pub struct SpecStructDef {
    pub is_pub: bool,
    pub name: Seq<char>,
    pub name_span: Span,
    pub fields: Seq<SpecField>,
}

pub struct SpecConstDef {
    pub name: Seq<char>,
    pub name_span: Span,
    pub value: SpecExpr,
    pub attrs: Seq<ConstAttr>,
    pub rust_kind: RustConstKind,
}

pub enum SpecItem {
    Func(SpecFunc),
    Struct(SpecStructDef),
    Const(SpecConstDef),
}

pub struct SpecProgram {
    pub items: Seq<SpecItem>,
}

pub open spec fn type_view(t: Type) -> SpecType
    decreases t,
{
    match t {
        Type::Int => SpecType::Int,
        Type::Float => SpecType::Float,
        Type::Bool => SpecType::Bool,
        Type::String => SpecType::Str,
        Type::List(inner) => SpecType::List(Box::new(type_view(*inner))),
        Type::Shared(inner) => SpecType::Shared(Box::new(type_view(*inner))),
        Type::Named(n) => SpecType::Named(n@),
    }
}

impl View for Type {
    type V = SpecType;

    open spec fn view(&self) -> SpecType {
        type_view(*self)
    }
}

pub open spec fn opt_type_view(t: Option<Type>) -> Option<SpecType> {
    match t {
        Some(t) => Some(t@),
        None => None,
    }
}

pub open spec fn expr_view(e: Expr) -> SpecExpr
    decreases e,
{
    match e {
        Expr::Str(s) => SpecExpr::Str(s@),
        Expr::Int(n) => SpecExpr::Int(n),
        Expr::Ident(n, sp) => SpecExpr::Ident(n@, sp),
        Expr::Deref(inner, sp) => SpecExpr::Deref(Box::new(expr_view(*inner)), sp),
        Expr::Member(inner, m, sp) => SpecExpr::Member(Box::new(expr_view(*inner)), m@, sp),
    }
}

impl View for Expr {
    type V = SpecExpr;

    open spec fn view(&self) -> SpecExpr {
        expr_view(*self)
    }
}

impl View for CallArg {
    type V = SpecCallArg;

    open spec fn view(&self) -> SpecCallArg {
        SpecCallArg {
            convention: self.convention,
            expr: self.expr@,
            span: self.span,
            implicit_clone: self.flags.implicit_clone,
            shared_auto_clone: self.flags.shared_auto_clone,
        }
    }
}

pub open spec fn args_view(v: Seq<CallArg>) -> Seq<SpecCallArg> {
    v.map_values(|a: CallArg| a@)
}

impl View for Call {
    type V = SpecCall;

    open spec fn view(&self) -> SpecCall {
        SpecCall { name: self.name@, name_span: self.name_span, args: args_view(self.args@) }
    }
}

impl View for Binding {
    type V = SpecBinding;

    open spec fn view(&self) -> SpecBinding {
        SpecBinding {
            mutable: self.mutable,
            name: self.name@,
            name_span: self.name_span,
            ty: opt_type_view(self.ty),
            init: self.init@,
        }
    }
}

pub open spec fn stmt_view(s: Stmt) -> SpecStmt
    decreases s,
{
    match s {
        Stmt::Call(c) => SpecStmt::Call(c@),
        Stmt::Val(b) => SpecStmt::Val(b@),
        Stmt::Return(e, sp) => SpecStmt::Return(e@, sp),
        Stmt::Loop(inner, sp) => SpecStmt::Loop(stmts_view(inner@), sp),
        Stmt::Unsafe(inner, sp) => SpecStmt::Unsafe(stmts_view(inner@), sp),
    }
}

pub open spec fn stmts_view(v: Seq<Stmt>) -> Seq<SpecStmt>
    decreases v,
{
    if v.len() == 0 {
        Seq::empty()
    } else {
        stmts_view(v.subrange(0, v.len() - 1)).push(stmt_view(v[v.len() - 1]))
    }
}

impl View for Stmt {
    type V = SpecStmt;

    open spec fn view(&self) -> SpecStmt {
        stmt_view(*self)
    }
}

impl View for Param {
    type V = SpecParam;

    open spec fn view(&self) -> SpecParam {
        SpecParam {
            convention: self.convention,
            name: self.name@,
            name_span: self.name_span,
            ty: self.ty@,
            ty_span: self.ty_span,
        }
    }
}

pub open spec fn params_view(v: Seq<Param>) -> Seq<SpecParam> {
    v.map_values(|p: Param| p@)
}

impl View for Func {
    type V = SpecFunc;

    open spec fn view(&self) -> SpecFunc {
        SpecFunc {
            is_pub: self.is_pub,
            name: self.name@,
            name_span: self.name_span,
            params: params_view(self.params@),
            return_type: opt_type_view(self.return_type),
            is_view_return: self.is_view_return,
            body: stmts_view(self.body@),
        }
    }
}

pub open spec fn opt_text_view(t: Option<String>) -> Option<Seq<char>> {
    match t {
        Some(t) => Some(t@),
        None => None,
    }
}

impl View for Field {
    type V = SpecField;

    open spec fn view(&self) -> SpecField {
        SpecField {
            is_stored_ref: self.is_stored_ref,
            stored_ref_label: opt_text_view(self.stored_ref_label),
            name: self.name@,
            name_span: self.name_span,
            ty: self.ty@,
            ty_span: self.ty_span,
        }
    }
}

pub open spec fn fields_view(v: Seq<Field>) -> Seq<SpecField> {
    v.map_values(|f: Field| f@)
}

impl View for StructDef {
    type V = SpecStructDef;

    open spec fn view(&self) -> SpecStructDef {
        SpecStructDef {
            is_pub: self.is_pub,
            name: self.name@,
            name_span: self.name_span,
            fields: fields_view(self.fields@),
        }
    }
}

impl View for ConstDef {
    type V = SpecConstDef;

    open spec fn view(&self) -> SpecConstDef {
        SpecConstDef {
            name: self.name@,
            name_span: self.name_span,
            value: self.value@,
            attrs: self.attrs@,
            rust_kind: self.rust_kind,
        }
    }
}

impl View for Item {
    type V = SpecItem;

    open spec fn view(&self) -> SpecItem {
        match *self {
            Item::Func(f) => SpecItem::Func(f@),
            Item::Struct(s) => SpecItem::Struct(s@),
            Item::Const(c) => SpecItem::Const(c@),
        }
    }
}

pub open spec fn items_view(v: Seq<Item>) -> Seq<SpecItem> {
    v.map_values(|i: Item| i@)
}

impl View for Program {
    type V = SpecProgram;

    open spec fn view(&self) -> SpecProgram {
        SpecProgram { items: items_view(self.items@) }
    }
}

/// A copy of `t` with the same model.
pub fn copy_type(t: &Type) -> (r: Type)
    ensures
        r@ == t@,
    decreases t,
{
    match t {
        Type::Int => Type::Int,
        Type::Float => Type::Float,
        Type::Bool => Type::Bool,
        Type::String => Type::String,
        Type::List(inner) => Type::List(Box::new(copy_type(inner))),
        Type::Shared(inner) => Type::Shared(Box::new(copy_type(inner))),
        Type::Named(n) => Type::Named(n.clone()),
    }
}

/// A copy of `e` with the same model.
pub fn copy_expr(e: &Expr) -> (r: Expr)
    ensures
        r@ == e@,
    decreases e,
{
    match e {
        Expr::Str(s) => Expr::Str(s.clone()),
        Expr::Int(n) => Expr::Int(*n),
        Expr::Ident(n, sp) => Expr::Ident(n.clone(), *sp),
        Expr::Deref(inner, sp) => Expr::Deref(Box::new(copy_expr(inner)), *sp),
        Expr::Member(inner, m, sp) => Expr::Member(Box::new(copy_expr(inner)), m.clone(), *sp),
    }
}

impl Clone for Type {
    fn clone(&self) -> (r: Self)
        ensures
            r@ == self@,
    {
        copy_type(self)
    }
}

impl Clone for Expr {
    fn clone(&self) -> (r: Self)
        ensures
            r@ == self@,
    {
        copy_expr(self)
    }
}

pub proof fn lemma_stmts_view_push(v: Seq<Stmt>, s: Stmt)
    ensures
        stmts_view(v.push(s)) == stmts_view(v).push(stmt_view(s)),
{
    assert(v.push(s).subrange(0, v.len() as int) =~= v);
}

pub proof fn lemma_stmts_view_len(v: Seq<Stmt>)
    ensures
        stmts_view(v).len() == v.len(),
    decreases v.len(),
{
    if v.len() > 0 {
        lemma_stmts_view_len(v.subrange(0, v.len() - 1));
    }
}

pub proof fn lemma_stmts_view_index(v: Seq<Stmt>, i: int)
    requires
        0 <= i < v.len(),
    ensures
        stmts_view(v)[i] == stmt_view(v[i]),
    decreases v.len(),
{
    lemma_stmts_view_len(v.subrange(0, v.len() - 1));
    if i < v.len() - 1 {
        lemma_stmts_view_index(v.subrange(0, v.len() - 1), i);
    }
}

} // verus!
