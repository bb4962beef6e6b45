//! The abstract syntax of the source language.
pub mod err;
pub mod fmt;
pub mod tag;

use vstd::prelude::*;

pub use err::Error;
pub use err::Result;
pub use tag::Tag;

verus! {

pub type _BinOp = Tag<BinOp>;
pub type _Var = Tag<String>;
pub type _Expr = Box<Tag<Expr>>;
pub type _Int = Tag<i64>;
pub type _Vec<T> = Tag<Vec<T>>;
pub type _Ident = Tag<String>;
pub type _Type = Tag<Type>;

#[derive(Clone, Copy, Debug, PartialEq, Eq, Structural)]
pub enum BinOp {
    Add,
    Sub,
    Mul,
    Div,
    Gt,
    Gte,
    Lt,
    Lte,
    Eq,
    Ne,
}

#[derive(Debug)]
pub enum Type {
    Unit,
    Bool,
    I64,
    Fun(_Vec<_Type>, Box<_Type>),
}

#[derive(Debug)]
pub enum Expr {
    Unit,
    Bool(bool),
    Ident(_Var),
    Int(i64),
    BinOp(_Expr, _BinOp, _Expr),
    If(_Expr, _Expr, _Expr),
    FunApp(_Expr, _Vec<_Expr>),
    Print(_Expr),
    Block(_Expr),
    Let(_Ident, Option<_Type>, _Expr, _Expr),
    FunDec(FunSignature, _Expr),
    Sequence(_Expr, _Expr),
}

#[derive(Debug)]
pub struct FunSignature {
    pub name: _Ident,
    pub params: _Vec<(_Ident, _Type)>,
    pub ret: _Type,
    pub body: _Expr,
}

#[derive(Debug)]
pub enum Top {
    FunDec(FunSignature),
}

pub type _Top = Tag<Top>;

pub type Program = Vec<_Top>;

/// A type without source positions: what two types are compared by.
pub enum Ty {
    Unit,
    Bool,
    I64,
    Fun(Seq<Ty>, Box<Ty>),
}

/// A type with its spans forgotten.
pub open spec fn erase(t: Type) -> Ty
    decreases t,
{
    match t {
        Type::Unit => Ty::Unit,
        Type::Bool => Ty::Bool,
        Type::I64 => Ty::I64,
        Type::Fun(args, ret) => Ty::Fun(erase_all(args.item@), Box::new(erase(*ret.item))),
    }
}

/// The types of a list with their spans forgotten.
pub open spec fn erase_all(ts: Seq<Tag<Type>>) -> Seq<Ty>
    decreases ts,
{
    if ts.len() == 0 {
        Seq::empty()
    } else {
        erase_all(ts.drop_last()).push(erase(*ts.last().item))
    }
}

/// A type with every span in it: the spans of the type, of a function type's parameter
/// list, and of every type inside.
pub enum TyV {
    Unit((usize, usize)),
    Bool((usize, usize)),
    I64((usize, usize)),
    Fun((usize, usize), (usize, usize), Seq<TyV>, Box<TyV>),
}

/// A type as a value, spans included.
pub open spec fn tyv(t: Tag<Type>) -> TyV
    decreases t,
{
    match *t.item {
        Type::Unit => TyV::Unit(t.span),
        Type::Bool => TyV::Bool(t.span),
        Type::I64 => TyV::I64(t.span),
        Type::Fun(args, ret) => TyV::Fun(t.span, args.span, tyvs(args.item@), Box::new(tyv(*ret))),
    }
}

/// A list of types as values, spans included.
pub open spec fn tyvs(ts: Seq<Tag<Type>>) -> Seq<TyV>
    decreases ts,
{
    if ts.len() == 0 {
        Seq::empty()
    } else {
        tyvs(ts.drop_last()).push(tyv(ts.last()))
    }
}

/// A type (without a span of its own) with every span inside it; it stands at `(0, 0)`.
pub open spec fn type_v(t: Type) -> TyV {
    tyv(Tag { item: Box::new(t), span: (0, 0) })
}

/// The same type value placed at another span.
pub open spec fn respan(v: TyV, sp: (usize, usize)) -> TyV {
    match v {
        TyV::Unit(_) => TyV::Unit(sp),
        TyV::Bool(_) => TyV::Bool(sp),
        TyV::I64(_) => TyV::I64(sp),
        TyV::Fun(_, a, ts, r) => TyV::Fun(sp, a, ts, r),
    }
}

pub proof fn lemma_tyvs_index(ts: Seq<Tag<Type>>, i: int)
    requires
        0 <= i < ts.len(),
    ensures
        tyvs(ts).len() == ts.len(),
        tyvs(ts)[i] == tyv(ts[i]),
    decreases ts.len(),
{
    lemma_tyvs_len(ts);
    if i < ts.len() - 1 {
        lemma_tyvs_index(ts.drop_last(), i);
    }
}

pub proof fn lemma_tyvs_len(ts: Seq<Tag<Type>>)
    ensures
        tyvs(ts).len() == ts.len(),
    decreases ts.len(),
{
    if ts.len() > 0 {
        lemma_tyvs_len(ts.drop_last());
    }
}

pub proof fn lemma_erase_all_len(ts: Seq<Tag<Type>>)
    ensures
        erase_all(ts).len() == ts.len(),
    decreases ts.len(),
{
    if ts.len() > 0 {
        lemma_erase_all_len(ts.drop_last());
    }
}

pub proof fn lemma_erase_all_index(ts: Seq<Tag<Type>>, i: int)
    requires
        0 <= i < ts.len(),
    ensures
        erase_all(ts).len() == ts.len(),
        erase_all(ts)[i] == erase(*ts[i].item),
    decreases ts.len(),
{
    lemma_erase_all_len(ts);
    if i < ts.len() - 1 {
        lemma_erase_all_index(ts.drop_last(), i);
    }
}

/// The comparisons of the language: `>`, `>=`, `<`, `<=`, `==` and `!=`.
pub open spec fn is_comparison_op(op: BinOp) -> bool {
    op == BinOp::Gt || op == BinOp::Gte || op == BinOp::Lt || op == BinOp::Lte || op == BinOp::Eq || op == BinOp::Ne
}

/// The arithmetic operators of the language: `+`, `-`, `*` and `/`.
pub open spec fn is_arith_op(op: BinOp) -> bool {
    op == BinOp::Add || op == BinOp::Sub || op == BinOp::Mul || op == BinOp::Div
}

/// The value of an arithmetic operator of the language on two integers (division rounds
/// toward zero, as Rust's does).
pub open spec fn arith_value(op: BinOp, a: i64, b: i64) -> int {
    match op {
        BinOp::Add => a + b,
        BinOp::Sub => a - b,
        BinOp::Mul => a * b,
        BinOp::Div => crate::ir::trunc_div(a as int, b as int),
        _ => 0,
    }
}

/// Whether a comparison of the language holds between two integers.
pub open spec fn cmp_holds(op: BinOp, a: i64, b: i64) -> bool {
    match op {
        BinOp::Gt => a > b,
        BinOp::Gte => a >= b,
        BinOp::Lt => a < b,
        BinOp::Lte => a <= b,
        BinOp::Eq => a == b,
        BinOp::Ne => a != b,
        _ => false,
    }
}

} // verus!
