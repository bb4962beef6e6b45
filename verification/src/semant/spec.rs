//! The typing rules of the language, as the checker applies them.
use vstd::prelude::*;

use super::env::{lookup_v, EntryView, EnvView};
use super::eq::{count_mismatch, eq_msg, type_mismatch};
use crate::ast::err::{Error, Span};
use crate::ast::fmt::type_text;
use crate::ast::{erase, erase_all, BinOp, Expr, FunSignature, Tag, Top, Ty, Type};

verus! {

/// The labelled spans of an error.
pub type Labels = Seq<(Span, Seq<char>)>;

/// What checking a construct comes to: a type; a rejection with the headline of its error
/// and its labels (where they depend only on the program's text: not where they point inside
/// a function type that a name of the scope has); or a state the checker cannot handle (it
/// would stop the program).
pub enum Outcome {
    Typed(Ty),
    Rejected(Seq<char>, Option<Labels>),
    Stuck,
}

/// An error is the rejection an outcome describes: its headline, and its labels where the
/// outcome gives them.
pub open spec fn rejects_with(o: Outcome, e: Error) -> bool {
    match o {
        Outcome::Rejected(m, ls) => m == e.message() && (ls matches Some(l) ==> l == e.labels()),
        _ => false,
    }
}

/// The labels of a type found (at `fsp`) where another was expected (at `esp`): what was
/// expected, then what was found; unknown here for two function types, whose first
/// difference lies inside them.
pub open spec fn eq_labels(found: Ty, fsp: Span, expected: Ty, esp: Span) -> Option<Labels> {
    if found is Fun && expected is Fun {
        None
    } else {
        Some(seq![(esp, "expected "@ + type_text(expected)), (fsp, "found "@ + type_text(found))])
    }
}

/// The label of a type (at `sp`) that is not the base type expected.
pub open spec fn raw_labels(sp: Span, expected: Ty) -> Option<Labels> {
    Some(seq![(sp, "expected "@ + type_text(expected))])
}

/// The label of a function defined twice.
pub open spec fn redefined_labels(sig: FunSignature) -> Labels {
    seq![(sig.name.span, "redefined here"@)]
}

/// The headline of the error for a type found where another was expected.
pub open spec fn mismatch_msg(found: Ty, expected: Ty) -> Seq<char> {
    eq_msg(found, expected).unwrap()
}

/// The headline of the error for a name that is not bound.
pub open spec fn undefined_msg(id: Seq<char>) -> Seq<char> {
    "undefined identifier '"@ + id + "'"@
}

/// The headline of the error for a function whose name is bound already.
pub open spec fn redefined_msg(sig: FunSignature) -> Seq<char> {
    "function '"@ + sig.name.item@ + "' is defined multiple times"@
}

/// The type of `l op r` from the types of its operands (placed at `lsp` and `rsp`).
pub open spec fn binop_result(op: BinOp, lt: Ty, lsp: Span, rt: Ty, rsp: Span) -> Outcome {
    if lt != rt {
        Outcome::Rejected(mismatch_msg(lt, rt), eq_labels(lt, lsp, rt, rsp))
    } else {
        match op {
            BinOp::Add | BinOp::Sub | BinOp::Mul | BinOp::Div => if lt == Ty::I64 {
                Outcome::Typed(Ty::I64)
            } else {
                Outcome::Rejected(type_mismatch(), raw_labels(lsp, Ty::I64))
            },
            BinOp::Gt | BinOp::Gte | BinOp::Lt | BinOp::Lte => if lt == Ty::I64 {
                Outcome::Typed(Ty::Bool)
            } else {
                Outcome::Rejected(type_mismatch(), raw_labels(lsp, Ty::I64))
            },
            BinOp::Eq | BinOp::Ne => Outcome::Typed(Ty::Bool),
        }
    }
}

/// The types of the parameters of a signature, in order.
pub open spec fn param_types(ps: Seq<(Tag<String>, Tag<Type>)>) -> Seq<Tag<Type>> {
    ps.map_values(|p: (Tag<String>, Tag<Type>)| p.1)
}

/// The type of a function with the given signature.
pub open spec fn fun_ty_v(sig: FunSignature) -> Ty {
    Ty::Fun(erase_all(param_types(sig.params.item@)), Box::new(erase(*sig.ret.item)))
}

/// The scope after declaring a function: rejected if its name is already bound.
pub open spec fn declare_v(env: EnvView, sig: FunSignature) -> Option<EnvView> {
    if lookup_v(env, sig.name.item@) is Some {
        None
    } else {
        Some(EnvView {
            locals: env.locals,
            globals: env.globals.insert(sig.name.item@, EntryView { ty: fun_ty_v(sig), is_fun: true }),
        })
    }
}

/// The index of the first parameter with the given name.
pub open spec fn first_param(ps: Seq<(Tag<String>, Tag<Type>)>, k: Seq<char>) -> int {
    choose|i: int| 0 <= i < ps.len() && ps[i].0.item@ == k && forall|j: int| 0 <= j < i ==> ps[j].0.item@ != k
}

/// The parameters as local bindings; a repeated name has the type of its first occurrence.
pub open spec fn params_map(ps: Seq<(Tag<String>, Tag<Type>)>) -> Map<Seq<char>, EntryView> {
    Map::new(
        |k: Seq<char>| exists|i: int| 0 <= i < ps.len() && #[trigger] ps[i].0.item@ == k,
        |k: Seq<char>| EntryView { ty: erase(*ps[first_param(ps, k)].1.item), is_fun: false },
    )
}

/// The scope of a function body before its local functions are declared.
pub open spec fn body_env(env: EnvView, ps: Seq<(Tag<String>, Tag<Type>)>) -> EnvView {
    EnvView { locals: params_map(ps), globals: env.globals }
}

/// The functions declared directly in a body (not in nested blocks), added to the scope; the
/// first one whose name is bound already is an error.
pub open spec fn tc_collect(e: Tag<Expr>, env: EnvView) -> Result<EnvView, (Seq<char>, Labels)>
    decreases e,
{
    match *e.item {
        Expr::FunDec(sig, rest) => match declare_v(env, sig) {
            Some(e2) => tc_collect(*rest, e2),
            None => Err((redefined_msg(sig), redefined_labels(sig))),
        },
        Expr::Let(_, _, _, rest) => tc_collect(*rest, env),
        Expr::Sequence(a, b) => match *a.item {
            Expr::FunDec(sig, _) => match declare_v(env, sig) {
                Some(e2) => tc_collect(*b, e2),
                None => Err((redefined_msg(sig), redefined_labels(sig))),
            },
            _ => tc_collect(*b, env),
        },
        _ => Ok(env),
    }
}

/// The scope with one more local variable.
pub open spec fn with_var(env: EnvView, k: Seq<char>, t: Ty) -> EnvView {
    EnvView { locals: env.locals.insert(k, EntryView { ty: t, is_fun: false }), globals: env.globals }
}

/// Where the checker places the type of an expression: at the expression, except that a
/// name places it at the name, and a sequence, a `let`, a nested function and a block at
/// their last part.
pub open spec fn ty_span(e: Tag<Expr>) -> (usize, usize)
    decreases e,
{
    match *e.item {
        Expr::Ident(id) => id.span,
        Expr::Sequence(_, b) => ty_span(*b),
        Expr::Let(_, _, _, rest) => ty_span(*rest),
        Expr::FunDec(_, rest) => ty_span(*rest),
        Expr::Block(x) => ty_span(*x),
        _ => e.span,
    }
}

/// The type of an expression in a scope.
pub open spec fn tc(e: Tag<Expr>, env: EnvView) -> Outcome
    decreases e,
{
    match *e.item {
        Expr::Unit => Outcome::Typed(Ty::Unit),
        Expr::Bool(_) => Outcome::Typed(Ty::Bool),
        Expr::Int(_) => Outcome::Typed(Ty::I64),
        Expr::Ident(id) => match lookup_v(env, id.item@) {
            Some(ev) => Outcome::Typed(ev.ty),
            None => Outcome::Rejected(undefined_msg(id.item@), Some(seq![(id.span, "not found in scope"@)])),
        },
        Expr::BinOp(l, op, r) => match tc(*l, env) {
            Outcome::Typed(lt) => match tc(*r, env) {
                Outcome::Typed(rt) => binop_result(*op.item, lt, ty_span(*l), rt, ty_span(*r)),
                o => o,
            },
            o => o,
        },
        Expr::Sequence(a, b) => match tc(*a, env) {
            Outcome::Typed(_) => tc(*b, env),
            o => o,
        },
        Expr::If(c, t, f) => match tc(*c, env) {
            Outcome::Typed(ct) => if ct != Ty::Bool {
                Outcome::Rejected(type_mismatch(), raw_labels(ty_span(*c), Ty::Bool))
            } else {
                match tc(*t, env) {
                    Outcome::Typed(tt) => match tc(*f, env) {
                        Outcome::Typed(ft) => if tt == ft {
                            Outcome::Typed(tt)
                        } else {
                            Outcome::Rejected(mismatch_msg(tt, ft), eq_labels(tt, ty_span(*t), ft, ty_span(*f)))
                        },
                        o => o,
                    },
                    o => o,
                }
            },
            o => o,
        },
        Expr::FunApp(f, args) => match tc(*f, env) {
            Outcome::Typed(Ty::Fun(formals, ret)) => if formals.len() != args.item@.len() {
                Outcome::Rejected(count_mismatch(), None)
            } else {
                match tc_args(args.item@, formals, env) {
                    Outcome::Typed(_) => Outcome::Typed(*ret),
                    o => o,
                }
            },
            Outcome::Typed(_) => Outcome::Rejected("expected function"@, Some(seq![(ty_span(*f), "not callable"@)])),
            o => o,
        },
        Expr::Let(id, ann, rhs, rest) => match tc(*rhs, env) {
            Outcome::Typed(rt) => if ann is Some && erase(*ann->0.item) != rt {
                Outcome::Rejected(
                    mismatch_msg(rt, erase(*ann->0.item)),
                    eq_labels(rt, ty_span(*rhs), erase(*ann->0.item), ann->0.span),
                )
            } else {
                tc(*rest, with_var(env, id.item@, rt))
            },
            o => o,
        },
        Expr::FunDec(sig, rest) => match tc_fun(sig, env) {
            Outcome::Typed(_) => tc(*rest, env),
            o => o,
        },
        Expr::Print(x) => match tc(*x, env) {
            Outcome::Typed(_) => Outcome::Typed(Ty::Unit),
            o => o,
        },
        Expr::Block(x) => tc(*x, env),
    }
}

/// Checks call arguments left to right against the formal parameter types.
pub open spec fn tc_args(args: Seq<Box<Tag<Expr>>>, formals: Seq<Ty>, env: EnvView) -> Outcome
    decreases args,
{
    if args.len() == 0 {
        Outcome::Typed(Ty::Unit)
    } else {
        match tc(*args[0], env) {
            Outcome::Typed(t) => if formals.len() == 0 {
                Outcome::Rejected(count_mismatch(), None)
            } else if t != formals[0] {
                Outcome::Rejected(mismatch_msg(t, formals[0]), None)
            } else {
                tc_args(args.drop_first(), formals.drop_first(), env)
            },
            o => o,
        }
    }
}

/// Checks a function: it must be declared as a function in the scope and take at most eight
/// parameters (else the checker is stuck); its body, with its parameters and local functions
/// in scope, must have the declared return type.
pub open spec fn tc_fun(sig: FunSignature, env: EnvView) -> Outcome
    decreases sig,
{
    match lookup_v(env, sig.name.item@) {
        None => Outcome::Stuck,
        Some(ev) => if !ev.is_fun || sig.params.item@.len() > 8 {
            Outcome::Stuck
        } else {
            match tc_collect(*sig.body, body_env(env, sig.params.item@)) {
                Err((m, ls)) => Outcome::Rejected(m, Some(ls)),
                Ok(benv) => match tc(*sig.body, benv) {
                    Outcome::Typed(bt) => if bt == erase(*sig.ret.item) {
                        Outcome::Typed(Ty::Unit)
                    } else {
                        Outcome::Rejected(
                            mismatch_msg(bt, erase(*sig.ret.item)),
                            eq_labels(bt, ty_span(*sig.body), erase(*sig.ret.item), sig.ret.span),
                        )
                    },
                    o => o,
                },
            }
        },
    }
}

/// The signature of a top-level item.
pub open spec fn top_sig(t: Tag<Top>) -> FunSignature {
    match *t.item {
        Top::FunDec(sig) => sig,
    }
}

/// The name of the entry function.
pub open spec fn main_name() -> Seq<char> {
    "main"@
}

/// The global scope after the first `n` top-level functions, and where `main` is among them;
/// rejected on a second `main` or a name declared twice.
pub open spec fn globals_v(tops: Seq<Tag<Top>>, n: nat) -> Result<(EnvView, Option<int>), (Seq<char>, Labels)>
    decreases n,
{
    if n == 0 {
        Ok((EnvView { locals: Map::empty(), globals: Map::empty() }, None))
    } else {
        match globals_v(tops, (n - 1) as nat) {
            Err(m) => Err(m),
            Ok((env, m)) => {
                let sig = top_sig(tops[n - 1]);
                let is_main = sig.name.item@ == main_name();
                if is_main && m is Some {
                    Err(("multiple main functions"@, Seq::empty()))
                } else {
                    match declare_v(env, sig) {
                        None => Err((redefined_msg(sig), redefined_labels(sig))),
                        Some(e2) => Ok((e2, if is_main { Some(n - 1) } else { m })),
                    }
                }
            },
        }
    }
}

/// `main` returns unit and takes no parameters.
pub open spec fn main_ok(sig: FunSignature) -> bool {
    erase(*sig.ret.item) == Ty::Unit && sig.params.item@.len() == 0
}

/// The label of the error for a `main` that is not valid.
pub open spec fn main_labels(sig: FunSignature) -> Labels {
    if erase(*sig.ret.item) != Ty::Unit {
        seq![(sig.ret.span, "got "@ + type_text(erase(*sig.ret.item)))]
    } else {
        seq![(sig.params.span, "unexpected arguments"@)]
    }
}

/// The headline of the error for a `main` that is not valid.
pub open spec fn main_msg(sig: FunSignature) -> Seq<char> {
    if erase(*sig.ret.item) != Ty::Unit {
        "main function must return Unit"@
    } else {
        "main function cannot have arguments"@
    }
}

/// Checks the top-level functions from the `i`-th on, in order.
pub open spec fn funs_v(tops: Seq<Tag<Top>>, genv: EnvView, i: nat) -> Outcome
    decreases tops.len() - i,
{
    if i >= tops.len() {
        Outcome::Typed(Ty::Unit)
    } else {
        match tc_fun(top_sig(tops[i as int]), genv) {
            Outcome::Typed(_) => funs_v(tops, genv, i + 1),
            o => o,
        }
    }
}

/// Whether a program is well typed: the global functions are declared without clashes, there
/// is a valid `main`, and every function checks.
pub open spec fn tc_program(tops: Seq<Tag<Top>>) -> Outcome {
    match globals_v(tops, tops.len()) {
        Err((msg, ls)) => Outcome::Rejected(msg, Some(ls)),
        Ok((genv, m)) => match m {
            None => Outcome::Rejected("main function not found"@, Some(Seq::empty())),
            Some(mi) => if !main_ok(top_sig(tops[mi])) {
                Outcome::Rejected(main_msg(top_sig(tops[mi])), Some(main_labels(top_sig(tops[mi]))))
            } else {
                funs_v(tops, genv, 0)
            },
        },
    }
}

/// The number of local variables a construct allocates in the frame of the function it is in
/// (not counting those of nested functions, which get frames of their own).
pub open spec fn frame_need(e: Tag<Expr>) -> nat
    decreases e,
{
    match *e.item {
        Expr::Unit | Expr::Bool(_) | Expr::Int(_) | Expr::Ident(_) => 0,
        Expr::BinOp(l, _, r) => frame_need(*l) + frame_need(*r),
        Expr::Sequence(a, b) => frame_need(*a) + frame_need(*b),
        Expr::If(c, t, f) => frame_need(*c) + frame_need(*t) + frame_need(*f),
        Expr::FunApp(f, args) => frame_need(*f) + frame_need_list(args.item@),
        Expr::Let(_, _, rhs, rest) => 1 + frame_need(*rhs) + frame_need(*rest),
        Expr::FunDec(_, rest) => frame_need(*rest),
        Expr::Print(x) => frame_need(*x),
        Expr::Block(x) => frame_need(*x),
    }
}

pub open spec fn frame_need_list(args: Seq<Box<Tag<Expr>>>) -> nat
    decreases args,
{
    if args.len() == 0 {
        0
    } else {
        frame_need(*args[0]) + frame_need_list(args.drop_first())
    }
}

/// The most local variables one function may have: their slots must fit the frame.
pub open spec fn frame_limit() -> nat {
    0x400_0000
}

/// Every function nested in a construct has few enough local variables for its frame.
pub open spec fn nested_fit(e: Tag<Expr>) -> bool
    decreases e,
{
    match *e.item {
        Expr::Unit | Expr::Bool(_) | Expr::Int(_) | Expr::Ident(_) => true,
        Expr::BinOp(l, _, r) => nested_fit(*l) && nested_fit(*r),
        Expr::Sequence(a, b) => nested_fit(*a) && nested_fit(*b),
        Expr::If(c, t, f) => nested_fit(*c) && nested_fit(*t) && nested_fit(*f),
        Expr::FunApp(f, args) => nested_fit(*f) && nested_fit_list(args.item@),
        Expr::Let(_, _, rhs, rest) => nested_fit(*rhs) && nested_fit(*rest),
        Expr::FunDec(sig, rest) => fun_fits(sig) && nested_fit(*rest),
        Expr::Print(x) => nested_fit(*x),
        Expr::Block(x) => nested_fit(*x),
    }
}

pub open spec fn nested_fit_list(args: Seq<Box<Tag<Expr>>>) -> bool
    decreases args,
{
    if args.len() == 0 {
        true
    } else {
        nested_fit(*args[0]) && nested_fit_list(args.drop_first())
    }
}

/// A function's body, and every function nested in it, fits its frame.
pub open spec fn fun_fits(sig: FunSignature) -> bool
    decreases sig,
{
    frame_need(*sig.body) <= frame_limit() && nested_fit(*sig.body)
}

/// Every function of a program fits its frame.
pub open spec fn program_fits(tops: Seq<Tag<Top>>) -> bool {
    forall|i: int| 0 <= i < tops.len() ==> fun_fits(#[trigger] top_sig(tops[i]))
}

/// A type whose function types all take at most eight parameters (all passed in registers).
pub open spec fn small_ty(t: Ty) -> bool
    decreases t,
{
    match t {
        Ty::Fun(args, ret) => args.len() <= 8 && (forall|i: int| 0 <= i < args.len() ==> small_ty(#[trigger] args[i]))
            && small_ty(*ret),
        _ => true,
    }
}

/// Every binding of a scope has a small type.
pub open spec fn env_small(env: EnvView) -> bool {
    &&& forall|k: Seq<char>| #[trigger] env.locals.contains_key(k) ==> small_ty(env.locals[k].ty)
    &&& forall|k: Seq<char>| #[trigger] env.globals.contains_key(k) ==> small_ty(env.globals[k].ty)
}

/// Every signature in a construct has at most eight parameters and small types.
pub open spec fn expr_small(e: Tag<Expr>) -> bool
    decreases e,
{
    match *e.item {
        Expr::Unit | Expr::Bool(_) | Expr::Int(_) | Expr::Ident(_) => true,
        Expr::BinOp(l, _, r) => expr_small(*l) && expr_small(*r),
        Expr::Sequence(a, b) => expr_small(*a) && expr_small(*b),
        Expr::If(c, t, f) => expr_small(*c) && expr_small(*t) && expr_small(*f),
        Expr::FunApp(f, args) => expr_small(*f) && small_list(args.item@),
        Expr::Let(_, _, rhs, rest) => expr_small(*rhs) && expr_small(*rest),
        Expr::FunDec(sig, rest) => sig_small(sig) && expr_small(*rest),
        Expr::Print(x) => expr_small(*x),
        Expr::Block(x) => expr_small(*x),
    }
}

pub open spec fn small_list(args: Seq<Box<Tag<Expr>>>) -> bool
    decreases args,
{
    if args.len() == 0 {
        true
    } else {
        expr_small(*args[0]) && small_list(args.drop_first())
    }
}

/// A signature with at most eight parameters, small types, and a small body.
pub open spec fn sig_small(sig: FunSignature) -> bool
    decreases sig,
{
    &&& small_ty(fun_ty_v(sig))
    &&& forall|i: int| 0 <= i < sig.params.item@.len() ==> small_ty(erase(*(#[trigger] sig.params.item@[i]).1.item))
    &&& expr_small(*sig.body)
}

/// Every function of a program has a small signature and body.
pub open spec fn program_small(tops: Seq<Tag<Top>>) -> bool {
    forall|i: int| 0 <= i < tops.len() ==> sig_small(#[trigger] top_sig(tops[i]))
}

/// The functions declared in a construct, nested ones included, in the order in which the
/// checker finishes them: a function comes after every function declared in its body.
pub open spec fn declared(e: Tag<Expr>) -> Seq<Seq<char>>
    decreases e,
{
    match *e.item {
        Expr::Unit | Expr::Bool(_) | Expr::Int(_) | Expr::Ident(_) => Seq::empty(),
        Expr::BinOp(l, _, r) => declared(*l) + declared(*r),
        Expr::Sequence(a, b) => declared(*a) + declared(*b),
        Expr::If(c, t, f) => declared(*c) + declared(*t) + declared(*f),
        Expr::FunApp(f, args) => declared(*f) + declared_list(args.item@),
        Expr::Let(_, _, rhs, rest) => declared(*rhs) + declared(*rest),
        Expr::FunDec(sig, rest) => declared_in_fun(sig) + declared(*rest),
        Expr::Print(x) => declared(*x),
        Expr::Block(x) => declared(*x),
    }
}

pub open spec fn declared_list(args: Seq<Box<Tag<Expr>>>) -> Seq<Seq<char>>
    decreases args,
{
    if args.len() == 0 {
        Seq::empty()
    } else {
        declared(*args[0]) + declared_list(args.drop_first())
    }
}

/// The functions declared in a function's body, then the function itself.
pub open spec fn declared_in_fun(sig: FunSignature) -> Seq<Seq<char>>
    decreases sig,
{
    declared(*sig.body).push(sig.name.item@)
}

/// The functions of the first `n` top-level items, each after those nested in it.
pub open spec fn declared_in_program(tops: Seq<Tag<Top>>, n: nat) -> Seq<Seq<char>>
    decreases n,
{
    if n == 0 || n > tops.len() {
        Seq::empty()
    } else {
        declared_in_program(tops, (n - 1) as nat) + declared_in_fun(top_sig(tops[n - 1]))
    }
}

/// The types of the operators: on two integers, `+`, `-`, `*` and `/` give an integer and
/// `>`, `>=`, `<` and `<=` a truth value; `==` and `!=` on two operands of one type give a truth
/// value.
pub proof fn lemma_operator_types(op: BinOp, t: Ty, lsp: Span, rsp: Span)
    ensures
        (op == BinOp::Add || op == BinOp::Sub || op == BinOp::Mul || op == BinOp::Div)
            ==> binop_result(op, Ty::I64, lsp, Ty::I64, rsp) == Outcome::Typed(Ty::I64),
        (op == BinOp::Gt || op == BinOp::Gte || op == BinOp::Lt || op == BinOp::Lte)
            ==> binop_result(op, Ty::I64, lsp, Ty::I64, rsp) == Outcome::Typed(Ty::Bool),
        (op == BinOp::Eq || op == BinOp::Ne) ==> binop_result(op, t, lsp, t, rsp) == Outcome::Typed(Ty::Bool),
{
}

} // verus!
