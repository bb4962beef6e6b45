use minirust_compiler::ast::{BinOp, Error, Expr, Tag, Type};
use minirust_compiler::codegen::register::Register;
use minirust_compiler::codegen::{Instr, Offset};
use minirust_compiler::ir::canonical::linearize;
use minirust_compiler::ir::frame::{Access, Frame};
use minirust_compiler::ir::symbols::{Label, NameSupply, Temp};
use minirust_compiler::ir::{self, Stmt};
use minirust_compiler::parse::program;
use minirust_compiler::pretty::{space, Pretty};
use minirust_compiler::semant::env::{Binding, Entry, Environment};
use minirust_compiler::text::decimal_string;
use minirust_compiler::typing::type_check;

fn ty(t: Type) -> Tag<Type> {
    Tag::new(t, (0, 0))
}

fn fun_ty(args: Vec<Type>, ret: Type) -> Type {
    Type::Fun(Tag::new(args.into_iter().map(ty).collect(), (0, 0)), Box::new(ty(ret)))
}

#[test]
fn frame_starts_below_the_saved_registers() {
    let mut names = NameSupply::new();
    let mut f = Frame::new(String::from("main"));
    assert_eq!(f.size(), 32);
    let a = f.alloc_local(&mut names);
    let b = f.alloc_local(&mut names);
    let (Access::InReg(ta), Access::InReg(tb)) = (a, b);
    assert_eq!(ta, Temp(11));
    assert_eq!(tb, Temp(12));
    assert_eq!(f.get_offset(ta), -24);
    assert_eq!(f.get_offset(tb), -32);
    assert_eq!(f.size(), 48);
}

#[test]
fn distinct_temporaries_get_distinct_slots() {
    let mut f = Frame::new(String::from("g"));
    let x = f.get_offset(Temp(40));
    let y = f.get_offset(Temp(41));
    assert_ne!(x, y);
    assert_eq!(f.get_offset(Temp(40)), x);
}

#[test]
fn fresh_labels_and_temps_differ() {
    let mut names = NameSupply::new();
    let l0 = Label::new(&mut names);
    let l1 = Label::new(&mut names);
    assert_eq!(l0.0, "l0");
    assert_eq!(l1.0, "l1");
    let t0 = Temp::new(&mut names);
    let t1 = Temp::new(&mut names);
    assert_ne!(t0, t1);
    assert_eq!(Label::with_name("main").0, "main");
}

#[test]
fn decimal_text_of_numbers() {
    assert_eq!(decimal_string(0), "0");
    assert_eq!(decimal_string(1203), "1203");
    assert_ne!(decimal_string(12), decimal_string(21));
}

#[test]
fn indentation_is_two_spaces_per_level() {
    assert_eq!(space(0), "");
    assert_eq!(space(3), "      ");
}

#[test]
fn type_text_and_shape_equality() {
    let f = fun_ty(vec![Type::I64, Type::Bool], Type::Unit);
    assert_eq!(f.display(), "fn(i64, bool) -> ()");
    let g = fun_ty(vec![Type::I64, Type::Bool], Type::Unit);
    assert!(f.matches(&g));
    assert!(g.matches(&f));
    assert!(!f.matches(&Type::I64));
    assert!(ty(Type::Bool).assert_eq(&ty(Type::Bool)).is_ok());
    assert!(ty(Type::Bool).assert_eq(&ty(Type::I64)).is_err());
}

#[test]
fn local_bindings_hide_globals() {
    let mut env = Environment::new();
    env.insert_global(String::from("x"), Entry { ty: ty(Type::I64), binding: Binding::Fun(Label::with_name("x")) });
    let inner = env.with_local(String::from("x"), Entry { ty: ty(Type::Bool), binding: Binding::Var(Access::InReg(Temp(20))) });
    assert!(matches!(*inner.lookup("x").unwrap().ty.item, Type::Bool));
    assert!(matches!(*env.lookup("x").unwrap().ty.item, Type::I64));
    assert!(env.lookup("y").is_none());
    let body = inner.for_body();
    assert!(matches!(*body.lookup("x").unwrap().ty.item, Type::I64));
}

#[test]
fn error_builder_keeps_its_parts() {
    let e = Error::new("bad thing").label("here", (0, 1)).help("try again");
    let text = e.render("x", false);
    assert!(text.starts_with("error: bad thing"));
    assert!(text.contains("here"));
    assert!(text.contains("help: try again"));
}

#[test]
fn instructions_are_written_as_assembly() {
    let i = Instr::Store { src: Register::T0, dst: Offset { reg: Register::Fp, offset: -24 } };
    assert_eq!(i.display(), "\tsd\tt0, -24(fp)");
    assert_eq!(Instr::Return.display(), "\tret");
}

#[test]
fn linearize_flattens_sequences() {
    let mut names = NameSupply::new();
    let s = Stmt::Sequence(
        Box::new(Stmt::Label(Label::with_name("a"))),
        Box::new(Stmt::Sequence(Box::new(Stmt::Expr(ir::Expr::Const(0))), Box::new(Stmt::Label(Label::with_name("b"))))),
    );
    let out = linearize(s, &mut names);
    assert_eq!(out.len(), 2);
    assert!(out.iter().all(|s| !matches!(s, Stmt::Sequence(_, _))));
}

#[test]
fn older_checker_accepts_and_rejects() {
    let ok = program("fn f(a: i64) -> i64 { a + 1 }\nfn main() { let y = f(2); println!(\"{}\", y); }").unwrap();
    assert!(type_check(&ok).is_ok());
    let bad = program("fn main() { 1 + true }").unwrap();
    assert!(type_check(&bad).is_err());
    let no_main = program("fn f() {}").unwrap();
    assert!(type_check(&no_main).is_err());
    let two = program("fn main() {}\nfn main() {}").unwrap();
    assert!(type_check(&two).is_err());
    let nested = program("fn main() {\n    fn g(x: i64) -> i64 { x }\n    g(1);\n}").unwrap();
    assert!(type_check(&nested).is_ok());
}

#[test]
fn expressions_are_shown_as_trees() {
    assert_eq!(Expr::Int(-3).pretty(0), "Int(-3)");
    assert_eq!(BinOp::Gte.pretty(0), ">=");
    let e = Expr::BinOp(Tag::boxed(Expr::Int(1), (0, 1)), Tag::new(BinOp::Add, (2, 3)), Tag::boxed(Expr::Bool(true), (4, 8)));
    assert_eq!(e.pretty(0), "BinOp(Add, Int(1), true)");
    let p = program("fn main() { x; y }").unwrap();
    assert_eq!(
        p.pretty(0),
        "Program([\n  FunDec(\n    name: main,\n    args: [], ret: (),\n    body: Seq(\n      Ident(\"x\"),\n      Ident(\"y\")\n    )\n  )\n])"
    );
}

#[test]
fn ir_statements_are_shown_indented() {
    let s = Stmt::Move(ir::Expr::Temp(Temp(11)), ir::Expr::Const(5));
    assert_eq!(s.pretty(1), "  Move(\n    t11,\n    Const(5)\n  )");
    let j = Stmt::Label(Label::with_name("l3"));
    assert_eq!(j.pretty(0), ":l3");
}

fn older_checker_headline(src: &str) -> String {
    let p = program(src).unwrap();
    match type_check(&p) {
        Ok(()) => panic!("expected an error"),
        Err(e) => e.render(src, false).lines().next().unwrap().to_string(),
    }
}

#[test]
fn older_checker_reports_the_first_problem() {
    assert_eq!(older_checker_headline("fn main() { 1 + true }"), "error: type mismatch");
    assert_eq!(older_checker_headline("fn f() {}"), "error: main function not found");
    assert_eq!(older_checker_headline("fn main() {}\nfn main() {}"), "error: duplicated main function");
    assert_eq!(older_checker_headline("fn main() -> i64 { 1 }"), "error: main function must return Unit");
    assert_eq!(older_checker_headline("fn main() { x }"), "error: undefined identifier 'x'");
    assert_eq!(older_checker_headline("fn main() { let x = 1; x(2) }"), "error: expected function");
    assert_eq!(older_checker_headline("fn f(a: i64) {}\nfn main() { f(1, 2) }"), "error: count mismatch");
}

fn plain_checker_text(src: &str) -> String {
    let p = program(src).unwrap();
    match type_check(&p) {
        Ok(()) => panic!("expected an error"),
        Err(e) => e.render(src, false),
    }
}

#[test]
fn plain_checker_labels_the_operand_and_the_expression() {
    let text = plain_checker_text("fn main() { true + 1 }");
    assert!(text.starts_with("error: type mismatch"));
    assert!(text.contains("expected i64"));
    assert!(text.contains("found bool"));
}

#[test]
fn plain_checker_labels_an_unknown_name() {
    let text = plain_checker_text("fn main() { x }");
    assert_eq!(text, "error: undefined identifier 'x'\n  |\n1 | fn main() { x }\n  |             ^ not found in scope\n  |");
}

#[test]
fn plain_checker_labels_both_mains() {
    let text = plain_checker_text("fn main() {}\nfn main() {}");
    assert!(text.contains("first definition"));
    assert!(text.contains("second definition"));
}

#[test]
fn linearize_keeps_labels_inside_expressions_in_order() {
    let mut names = NameSupply::new();
    let inner = ir::Expr::ESeq(Box::new(Stmt::Label(Label::with_name("b"))), Box::new(ir::Expr::Const(1)));
    let s = Stmt::Sequence(
        Box::new(Stmt::Label(Label::with_name("a"))),
        Box::new(Stmt::Sequence(
            Box::new(Stmt::Expr(inner)),
            Box::new(Stmt::Label(Label::with_name("c"))),
        )),
    );
    let out = linearize(s, &mut names);
    let placed: Vec<String> = out
        .iter()
        .filter_map(|st| match st {
            Stmt::Label(l) => Some(l.0.clone()),
            _ => None,
        })
        .collect();
    assert_eq!(placed, vec!["a", "b", "c"]);
}

#[test]
fn a_new_supply_counts_temps_from_eleven_and_labels_from_zero() {
    let mut names = NameSupply::new();
    let t0 = Temp::new(&mut names);
    let t1 = Temp::new(&mut names);
    let l0 = Label::new(&mut names);
    let l1 = Label::new(&mut names);
    assert_eq!((t0.0, t1.0), (11, 12));
    assert_eq!((l0.0.as_str(), l1.0.as_str()), ("l0", "l1"));
}
