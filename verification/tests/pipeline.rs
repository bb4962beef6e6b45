use minirust_compiler::codegen::ready::lowerable;
use minirust_compiler::codegen::{emit, select};
use minirust_compiler::ir::symbols::{Label, NameSupply, Temp};
use minirust_compiler::ir::{Expr, Fragment, RelOp, Stmt};
use minirust_compiler::pretty::Pretty;
use minirust_compiler::parse::program;
use minirust_compiler::semant::limits::fits;
use minirust_compiler::semant::{check, try_check};

fn compile(src: &str) -> String {
    let p = program(src).expect("parses");
    assert!(fits(&p));
    let mut names = NameSupply::new();
    let ir = try_check(&p, &mut names).expect("not stuck").expect("well typed");
    for f in &ir.fragments {
        assert!(lowerable(f));
    }
    let code = select(ir.fragments, &mut names);
    emit(&code)
}

fn check_error(src: &str) -> String {
    let p = program(src).expect("parses");
    let mut names = NameSupply::new();
    match check(&p, &mut names) {
        Ok(_) => panic!("expected an error"),
        Err(e) => e.render(src, false),
    }
}

#[test]
fn compiles_print_of_a_constant() {
    let out = compile("fn main() {\n    println!(\"{}\", 7);\n}\n");
    let expected = ".text\n.globl main\n\nmain:\n\taddi\tsp, sp, -48\n\tsd\tra, 40(sp)\n\tsd\tfp, 32(sp)\n\taddi\tfp, sp, 48\n\tli\tt0, 7\n\tsd\tt0, -24(fp)\n\tld\ta0, -24(fp)\n\tcall\tprint_int64\n\tsd\ta0, -32(fp)\n\tld\tt0, -32(fp)\n\tli\tt0, 0\n\taddi\ta0, t0, 0\n\tld\tfp, 32(sp)\n\tld\tra, 40(sp)\n\taddi\tsp, sp, 48\n\tret\n";
    assert!(out.ends_with(expected), "{}", out);
}

#[test]
fn compiles_calls_and_branches() {
    let src = "fn add(a: i64, b: i64) -> i64 { a + b }\nfn main() {\n    let x = add(1, 2);\n    if x > 2 { println!(\"{}\", x) } else { println!(\"{}\", 0) }\n}\n";
    let out = compile(src);
    assert!(out.contains("add:\n\taddi\tsp, sp, -64\n"));
    assert!(out.contains("\tcall\tadd\n"));
    assert!(out.contains("\tblt\tt2, t1, l0\n\tj\tl1\nl0:\n"));
    assert!(out.contains("\tcall\tprint_int64\n"));
    assert_eq!(out.matches("\tret\n").count(), 2);
}

#[test]
fn nested_functions_become_fragments() {
    let src = "fn main() {\n    fn double(x: i64) -> i64 { x * 2 }\n    println!(\"{}\", double(21));\n}\n";
    let out = compile(src);
    assert!(out.contains("double:\n"));
    assert!(out.contains("\tmul\t"));
}

#[test]
fn recursion_is_allowed() {
    let src = "fn fact(n: i64) -> i64 { if n <= 1 { 1 } else { n * fact(n - 1) } }\nfn main() { println!(\"{}\", fact(5)); }";
    let out = compile(src);
    assert!(out.contains("\tcall\tfact\n"));
}

#[test]
fn undefined_identifier_is_reported() {
    let text = check_error("fn main() { x }");
    assert_eq!(text, "error: undefined identifier 'x'\n  |\n1 | fn main() { x }\n  |             ^ not found in scope\n  |");
}

#[test]
fn main_must_return_unit() {
    let text = check_error("fn main() -> i64 { 1 }");
    assert!(text.starts_with("error: main function must return Unit"));
    assert!(text.contains("got i64"));
}

#[test]
fn main_must_exist() {
    let text = check_error("fn f() {}");
    assert!(text.starts_with("error: main function not found"));
}

#[test]
fn main_takes_no_arguments() {
    let text = check_error("fn main(x: i64) {}");
    assert!(text.starts_with("error: main function cannot have arguments"));
}

#[test]
fn only_one_main() {
    let text = check_error("fn main() {}\nfn main() {}");
    assert!(text.starts_with("error: multiple main functions"));
}

#[test]
fn functions_are_declared_once() {
    let text = check_error("fn f() {}\nfn f() {}\nfn main() {}");
    assert!(text.starts_with("error: function 'f' is defined multiple times"));
}

#[test]
fn operands_must_agree() {
    let text = check_error("fn main() { 1 + true }");
    assert!(text.starts_with("error: type mismatch"));
    assert!(text.contains("expected bool"));
    assert!(text.contains("found i64"));
}

#[test]
fn calls_need_functions() {
    let text = check_error("fn main() { let x = 1; x(2) }");
    assert!(text.starts_with("error: expected function"));
}

#[test]
fn argument_count_must_match() {
    let text = check_error("fn f(a: i64) -> i64 { a }\nfn main() { f(1, 2); }");
    assert!(text.starts_with("error: count mismatch"));
    assert!(text.contains("expected 2 arguments"));
    assert!(text.contains("found 1"));
}

#[test]
fn condition_must_be_bool() {
    let text = check_error("fn main() { if 1 { () } }");
    assert!(text.starts_with("error: type mismatch"));
}

#[test]
fn function_in_branch_is_stuck() {
    let p = program("fn main() { if true { fn g() {} } }").unwrap();
    let mut names = NameSupply::new();
    assert!(try_check(&p, &mut names).is_none());
}

#[test]
fn nine_parameters_are_stuck() {
    let src = "fn f(a: i64, b: i64, c: i64, d: i64, e: i64, g: i64, h: i64, i: i64, j: i64) {}\nfn main() {}";
    let p = program(src).unwrap();
    let mut names = NameSupply::new();
    assert!(try_check(&p, &mut names).is_none());
}

#[test]
fn syntax_error_names_what_was_expected() {
    let src = "fn main() { let = 1; }";
    let e = program(src).unwrap_err();
    assert!(e.fits_source(src));
    let text = e.render(src, false);
    assert_eq!(text, "error: syntax error\n  |\n1 | fn main() { let = 1; }\n  |                ^ expected one of non-keyword\n  |");
}

#[test]
fn syntax_error_at_the_end_does_not_fit_the_source() {
    let src = "fn main() { 1 +";
    let e = program(src).unwrap_err();
    assert!(!e.fits_source(src));
}

#[test]
fn frame_pointer_accesses_stay_in_the_frame() {
    let src = "fn f(a: i64, b: i64, c: i64) -> i64 { let d = a * b; d + c }\nfn main() {\n    let x = f(1, 2, 3);\n    let y = f(x, x, x);\n    println!(\"{}\", x + y);\n}\n";
    let out = compile(src);
    let mut size: i64 = 0;
    let mut checked = 0;
    for line in out.lines() {
        if let Some(rest) = line.strip_prefix("\taddi\tsp, sp, -") {
            size = rest.parse().unwrap();
            assert_eq!(size % 16, 0);
        }
        if let Some(pos) = line.find("(fp)") {
            let start = line[..pos].rfind(' ').unwrap() + 1;
            let off: i64 = line[start..pos].parse().unwrap();
            assert!(off <= -24 && off >= -size, "{} outside a frame of {}", off, size);
            checked += 1;
        }
    }
    assert!(checked > 0);
}

#[test]
fn one_fragment_per_function_nested_ones_first() {
    let src = "fn outer() -> i64 {\n    fn inner() -> i64 {\n        fn deepest() -> i64 { 1 }\n        deepest()\n    }\n    inner()\n}\nfn main() {\n    fn helper() {}\n    helper();\n    println!(\"{}\", outer());\n}\n";
    let p = program(src).expect("parses");
    let mut names = NameSupply::new();
    let ir = check(&p, &mut names).expect("well typed");
    let labels: Vec<String> = ir
        .fragments
        .iter()
        .map(|f| match f {
            minirust_compiler::ir::Fragment::Proc { label, .. } => label.0.clone(),
        })
        .collect();
    assert_eq!(labels, vec!["deepest", "inner", "outer", "helper", "main"]);
}

#[test]
fn let_and_print_become_two_moves() {
    let p = program("fn main() { let x = 7; println!(\"{}\", x) }").unwrap();
    let mut names = NameSupply::new();
    let ir = check(&p, &mut names).expect("well typed");
    assert_eq!(ir.fragments.len(), 1);
    let Fragment::Proc { label, body, .. } = &ir.fragments[0];
    assert_eq!(label.0, "main");
    let expected = vec![
        Stmt::Move(Expr::Temp(Temp(11)), Expr::Const(7)),
        Stmt::Move(
            Expr::Temp(Temp(2)),
            Expr::Call(Box::new(Expr::Name(Label::with_name("print_int64"))), vec![Expr::Temp(Temp(11))]),
        ),
    ];
    let shown: Vec<String> = body.iter().map(|s| s.pretty(0)).collect();
    let want: Vec<String> = expected.iter().map(|s| s.pretty(0)).collect();
    assert_eq!(shown, want);
    assert_eq!(names.next_temp, 12);
    assert_eq!(names.next_label, 0);
    let mut ir = ir;
    let Fragment::Proc { frame, .. } = &mut ir.fragments[0];
    assert_eq!(frame.get_offset(Temp(11)), -24);
    assert_eq!(frame.size(), 32);
}

#[test]
fn comparison_in_a_branch_jumps_on_the_comparison() {
    let p = program("fn main() { if 1 < 2 { println!(\"{}\", 1) } else { println!(\"{}\", 2) } }").unwrap();
    let mut names = NameSupply::new();
    let ir = check(&p, &mut names).expect("well typed");
    let Fragment::Proc { body, .. } = &ir.fragments[0];
    let shown: Vec<String> = body.iter().map(|s| s.pretty(0)).collect();
    assert_eq!(shown[0], Stmt::CJump(RelOp::Lt, Expr::Const(1), Expr::Const(2), Label::with_name("l0"), Label::with_name("l1")).pretty(0));
    assert_eq!(shown[1], ":l0");
    assert_eq!(names.next_label, 3);
}

#[test]
fn nested_conditions_get_their_names_when_used() {
    let p = program("fn main() { if (1 < 2) == (3 < 4) { println!(\"{}\", 1) } else { println!(\"{}\", 2) } }").unwrap();
    let mut names = NameSupply::new();
    let ir = check(&p, &mut names).expect("well typed");
    let Fragment::Proc { body, .. } = &ir.fragments[0];
    let shown: Vec<String> = body.iter().map(|s| s.pretty(0)).collect();
    let inner = Stmt::CJump(RelOp::Lt, Expr::Const(1), Expr::Const(2), Label::with_name("l3"), Label::with_name("l4")).pretty(0);
    assert!(shown.contains(&inner));
    assert_eq!(names.next_label, 7);
}

#[test]
fn arithmetic_on_truth_values_points_at_the_left_operand() {
    let text = check_error("fn main() { true + false }");
    assert_eq!(text, "error: type mismatch\n  |\n1 | fn main() { true + false }\n  |             ^^^^ expected i64\n  |");
}

#[test]
fn annotation_mismatch_names_both_types() {
    let text = check_error("fn main() { let x: bool = 1; }");
    assert!(text.starts_with("error: type mismatch"));
    assert!(text.contains("expected bool"));
    assert!(text.contains("found i64"));
}

#[test]
fn function_types_are_compared_part_by_part() {
    let text = check_error("fn f(g: fn(i64) -> i64) {}\nfn main() {\n    fn h(x: bool) -> i64 { 1 }\n    f(h);\n}");
    assert!(text.starts_with("error: type mismatch"));
    assert!(text.contains("expected i64"));
    assert!(text.contains("found bool"));
}
