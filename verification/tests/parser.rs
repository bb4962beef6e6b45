use minirust_compiler::parse::scan::{mark, Log};
use minirust_compiler::ast::{BinOp, Expr, Top, Type};
use minirust_compiler::parse::program;

fn body_of(src: &str) -> minirust_compiler::ast::_Expr {
    let mut p = program(src).expect("parses");
    assert_eq!(p.len(), 1);
    let top = p.remove(0);
    match *top.item {
        Top::FunDec(sig) => sig.body,
    }
}

#[test]
fn parses_main_with_print() {
    let src = "fn main() {\n    println!(\"{}\", 1 + 2 * 3);\n}\n";
    let p = program(src).expect("parses");
    assert_eq!(p.len(), 1);
    let Top::FunDec(sig) = &*p[0].item;
    assert_eq!(*sig.name.item, "main");
    assert_eq!(sig.name.span, (3, 7));
    assert!(matches!(*sig.ret.item, Type::Unit));
    assert_eq!(sig.ret.span, (3, 7));
    assert_eq!(p[0].span, (0, src.len() - 1));
    match &*sig.body.item {
        Expr::Sequence(first, second) => {
            assert!(matches!(*second.item, Expr::Unit));
            match &*first.item {
                Expr::Print(e) => match &*e.item {
                    Expr::BinOp(l, op, r) => {
                        assert!(matches!(*l.item, Expr::Int(1)));
                        assert_eq!(*op.item, BinOp::Add);
                        assert!(matches!(&*r.item, Expr::BinOp(_, m, _) if *m.item == BinOp::Mul));
                    }
                    _ => panic!("expected a sum"),
                },
                _ => panic!("expected a print"),
            }
        }
        _ => panic!("expected a sequence"),
    }
}

#[test]
fn sequence_groups_to_the_left() {
    let b = body_of("fn main() { a; b; c }");
    match &*b.item {
        Expr::Sequence(ab, c) => {
            assert!(matches!(&*c.item, Expr::Ident(x) if *x.item == "c"));
            assert!(matches!(&*ab.item, Expr::Sequence(_, _)));
        }
        _ => panic!("expected a sequence"),
    }
}

#[test]
fn let_takes_the_rest_of_the_body() {
    let b = body_of("fn main() {\n    let x: i64 = 5;\n    println!(\"{}\", x);\n}");
    match &*b.item {
        Expr::Let(id, ann, rhs, rest) => {
            assert_eq!(*id.item, "x");
            assert!(matches!(ann.as_ref().map(|t| &*t.item), Some(Type::I64)));
            assert!(matches!(*rhs.item, Expr::Int(5)));
            assert!(matches!(&*rest.item, Expr::Sequence(_, _)));
        }
        _ => panic!("expected a let"),
    }
}

#[test]
fn comparison_binds_looser_than_sum() {
    let b = body_of("fn main() { 1 + 2 >= 3 }");
    match &*b.item {
        Expr::BinOp(l, op, _) => {
            assert_eq!(*op.item, BinOp::Gte);
            assert!(matches!(&*l.item, Expr::BinOp(_, o, _) if *o.item == BinOp::Add));
        }
        _ => panic!("expected a comparison"),
    }
}

#[test]
fn nested_function_and_call() {
    let src = "fn main() {\n    fn f(a: i64, b: bool) -> i64 { a }\n    f(1, true);\n}";
    let b = body_of(src);
    match &*b.item {
        Expr::FunDec(sig, rest) => {
            assert_eq!(*sig.name.item, "f");
            assert_eq!(sig.params.item.len(), 2);
            assert!(matches!(*sig.ret.item, Type::I64));
            match &*rest.item {
                Expr::Sequence(call, _) => match &*call.item {
                    Expr::FunApp(f, args) => {
                        assert!(matches!(&*f.item, Expr::Ident(x) if *x.item == "f"));
                        assert_eq!(args.item.len(), 2);
                    }
                    _ => panic!("expected a call"),
                },
                _ => panic!("expected a sequence"),
            }
        }
        _ => panic!("expected a function declaration"),
    }
}

#[test]
fn if_without_else_has_unit_branch() {
    let b = body_of("fn main() { if true { 1 } }");
    match &*b.item {
        Expr::If(c, t, f) => {
            assert!(matches!(*c.item, Expr::Bool(true)));
            assert!(matches!(*t.item, Expr::Int(1)));
            assert!(matches!(*f.item, Expr::Unit));
            assert_eq!(f.span, t.span);
        }
        _ => panic!("expected an if"),
    }
}

#[test]
fn several_top_functions_and_comments() {
    let src = "// leading\nfn f() -> i64 { /* c */ 1 }\nfn main() {\n    f();\n}\n";
    let p = program(src).expect("parses");
    assert_eq!(p.len(), 2);
}

#[test]
fn parenthesized_number_keeps_value() {
    let b = body_of("fn main() { (42) }");
    assert!(matches!(*b.item, Expr::Int(42)));
    assert_eq!(b.span, (12, 16));
}

#[test]
fn syntax_error_points_at_the_failure() {
    let src = "fn main() { let = 1; }";
    let e = program(src).unwrap_err();
    let text = e.render(src, false);
    assert!(text.contains("syntax error"));
}

#[test]
fn keyword_is_no_identifier() {
    assert!(program("fn let() {}").is_err());
}

#[test]
fn overflowing_number_is_rejected() {
    assert!(program("fn main() { 99999999999999999999 }").is_err());
    assert!(program("fn main() { 9223372036854775807 }").is_ok());
}

#[test]
fn missing_separator_between_functions() {
    assert!(program("fn f() {} fn main() {}").is_err());
    assert!(program("fn f() {}; fn main() {}").is_ok());
}

#[test]
fn subtraction_groups_to_the_left_unless_parenthesized() {
    let b = body_of("fn main() { 9 - 4 - 2 }");
    match &*b.item {
        Expr::BinOp(l, op, r) => {
            assert_eq!(*op.item, BinOp::Sub);
            assert!(matches!(*r.item, Expr::Int(2)));
            assert!(matches!(&*l.item, Expr::BinOp(_, m, _) if *m.item == BinOp::Sub));
        },
        _ => panic!("expected an operator"),
    }
    let b = body_of("fn main() { 9 - (4 - 2) }");
    match &*b.item {
        Expr::BinOp(l, op, r) => {
            assert_eq!(*op.item, BinOp::Sub);
            assert!(matches!(*l.item, Expr::Int(9)));
            assert!(matches!(&*r.item, Expr::BinOp(_, m, _) if *m.item == BinOp::Sub));
            assert_eq!(r.span, (16, 23));
        },
        _ => panic!("expected an operator"),
    }
}

#[test]
fn the_log_keeps_what_was_expected_furthest() {
    let mut log = Log::new();
    mark(&mut log, 3, "a");
    mark(&mut log, 3, "b");
    mark(&mut log, 3, "a");
    assert_eq!(log.far, 3);
    assert_eq!(log.expected, vec!["a".to_string(), "b".to_string()]);
    mark(&mut log, 1, "c");
    assert_eq!(log.far, 3);
    assert_eq!(log.expected.len(), 2);
    mark(&mut log, 5, "d");
    assert_eq!(log.far, 5);
    assert_eq!(log.expected, vec!["d".to_string()]);
}


#[test]
fn calls_keep_every_argument_at_its_span() {
    let b = body_of("fn main() { g(1, x, (2 + 3)) }");
    match *b.item {
        Expr::FunApp(_, args) => {
            assert_eq!(args.item.len(), 3);
            assert_eq!(args.item[0].span, (14, 15));
            assert_eq!(args.item[1].span, (17, 18));
            assert_eq!(args.item[2].span, (20, 27));
            assert!(matches!(*args.item[2].item, Expr::BinOp(_, _, _)));
        },
        _ => panic!("expected a call"),
    }
}

#[test]
fn parameters_and_their_types_are_all_kept() {
    let mut p = program("fn f(a: i64, b: fn(i64, bool) -> i64, c: ()) {}\nfn main() {}").unwrap();
    let top = p.remove(0);
    match *top.item {
        Top::FunDec(sig) => {
            assert_eq!(sig.params.item.len(), 3);
            match &*sig.params.item[1].1.item {
                Type::Fun(args, _) => assert_eq!(args.item.len(), 2),
                _ => panic!("expected a function type"),
            }
            assert!(matches!(*sig.params.item[2].1.item, Type::Unit));
        },
    }
}
