use interp::ast::{Expr, Operator, Var};
use interp::error::Error;
use interp::eval::Eval;
use interp::interpreter::{Compile, Interpreter};
use interp::memory::Memory;
use interp::parser::CodeParser;

fn run(src: &str) -> Result<i32, Error> {
    Interpreter::from_source(src)
}

fn lit(i: i32) -> Box<Expr> {
    Box::new(Expr::Literal(i))
}

fn var(name: &str, expr: Expr) -> Var {
    Var { name: name.to_string(), expr }
}

#[test]
fn binding_values_are_computed() {
    assert_eq!(run("main { let s = 1 + 2; }"), Ok(3));
    assert_eq!(run("main { let s = 3 - 1; }"), Ok(2));
    assert_eq!(run("main { let s = 3*2; }"), Ok(6));
    assert_eq!(run("main { let s = 6/2; }"), Ok(3));
    assert_eq!(run("fn main(){let s = 1 + 2;}"), Ok(0));
}

#[test]
fn binding_is_visible_in_memory() {
    let parser = CodeParser::default();
    let ast = parser.parse("fn main(){let s = 1 + 2;}").unwrap();
    let mut memory = Memory::new();
    memory.add(&ast[0].vars[0]);
    let ev = Eval::new(memory);
    assert_eq!(ev.eval(&Expr::Reference("s".to_string())), Ok(3));
}

#[test]
fn crement_adds_or_takes_one() {
    assert_eq!(run("main { s = 2++; }"), Ok(3));
    assert_eq!(run("main { s = 3--; }"), Ok(2));
    assert_eq!(run("main { s = 2; t = s++; }"), Ok(2 + 3));
    assert_eq!(run("main { s = 3; t = s--; }"), Ok(3 + 2));
    assert_eq!(run("fn main(){let s = 2; s++;}"), Ok(0));
}

#[test]
fn grouping_overrides_order() {
    assert_eq!(run("main { s = 3+(5*4); }"), Ok(23));
    assert_eq!(run("main { s = (3+5)*4; }"), Ok(32));
    assert_eq!(run("main { s = 3+5*4; }"), Ok(32));
    assert_eq!(run("main { s = 10 - 2 - 3; }"), Ok(5));
}

#[test]
fn reference_chain_resolves() {
    let mut memory = Memory::new();
    memory.add(&var("a", Expr::Literal(2)));
    memory.add(&var("b", Expr::Reference("a".to_string())));
    let ev = Eval::new(memory);
    assert_eq!(ev.eval(&Expr::Reference("b".to_string())), Ok(2));
    assert_eq!(run("main { a = 2; b = a; b; }"), Ok(4));
}

#[test]
fn division_by_zero_fails() {
    assert_eq!(run("fn main(){5/0;}"), Err(Error::DivisionByZero));
    assert_eq!(run("fn main(){0/0;}"), Err(Error::DivisionByZero));
    assert_eq!(run("fn main(){-2147483648/0;}"), Err(Error::DivisionByZero));
    assert_eq!(run("main { a = 7 / (3 - 3); }"), Err(Error::DivisionByZero));
}

#[test]
fn rendering_reparses_to_same_tree() {
    let e = Expr::Binary {
        lhs: Box::new(Expr::Binary { lhs: lit(1), op: Operator::Add, rhs: lit(2) }),
        op: Operator::Mul,
        rhs: lit(-3),
    };
    let text = e.to_infix();
    assert_eq!(text, "1 + 2 * -3");
    let parser = CodeParser::default();
    let ast = parser.parse(&format!("fn main(){{{};}}", text)).unwrap();
    let back = &ast[0].exprs[0];
    assert_eq!(back.to_infix(), text);
    match back {
        Expr::Binary { lhs, op: Operator::Mul, rhs } => {
            assert!(matches!(**rhs, Expr::Literal(-3)));
            assert!(matches!(**lhs, Expr::Binary { op: Operator::Add, .. }));
        }
        _ => panic!("expected a product"),
    }
}

#[test]
fn nested_operands_round_trip() {
    let parser = CodeParser::default();
    let inner = Expr::Binary { lhs: lit(2), op: Operator::Mul, rhs: lit(3) };
    let e = Expr::Binary { lhs: lit(1), op: Operator::Add, rhs: Box::new(inner) };
    let text = e.to_infix();
    assert_eq!(text, "1 + (2 * 3)");
    let (back, q) = parser.build_ast_from_expr(&format!("{};", text), 0).unwrap();
    assert_eq!(q, text.chars().count());
    assert_eq!(back.to_infix(), text);
    match back {
        Expr::Binary { lhs, op: Operator::Add, rhs } => {
            assert!(matches!(*lhs, Expr::Literal(1)));
            assert!(matches!(*rhs, Expr::Binary { op: Operator::Mul, .. }));
        }
        _ => panic!("expected a sum"),
    }
    assert_eq!(run(&format!("main {{ x = {}; }}", text)), Ok(7));
    let neg = Expr::Unary { child: Box::new(Expr::Binary { lhs: lit(1), op: Operator::Add, rhs: lit(2) }), op: Operator::Sub };
    let (back, _) = parser.build_ast_from_expr(&format!("{};", neg.to_infix()), 0).unwrap();
    assert!(matches!(back, Expr::Unary { op: Operator::Sub, .. }));
    assert_eq!(back.to_infix(), "-(1 + 2)");
    let neg_neg = Expr::Unary { child: lit(-5), op: Operator::Sub };
    assert_eq!(neg_neg.to_infix(), "--5");
    let (back, _) = parser.build_ast_from_expr("--5;", 0).unwrap();
    match back {
        Expr::Unary { child, op: Operator::Sub } => assert!(matches!(*child, Expr::Literal(-5))),
        _ => panic!("expected a negation"),
    }
    let right = Expr::Binary {
        lhs: lit(1),
        op: Operator::Sub,
        rhs: Box::new(Expr::Binary { lhs: lit(2), op: Operator::Sub, rhs: lit(3) }),
    };
    assert_eq!(right.to_infix(), "1 - (2 - 3)");
    assert_eq!(run(&format!("main {{ x = {}; }}", right.to_infix())), Ok(2));
}

#[test]
fn declaration_order_decides_result() {
    assert_eq!(run("fn main(){let a = 1; let b = a;}"), Ok(0));
    assert_eq!(run("main { a = 1; b = a; }"), Ok(2));
    assert_eq!(run("main { b = a; a = 1; }"), Err(Error::UndefinedVariable));
    assert_eq!(run("fn main(){let b = a; let a = 1;}"), Err(Error::UndefinedVariable));
    assert_eq!(run("main { a = 1; a = a + 1; }"), Ok(1 + 2));
}

#[test]
fn missing_main_is_reported() {
    assert_eq!(run("fn foo(){let s = 2;}"), Err(Error::MissingMain));
    assert_eq!(run(""), Err(Error::MissingMain));
}

#[test]
fn main_is_placed_first() {
    let parser = CodeParser::default();
    let ast = parser.parse("fn foo(){1;} fn main(x: int){2;}").unwrap();
    assert_eq!(ast.len(), 2);
    assert_eq!(ast[0].name, "main");
    assert_eq!(ast[0].args, "x: int");
    assert_eq!(ast[1].name, "foo");
    assert_eq!(ast[0].ret, 0);
}

#[test]
fn parse_errors_are_typed() {
    assert_eq!(run("let s = 2;"), Err(Error::CannotParse));
    assert_eq!(run("fn main(){let s = ;}"), Err(Error::SyntaxError(18)));
    assert_eq!(run("fn main(){1;} junk"), Err(Error::TrailingInput));
    assert_eq!(run("fn main(){99999999999;}"), Err(Error::SyntaxError(10)));
}

#[test]
fn evaluation_errors_are_typed() {
    assert_eq!(run("fn main(){x;}"), Err(Error::UndefinedVariable));
    assert_eq!(run("main { a = 1; b = a; a = b; a; }"), Err(Error::CyclicReference));
    assert_eq!(run("fn main(){100000 * 100000;}"), Err(Error::MultiplyOverflow));
    assert_eq!(run("fn main(){-2147483648 / -1;}"), Err(Error::DivisionOverflow));
    let ev = Eval::default();
    let bad = Expr::Unary { child: lit(1), op: Operator::Mul };
    assert_eq!(ev.eval(&bad), Err(Error::InvalidOperator));
}

#[test]
fn arithmetic_edges() {
    assert_eq!(run("main { x = 2147483647 + 1; }"), Ok(i32::MIN));
    assert_eq!(run("main { x = -2147483648 - 1; }"), Ok(i32::MAX));
    assert_eq!(run("main { x = -7 / 2; }"), Ok(-3));
    assert_eq!(run("main { x = 7 / -2; }"), Ok(-3));
    assert_eq!(run("main { x = - 5; }"), Ok(-5));
    assert_eq!(run("main { x = -(2 + 3); }"), Ok(-5));
    assert_eq!(run("main { x = +4; }"), Ok(4));
    assert_eq!(run("main { x = -(-2147483648); }"), Ok(i32::MIN));
    let ev = Eval::default();
    let comp = Expr::Binary { lhs: lit(0), op: Operator::Comp, rhs: lit(1) };
    assert_eq!(ev.eval(&comp), Ok(-1));
    let odd = Expr::Binary { lhs: lit(5), op: Operator::Incr, rhs: lit(2) };
    assert_eq!(ev.eval(&odd), Err(Error::InvalidOperator));
    let odd = Expr::Binary { lhs: lit(5), op: Operator::Decr, rhs: lit(0) };
    assert_eq!(ev.eval(&odd), Err(Error::InvalidOperator));
}

#[test]
fn calls_stand_for_names() {
    assert_eq!(run("main { a = 5; b = a(); }"), Ok(10));
    assert_eq!(run("fn main(){let a = 5; a();}"), Ok(0));
}

#[test]
fn flat_dialect_sums_bindings() {
    assert_eq!(run("main { a = 2; b = a * 3; }"), Ok(8));
    assert_eq!(run("main {}"), Ok(0));
}

#[test]
fn line_breaks_are_removed() {
    assert_eq!(run("fn main()\r\n{\n let s = 4;\n s;\n}"), Ok(0));
    assert_eq!(run("main {\r\n s = 4;\n}"), Ok(4));
    assert_eq!(run("main { a = 1\n2; }"), Ok(12));
}

#[test]
fn rule_methods_report_positions() {
    let parser = CodeParser::default();
    match parser.build_ast_from_expr("1 + 2;", 0) {
        Ok((e, q)) => {
            assert_eq!(q, 5);
            assert_eq!(e.to_infix(), "1 + 2");
        }
        Err(_) => panic!("expected an expression"),
    }
    assert_eq!(parser.build_ast_from_expr("1 + ;", 0).err(), Some(4));
    match parser.build_var_from_expr("x = 4 * 2;", 0) {
        Ok((v, q)) => {
            assert_eq!(q, 10);
            assert_eq!(v.name, "x");
            assert_eq!(v.expr.to_infix(), "4 * 2");
        }
        Err(_) => panic!("expected a binding"),
    }
    match parser.build_ast("fn f(a) { a; } rest", 0) {
        Ok((f, q)) => {
            assert_eq!(q, 14);
            assert_eq!(f.name, "f");
            assert_eq!(f.args, "a");
            assert_eq!(f.exprs.len(), 1);
        }
        Err(_) => panic!("expected a unit"),
    }
    assert_eq!(parser.build_ast("fn (", 0).err(), Some(3));
    assert_eq!(parser.build_ast("x", 7).err(), Some(7));
    match parser.build_ast_from_expr("a = (b)", 4) {
        Ok((e, q)) => {
            assert_eq!(q, 7);
            assert_eq!(e.to_infix(), "b");
        }
        Err(_) => panic!("expected a group"),
    }
}

#[test]
fn memory_add_and_find() {
    let mut memory = Memory::new();
    assert_eq!(memory.find("a").err(), Some(Error::NotFound));
    memory.add(&var("a", Expr::Literal(1)));
    assert!(matches!(memory.find("a"), Ok(Expr::Literal(1))));
    memory.add(&var("a", Expr::Literal(9)));
    assert!(matches!(memory.find("a"), Ok(Expr::Literal(9))));
    assert_eq!(memory.len(), 2);
    assert_eq!(Memory::default().len(), 0);
}

#[test]
fn infix_rendering() {
    let neg = Expr::Unary { child: lit(5), op: Operator::Sub };
    assert_eq!(neg.to_infix(), "-5");
    let plus = Expr::Unary { child: lit(5), op: Operator::Add };
    assert_eq!(plus.to_infix(), "5");
    let inc = Expr::Binary { lhs: Box::new(Expr::Reference("x".to_string())), op: Operator::Incr, rhs: lit(1) };
    assert_eq!(inc.to_infix(), "x++");
    let dec = Expr::Binary { lhs: lit(4), op: Operator::Decr, rhs: lit(1) };
    assert_eq!(dec.to_infix(), "4--");
    let comp = Expr::Binary { lhs: lit(4), op: Operator::Comp, rhs: lit(1) };
    assert_eq!(comp.to_infix(), "!4");
    let div = Expr::Binary { lhs: lit(-2147483648), op: Operator::Div, rhs: lit(10) };
    assert_eq!(div.to_infix(), "-2147483648 / 10");
    let sum = Expr::Binary { lhs: lit(1), op: Operator::Add, rhs: lit(2) };
    let neg_sum = Expr::Unary { child: Box::new(sum), op: Operator::Sub };
    assert_eq!(neg_sum.to_infix(), "-(1 + 2)");
    let inc_sum = Expr::Binary { lhs: Box::new(neg_sum), op: Operator::Incr, rhs: lit(1) };
    assert_eq!(inc_sum.to_infix(), "(-(1 + 2))++");
    let plus_atom = Expr::Unary { child: lit(7), op: Operator::Add };
    let under = Expr::Binary { lhs: lit(1), op: Operator::Mul, rhs: Box::new(plus_atom) };
    assert_eq!(under.to_infix(), "1 * 7");
    assert!(!inc_sum.is_atom());
    assert!(Expr::Unary { child: lit(7), op: Operator::Add }.is_atom());
}

#[test]
fn duplicate_copies_tree() {
    let e = Expr::Binary { lhs: lit(1), op: Operator::Sub, rhs: Box::new(Expr::Reference("q".to_string())) };
    assert_eq!(e.duplicate().to_infix(), "1 - q");
}
