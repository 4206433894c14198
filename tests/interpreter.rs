use smoke::ast::{Ast, Literal, Operation, Operator};
use smoke::interpreter::{
    interpret, Error, FloatOp, Interpreter, Kind, NumberValue, Value, MAX_DEPTH,
};
use smoke::lexer::{tokenize, AnalysisMeta};
use smoke::parser::Parser;
use std::cmp::Ordering;

fn float_op(op: FloatOp) -> u64 {
    let f = f64::from_bits;
    match op {
        FloatOp::Parse(s) => s.parse::<f64>().unwrap().to_bits(),
        FloatOp::FromInt(n) => (n as f64).to_bits(),
        FloatOp::Negate(x) => (-f(x)).to_bits(),
        FloatOp::Add(x, y) => (f(x) + f(y)).to_bits(),
        FloatOp::Subtract(x, y) => (f(x) - f(y)).to_bits(),
        FloatOp::Multiply(x, y) => (f(x) * f(y)).to_bits(),
        FloatOp::Divide(x, y) => (f(x) / f(y)).to_bits(),
        FloatOp::Compare(x, y) => match f(x).partial_cmp(&f(y)) {
            Some(Ordering::Less) => 0,
            Some(Ordering::Equal) => 1,
            Some(Ordering::Greater) => 2,
            None => 3,
        },
    }
}

fn run_in(interp: &mut Interpreter, src: &str) -> Result<Value, Error> {
    let tokens = tokenize(src.chars().collect(), AnalysisMeta::default()).unwrap();
    let program = Parser::new(tokens).parse_program().unwrap();
    interp.run(&program, &float_op)
}

fn run(src: &str) -> Result<Value, Error> {
    run_in(&mut Interpreter::new(), src)
}

fn float(x: f64) -> Value {
    Value::Float(x.to_bits())
}

#[test]
fn block_scope_ends_with_the_block() {
    let mut interp = Interpreter::new();
    assert_eq!(run_in(&mut interp, "{ let x = 1; x + 1 }"), Ok(Value::Integer(2)));
    assert_eq!(
        run_in(&mut interp, "x"),
        Err(Error::ReferenceUndefinedError { name: "x".to_string() })
    );
}

#[test]
fn inner_declaration_shadows_outer() {
    let mut interp = Interpreter::new();
    assert_eq!(run_in(&mut interp, "let x = 1; { let x = 2; x }"), Ok(Value::Integer(2)));
    assert_eq!(run_in(&mut interp, "x"), Ok(Value::Integer(1)));
}

#[test]
fn mixed_arithmetic_widens_to_float() {
    assert_eq!(run("1 + 2.0"), Ok(float(3.0)));
    assert_eq!(run("4 / 2"), Ok(Value::Integer(2)));
    assert_eq!(run("1.5 * 2"), Ok(float(3.0)));
    assert_eq!(run("1 / 4.0"), Ok(float(0.25)));
}

#[test]
fn integer_division_truncates_toward_zero() {
    assert_eq!(run("7 / 2"), Ok(Value::Integer(3)));
    assert_eq!(run("-7 / 2"), Ok(Value::Integer(-3)));
    assert_eq!(run("7 / -2"), Ok(Value::Integer(-3)));
    assert_eq!(run("-7 / -2"), Ok(Value::Integer(3)));
}

#[test]
fn equality_never_crosses_kinds() {
    assert_eq!(run("1 == 1.0"), Ok(Value::Bool(false)));
    assert_eq!(run("1 != 1.0"), Ok(Value::Bool(true)));
    assert_eq!(run("1.0 == 1.0"), Ok(Value::Bool(true)));
    assert_eq!(run("\"a\" == \"a\""), Ok(Value::Bool(true)));
    assert_eq!(run("nil == false"), Ok(Value::Bool(false)));
}

#[test]
fn ordering_coerces_numbers() {
    assert_eq!(run("1 < 1.5"), Ok(Value::Bool(true)));
    assert_eq!(run("2 >= 2"), Ok(Value::Bool(true)));
    assert_eq!(run("2.5 <= 2"), Ok(Value::Bool(false)));
    assert_eq!(run("3 > 2"), Ok(Value::Bool(true)));
}

#[test]
fn declared_function_applies_to_arguments() {
    assert_eq!(run("fn add(a, b) a + b; add(2, 3)"), Ok(Value::Integer(5)));
}

#[test]
fn bare_undeclared_reference_fails() {
    assert_eq!(run("y"), Err(Error::ReferenceUndefinedError { name: "y".to_string() }));
}

#[test]
fn declarations_persist_between_runs() {
    let mut interp = Interpreter::new();
    assert_eq!(run_in(&mut interp, "let a = 20"), Ok(Value::Nil));
    assert_eq!(run_in(&mut interp, "a * 2 + 2"), Ok(Value::Integer(42)));
}

#[test]
fn unary_operators_check_kinds() {
    assert_eq!(run("!true"), Ok(Value::Bool(false)));
    assert_eq!(run("-2.5"), Ok(float(-2.5)));
    assert_eq!(run("!1"), Err(Error::TypeError { expected: Kind::Bool, found: Kind::Integer }));
    assert_eq!(run("-nil"), Err(Error::TypeError { expected: Kind::Number, found: Kind::Nil }));
}

#[test]
fn arithmetic_needs_numbers() {
    assert_eq!(
        run("1 + true"),
        Err(Error::TypeError { expected: Kind::Number, found: Kind::Bool })
    );
    assert_eq!(
        run("\"a\" < 1"),
        Err(Error::TypeError { expected: Kind::Number, found: Kind::Str })
    );
}

#[test]
fn calling_a_non_function_is_a_type_error() {
    assert_eq!(
        run("let f = 3; f(1)"),
        Err(Error::TypeError { expected: Kind::Function, found: Kind::Integer })
    );
}

#[test]
fn arity_mismatch_is_reported() {
    assert_eq!(
        run("fn one(a) a; one(1, 2)"),
        Err(Error::ArityError { expected: 1, found: 2 })
    );
}

#[test]
fn integer_overflow_and_division_by_zero_are_errors() {
    assert_eq!(run("9223372036854775807 + 1"), Err(Error::Overflow));
    assert_eq!(run("1 / 0"), Err(Error::DivisionByZero));
    assert_eq!(run("-9223372036854775807 - 2"), Err(Error::Overflow));
}

#[test]
fn deep_nesting_exhausts_the_depth() {
    let mut ast = Ast::Literal(Literal::Integer(1));
    for _ in 0..MAX_DEPTH + 10 {
        ast = Ast::Operation(Operation::unary(Operator::Negate, ast));
    }
    assert_eq!(interpret(&ast, &float_op), Err(Error::DepthExceeded));
    let src = format!("{}1", "- ".repeat(10));
    assert_eq!(run(&src), Ok(Value::Integer(1)));
    let src = format!("1{}", " + 1".repeat(900));
    assert_eq!(run(&src), Ok(Value::Integer(901)));
}

#[test]
fn failed_block_leaves_outer_scope_usable() {
    let mut interp = Interpreter::new();
    assert_eq!(
        run_in(&mut interp, "let x = 1; { let x = 2; y }"),
        Err(Error::ReferenceUndefinedError { name: "y".to_string() })
    );
    assert_eq!(run_in(&mut interp, "x"), Ok(Value::Integer(1)));
}

#[test]
fn empty_block_is_nil() {
    assert_eq!(run("{}"), Ok(Value::Nil));
    assert_eq!(run(""), Ok(Value::Nil));
}

#[test]
fn functions_see_callers_bindings() {
    assert_eq!(run("let k = 10; fn addk(a) a + k; addk(5)"), Ok(Value::Integer(15)));
}

#[test]
fn fresh_interpret_evaluates_one_tree() {
    let ast = Ast::Operation(Operation::binary(
        Operator::Multiply,
        (Ast::Literal(Literal::Integer(6)), Ast::Literal(Literal::Integer(7))),
    ));
    assert_eq!(interpret(&ast, &float_op), Ok(Value::Integer(42)));
    assert_eq!(
        interpret(&Ast::Literal(Literal::Float("2.5".to_string())), &float_op),
        Ok(float(2.5))
    );
}

#[test]
fn number_values_widen_only_numbers() {
    assert_eq!(Value::Integer(3).into_number(), Ok(NumberValue::Integer(3)));
    assert_eq!(Value::Float(7).into_number(), Ok(NumberValue::Float(7)));
    assert_eq!(
        Value::Bool(true).into_number(),
        Err(Error::TypeError { expected: Kind::Number, found: Kind::Bool })
    );
    assert_eq!(Value::Nil.as_nil(), Some(()));
    assert_eq!(Value::Integer(0).into_nil(), None);
}

#[test]
fn functions_compare_by_parameters_and_body() {
    assert_eq!(run("fn f(a) a + 1; fn g(a) a + 1; f == g"), Ok(Value::Bool(true)));
    assert_eq!(run("fn f(a) a + 1; fn h(b) b + 1; f == h"), Ok(Value::Bool(false)));
    assert_eq!(run("fn f(a) a; f == 1"), Ok(Value::Bool(false)));
}
