use arith::{Ast, BinOp, Error, Interpreter, InterpreterError, InterpreterErrorKind, Loc, UniOp, Value};

fn eval_text(interp: &mut Interpreter, s: &str) -> Result<Value, Error> {
    interp.run_line(s)
}

#[test]
fn test_eval() {
    let mut interp = Interpreter::new();

    // "1 + 2"
    let ast = Ast::binop(
        BinOp::add(Loc(2, 3)),
        Ast::num(1, Loc(0, 1)),
        Ast::num(2, Loc(4, 5)),
        Loc(0, 5),
    );

    let result = match interp.eval(&ast).unwrap() {
        Value::Int(n) => n,
        Value::Void => unreachable!(),
    };
    assert_eq!(result, 3);
}

#[test]
fn test_eval_in_paren() {
    let mut interp = Interpreter::new();

    // "2 + (-1)"
    let ast = Ast::binop(
        BinOp::add(Loc(2, 3)),
        Ast::num(2, Loc(0, 1)),
        Ast::uniop(UniOp::minus(Loc(5, 6)), Ast::num(1, Loc(6, 7)), Loc(6, 7)),
        Loc(0, 7),
    );

    let result = match interp.eval(&ast).unwrap() {
        Value::Int(n) => n,
        Value::Void => unreachable!(),
    };
    assert_eq!(result, 1);
}

#[test]
fn test_eval_in_0() {
    let mut interp = Interpreter::new();

    // "1 + 2 - 3 * 2"
    let ast = Ast::binop(
        BinOp::sub(Loc(6, 7)),
        Ast::binop(
            BinOp::add(Loc(2, 3)),
            Ast::num(1, Loc(0, 1)),
            Ast::num(2, Loc(4, 5)),
            Loc(0, 5),
        ),
        Ast::binop(
            BinOp::mul(Loc(10, 11)),
            Ast::num(3, Loc(8, 9)),
            Ast::num(2, Loc(12, 13)),
            Loc(8, 13),
        ),
        Loc(0, 13),
    );

    let result = match interp.eval(&ast).unwrap() {
        Value::Int(n) => n,
        Value::Void => unreachable!(),
    };
    assert_eq!(result, -3);
}

#[test]
fn eval_subtraction_is_left_associative() {
    let mut interp = Interpreter::new();
    assert_eq!(eval_text(&mut interp, "1 - 2 - 3"), Ok(Value::Int(-4)));
}

#[test]
fn eval_respects_precedence_and_parens() {
    let mut interp = Interpreter::new();
    assert_eq!(eval_text(&mut interp, "1 + 2 * 3"), Ok(Value::Int(7)));
    assert_eq!(eval_text(&mut interp, "(1 + 2) * 3"), Ok(Value::Int(9)));
}

#[test]
fn eval_division_by_zero_covers_whole_expression() {
    let mut interp = Interpreter::new();
    assert_eq!(
        eval_text(&mut interp, "4 / 0"),
        Err(Error::Interpreter(InterpreterError::new(
            InterpreterErrorKind::DivisionByZero,
            Loc(0, 5)
        )))
    );
}

#[test]
fn eval_unbound_variable() {
    let mut interp = Interpreter::new();
    assert_eq!(
        eval_text(&mut interp, "x"),
        Err(Error::Interpreter(InterpreterError::new(
            InterpreterErrorKind::UnboundVariable("x".to_string()),
            Loc(0, 1)
        )))
    );
}

#[test]
fn eval_binding_round_trip() {
    let mut interp = Interpreter::new();
    assert_eq!(eval_text(&mut interp, "x := 5"), Ok(Value::Void));
    assert_eq!(eval_text(&mut interp, "x + 1"), Ok(Value::Int(6)));
}

#[test]
fn eval_rebinding_overwrites() {
    let mut interp = Interpreter::new();
    assert_eq!(eval_text(&mut interp, "x := 5"), Ok(Value::Void));
    assert_eq!(eval_text(&mut interp, "y := x * 2"), Ok(Value::Void));
    assert_eq!(eval_text(&mut interp, "x := y + 1"), Ok(Value::Void));
    assert_eq!(eval_text(&mut interp, "x * 100 + y"), Ok(Value::Int(1110)));
}

#[test]
fn eval_failed_binding_leaves_environment() {
    let mut interp = Interpreter::new();
    assert_eq!(eval_text(&mut interp, "x := 5"), Ok(Value::Void));
    assert!(eval_text(&mut interp, "x := 1 / 0").is_err());
    assert_eq!(eval_text(&mut interp, "x"), Ok(Value::Int(5)));
}

#[test]
fn sessions_are_independent() {
    let mut a = Interpreter::new();
    let mut b = Interpreter::new();
    assert_eq!(eval_text(&mut a, "v := 3"), Ok(Value::Void));
    assert!(eval_text(&mut b, "v").is_err());
}

#[test]
fn eval_unary_signs() {
    let mut interp = Interpreter::new();
    assert_eq!(eval_text(&mut interp, "-5 + +2"), Ok(Value::Int(-3)));
    assert_eq!(eval_text(&mut interp, "-(2 * 3)"), Ok(Value::Int(-6)));
}

#[test]
fn eval_division_truncates_toward_zero() {
    let mut interp = Interpreter::new();
    assert_eq!(eval_text(&mut interp, "7 / 2"), Ok(Value::Int(3)));
    assert_eq!(eval_text(&mut interp, "-7 / 2"), Ok(Value::Int(-3)));
    assert_eq!(eval_text(&mut interp, "7 / -2"), Ok(Value::Int(-3)));
    assert_eq!(eval_text(&mut interp, "-7 / -2"), Ok(Value::Int(3)));
}

#[test]
fn eval_wraps_on_overflow() {
    let mut interp = Interpreter::new();
    assert_eq!(
        eval_text(&mut interp, "9223372036854775807 + 1"),
        Ok(Value::Int(i64::MIN))
    );
    assert_eq!(
        eval_text(&mut interp, "9223372036854775808 / -1"),
        Ok(Value::Int(i64::MIN))
    );
    assert_eq!(
        eval_text(&mut interp, "18446744073709551615"),
        Ok(Value::Int(-1))
    );
}

#[test]
fn eval_reports_left_error_first() {
    let mut interp = Interpreter::new();
    assert_eq!(
        eval_text(&mut interp, "a + 1 / 0"),
        Err(Error::Interpreter(InterpreterError::new(
            InterpreterErrorKind::UnboundVariable("a".to_string()),
            Loc(0, 1)
        )))
    );
}

#[test]
fn run_line_reports_each_stage() {
    let mut interp = Interpreter::new();
    assert!(matches!(eval_text(&mut interp, "1 $ 2"), Err(Error::Lexer(_))));
    assert!(matches!(eval_text(&mut interp, "1 +"), Err(Error::Parser(_))));
    assert!(matches!(eval_text(&mut interp, "1 / 0"), Err(Error::Interpreter(_))));
}
