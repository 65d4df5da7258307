use uwucode::ast::{Expr, Operator, Prefix, Statement};
use uwucode::env::Env;
use uwucode::eval::{
    eval_builtin, eval_infix, eval_infix_op, eval_prefix, eval_return, EvalError,
    InterpreterAction, Object, Operation,
};
use uwucode::interpreter::{interpret, InterpretError};
use uwucode::lexer::Lexer;
use uwucode::parser::{parse, ParseError};
use uwucode::token::Token;

fn run(src: &str) -> (Result<Object, InterpretError>, Env) {
    let mut env = Env::new();
    let r = interpret(src, &mut env);
    (r, env)
}

#[test]
fn binding_then_reading_a_name() {
    let (r, _) = run("owo name = 5; name;");
    assert_eq!(r, Ok(Object::Integer(5)));
}

#[test]
fn recursive_factorial() {
    let (r, _) = run(
        "owo hehexd = 1; uwu nya(lel) {nuzzles (lel==hehexd) {sugoi hehexd;} rawr {sugoi lel*nya(lel-hehexd);};}; nya(5);",
    );
    assert_eq!(r, Ok(Object::Integer(120)));
}

#[test]
fn while_loop_prints_countdown() {
    let (r, env) = run("owo n = 3; nyaa (n > 0) { dprint(n); owo n = n - 1; }; n;");
    assert_eq!(r, Ok(Object::Integer(0)));
    assert_eq!(
        env.output,
        vec![Object::Integer(3), Object::Integer(2), Object::Integer(1)]
    );
}

#[test]
fn while_loop_with_false_condition_never_runs() {
    let (r, env) = run("owo n = 0; nyaa (n > 0) { dprint(n); owo n = n - 1; }; n;");
    assert_eq!(r, Ok(Object::Integer(0)));
    assert!(env.output.is_empty());
}

#[test]
fn length_of_string() {
    let (r, _) = run("len(\"hello\");");
    assert_eq!(r, Ok(Object::Integer(5)));
    let (r, _) = run("len(\"\");");
    assert_eq!(r, Ok(Object::Integer(0)));
}

#[test]
fn length_counts_characters() {
    let (r, _) = run("len(\"héllo\");");
    assert_eq!(r, Ok(Object::Integer(5)));
}

#[test]
fn division_and_modulo_by_zero() {
    let (r, _) = run("7 / 0;");
    assert_eq!(r, Err(InterpretError::Eval(EvalError::DivisionByZero)));
    let (r, _) = run("7 % 0;");
    assert_eq!(r, Err(InterpretError::Eval(EvalError::DivisionByZero)));
}

#[test]
fn arithmetic_values() {
    assert_eq!(run("1 + 2 * 3;").0, Ok(Object::Integer(7)));
    assert_eq!(run("10 - 4 - 3;").0, Ok(Object::Integer(3)));
    assert_eq!(run("-7 / 2;").0, Ok(Object::Integer(-3)));
    assert_eq!(run("-7 % 2;").0, Ok(Object::Integer(-1)));
    assert_eq!(run("7 % -2;").0, Ok(Object::Integer(1)));
}

#[test]
fn arithmetic_helpers_exact() {
    assert_eq!(eval_infix_op(Operator::Divide, -7, 2), Ok(Object::Integer(-3)));
    assert_eq!(eval_infix_op(Operator::Modulo, -7, 2), Ok(Object::Integer(-1)));
    assert_eq!(eval_infix_op(Operator::Modulo, i64::MIN, -1), Ok(Object::Integer(0)));
    assert_eq!(
        eval_infix_op(Operator::Divide, i64::MIN, -1),
        Err(EvalError::IntegerOverflow)
    );
    assert_eq!(
        eval_infix_op(Operator::Plus, i64::MAX, 1),
        Err(EvalError::IntegerOverflow)
    );
    assert_eq!(
        eval_infix_op(Operator::Multiply, 1 << 40, 1 << 30),
        Err(EvalError::IntegerOverflow)
    );
    assert_eq!(eval_infix_op(Operator::Minus, 3, 10), Ok(Object::Integer(-7)));
}

#[test]
fn integer_equality_and_type_mismatch() {
    assert_eq!(run("3 == 3;").0, Ok(Object::Boolean(true)));
    assert_eq!(run("3 == 4;").0, Ok(Object::Boolean(false)));
    assert_eq!(run("3 != 4;").0, Ok(Object::Boolean(true)));
    assert_eq!(
        run("3 == \"3\";").0,
        Err(InterpretError::Eval(EvalError::TypeMismatch { operation: Operation::Infix(Operator::Equals) }))
    );
    assert_eq!(
        eval_infix(
            Operator::Equals,
            &Object::Integer(1),
            &Object::String(String::from("1"))
        ),
        Err(EvalError::TypeMismatch { operation: Operation::Infix(Operator::Equals) })
    );
}

#[test]
fn string_equality() {
    assert_eq!(run("\"ab\" == \"ab\";").0, Ok(Object::Boolean(true)));
    assert_eq!(run("\"ab\" != \"ab\";").0, Ok(Object::Boolean(false)));
    assert_eq!(
        run("\"ab\" < \"b\";").0,
        Err(InterpretError::Eval(EvalError::TypeMismatch { operation: Operation::Infix(Operator::LessThan) }))
    );
}

#[test]
fn prefix_operators() {
    assert_eq!(run("-5;").0, Ok(Object::Integer(-5)));
    assert_eq!(run("!truwu;").0, Ok(Object::Boolean(false)));
    assert_eq!(
        eval_prefix(Prefix::Minus, &Object::Boolean(true)),
        Err(EvalError::TypeMismatch { operation: Operation::Prefix(Prefix::Minus) })
    );
    assert_eq!(
        eval_prefix(Prefix::Minus, &Object::Integer(i64::MIN)),
        Err(EvalError::IntegerOverflow)
    );
}

#[test]
fn shadowing_in_a_call_does_not_leak() {
    let (r, _) = run("owo x = 1; uwu f() { owo x = 2; x; }; f(); x;");
    assert_eq!(r, Ok(Object::Integer(1)));
    let (r, _) = run("owo x = 1; uwu f() { owo x = 2; x; }; f();");
    assert_eq!(r, Ok(Object::Integer(2)));
}

#[test]
fn closures_see_later_changes() {
    let (r, _) = run("owo k = 1; uwu get() { k; }; owo k = 7; get();");
    assert_eq!(r, Ok(Object::Integer(7)));
}

#[test]
fn unknown_variable() {
    assert_eq!(
        run("missing;").0,
        Err(InterpretError::Eval(EvalError::UnknownVariable(String::from("missing"))))
    );
}

#[test]
fn arity_mismatch() {
    assert_eq!(
        run("uwu f(a, b) { a; }; f(1);").0,
        Err(InterpretError::Eval(EvalError::ArityMismatch {
            expected: 2,
            found: 1
        }))
    );
    assert_eq!(
        run("len(\"a\", \"b\");").0,
        Err(InterpretError::Eval(EvalError::ArityMismatch {
            expected: 1,
            found: 2
        }))
    );
}

#[test]
fn condition_must_be_boolean() {
    assert_eq!(
        run("nuzzles (1) { 2; };").0,
        Err(InterpretError::Eval(EvalError::ConditionTypeError))
    );
    assert_eq!(run("nuzzles (fowose) { 2; };").0, Ok(Object::Null));
    assert_eq!(run("nuzzles (fowose) { 2; } rawr { 3; };").0, Ok(Object::Integer(3)));
}

#[test]
fn calling_a_non_function() {
    assert_eq!(
        run("owo v = 3; v();").0,
        Err(InterpretError::Eval(EvalError::NotAFunction))
    );
}

#[test]
fn unbounded_recursion_is_an_error() {
    assert_eq!(
        run("uwu f(n) { f(n); }; f(1);").0,
        Err(InterpretError::Eval(EvalError::RecursionLimitExceeded))
    );
}

#[test]
fn long_loop_runs_to_completion() {
    let (r, env) = run("owo i = 200000; nyaa (i > 0) { owo i = i - 1; }; i;");
    assert_eq!(r, Ok(Object::Integer(0)));
    assert!(env.output.is_empty());
}

#[test]
fn terminate_stops_the_unit() {
    let (r, env) = run("dprint(1); quwuit(); dprint(2);");
    assert_eq!(r, Ok(Object::Terminate));
    assert_eq!(env.output, vec![Object::Integer(1)]);
    assert_eq!(Object::Terminate.action(), InterpreterAction::Terminate);
    assert_eq!(
        Object::Print(Box::new(Object::Integer(4))).action(),
        InterpreterAction::Print(Object::Integer(4))
    );
    assert_eq!(Object::Null.action(), InterpreterAction::Keep(Object::Null));
}

#[test]
fn builtin_dispatch() {
    let mut env = Env::new();
    assert_eq!(
        eval_builtin("nope", vec![], &mut env),
        Err(EvalError::UnknownBuiltin)
    );
    assert_eq!(
        eval_builtin("quwuit", vec![Object::Null], &mut env),
        Err(EvalError::ArityMismatch {
            expected: 0,
            found: 1
        })
    );
    assert_eq!(
        eval_builtin("len", vec![Object::Integer(3)], &mut env),
        Err(EvalError::TypeMismatch { operation: Operation::Length })
    );
    assert_eq!(
        eval_builtin("dprint", vec![Object::Integer(3)], &mut env),
        Ok(Object::Print(Box::new(Object::Integer(3))))
    );
    assert_eq!(env.output, vec![Object::Integer(3)]);
}

#[test]
fn environment_scopes() {
    let mut env = Env::new();
    env.set(String::from("a"), Object::Integer(1));
    assert_eq!(env.get("a"), Some(Object::Integer(1)));
    assert_eq!(env.get("b"), None);
    let mut inner = Env::new_enclosing(env);
    assert_eq!(inner.get("a"), Some(Object::Integer(1)));
    inner.set(String::from("a"), Object::Integer(2));
    assert_eq!(inner.get("a"), Some(Object::Integer(2)));
    inner.set(String::from("a"), Object::Integer(3));
    assert_eq!(inner.get("a"), Some(Object::Integer(3)));
}

fn tokens(src: &str) -> Vec<Token> {
    Lexer::new(src).lex().unwrap()
}

#[test]
fn parse_binding_of_a_literal() {
    let mut t = tokens("owo name = 42;");
    let parsed = parse(&mut t).unwrap();
    assert_eq!(
        parsed,
        vec![Statement::Let {
            name: String::from("name"),
            value: Expr::Integer(42)
        }]
    );
    let mut t = tokens("owo s = \"x\";");
    let parsed = parse(&mut t).unwrap();
    assert_eq!(
        parsed,
        vec![Statement::Let {
            name: String::from("s"),
            value: Expr::String(String::from("x"))
        }]
    );
}

#[test]
fn parse_precedence_and_associativity() {
    let mut t = tokens("1 - 2 - 3 * 4;");
    let parsed = parse(&mut t).unwrap();
    let expected = Expr::Infix {
        left: Box::new(Expr::Infix {
            left: Box::new(Expr::Integer(1)),
            operator: Operator::Minus,
            right: Box::new(Expr::Integer(2)),
        }),
        operator: Operator::Minus,
        right: Box::new(Expr::Infix {
            left: Box::new(Expr::Integer(3)),
            operator: Operator::Multiply,
            right: Box::new(Expr::Integer(4)),
        }),
    };
    assert_eq!(parsed, vec![Statement::Expression(expected)]);
}

#[test]
fn parse_calls_and_builtins() {
    let mut t = tokens("f(1, x); len(\"a\"); g();");
    let parsed = parse(&mut t).unwrap();
    assert_eq!(parsed.len(), 3);
    assert!(matches!(&parsed[0], Statement::Expression(Expr::Call { arguments, .. }) if arguments.len() == 2));
    assert!(matches!(&parsed[1], Statement::Expression(Expr::Builtin { function_name, .. }) if function_name == "len"));
    assert!(matches!(&parsed[2], Statement::Expression(Expr::Call { arguments, .. }) if arguments.is_empty()));
}

#[test]
fn parse_errors() {
    let mut t = tokens("owo = 5;");
    assert!(matches!(parse(&mut t), Err(ParseError::UnexpectedToken { .. })));
    let mut t = tokens("owo x = 5");
    assert!(matches!(
        parse(&mut t),
        Err(ParseError::UnexpectedToken { found: Token::EOF, .. })
    ));
    let mut empty: Vec<Token> = Vec::new();
    assert_eq!(parse(&mut empty), Err(ParseError::EmptyInput));
    assert!(matches!(
        run("1; };").0,
        Err(InterpretError::Parse(ParseError::UnexpectedToken { found: Token::RBRA, .. }))
    ));
}

#[test]
fn empty_block_is_null() {
    let mut env = Env::new();
    assert_eq!(eval_return(&vec![], &mut env), Ok(Object::Null));
    assert_eq!(run("").0, Ok(Object::Null));
}

#[test]
fn rendering_values() {
    assert_eq!(Object::Integer(0).render(), "0");
    assert_eq!(Object::Integer(120).render(), "120");
    assert_eq!(Object::Integer(-45).render(), "-45");
    assert_eq!(Object::Integer(i64::MIN).render(), "-9223372036854775808");
    assert_eq!(Object::Boolean(true).render(), "truwu");
    assert_eq!(Object::Boolean(false).render(), "fowose");
    assert_eq!(Object::Null.render(), "none");
    assert_eq!(Object::String(String::from("hi")).render(), "hi");
    assert_eq!(
        Object::Print(Box::new(Object::Integer(7))).render(),
        "7"
    );
    assert!(Object::Terminate.render().starts_with("Nyaaa!~"));
}

#[test]
fn nested_function_literal_call_and_builtin_in_expression() {
    assert_eq!(run("uwu add(x, y) { x + y; }; add(2, 3) * 2;").0, Ok(Object::Integer(10)));
    assert_eq!(run("len(\"abc\") + 1;").0, Ok(Object::Integer(4)));
}

#[test]
fn repeated_parameter_name_takes_the_last_argument() {
    assert_eq!(run("uwu f(a, a) { a; }; f(1, 2);").0, Ok(Object::Integer(2)));
}

#[test]
fn recursion_fifty_calls_deep() {
    let (r, _) = run("uwu down(n) { nuzzles (n == 0) { sugoi 0; } rawr { sugoi 1 + down(n - 1); }; }; down(50);");
    assert_eq!(r, Ok(Object::Integer(50)));
}

#[test]
fn stray_closing_brace_in_tokens() {
    let mut env = Env::new();
    let mut t = tokens("1; }");
    assert!(matches!(
        uwucode::interpreter::run_tokens(&mut t, &mut env),
        Err(InterpretError::Parse(ParseError::UnexpectedToken { found: Token::RBRA, .. }))
    ));
}

#[test]
fn whitespace_characters_separate_tokens() {
    let mut lexer = Lexer::new("a\u{3000}b\tc\u{a0}d");
    let toks = lexer.lex().unwrap();
    assert_eq!(toks.len(), 5);
}
