use rlox::environment::Environment;
use rlox::error::LoxError;
use rlox::interpreter::{program_is_runnable, ExecutionContext, Interpreter};
use rlox::lexer::Lexer;
use rlox::parser::Parser;
use rlox::statement::Statement;
use rlox::value::{Arithmetic, Comparison, Numeric, Value};

// Programs run on 64-bit floating-point numbers.

#[derive(Debug, Clone, Copy, PartialEq)]
struct Float(f64);

impl Numeric for Float {
    fn from_literal(text: &str) -> Option<Self> {
        text.parse::<f64>().ok().map(Float)
    }

    fn negate(self) -> Self {
        Float(-self.0)
    }

    fn arithmetic(op: Arithmetic, left: Self, right: Self) -> Self {
        Float(match op {
            Arithmetic::Add => left.0 + right.0,
            Arithmetic::Subtract => left.0 - right.0,
            Arithmetic::Multiply => left.0 * right.0,
            Arithmetic::Divide => left.0 / right.0,
        })
    }

    fn compare(op: Comparison, left: Self, right: Self) -> bool {
        match op {
            Comparison::Greater => left.0 > right.0,
            Comparison::GreaterEqual => left.0 >= right.0,
            Comparison::Less => left.0 < right.0,
            Comparison::LessEqual => left.0 <= right.0,
            Comparison::Equal => left.0 == right.0,
        }
    }

    fn is_zero(self) -> bool {
        self.0 == 0.0
    }

    fn to_text(self) -> String {
        format!("{}", self.0)
    }
}

fn parse(src: &str) -> Vec<Statement> {
    let mut lexer = Lexer::new(src);
    let lexed = lexer.lex_tokens();
    assert!(!lexed.has_errors(), "lexing result must be errorless");
    let mut parser = Parser::new(&lexed.tokens);
    let statements = parser.parse().expect("the program must parse");
    assert!(program_is_runnable(&statements));
    statements
}

/// Runs `src` in a fresh environment: what it printed, and how it ended.
fn run(src: &str) -> (Vec<Value<Float>>, Result<ExecutionContext<Float>, LoxError>) {
    let mut interpreter = Interpreter::new(parse(src), Environment::new());
    let result = interpreter.interpret();
    (interpreter.printed().clone(), result)
}

fn printed(src: &str) -> Vec<Value<Float>> {
    let (out, result) = run(src);
    assert!(result.is_ok(), "the program must run: {:?}", result.err());
    out
}

fn failure(src: &str) -> LoxError {
    match run(src).1 {
        Err(e) => e,
        Ok(_) => panic!("the program must fail"),
    }
}

fn runtime(message: &str) -> LoxError {
    LoxError::Runtime {
        message: message.to_string(),
    }
}

fn num(n: f64) -> Value<Float> {
    Value::Number(Float(n))
}

fn string(s: &str) -> Value<Float> {
    Value::String(s.to_string())
}

#[test]
fn arithmetic_follows_precedence() {
    assert_eq!(
        printed("print 5 + 4 * 3 - 1 / 2; print -(2 - 7); print 2 * (3 + 4);"),
        vec![num(16.5), num(5.0), num(14.0)]
    );
}

#[test]
fn strings_join_with_strings_and_numbers() {
    assert_eq!(
        printed("print \"lo\" + \"x\"; print \"n\" + 1.5; print 2 + \"n\";"),
        // A string literal keeps the quotes of its token.
        vec![string("\"lo\"\"x\""), string("\"n\"1.5"), string("2\"n\"")]
    );
}

#[test]
fn comparisons_and_equality() {
    assert_eq!(
        printed(
            "print 1 < 2; print 2 <= 1; print 3 > 3; print 3 >= 3; \
             print null == null; print null == false; print 1 == 1; print \"a\" != \"a\";"
        ),
        vec![
            Value::Boolean(true),
            Value::Boolean(false),
            Value::Boolean(false),
            Value::Boolean(true),
            Value::Boolean(true),
            Value::Boolean(false),
            Value::Boolean(true),
            Value::Boolean(false),
        ]
    );
}

#[test]
fn truthiness_drives_not_ternary_and_logic() {
    assert_eq!(
        printed(
            "print !null; print !0; print \"\" ? 1 : 2; print false ? 1 : 2; \
             print null || \"x\"; print 1 || 2; print 0 && 3; print false && 3;"
        ),
        vec![
            Value::Boolean(true),
            Value::Boolean(false),
            num(1.0),
            num(2.0),
            string("\"x\""),
            num(1.0),
            num(3.0),
            Value::Boolean(false),
        ]
    );
}

#[test]
fn comma_gives_its_last_operand() {
    let (out, result) = run("1, 2, 3;");
    assert!(out.is_empty());
    assert_eq!(result.unwrap().last_expr_value, Some(num(3.0)));
}

#[test]
fn variables_are_defined_read_and_assigned() {
    assert_eq!(
        printed("var a = 1; print a; a = a + 1; print a; var a = \"again\"; print a;"),
        vec![num(1.0), num(2.0), string("\"again\"")]
    );
}

#[test]
fn blocks_shadow_and_then_forget() {
    assert_eq!(
        printed("var a = 1; { var a = 2; print a; { print a; } } print a;"),
        vec![num(2.0), num(2.0), num(1.0)]
    );
    // The block runs on a copy of the variables around it: what it assigns
    // to them does not outlive it.
    assert_eq!(printed("var a = 1; { a = 2; print a; } print a;"), vec![num(2.0), num(1.0)]);
}

#[test]
fn a_block_variable_is_gone_after_the_block() {
    assert_eq!(failure("{ var inner = 1; } print inner;"), runtime("undefined variable: inner"));
}

#[test]
fn if_statements_take_one_branch() {
    assert_eq!(
        printed("if (1 < 2) { print 1; } else { print 2; } if (null) { print 3; } if (false) { print 4; } else if (true) { print 5; }"),
        vec![num(1.0), num(5.0)]
    );
}

#[test]
fn the_context_holds_the_variables_and_the_last_value() {
    let (_, result) = run("var a = 3; a * 2;");
    let context = result.unwrap();
    assert_eq!(context.last_expr_value, Some(num(6.0)));
    assert_eq!(context.environment.get("a").map(|v| v.clone()), Ok(num(3.0)));
    let (_, result) = run("1; var b = 2;");
    assert_eq!(result.unwrap().last_expr_value, None);
    let (_, result) = run("");
    assert_eq!(result.unwrap().last_expr_value, None);
}

#[test]
fn uninitialized_variables_are_refused() {
    assert_eq!(
        failure("var a;"),
        runtime("variable a accessed without assigning any value to it")
    );
}

#[test]
fn every_runtime_error() {
    assert_eq!(failure("print missing;"), runtime("undefined variable: missing"));
    assert_eq!(failure("missing = 1;"), runtime("undefined variable: 'missing'"));
    assert_eq!(failure("1 - \"a\";"), runtime("right operand must be a number for '-'"));
    assert_eq!(failure("\"a\" * 1;"), runtime("left operand must be a number for '*'"));
    assert_eq!(failure("\"a\" < \"b\";"), runtime("both operands must be a number for '<'"));
    assert_eq!(failure("true + 1;"), runtime("operands must be two numbers or two strings"));
    assert_eq!(failure("1 / 0;"), runtime("division by 0 is not allowed"));
    assert_eq!(failure("-\"a\";"), runtime("operand must be a number"));
}

#[test]
fn an_error_ends_the_program_after_what_it_printed() {
    let (out, result) = run("print 1; print 2 / 0; print 3;");
    assert_eq!(out, vec![num(1.0)]);
    assert_eq!(result.err(), Some(runtime("division by 0 is not allowed")));
}

#[test]
fn statements_run_one_at_a_time() {
    let statements = parse("var a = 1; a + 1;");
    let mut interpreter: Interpreter<Float> = Interpreter::new(Vec::new(), Environment::new());
    assert_eq!(interpreter.execute_statement(&statements[0]), Ok(None));
    assert_eq!(interpreter.execute_statement(&statements[1]), Ok(Some(num(2.0))));
    match &statements[1] {
        Statement::Expression(e) => {
            assert_eq!(interpreter.evaluate_expression(e), Ok(num(2.0)))
        }
        other => panic!("expected an expression statement, got {:?}", other),
    }
}

/// Lexes, parses and runs `src` in a fresh environment.
fn get_result(src: &str) -> Result<(), LoxError> {
    let mut lexer = Lexer::new(src);
    let lex_result = lexer.lex_tokens();
    let mut parser = Parser::new(&lex_result.tokens);
    let parse_result = parser.parse()?;
    assert!(program_is_runnable(&parse_result));
    let environment: Environment<Value<Float>> = Environment::new();
    let mut interpreter = Interpreter::new(parse_result, environment);
    interpreter.interpret()?;
    Ok(())
}

#[test]
fn block_and_scope() {
    let result = get_result(
        "var a = \"global a\";
        var b = \"global b\";
        {
            var a = \"outer a\";
            var c = \"outer c\";
            {
                var a = \"inner a\";
                print a;
                print b;
                print c;
            }
            print a;
        }
        print a;",
    );
    assert_eq!(result, Ok(()));
}

#[test]
fn uninitialized_variable() {
    let result = get_result("var a;\nprint a;");
    assert!(matches!(result, Err(LoxError::Runtime { .. })));
}

#[test]
fn lines_run_one_after_another_keep_their_variables() {
    let mut first = Interpreter::new(parse("var a = 1; { var b = 2; }"), Environment::new());
    let context = first.interpret().unwrap();
    let mut second = Interpreter::new(parse("print a + 1; a = 5; print a;"), context.environment);
    let result = second.interpret();
    assert!(result.is_ok());
    let together = printed("var a = 1; { var b = 2; } print a + 1; a = 5; print a;");
    assert_eq!(second.printed(), &together);
    assert_eq!(together, vec![num(2.0), num(5.0)]);
}

#[test]
fn a_block_keeps_assignments_to_scopes_further_out() {
    // The inner block assigns to `y`, bound two scopes out: that survives the
    // inner block. The outer block ran on a copy of the top scope, so at the
    // top `y` is as before.
    assert_eq!(
        printed("var y = true; { { y = false; } print y; } print y;"),
        vec![Value::Boolean(false), Value::Boolean(true)]
    );
}

#[test]
fn nil_is_the_null_literal() {
    assert_eq!(
        printed("print nil; print nil == null; print !nil;"),
        vec![Value::Null, Value::Boolean(true), Value::Boolean(true)]
    );
}
