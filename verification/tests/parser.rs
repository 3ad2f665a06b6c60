use rlox::error::LoxError;
use rlox::expression::{Expression, LiteralValue};
use rlox::lexer::Lexer;
use rlox::parser::Parser;
use rlox::statement::Statement;
use rlox::token::{Token, TokenType as TT};

// The parsed program as the tests compare it: numbers as their values.

#[derive(Debug, PartialEq)]
enum Lit {
    String(String),
    Number(f64),
    True,
    False,
    Null,
}

#[derive(Debug, PartialEq)]
enum Expr {
    Ternary {
        condition: Box<Expr>,
        true_branch: Box<Expr>,
        false_branch: Box<Expr>,
    },
    Binary {
        left: Box<Expr>,
        operator: Token,
        right: Box<Expr>,
    },
    Assignment {
        name: Token,
        value: Box<Expr>,
    },
    Unary {
        operator: Token,
        right: Box<Expr>,
    },
    Comma {
        left: Box<Expr>,
        right: Box<Expr>,
    },
    Variable(Token),
    Grouping(Box<Expr>),
    Literal(Lit),
}

#[derive(Debug, PartialEq)]
enum Stmt {
    If {
        cond: Expr,
        body: Box<Stmt>,
        elze: Option<Box<Stmt>>,
    },
    Var {
        name: Token,
        initializer: Option<Expr>,
    },
    Block(Vec<Stmt>),
    Expression(Expr),
    Print(Expr),
}

fn tr() -> Expr {
    Expr::Literal(Lit::True)
}

fn fl() -> Expr {
    Expr::Literal(Lit::False)
}

fn null() -> Expr {
    Expr::Literal(Lit::Null)
}

fn num(n: f64) -> Expr {
    Expr::Literal(Lit::Number(n))
}

fn str(s: String) -> Expr {
    Expr::Literal(Lit::String(s))
}

fn binary(left: Expr, operator: TT, right: Expr) -> Expr {
    Expr::Binary {
        left: Box::new(left),
        operator: Token::new(operator, 0, 0, operator.test_lexeme().to_string()),
        right: Box::new(right),
    }
}

fn unary(operator: TT, right: Expr) -> Expr {
    Expr::Unary {
        operator: Token::new(operator, 0, 0, operator.test_lexeme().to_string()),
        right: Box::new(right),
    }
}

fn ternary(condition: Expr, true_branch: Expr, false_branch: Expr) -> Expr {
    Expr::Ternary {
        condition: Box::new(condition),
        true_branch: Box::new(true_branch),
        false_branch: Box::new(false_branch),
    }
}

fn comma(left: Expr, right: Expr) -> Expr {
    Expr::Comma {
        left: Box::new(left),
        right: Box::new(right),
    }
}

fn expr_stmt(expr: Expr) -> Vec<Stmt> {
    vec![Stmt::Expression(expr)]
}

fn normalize_token(token: &Token) -> Token {
    Token::new(
        token.token_type,
        0,
        0,
        token.token_type.test_lexeme().to_string(),
    )
}

fn normalize_literal(lit: &LiteralValue) -> Lit {
    match lit {
        LiteralValue::String(s) => Lit::String(s.clone()),
        LiteralValue::Number(text) => Lit::Number(text.parse::<f64>().unwrap()),
        LiteralValue::True => Lit::True,
        LiteralValue::False => Lit::False,
        LiteralValue::Null => Lit::Null,
    }
}

fn normalize_expression(expression: &Expression) -> Expr {
    match expression {
        Expression::Binary {
            left,
            operator,
            right,
        }
        | Expression::Logical {
            left,
            operator,
            right,
        } => Expr::Binary {
            left: Box::new(normalize_expression(left)),
            operator: normalize_token(operator),
            right: Box::new(normalize_expression(right)),
        },
        Expression::Assignment { name, value } => Expr::Assignment {
            name: normalize_token(name),
            value: Box::new(normalize_expression(value)),
        },
        Expression::Unary { operator, right } => Expr::Unary {
            operator: normalize_token(operator),
            right: Box::new(normalize_expression(right)),
        },
        Expression::Literal(lit) => Expr::Literal(normalize_literal(lit)),
        Expression::Grouping(inner) => Expr::Grouping(Box::new(normalize_expression(inner))),
        Expression::Ternary {
            condition,
            true_branch,
            false_branch,
        } => Expr::Ternary {
            condition: Box::new(normalize_expression(condition)),
            true_branch: Box::new(normalize_expression(true_branch)),
            false_branch: Box::new(normalize_expression(false_branch)),
        },
        Expression::Comma { left, right } => Expr::Comma {
            left: Box::new(normalize_expression(left)),
            right: Box::new(normalize_expression(right)),
        },
        Expression::Variable(var) => Expr::Variable(var.clone()),
        Expression::Call { .. } => unreachable!("the parser makes no calls"),
    }
}

fn normalize_statement(statement: &Statement) -> Stmt {
    match statement {
        Statement::If { cond, body, elze } => Stmt::If {
            cond: normalize_expression(cond),
            body: Box::new(normalize_statement(body.as_ref())),
            elze: elze
                .as_ref()
                .map(|e| Box::new(normalize_statement(e.as_ref()))),
        },
        Statement::Var { name, initializer } => Stmt::Var {
            name: name.clone(),
            initializer: initializer.as_ref().map(normalize_expression),
        },
        Statement::Block(statements) => {
            Stmt::Block(statements.iter().map(normalize_statement).collect())
        }
        Statement::Expression(expression) => Stmt::Expression(normalize_expression(expression)),
        Statement::Print(expression) => Stmt::Print(normalize_expression(expression)),
    }
}

fn get_parse_result(src: &str) -> Result<Vec<Stmt>, LoxError> {
    let mut lexer = Lexer::new(src);
    let lex_result = lexer.lex_tokens();
    let mut parser = Parser::new(&lex_result.tokens);
    let parse_result = parser.parse()?;
    Ok(parse_result.iter().map(normalize_statement).collect())
}

#[test]
fn arithmetic_operations() -> Result<(), LoxError> {
    let src = "\
        5+4*3-1/2;
        "
    .trim();

    let parse_result = get_parse_result(src)?;
    let expected = expr_stmt(binary(
        binary(num(5.0), TT::Plus, binary(num(4.0), TT::Star, num(3.0))),
        TT::Minus,
        binary(num(1.0), TT::Slash, num(2.0)),
    ));

    assert_eq!(parse_result, expected);
    Ok(())
}

#[test]
fn unary_operations() -> Result<(), LoxError> {
    let src = "\
        --3!=!!!\"rlox\";
        ";

    let parse_result = get_parse_result(src)?;
    let expected = expr_stmt(binary(
        unary(TT::Minus, unary(TT::Minus, num(3.0))),
        TT::BangEqual,
        unary(
            TT::Bang,
            unary(TT::Bang, unary(TT::Bang, str("\"rlox\"".to_string()))),
        ),
    ));

    assert_eq!(parse_result, expected);
    Ok(())
}

#[test]
fn ternary_operations() -> Result<(), LoxError> {
    let src = "\
        43.5 >= null ? -3 > 4 : !!true < 1 ? 0.0 <= false : 3 == \"rlox\";
        ";

    let parse_result = get_parse_result(src)?;
    let expected = expr_stmt(ternary(
        binary(num(43.5), TT::GreaterEqual, null()),
        binary(unary(TT::Minus, num(3.0)), TT::Greater, num(4.0)),
        ternary(
            binary(unary(TT::Bang, unary(TT::Bang, tr())), TT::Less, num(1.0)),
            binary(num(0.0), TT::LessEqual, fl()),
            binary(num(3.0), TT::EqualEqual, str("\"rlox\"".to_string())),
        ),
    ));

    assert_eq!(parse_result, expected);
    Ok(())
}

#[test]
fn comma_operations() -> Result<(), LoxError> {
    let src = "\
        true ? 1 : 2, 3, 4;
        ";

    let parse_result = get_parse_result(src)?;
    let expected = expr_stmt(comma(
        comma(ternary(tr(), num(1.0), num(2.0)), num(3.0)),
        num(4.0),
    ));

    assert_eq!(parse_result, expected);
    Ok(())
}

fn var(name: &str) -> Expr {
    let mut lexer = Lexer::new(name);
    let tokens = lexer.lex_tokens().tokens;
    Expr::Variable(tokens[0].clone())
}

fn parse_error(src: &str) -> LoxError {
    get_parse_result(src).unwrap_err()
}

fn error(message: &str) -> LoxError {
    LoxError::Parse {
        message: String::from(message),
    }
}

#[test]
fn declarations_and_print() -> Result<(), LoxError> {
    let parse_result = get_parse_result("var a = 1; var b; print a;")?;
    let a = match &parse_result[0] {
        Stmt::Var { name, .. } => name.clone(),
        other => panic!("expected a declaration, got {:?}", other),
    };
    assert_eq!(a.lexeme, "a");
    assert_eq!(a.offset, 4);
    assert_eq!(
        parse_result,
        vec![
            Stmt::Var {
                name: a,
                initializer: Some(num(1.0)),
            },
            Stmt::Var {
                name: Token::new(TT::Identifier, 15, 1, String::from("b")),
                initializer: None,
            },
            Stmt::Print(Expr::Variable(Token::new(
                TT::Identifier,
                24,
                1,
                String::from("a")
            ))),
        ]
    );
    Ok(())
}

#[test]
fn blocks_and_if_statements() -> Result<(), LoxError> {
    let parse_result =
        get_parse_result("if (x) { 1; } else if (y) { } else { print 2; { 3; } }")?;
    let y = match &parse_result[0] {
        Stmt::If {
            elze: Some(other), ..
        } => match other.as_ref() {
            Stmt::If { cond, .. } => cond.clone_variable(),
            other => panic!("expected an if statement, got {:?}", other),
        },
        other => panic!("expected an if statement, got {:?}", other),
    };
    assert_eq!(
        parse_result,
        vec![Stmt::If {
            cond: Expr::Variable(Token::new(TT::Identifier, 4, 1, String::from("x"))),
            body: Box::new(Stmt::Block(vec![Stmt::Expression(num(1.0))])),
            elze: Some(Box::new(Stmt::If {
                cond: y,
                body: Box::new(Stmt::Block(vec![])),
                elze: Some(Box::new(Stmt::Block(vec![
                    Stmt::Print(num(2.0)),
                    Stmt::Block(vec![Stmt::Expression(num(3.0))]),
                ]))),
            })),
        }]
    );
    Ok(())
}

impl Expr {
    fn clone_variable(&self) -> Expr {
        match self {
            Expr::Variable(token) => Expr::Variable(token.clone()),
            other => panic!("expected a variable, got {:?}", other),
        }
    }
}

// Assignment groups to the right, the binary operators to the left, `&&`
// binds tighter than `||`.
#[test]
fn grouping_of_operators() -> Result<(), LoxError> {
    let parse_result = get_parse_result("a = b = 3;")?;
    let expected = expr_stmt(Expr::Assignment {
        name: normalize_token(&Token::new(TT::Identifier, 0, 1, String::from("a"))),
        value: Box::new(Expr::Assignment {
            name: normalize_token(&Token::new(TT::Identifier, 0, 1, String::from("b"))),
            value: Box::new(num(3.0)),
        }),
    });
    assert_eq!(parse_result, expected);

    let parse_result = get_parse_result("1 - 2 - 3;")?;
    let expected = expr_stmt(binary(
        binary(num(1.0), TT::Minus, num(2.0)),
        TT::Minus,
        num(3.0),
    ));
    assert_eq!(parse_result, expected);

    let parse_result = get_parse_result("x || y && z;")?;
    let expected = expr_stmt(binary(
        var("x"),
        TT::PipePipe,
        binary(var("y"), TT::AmpAmp, var("z")),
    ));
    let normalized_vars = match &parse_result[0] {
        Stmt::Expression(Expr::Binary { left, right, .. }) => match right.as_ref() {
            Expr::Binary {
                left: inner_left,
                right: inner_right,
                ..
            } => (
                left.clone_variable(),
                inner_left.clone_variable(),
                inner_right.clone_variable(),
            ),
            other => panic!("expected an operation, got {:?}", other),
        },
        other => panic!("expected an expression, got {:?}", other),
    };
    let (x, y, z) = normalized_vars;
    let positioned = expr_stmt(binary(x, TT::PipePipe, binary(y, TT::AmpAmp, z)));
    assert_eq!(parse_result, positioned);
    assert_eq!(expected.len(), 1);

    let parse_result = get_parse_result("(1 + 2) * 3;")?;
    let expected = expr_stmt(binary(
        Expr::Grouping(Box::new(binary(num(1.0), TT::Plus, num(2.0)))),
        TT::Star,
        num(3.0),
    ));
    assert_eq!(parse_result, expected);
    Ok(())
}

#[test]
fn every_parse_error() {
    assert_eq!(parse_error("1 = 2;"), error("invalid assignment target"));
    assert_eq!(
        parse_error("+ 1;"),
        error("missing left-hand operand before '+'")
    );
    assert_eq!(
        parse_error("1 * == 2;"),
        error("missing left-hand operand before '=='")
    );
    assert_eq!(parse_error("(1;"), error("expect ')' after expression"));
    assert_eq!(parse_error("var 1;"), error("expect variable name"));
    assert_eq!(
        parse_error("var a = 1"),
        error("expect ';' after variable declaration")
    );
    assert_eq!(parse_error("print 1"), error("expect ';' after value"));
    assert_eq!(parse_error("1 2;"), error("expect ';' after value"));
    assert_eq!(parse_error("1 ? 2;"), error("expect ':' after ternary"));
    assert_eq!(parse_error("{ 1;"), error("expect '}' after block"));
    assert_eq!(parse_error("if 1"), error("expect '(' after if statement"));
    assert_eq!(
        parse_error("if (1 {"),
        error("expect ')' after if statement condition")
    );
    assert_eq!(
        parse_error("if (1) 2;"),
        error("expect '{' after if statement condition")
    );
    assert_eq!(
        parse_error("if (1) {} else 2;"),
        error("expect '{' after 'else'")
    );
    assert_eq!(parse_error(";"), error("expect expression"));
    assert_eq!(parse_error("1 +"), error("expect expression"));
    // At the end of input the `(` is read again and no expression follows it.
    assert_eq!(parse_error("("), error("expect expression"));
    assert_eq!(parse_error("if ("), error("expect expression"));
}

#[test]
fn empty_program() -> Result<(), LoxError> {
    assert_eq!(get_parse_result("")?, vec![]);
    assert_eq!(get_parse_result("// nothing")?, vec![]);
    Ok(())
}

// Number tokens made by hand: their text must read as a floating-point number.
#[test]
fn number_text() {
    let parse_number = |text: &str| {
        let tokens = vec![
            Token::new(TT::Number, 0, text.len(), String::from(text)),
            Token::new(TT::SemiColon, text.len(), 1, String::from(";")),
            Token::new(TT::Eof, text.len() + 1, 0, String::from("<Eof>")),
        ];
        let mut parser = Parser::new(&tokens);
        parser
            .parse()
            .map(|statements| statements.iter().map(normalize_statement).collect::<Vec<_>>())
    };
    for good in ["1e5", "1.", ".5", "+2.5E-3", "inf", "-Infinity", "NaN", "007"] {
        let expected = good.parse::<f64>().unwrap();
        let statements = parse_number(good).unwrap();
        match &statements[0] {
            Stmt::Expression(Expr::Literal(Lit::Number(n))) => {
                assert!(n == &expected || (n.is_nan() && expected.is_nan()))
            }
            other => panic!("expected a number, got {:?}", other),
        }
    }
    for bad in ["abc", "1e", ".", "1_000", " 1", "1.2.3", "e5", "++1", "infin"] {
        assert!(bad.parse::<f64>().is_err());
        assert_eq!(
            parse_number(bad),
            Err(error("number is not in valid format"))
        );
    }
}

#[test]
fn nil_parses_as_the_null_literal() -> Result<(), LoxError> {
    assert_eq!(get_parse_result("nil;")?, vec![Stmt::Expression(null())]);
    assert_eq!(get_parse_result("null;")?, vec![Stmt::Expression(null())]);
    Ok(())
}

#[test]
fn parsing_stops_at_the_first_end_of_input() -> Result<(), LoxError> {
    let tokens = vec![Token::new(TT::Eof, 0, 0, String::from("<Eof>"))];
    assert_eq!(Parser::new(&tokens).parse()?, vec![]);
    let tokens = vec![
        Token::new(TT::Eof, 0, 0, String::from("<Eof>")),
        Token::new(TT::Number, 0, 1, String::from("1")),
        Token::new(TT::SemiColon, 1, 1, String::from(";")),
    ];
    assert_eq!(Parser::new(&tokens).parse()?, vec![]);
    Ok(())
}
