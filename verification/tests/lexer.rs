use rlox::error::LoxError;
use rlox::lexer::Lexer;
use rlox::token::{Token, TokenType as TT};

fn types(tokens: &[Token]) -> Vec<TT> {
    tokens.iter().map(|t| t.token_type).collect()
}

#[test]
fn arithmetic() {
    let src = "\
        12+43.1=55.1
        2.1*6=12.6
        3/1=3
        0-1=-1
        "
    .trim();

    let mut lexer = Lexer::new(src);
    let lex_result = lexer.lex_tokens();

    assert!(!lex_result.has_errors(), "lexing result must be errorless");

    assert_eq!(
        types(&lex_result.tokens),
        vec![
            TT::Number,
            TT::Plus,
            TT::Number,
            TT::Equal,
            TT::Number,
            TT::Number,
            TT::Star,
            TT::Number,
            TT::Equal,
            TT::Number,
            TT::Number,
            TT::Slash,
            TT::Number,
            TT::Equal,
            TT::Number,
            TT::Number,
            TT::Minus,
            TT::Number,
            TT::Equal,
            TT::Minus,
            TT::Number,
            TT::Eof,
        ]
    );
}

#[test]
fn comments() {
    let src = "\
        //                      single-line comment
        /// // /**/ a = 12      slightly complex single-line comment
        /*                      multi-line comment
        */
        /*
            /*
                /*
                                nested multi-line comment
                */
            */
        */
        "
    .trim();

    let mut lexer = Lexer::new(src);
    let lex_result = lexer.lex_tokens();
    assert!(!lex_result.has_errors(), "lexing result must be errorless");
    assert_eq!(types(&lex_result.tokens), vec![TT::Eof,]);
}

#[test]
fn strings() {
    let src = "\
        name = \"lox\"
        "
    .trim();

    let mut lexer = Lexer::new(src);
    let lex_result = lexer.lex_tokens();
    assert!(!lex_result.has_errors(), "lexing result must be errorless");
    assert_eq!(
        types(&lex_result.tokens),
        vec![TT::Identifier, TT::Equal, TT::String, TT::Eof,]
    );
}

#[test]
fn unterminated_strings() {
    let src = "\
        name = \"lox
        "
    .trim();

    let mut lexer = Lexer::new(src);
    let lex_result = lexer.lex_tokens();
    assert!(lex_result.has_errors(), "lexing result must have an error");
    assert_eq!(
        lex_result.errors,
        vec![LoxError::Lex {
            message: String::from("unterminated string"),
            offset: 7,
            length: 4
        },]
    );
    assert_eq!(
        types(&lex_result.tokens),
        vec![TT::Identifier, TT::Equal, TT::Eof,]
    );
}

#[test]
fn comparisons() {
    let src = "\
        12>99
        1>=1
        \"\"==\"\"
        0.0<7
        3<=4
        "
    .trim();

    let mut lexer = Lexer::new(src);
    let lex_result = lexer.lex_tokens();

    assert!(!lex_result.has_errors(), "lexing result must be errorless");
    assert_eq!(
        types(&lex_result.tokens),
        vec![
            TT::Number,
            TT::Greater,
            TT::Number,
            TT::Number,
            TT::GreaterEqual,
            TT::Number,
            TT::String,
            TT::EqualEqual,
            TT::String,
            TT::Number,
            TT::Less,
            TT::Number,
            TT::Number,
            TT::LessEqual,
            TT::Number,
            TT::Eof,
        ]
    );
}

#[test]
fn simple_program() {
    let src = "\
        import \"./a.lox\"
        
        /*
            status shows the overall condition of the program
        */
        var status
        func sum(a, b) {
            return a + b
        }

        // set status if sum function is not working correctly
        if (sum(5,6) != 11 || false {
            status = \"panic\"
        }

        class system {
            func exit(){/*TODO*/}
        }
        system.exit()
        "
    .trim();

    let mut lexer = Lexer::new(src);
    let lex_result = lexer.lex_tokens();

    assert!(!lex_result.has_errors(), "lexing result must be errorless");
    assert_eq!(
        types(&lex_result.tokens),
        vec![
            TT::Import,
            TT::String,
            TT::Var,
            TT::Identifier,
            TT::Func,
            TT::Identifier,
            TT::LParen,
            TT::Identifier,
            TT::Comma,
            TT::Identifier,
            TT::RParen,
            TT::LBrace,
            TT::Return,
            TT::Identifier,
            TT::Plus,
            TT::Identifier,
            TT::RBrace,
            TT::If,
            TT::LParen,
            TT::Identifier,
            TT::LParen,
            TT::Number,
            TT::Comma,
            TT::Number,
            TT::RParen,
            TT::BangEqual,
            TT::Number,
            TT::PipePipe,
            TT::False,
            TT::LBrace,
            TT::Identifier,
            TT::Equal,
            TT::String,
            TT::RBrace,
            TT::Class,
            TT::Identifier,
            TT::LBrace,
            TT::Func,
            TT::Identifier,
            TT::LParen,
            TT::RParen,
            TT::LBrace,
            TT::RBrace,
            TT::RBrace,
            TT::Identifier,
            TT::Dot,
            TT::Identifier,
            TT::LParen,
            TT::RParen,
            TT::Eof,
        ]
    );
}

#[test]
fn unknown_tokens() {
    let src = "\
        name ^ 8
        "
    .trim();

    let mut lexer = Lexer::new(src);
    let lex_result = lexer.lex_tokens();
    assert!(lex_result.has_errors(), "lexing result must have an error");
    assert_eq!(
        lex_result.errors,
        vec![LoxError::Lex {
            message: String::from("unknown token"),
            offset: 5,
            length: 1
        },]
    );
    assert_eq!(
        types(&lex_result.tokens),
        vec![TT::Identifier, TT::Number, TT::Eof,]
    );
}

// Tokens lie in source order, each with the text the source holds where it
// lies; the end-of-input token comes last, at the end of the source.
#[test]
fn tokens_lie_in_order_with_their_text() {
    let src = "var x = \"hé\" >= 3.25; // done";
    let mut lexer = Lexer::new(src);
    let result = lexer.lex_tokens();
    assert!(!result.has_errors());
    let mut previous_end = 0;
    for token in &result.tokens[..result.tokens.len() - 1] {
        assert!(token.offset >= previous_end);
        assert!(token.length > 0);
        assert_eq!(
            &src[token.offset..token.offset + token.length],
            token.lexeme.as_str()
        );
        previous_end = token.offset + token.length;
    }
    let eof = result.tokens.last().unwrap();
    assert_eq!(eof.token_type, TT::Eof);
    assert_eq!(eof.offset, src.len());
    assert_eq!(eof.length, 0);
    assert_eq!(eof.lexeme, "<Eof>");
    assert_eq!(
        types(&result.tokens),
        vec![
            TT::Var,
            TT::Identifier,
            TT::Equal,
            TT::String,
            TT::GreaterEqual,
            TT::Number,
            TT::SemiColon,
            TT::Eof
        ]
    );
    assert_eq!(result.tokens[3].lexeme, "\"hé\"");
    assert_eq!(result.tokens[5].lexeme, "3.25");
}

// Lexing goes on after an error: each byte of a character outside ASCII is an
// unknown token of its own, and the tokens around them are still found.
#[test]
fn lexing_goes_on_after_errors() {
    let src = "a é b";
    let mut lexer = Lexer::new(src);
    let result = lexer.lex_tokens();
    assert_eq!(
        result.errors,
        vec![
            LoxError::Lex {
                message: String::from("unknown token"),
                offset: 2,
                length: 1
            },
            LoxError::Lex {
                message: String::from("unknown token"),
                offset: 3,
                length: 1
            },
        ]
    );
    assert_eq!(types(&result.tokens), vec![TT::Identifier, TT::Identifier, TT::Eof]);
    assert_eq!(result.tokens[1].offset, 5);
}

#[test]
fn every_kind_of_token() {
    let src = "(){},.-+:;*?! != = == < <= > >= & && | || / ident _under x9 42 4.5 4. \"s\"";
    let mut lexer = Lexer::new(src);
    let result = lexer.lex_tokens();
    assert!(!result.has_errors());
    assert_eq!(
        types(&result.tokens),
        vec![
            TT::LParen,
            TT::RParen,
            TT::LBrace,
            TT::RBrace,
            TT::Comma,
            TT::Dot,
            TT::Minus,
            TT::Plus,
            TT::Colon,
            TT::SemiColon,
            TT::Star,
            TT::Question,
            TT::Bang,
            TT::BangEqual,
            TT::Equal,
            TT::EqualEqual,
            TT::Less,
            TT::LessEqual,
            TT::Greater,
            TT::GreaterEqual,
            TT::Amp,
            TT::AmpAmp,
            TT::Pipe,
            TT::PipePipe,
            TT::Slash,
            TT::Identifier,
            TT::Identifier,
            TT::Identifier,
            TT::Number,
            TT::Number,
            TT::Number,
            TT::Dot,
            TT::String,
            TT::Eof,
        ]
    );
}

#[test]
fn every_keyword() {
    let src = "import class else false for func if null nil return super this true var print classy";
    let mut lexer = Lexer::new(src);
    let result = lexer.lex_tokens();
    assert_eq!(
        types(&result.tokens),
        vec![
            TT::Import,
            TT::Class,
            TT::Else,
            TT::False,
            TT::For,
            TT::Func,
            TT::If,
            TT::Null,
            TT::Null,
            TT::Return,
            TT::Super,
            TT::This,
            TT::True,
            TT::Var,
            TT::Print,
            TT::Identifier,
            TT::Eof,
        ]
    );
}

// A block comment that never closes runs to the end of the source, and a line
// comment stops at the end of its line.
#[test]
fn comments_at_the_edges() {
    let mut lexer = Lexer::new("1 /* open /* nested */ still open");
    let result = lexer.lex_tokens();
    assert!(!result.has_errors());
    assert_eq!(types(&result.tokens), vec![TT::Number, TT::Eof]);

    let mut lexer = Lexer::new("// note\n2");
    let result = lexer.lex_tokens();
    assert_eq!(types(&result.tokens), vec![TT::Number, TT::Eof]);
    assert_eq!(result.tokens[0].offset, 8);
}

#[test]
fn empty_source() {
    let mut lexer = Lexer::new("");
    let result = lexer.lex_tokens();
    assert!(!result.has_errors());
    assert_eq!(types(&result.tokens), vec![TT::Eof]);
    assert_eq!(result.tokens[0].offset, 0);

    // A second pass finds nothing more.
    let again = lexer.lex_tokens();
    assert_eq!(types(&again.tokens), vec![TT::Eof]);
}

#[test]
fn token_and_error_text() {
    let token = Token::new(TT::GreaterEqual, 120, 2, String::from(">="));
    assert_eq!(token.to_string(), "GreaterEqual 120:2");
    assert_eq!(TT::Eof.to_string(), "Eof");
    assert_eq!(TT::LParen.test_lexeme(), "(");
    assert_eq!(TT::Eof.test_lexeme(), "EOF");
    let error = LoxError::Lex {
        message: String::from("unknown token"),
        offset: 0,
        length: 10,
    };
    assert_eq!(error.to_string(), "unknown token 0:10");
    let error = LoxError::Scan {
        message: String::from("Usage: rlox [script]"),
    };
    assert_eq!(error.to_string(), "Usage: rlox [script]");
    assert_eq!(token.clone(), token);
}

const FIXED_SPELLINGS: [TT; 39] = [
    TT::LParen, TT::RParen, TT::LBrace, TT::RBrace, TT::Star, TT::Plus, TT::Minus, TT::Slash,
    TT::Dot, TT::Comma, TT::SemiColon, TT::Colon, TT::Question, TT::Bang, TT::BangEqual,
    TT::Equal, TT::EqualEqual, TT::Greater, TT::GreaterEqual, TT::Less, TT::LessEqual, TT::Amp,
    TT::AmpAmp, TT::Pipe, TT::PipePipe, TT::Import, TT::If, TT::Else, TT::Var, TT::Null, TT::For,
    TT::Func, TT::Return, TT::True, TT::False, TT::Class, TT::Super, TT::This, TT::Print,
];

#[test]
fn every_spelling_lexes_back() {
    for t in FIXED_SPELLINGS {
        let s = t.test_lexeme();
        let result = Lexer::new(s).lex_tokens();
        assert!(!result.has_errors());
        assert_eq!(
            result.tokens,
            vec![
                Token::new(t, 0, s.len(), s.to_string()),
                Token::new(TT::Eof, s.len(), 0, String::from("<Eof>")),
            ]
        );
    }
}

#[test]
fn spellings_are_distinct_and_not_empty() {
    let all = [
        TT::LBracket, TT::RBracket, TT::Identifier, TT::String, TT::Number, TT::Eof,
    ]
    .iter()
    .chain(FIXED_SPELLINGS.iter())
    .map(|t| t.test_lexeme())
    .collect::<Vec<_>>();
    assert_eq!(all.len(), 45);
    for (i, a) in all.iter().enumerate() {
        assert!(!a.is_empty());
        for b in &all[i + 1..] {
            assert_ne!(a, b);
        }
    }
}

#[test]
fn a_stray_byte_is_one_error() {
    for c in ['^', '@', '#', '$', '%', '~', '[', ']'] {
        let a = "var x1 = (y+2.5)*3;\nprint x1>=4 && z";
        let b = "_w != 1 ? {} : -1,.:";
        let x = Lexer::new(&format!("{}{}{}", a, c, b)).lex_tokens();
        let y = Lexer::new(&format!("{} {}", a, b)).lex_tokens();
        assert_eq!(x.tokens, y.tokens);
        assert!(y.errors.is_empty());
        assert_eq!(
            x.errors,
            vec![LoxError::Lex {
                message: String::from("unknown token"),
                offset: a.len(),
                length: 1,
            }]
        );
    }
}

#[test]
fn errors_are_unknown_bytes_or_one_unterminated_string() {
    let result = Lexer::new("a é ^ \"open").lex_tokens();
    let expect = |offset: usize, length: usize, message: &str| LoxError::Lex {
        message: message.to_string(),
        offset,
        length,
    };
    assert_eq!(
        result.errors,
        vec![
            expect(2, 1, "unknown token"),
            expect(3, 1, "unknown token"),
            expect(5, 1, "unknown token"),
            expect(7, 5, "unterminated string"),
        ]
    );
}
