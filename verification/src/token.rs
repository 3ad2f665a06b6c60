use vstd::prelude::*;
use vstd::string::StringExecFns;

use crate::text::{decimal, push_decimal};

verus! {

/// The kinds of token that make up a Lox program.
#[derive(Debug, Clone, Copy, PartialEq, Eq, Structural)]
pub enum TokenType {
    // Single-character tokens.
    LParen,
    RParen,
    LBracket,
    RBracket,
    LBrace,
    RBrace,
    Star,
    Plus,
    Minus,
    Slash,
    Dot,
    Comma,
    SemiColon,
    Colon,
    Question,

    // Single or two character tokens.
    Bang,
    BangEqual,
    Equal,
    EqualEqual,
    Greater,
    GreaterEqual,
    Less,
    LessEqual,
    Amp,
    AmpAmp,
    Pipe,
    PipePipe,

    // Literals.
    Identifier,
    String,
    Number,

    // Keywords.
    Import,
    If,
    Else,
    Var,
    Null,
    For,
    Func,
    Return,
    True,
    False,
    Class,
    Super,
    This,
    Print,

    // Other.
    Eof,
}

/// The text that stands for each kind of token: the symbol of an operator or
/// punctuation mark, the word of a keyword, and a descriptive word for the
/// kinds whose text varies (identifiers, strings, numbers) and for the end of
/// input.
pub open spec fn spec_lexeme_text(tt: TokenType) -> Seq<char> {
    match tt {
        TokenType::LParen => "("@,
        TokenType::RParen => ")"@,
        TokenType::LBracket => "["@,
        TokenType::RBracket => "]"@,
        TokenType::LBrace => "{"@,
        TokenType::RBrace => "}"@,
        TokenType::Star => "*"@,
        TokenType::Plus => "+"@,
        TokenType::Minus => "-"@,
        TokenType::Slash => "/"@,
        TokenType::Dot => "."@,
        TokenType::Comma => ","@,
        TokenType::SemiColon => ";"@,
        TokenType::Colon => ":"@,
        TokenType::Question => "?"@,
        TokenType::Bang => "!"@,
        TokenType::BangEqual => "!="@,
        TokenType::Equal => "="@,
        TokenType::EqualEqual => "=="@,
        TokenType::Greater => ">"@,
        TokenType::GreaterEqual => ">="@,
        TokenType::Less => "<"@,
        TokenType::LessEqual => "<="@,
        TokenType::Amp => "&"@,
        TokenType::AmpAmp => "&&"@,
        TokenType::Pipe => "|"@,
        TokenType::PipePipe => "||"@,
        TokenType::Identifier => "identifier"@,
        TokenType::String => "string"@,
        TokenType::Number => "number"@,
        TokenType::Import => "import"@,
        TokenType::If => "if"@,
        TokenType::Else => "else"@,
        TokenType::Var => "var"@,
        TokenType::Null => "null"@,
        TokenType::For => "for"@,
        TokenType::Func => "func"@,
        TokenType::Return => "return"@,
        TokenType::True => "true"@,
        TokenType::False => "false"@,
        TokenType::Class => "class"@,
        TokenType::Super => "super"@,
        TokenType::This => "this"@,
        TokenType::Print => "print"@,
        TokenType::Eof => "EOF"@,
    }
}

/// The name of each kind of token, as its `Debug` form spells it.
pub open spec fn spec_type_name(tt: TokenType) -> Seq<char> {
    match tt {
        TokenType::LParen => "LParen"@,
        TokenType::RParen => "RParen"@,
        TokenType::LBracket => "LBracket"@,
        TokenType::RBracket => "RBracket"@,
        TokenType::LBrace => "LBrace"@,
        TokenType::RBrace => "RBrace"@,
        TokenType::Star => "Star"@,
        TokenType::Plus => "Plus"@,
        TokenType::Minus => "Minus"@,
        TokenType::Slash => "Slash"@,
        TokenType::Dot => "Dot"@,
        TokenType::Comma => "Comma"@,
        TokenType::SemiColon => "SemiColon"@,
        TokenType::Colon => "Colon"@,
        TokenType::Question => "Question"@,
        TokenType::Bang => "Bang"@,
        TokenType::BangEqual => "BangEqual"@,
        TokenType::Equal => "Equal"@,
        TokenType::EqualEqual => "EqualEqual"@,
        TokenType::Greater => "Greater"@,
        TokenType::GreaterEqual => "GreaterEqual"@,
        TokenType::Less => "Less"@,
        TokenType::LessEqual => "LessEqual"@,
        TokenType::Amp => "Amp"@,
        TokenType::AmpAmp => "AmpAmp"@,
        TokenType::Pipe => "Pipe"@,
        TokenType::PipePipe => "PipePipe"@,
        TokenType::Identifier => "Identifier"@,
        TokenType::String => "String"@,
        TokenType::Number => "Number"@,
        TokenType::Import => "Import"@,
        TokenType::If => "If"@,
        TokenType::Else => "Else"@,
        TokenType::Var => "Var"@,
        TokenType::Null => "Null"@,
        TokenType::For => "For"@,
        TokenType::Func => "Func"@,
        TokenType::Return => "Return"@,
        TokenType::True => "True"@,
        TokenType::False => "False"@,
        TokenType::Class => "Class"@,
        TokenType::Super => "Super"@,
        TokenType::This => "This"@,
        TokenType::Print => "Print"@,
        TokenType::Eof => "Eof"@,
    }
}

/// The kinds of token have distinct texts, none of them empty.
pub proof fn lemma_lexeme_texts_distinct(a: TokenType, b: TokenType)
    ensures
        spec_lexeme_text(a).len() > 0,
        a != b ==> spec_lexeme_text(a) != spec_lexeme_text(b),
{
    reveal_strlit("(");
    reveal_strlit(")");
    reveal_strlit("[");
    reveal_strlit("]");
    reveal_strlit("{");
    reveal_strlit("}");
    reveal_strlit("*");
    reveal_strlit("+");
    reveal_strlit("-");
    reveal_strlit("/");
    reveal_strlit(".");
    reveal_strlit(",");
    reveal_strlit(";");
    reveal_strlit(":");
    reveal_strlit("?");
    reveal_strlit("!");
    reveal_strlit("!=");
    reveal_strlit("=");
    reveal_strlit("==");
    reveal_strlit(">");
    reveal_strlit(">=");
    reveal_strlit("<");
    reveal_strlit("<=");
    reveal_strlit("&");
    reveal_strlit("&&");
    reveal_strlit("|");
    reveal_strlit("||");
    reveal_strlit("identifier");
    reveal_strlit("string");
    reveal_strlit("number");
    reveal_strlit("import");
    reveal_strlit("if");
    reveal_strlit("else");
    reveal_strlit("var");
    reveal_strlit("null");
    reveal_strlit("for");
    reveal_strlit("func");
    reveal_strlit("return");
    reveal_strlit("true");
    reveal_strlit("false");
    reveal_strlit("class");
    reveal_strlit("super");
    reveal_strlit("this");
    reveal_strlit("print");
    reveal_strlit("EOF");
    if a != b {
        let (x, y) = (spec_lexeme_text(a), spec_lexeme_text(b));
        if x.len() == y.len() {
            assert(x[0] != y[0] || x[x.len() - 1] != y[y.len() - 1] || (x.len() > 2 && x[1] != y[1]));
        }
    }
}

impl TokenType {
    /// Returns the text that stands for this kind of token.
    pub fn test_lexeme(&self) -> (s: &'static str)
        ensures
            s@ == spec_lexeme_text(*self),
    {
        match self {
            TokenType::LParen => "(",
            TokenType::RParen => ")",
            TokenType::LBracket => "[",
            TokenType::RBracket => "]",
            TokenType::LBrace => "{",
            TokenType::RBrace => "}",
            TokenType::Star => "*",
            TokenType::Plus => "+",
            TokenType::Minus => "-",
            TokenType::Slash => "/",
            TokenType::Dot => ".",
            TokenType::Comma => ",",
            TokenType::SemiColon => ";",
            TokenType::Colon => ":",
            TokenType::Question => "?",
            TokenType::Bang => "!",
            TokenType::BangEqual => "!=",
            TokenType::Equal => "=",
            TokenType::EqualEqual => "==",
            TokenType::Greater => ">",
            TokenType::GreaterEqual => ">=",
            TokenType::Less => "<",
            TokenType::LessEqual => "<=",
            TokenType::Amp => "&",
            TokenType::AmpAmp => "&&",
            TokenType::Pipe => "|",
            TokenType::PipePipe => "||",
            TokenType::Identifier => "identifier",
            TokenType::String => "string",
            TokenType::Number => "number",
            TokenType::Import => "import",
            TokenType::If => "if",
            TokenType::Else => "else",
            TokenType::Var => "var",
            TokenType::Null => "null",
            TokenType::For => "for",
            TokenType::Func => "func",
            TokenType::Return => "return",
            TokenType::True => "true",
            TokenType::False => "false",
            TokenType::Class => "class",
            TokenType::Super => "super",
            TokenType::This => "this",
            TokenType::Print => "print",
            TokenType::Eof => "EOF",
        }
    }

    /// The name of this kind of token, as text of its own.
    pub fn to_string(&self) -> (s: String)
        ensures
            s@ == spec_type_name(*self),
    {
        self.name().to_owned()
    }

    /// Returns the name of this kind of token.
    pub fn name(&self) -> (s: &'static str)
        ensures
            s@ == spec_type_name(*self),
    {
        match self {
            TokenType::LParen => "LParen",
            TokenType::RParen => "RParen",
            TokenType::LBracket => "LBracket",
            TokenType::RBracket => "RBracket",
            TokenType::LBrace => "LBrace",
            TokenType::RBrace => "RBrace",
            TokenType::Star => "Star",
            TokenType::Plus => "Plus",
            TokenType::Minus => "Minus",
            TokenType::Slash => "Slash",
            TokenType::Dot => "Dot",
            TokenType::Comma => "Comma",
            TokenType::SemiColon => "SemiColon",
            TokenType::Colon => "Colon",
            TokenType::Question => "Question",
            TokenType::Bang => "Bang",
            TokenType::BangEqual => "BangEqual",
            TokenType::Equal => "Equal",
            TokenType::EqualEqual => "EqualEqual",
            TokenType::Greater => "Greater",
            TokenType::GreaterEqual => "GreaterEqual",
            TokenType::Less => "Less",
            TokenType::LessEqual => "LessEqual",
            TokenType::Amp => "Amp",
            TokenType::AmpAmp => "AmpAmp",
            TokenType::Pipe => "Pipe",
            TokenType::PipePipe => "PipePipe",
            TokenType::Identifier => "Identifier",
            TokenType::String => "String",
            TokenType::Number => "Number",
            TokenType::Import => "Import",
            TokenType::If => "If",
            TokenType::Else => "Else",
            TokenType::Var => "Var",
            TokenType::Null => "Null",
            TokenType::For => "For",
            TokenType::Func => "Func",
            TokenType::Return => "Return",
            TokenType::True => "True",
            TokenType::False => "False",
            TokenType::Class => "Class",
            TokenType::Super => "Super",
            TokenType::This => "This",
            TokenType::Print => "Print",
            TokenType::Eof => "Eof",
        }
    }
}

/// A token: its kind, where its text starts in the source (in bytes), how many
/// bytes it spans, and its text.
#[derive(Debug, PartialEq, Eq)]
pub struct Token {
    pub token_type: TokenType,
    pub offset: usize,
    pub length: usize,
    pub lexeme: String,
}

/// How a token reads: its kind, then where it starts and how long it is.
pub open spec fn token_display(t: Token) -> Seq<char> {
    spec_type_name(t.token_type) + " "@ + decimal(t.offset as nat) + ":"@ + decimal(
        t.length as nat,
    )
}

impl Token {
    /// The token as `kind offset:length`.
    pub fn to_string(&self) -> (s: String)
        ensures
            s@ == token_display(*self),
    {
        let mut s = self.token_type.name().to_owned();
        s.append(" ");
        push_decimal(self.offset, &mut s);
        s.append(":");
        push_decimal(self.length, &mut s);
        s
    }

    pub fn new(token_type: TokenType, offset: usize, length: usize, lexeme: String) -> (t: Self)
        ensures
            t.token_type == token_type,
            t.offset == offset,
            t.length == length,
            t.lexeme == lexeme,
    {
        Token { token_type, offset, length, lexeme }
    }
}

impl Clone for Token {
    fn clone(&self) -> (t: Self)
        ensures
            t == *self,
    {
        Token {
            token_type: self.token_type,
            offset: self.offset,
            length: self.length,
            lexeme: self.lexeme.clone(),
        }
    }
}

} // verus!
