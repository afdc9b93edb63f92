use vstd::prelude::*;

verus! {

/// The classification of one token.
#[allow(non_camel_case_types)]
#[derive(Debug, Clone, Copy, PartialEq, Eq, Structural)]
pub enum TokenType {
    KEYWORD,
    SYMBOL,
    IDENTIFIER,
    INT_CONST,
    STRING_CONST,
}

/// The reserved words of the source language.
#[derive(Debug, Clone, Copy, PartialEq, Eq, Structural)]
pub enum KeyWord {
    CLASS,
    METHOD,
    FUNCTION,
    CONSTRUCTOR,
    INT,
    BOOLEAN,
    CHAR,
    VOID,
    VAR,
    STATIC,
    FIELD,
    LET,
    DO,
    IF,
    ELSE,
    WHILE,
    RETURN,
    TRUE,
    FALSE,
    NULL,
    THIS,
}

/// One classified lexeme. A token owns its text and is never mutated.
#[derive(Debug, Clone)]
pub enum Token {
    Keyword(KeyWord),
    Symbol(char),
    IntConst(u16),
    StringConst(String),
    Identifier(String),
}

/// The mathematical shape of one token.
pub ghost enum Tok {
    Keyword(KeyWord),
    Symbol(char),
    IntConst(u16),
    StringConst(Seq<char>),
    Identifier(Seq<char>),
}

impl View for Token {
    type V = Tok;

    open spec fn view(&self) -> Tok {
        match self {
            Token::Keyword(k) => Tok::Keyword(*k),
            Token::Symbol(c) => Tok::Symbol(*c),
            Token::IntConst(v) => Tok::IntConst(*v),
            Token::StringConst(s) => Tok::StringConst(s@),
            Token::Identifier(s) => Tok::Identifier(s@),
        }
    }
}

/// The classification of a token.
pub open spec fn type_of_tok(t: Tok) -> TokenType {
    match t {
        Tok::Keyword(_) => TokenType::KEYWORD,
        Tok::Symbol(_) => TokenType::SYMBOL,
        Tok::IntConst(_) => TokenType::INT_CONST,
        Tok::StringConst(_) => TokenType::STRING_CONST,
        Tok::Identifier(_) => TokenType::IDENTIFIER,
    }
}

} // verus!
