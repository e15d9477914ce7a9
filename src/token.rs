use vstd::prelude::*;

verus! {

/// A lexical symbol of the language.
#[derive(Clone, Debug)]
pub enum Token {
    Integer(i32),
    Plus,
    Minus,
    Mul,
    Div,
    Rparen,
    Lparen,
    Program,
    EndProgram,
    Assign,
    Semicolon,
    Id(String),
    NoOp,
}

/// The mathematical model of a token: identifier names become character sequences.
pub enum Tok {
    Integer(i32),
    Plus,
    Minus,
    Mul,
    Div,
    Rparen,
    Lparen,
    Program,
    EndProgram,
    Assign,
    Semicolon,
    Id(Seq<char>),
    NoOp,
}

impl View for Token {
    type V = Tok;

    open spec fn view(&self) -> Tok {
        match self {
            Token::Integer(v) => Tok::Integer(*v),
            Token::Plus => Tok::Plus,
            Token::Minus => Tok::Minus,
            Token::Mul => Tok::Mul,
            Token::Div => Tok::Div,
            Token::Rparen => Tok::Rparen,
            Token::Lparen => Tok::Lparen,
            Token::Program => Tok::Program,
            Token::EndProgram => Tok::EndProgram,
            Token::Assign => Tok::Assign,
            Token::Semicolon => Tok::Semicolon,
            Token::Id(s) => Tok::Id(s@),
            Token::NoOp => Tok::NoOp,
        }
    }
}

/// Two tokens are of the same kind when they differ at most in their payload
/// (which integer, which identifier).
pub open spec fn same_kind(a: Tok, b: Tok) -> bool {
    match (a, b) {
        (Tok::Integer(_), Tok::Integer(_)) => true,
        (Tok::Plus, Tok::Plus) => true,
        (Tok::Minus, Tok::Minus) => true,
        (Tok::Mul, Tok::Mul) => true,
        (Tok::Div, Tok::Div) => true,
        (Tok::Rparen, Tok::Rparen) => true,
        (Tok::Lparen, Tok::Lparen) => true,
        (Tok::Program, Tok::Program) => true,
        (Tok::EndProgram, Tok::EndProgram) => true,
        (Tok::Assign, Tok::Assign) => true,
        (Tok::Semicolon, Tok::Semicolon) => true,
        (Tok::Id(_), Tok::Id(_)) => true,
        (Tok::NoOp, Tok::NoOp) => true,
        _ => false,
    }
}

impl Token {
    /// Compares two tokens by kind only, ignoring their payloads.
    pub fn variant_eq(left: Token, right: &Token) -> (r: bool)
        ensures
            r == same_kind(left@, right@),
    {
        match (left, right) {
            (Token::Integer(_), Token::Integer(_)) => true,
            (Token::Plus, Token::Plus) => true,
            (Token::Minus, Token::Minus) => true,
            (Token::Mul, Token::Mul) => true,
            (Token::Div, Token::Div) => true,
            (Token::Rparen, Token::Rparen) => true,
            (Token::Lparen, Token::Lparen) => true,
            (Token::Program, Token::Program) => true,
            (Token::EndProgram, Token::EndProgram) => true,
            (Token::Assign, Token::Assign) => true,
            (Token::Semicolon, Token::Semicolon) => true,
            (Token::Id(_), Token::Id(_)) => true,
            (Token::NoOp, Token::NoOp) => true,
            (_, _) => false,
        }
    }

    /// A copy of the token with the same model.
    pub fn duplicate(&self) -> (r: Token)
        ensures
            r@ == self@,
    {
        match self {
            Token::Integer(v) => Token::Integer(*v),
            Token::Plus => Token::Plus,
            Token::Minus => Token::Minus,
            Token::Mul => Token::Mul,
            Token::Div => Token::Div,
            Token::Rparen => Token::Rparen,
            Token::Lparen => Token::Lparen,
            Token::Program => Token::Program,
            Token::EndProgram => Token::EndProgram,
            Token::Assign => Token::Assign,
            Token::Semicolon => Token::Semicolon,
            Token::Id(s) => Token::Id(s.clone()),
            Token::NoOp => Token::NoOp,
        }
    }
}

impl PartialEq for Token {
    fn eq(&self, other: &Token) -> (r: bool) {
        match (self, other) {
            (Token::Integer(a), Token::Integer(b)) => *a == *b,
            (Token::Id(a), Token::Id(b)) => *a == *b,
            (Token::Plus, Token::Plus) => true,
            (Token::Minus, Token::Minus) => true,
            (Token::Mul, Token::Mul) => true,
            (Token::Div, Token::Div) => true,
            (Token::Rparen, Token::Rparen) => true,
            (Token::Lparen, Token::Lparen) => true,
            (Token::Program, Token::Program) => true,
            (Token::EndProgram, Token::EndProgram) => true,
            (Token::Assign, Token::Assign) => true,
            (Token::Semicolon, Token::Semicolon) => true,
            (Token::NoOp, Token::NoOp) => true,
            (_, _) => false,
        }
    }
}

impl vstd::std_specs::cmp::PartialEqSpecImpl for Token {
    open spec fn obeys_eq_spec() -> bool {
        true
    }

    open spec fn eq_spec(&self, other: &Token) -> bool {
        self@ == other@
    }
}

} // verus!
