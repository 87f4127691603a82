use vstd::prelude::*;
use crate::token_type::TokenType;

verus! {

/// The decoded value carried by a literal token.
///
/// A number is held as its decimal text (digits, optionally a dot and more
/// digits); turning that text into a machine float is left to the caller.
#[derive(Clone, Debug)]
pub enum Object {
    Num(String),
    Str(String),
    Nil,
    True,
    False,
}

/// Mathematical model of an `Object`.
pub enum ObjectView {
    Num(Seq<char>),
    Str(Seq<char>),
    Nil,
    True,
    False,
}

impl View for Object {
    type V = ObjectView;

    open spec fn view(&self) -> ObjectView {
        match self {
            Object::Num(s) => ObjectView::Num(s@),
            Object::Str(s) => ObjectView::Str(s@),
            Object::Nil => ObjectView::Nil,
            Object::True => ObjectView::True,
            Object::False => ObjectView::False,
        }
    }
}

/// One classified lexeme.
#[derive(Clone, Debug)]
pub struct Token {
    pub ttype: TokenType,
    pub lexname: String,
    pub literal: Option<Object>,
    pub line: usize,
}

/// Mathematical model of a `Token`.
pub struct TokenView {
    pub kind: TokenType,
    pub lexeme: Seq<char>,
    pub literal: Option<ObjectView>,
    pub line: int,
}

pub open spec fn literal_view(o: Option<Object>) -> Option<ObjectView> {
    match o {
        Some(x) => Some(x@),
        None => None,
    }
}

impl View for Token {
    type V = TokenView;

    open spec fn view(&self) -> TokenView {
        TokenView {
            kind: self.ttype,
            lexeme: self.lexname@,
            literal: literal_view(self.literal),
            line: self.line as int,
        }
    }
}

/// The end-of-input marker on the given line.
pub open spec fn eof_view(line: int) -> TokenView {
    TokenView { kind: TokenType::Eof, lexeme: Seq::empty(), literal: None, line }
}

/// The models of a sequence of tokens, in order.
pub open spec fn tokens_view(ts: Seq<Token>) -> Seq<TokenView> {
    ts.map_values(|t: Token| t@)
}

impl Token {
    pub fn new(ttype: TokenType, lexname: String, literal: Option<Object>, line: usize) -> (r: Token)
        ensures
            r@ == (TokenView {
                kind: ttype,
                lexeme: lexname@,
                literal: literal_view(literal),
                line: line as int,
            }),
    {
        Token { ttype, lexname, literal, line }
    }

    pub fn eof(line: usize) -> (r: Token)
        ensures
            r@ == eof_view(line as int),
    {
        Token { ttype: TokenType::Eof, lexname: String::new(), literal: None, line }
    }
}

} // verus!
