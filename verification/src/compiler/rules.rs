use vstd::prelude::*;
use crate::token::TokenType;

verus! {

/// Binding strength of operators, from loosest to tightest.
#[derive(Debug, Clone, Copy, PartialEq, Eq, Structural)]
pub enum Precedence {
    Lowest,
    Assignment, // =
    Or, // or
    And, // and
    Equality, // == !=
    Comparison, // < > <= >=
    Term, // + -
    Factor, // * /
    Unary, // ! -
    Call, // . ()
    Primary,
}

/// The rank of a precedence level: 0 for the loosest, 10 for the tightest.
pub open spec fn level(p: Precedence) -> u8 {
    match p {
        Precedence::Lowest => 0,
        Precedence::Assignment => 1,
        Precedence::Or => 2,
        Precedence::And => 3,
        Precedence::Equality => 4,
        Precedence::Comparison => 5,
        Precedence::Term => 6,
        Precedence::Factor => 7,
        Precedence::Unary => 8,
        Precedence::Call => 9,
        Precedence::Primary => 10,
    }
}

impl Precedence {
    /// The rank of this level.
    pub fn level(&self) -> (l: u8)
        ensures
            l == level(*self),
    {
        match self {
            Precedence::Lowest => 0,
            Precedence::Assignment => 1,
            Precedence::Or => 2,
            Precedence::And => 3,
            Precedence::Equality => 4,
            Precedence::Comparison => 5,
            Precedence::Term => 6,
            Precedence::Factor => 7,
            Precedence::Unary => 8,
            Precedence::Call => 9,
            Precedence::Primary => 10,
        }
    }

    /// The level of rank `value`, if there is one.
    pub fn try_from(value: u8) -> (r: Result<Precedence, ()>)
        ensures
            r is Ok <==> value <= 10,
            r matches Ok(p) ==> level(p) == value,
    {
        match value {
            0 => Ok(Precedence::Lowest),
            1 => Ok(Precedence::Assignment),
            2 => Ok(Precedence::Or),
            3 => Ok(Precedence::And),
            4 => Ok(Precedence::Equality),
            5 => Ok(Precedence::Comparison),
            6 => Ok(Precedence::Term),
            7 => Ok(Precedence::Factor),
            8 => Ok(Precedence::Unary),
            9 => Ok(Precedence::Call),
            10 => Ok(Precedence::Primary),
            _ => Err(()),
        }
    }
}

/// The parsing routines that a rule can name.
#[derive(Debug, Clone, Copy, PartialEq, Eq, Structural)]
pub enum ParseFn {
    Grouping,
    Call,
    Unary,
    Binary,
    Number,
    String,
    Variable,
    Literal,
    And,
    Or,
    Switch,
    Prefix,
    Array,
    MakeArray,
    Len,
}

/// How a token is parsed: at the start of an expression, after an operand, and how
/// tightly it binds as an infix operator.
#[derive(Debug, Clone, Copy, PartialEq, Eq, Structural)]
pub struct ParseRule {
    pub prefix: Option<ParseFn>,
    pub infix: Option<ParseFn>,
    pub precedence: Precedence,
}

pub open spec fn rule(prefix: Option<ParseFn>, infix: Option<ParseFn>, precedence: Precedence) -> ParseRule {
    ParseRule { prefix, infix, precedence }
}

/// The parse rule of each kind of token.
pub open spec fn rule_of(t: TokenType) -> ParseRule {
    match t {
        TokenType::LeftParen => rule(Some(ParseFn::Grouping), Some(ParseFn::Call), Precedence::Call),
        TokenType::Bang => rule(Some(ParseFn::Unary), None, Precedence::Lowest),
        TokenType::Minus => rule(Some(ParseFn::Unary), Some(ParseFn::Binary), Precedence::Term),
        TokenType::Plus => rule(None, Some(ParseFn::Binary), Precedence::Term),
        TokenType::Star | TokenType::Slash => rule(None, Some(ParseFn::Binary), Precedence::Factor),
        TokenType::BangEqual | TokenType::EqualEqual => rule(None, Some(ParseFn::Binary), Precedence::Equality),
        TokenType::Greater | TokenType::GreaterEqual | TokenType::Less | TokenType::LessEqual => rule(
            None,
            Some(ParseFn::Binary),
            Precedence::Comparison,
        ),
        TokenType::Number => rule(Some(ParseFn::Number), None, Precedence::Lowest),
        TokenType::String => rule(Some(ParseFn::String), None, Precedence::Lowest),
        TokenType::Identifier => rule(Some(ParseFn::Variable), None, Precedence::Lowest),
        TokenType::Nil | TokenType::False | TokenType::True => rule(Some(ParseFn::Literal), None, Precedence::Lowest),
        TokenType::And => rule(None, Some(ParseFn::And), Precedence::And),
        TokenType::Or => rule(None, Some(ParseFn::Or), Precedence::Or),
        TokenType::Switch => rule(Some(ParseFn::Switch), None, Precedence::Lowest),
        TokenType::PlusPlus => rule(Some(ParseFn::Prefix), None, Precedence::Unary),
        TokenType::MinusMinus => rule(Some(ParseFn::Prefix), None, Precedence::Unary),
        TokenType::LeftBracket => rule(Some(ParseFn::Array), None, Precedence::Lowest),
        TokenType::Array => rule(Some(ParseFn::MakeArray), None, Precedence::Lowest),
        TokenType::Len => rule(Some(ParseFn::Len), None, Precedence::Lowest),
        _ => rule(None, None, Precedence::Lowest),
    }
}

impl ParseRule {
    fn new(prefix: Option<ParseFn>, infix: Option<ParseFn>, precedence: Precedence) -> (r: ParseRule)
        ensures
            r == rule(prefix, infix, precedence),
    {
        ParseRule { prefix, infix, precedence }
    }
}

/// The parse rule of a kind of token.
pub fn get_rule(token_type: TokenType) -> (r: ParseRule)
    ensures
        r == rule_of(token_type),
{
    match token_type {
        TokenType::LeftParen => ParseRule::new(Some(ParseFn::Grouping), Some(ParseFn::Call), Precedence::Call),
        TokenType::Bang => ParseRule::new(Some(ParseFn::Unary), None, Precedence::Lowest),
        TokenType::Minus => ParseRule::new(Some(ParseFn::Unary), Some(ParseFn::Binary), Precedence::Term),
        TokenType::Plus => ParseRule::new(None, Some(ParseFn::Binary), Precedence::Term),
        TokenType::Star | TokenType::Slash => ParseRule::new(None, Some(ParseFn::Binary), Precedence::Factor),
        TokenType::BangEqual | TokenType::EqualEqual => ParseRule::new(
            None,
            Some(ParseFn::Binary),
            Precedence::Equality,
        ),
        TokenType::Greater | TokenType::GreaterEqual | TokenType::Less | TokenType::LessEqual => {
            ParseRule::new(None, Some(ParseFn::Binary), Precedence::Comparison)
        },
        TokenType::Number => ParseRule::new(Some(ParseFn::Number), None, Precedence::Lowest),
        TokenType::String => ParseRule::new(Some(ParseFn::String), None, Precedence::Lowest),
        TokenType::Identifier => ParseRule::new(Some(ParseFn::Variable), None, Precedence::Lowest),
        TokenType::Nil | TokenType::False | TokenType::True => ParseRule::new(
            Some(ParseFn::Literal),
            None,
            Precedence::Lowest,
        ),
        TokenType::And => ParseRule::new(None, Some(ParseFn::And), Precedence::And),
        TokenType::Or => ParseRule::new(None, Some(ParseFn::Or), Precedence::Or),
        TokenType::Switch => ParseRule::new(Some(ParseFn::Switch), None, Precedence::Lowest),
        TokenType::PlusPlus => ParseRule::new(Some(ParseFn::Prefix), None, Precedence::Unary),
        TokenType::MinusMinus => ParseRule::new(Some(ParseFn::Prefix), None, Precedence::Unary),
        TokenType::LeftBracket => ParseRule::new(Some(ParseFn::Array), None, Precedence::Lowest),
        TokenType::Array => ParseRule::new(Some(ParseFn::MakeArray), None, Precedence::Lowest),
        TokenType::Len => ParseRule::new(Some(ParseFn::Len), None, Precedence::Lowest),
        _ => ParseRule::new(None, None, Precedence::Lowest),
    }
}

} // verus!
