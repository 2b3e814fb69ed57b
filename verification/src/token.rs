//! Tokens produced by the lexer, their mathematical model, and the error
//! taxonomy of the pipeline.

use vstd::prelude::*;

verus! {

/// One classified unit of the source text.
///
/// Literal-carrying variants keep their payload: `Number` carries both the
/// canonical decimal text of the literal (no leading zeros) and its value,
/// `Strings` the text between a pair of double quotes, `VarName`/`FuncName`
/// the identifier, `Parameters` the raw text captured between the
/// parentheses of a declaration or call, and `Comment` the whole comment
/// run including the leading `#`. Punctuation and keyword variants carry
/// nothing: their text is fixed.
#[derive(Debug, Clone, PartialEq)]
pub enum Token {
    Plus,
    Minus,
    Multiply,
    Divide,
    LParen,
    RParen,
    SglQuote,
    DblQuote,
    LSquirly,
    RSquirly,
    LSquare,
    RSquare,
    EqualsTo,
    Equality,
    Number(String, i32),
    Strings(String),
    Boolean(bool),
    LetInt,
    LetString,
    LetBool,
    VarName(String),
    Semicolon,
    Comma,
    Function,
    FuncName(String),
    Print,
    Parameters(String),
    NewLine,
    Comment(String),
    If,
    OrIf,
    Else,
}

/// The mathematical model of a [`Token`]: the same variants over `Seq<char>`
/// and `int` instead of `String` and `i32`.
pub enum TokenModel {
    Plus,
    Minus,
    Multiply,
    Divide,
    LParen,
    RParen,
    SglQuote,
    DblQuote,
    LSquirly,
    RSquirly,
    LSquare,
    RSquare,
    EqualsTo,
    Equality,
    Number(Seq<char>, int),
    Strings(Seq<char>),
    Boolean(bool),
    LetInt,
    LetString,
    LetBool,
    VarName(Seq<char>),
    Semicolon,
    Comma,
    Function,
    FuncName(Seq<char>),
    Print,
    Parameters(Seq<char>),
    NewLine,
    Comment(Seq<char>),
    If,
    OrIf,
    Else,
}

impl View for Token {
    type V = TokenModel;

    open spec fn view(&self) -> TokenModel {
        match self {
            Token::Plus => TokenModel::Plus,
            Token::Minus => TokenModel::Minus,
            Token::Multiply => TokenModel::Multiply,
            Token::Divide => TokenModel::Divide,
            Token::LParen => TokenModel::LParen,
            Token::RParen => TokenModel::RParen,
            Token::SglQuote => TokenModel::SglQuote,
            Token::DblQuote => TokenModel::DblQuote,
            Token::LSquirly => TokenModel::LSquirly,
            Token::RSquirly => TokenModel::RSquirly,
            Token::LSquare => TokenModel::LSquare,
            Token::RSquare => TokenModel::RSquare,
            Token::EqualsTo => TokenModel::EqualsTo,
            Token::Equality => TokenModel::Equality,
            Token::Number(text, value) => TokenModel::Number(text@, *value as int),
            Token::Strings(s) => TokenModel::Strings(s@),
            Token::Boolean(b) => TokenModel::Boolean(*b),
            Token::LetInt => TokenModel::LetInt,
            Token::LetString => TokenModel::LetString,
            Token::LetBool => TokenModel::LetBool,
            Token::VarName(s) => TokenModel::VarName(s@),
            Token::Semicolon => TokenModel::Semicolon,
            Token::Comma => TokenModel::Comma,
            Token::Function => TokenModel::Function,
            Token::FuncName(s) => TokenModel::FuncName(s@),
            Token::Print => TokenModel::Print,
            Token::Parameters(s) => TokenModel::Parameters(s@),
            Token::NewLine => TokenModel::NewLine,
            Token::Comment(s) => TokenModel::Comment(s@),
            Token::If => TokenModel::If,
            Token::OrIf => TokenModel::OrIf,
            Token::Else => TokenModel::Else,
        }
    }
}

/// The models of a sequence of tokens, in order.
pub open spec fn tokens_view(ts: Seq<Token>) -> Seq<TokenModel> {
    Seq::new(ts.len(), |i: int| ts[i]@)
}

/// An error of the lexer. Both are terminal: no tokens are produced.
#[derive(Debug, Clone, Copy, PartialEq, Eq, Structural)]
pub enum LexError {
    /// A character outside the supported classes was encountered.
    InvalidCharacter,
    /// A buffered identifier matched no keyword, no classifying context,
    /// and no previously classified name.
    UnknownIdentifier,
}

/// An error of the parser. Terminal: no syntax nodes are produced.
#[derive(Debug, Clone, Copy, PartialEq, Eq, Structural)]
pub enum ParseError {
    /// A declaration lacked its required assignment or terminator, or a
    /// call lacked its opening parenthesis.
    InvalidSyntax,
}

} // verus!
