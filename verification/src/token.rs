//! The tokens of a `flags` invocation.

use vstd::prelude::*;

verus! {

/// One token of an invocation, as the host language's lexer would hand it
/// over: an identifier, the path separator `::`, a brace, or one of the two
/// list separators `|` and `,`.
#[derive(Debug, Clone, PartialEq, Eq)]
pub enum Token {
    Ident(String),
    PathSep,
    OpenBrace,
    CloseBrace,
    Pipe,
    Comma,
}

/// The ghost mirror of [`Token`], with identifiers as character sequences.
/// Contracts speak of token sequences through this type.
pub enum Tok {
    Ident(Seq<char>),
    PathSep,
    OpenBrace,
    CloseBrace,
    Pipe,
    Comma,
}

impl View for Token {
    type V = Tok;

    open spec fn view(&self) -> Tok {
        match self {
            Token::Ident(s) => Tok::Ident(s@),
            Token::PathSep => Tok::PathSep,
            Token::OpenBrace => Tok::OpenBrace,
            Token::CloseBrace => Tok::CloseBrace,
            Token::Pipe => Tok::Pipe,
            Token::Comma => Tok::Comma,
        }
    }
}

/// The ghost token sequence that a token vector denotes.
pub open spec fn toks_of(v: Seq<Token>) -> Seq<Tok> {
    v.map_values(|t: Token| t@)
}

/// True of the two tokens that may separate items inside the braces.
pub open spec fn is_sep(t: Tok) -> bool {
    t is Pipe || t is Comma
}

/// Whether a token is an identifier.
pub fn is_ident(t: &Token) -> (b: bool)
    ensures
        b == (t@ is Ident),
{
    match t {
        Token::Ident(_) => true,
        _ => false,
    }
}

/// Whether a token is the path separator `::`.
pub fn is_path_sep(t: &Token) -> (b: bool)
    ensures
        b == (t@ is PathSep),
{
    match t {
        Token::PathSep => true,
        _ => false,
    }
}

/// Whether a token is an opening brace.
pub fn is_open_brace(t: &Token) -> (b: bool)
    ensures
        b == (t@ is OpenBrace),
{
    match t {
        Token::OpenBrace => true,
        _ => false,
    }
}

/// Whether a token is a closing brace.
pub fn is_close_brace(t: &Token) -> (b: bool)
    ensures
        b == (t@ is CloseBrace),
{
    match t {
        Token::CloseBrace => true,
        _ => false,
    }
}

/// Whether a token is one of the two list separators.
pub fn is_list_sep(t: &Token) -> (b: bool)
    ensures
        b == is_sep(t@),
{
    match t {
        Token::Pipe => true,
        Token::Comma => true,
        _ => false,
    }
}

} // verus!
