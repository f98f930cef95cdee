//! The lexical units of the language and their width in the source text.

use vstd::prelude::*;

verus! {

/// What a token is, with its text as a sequence of characters.
pub enum TokenView {
    Identifier(Seq<char>),
    Keyword(Seq<char>),
    Punctuation(PunctuationKind),
    Comment(Seq<char>),
    Literal(LiteralKind, Seq<char>),
    Special(SpecialKind),
    Whitespace(WhitespaceKind),
}

/// A lexical unit. `Keyword` is reserved: the lexer does not produce it yet.
#[derive(Debug, PartialEq, Eq)]
pub enum Token {
    Identifier(String),
    Keyword(String),
    Punctuation(PunctuationKind),
    Comment(String),
    Literal(LiteralKind, String),
    Special(SpecialKind),
    Whitespace(WhitespaceKind),
}

#[derive(Debug, Clone, Copy, PartialEq, Eq, Structural)]
pub enum LiteralKind {
    StringLiteral,
    IntegerLiteral,
    DecimalLiteral,
    BooleanLiteral,
}

#[derive(Debug, Clone, Copy, PartialEq, Eq, Structural)]
pub enum PunctuationKind {
    Comma,
    Equal,
    LeftParen,
    RightParen,
    LeftBracket,
    RightBracket,
    LeftBrace,
    RightBrace,
}

#[derive(Debug, Clone, Copy, PartialEq, Eq, Structural)]
pub enum SpecialKind {
    FunctionDefinition,
    SignatureStart,
    SignatureArrow,
}

#[derive(Debug, Clone, Copy, PartialEq, Eq, Structural)]
pub enum WhitespaceKind {
    NewLine,
    Indentation,
}

impl View for Token {
    type V = TokenView;

    open spec fn view(&self) -> TokenView {
        match *self {
            Token::Identifier(s) => TokenView::Identifier(s@),
            Token::Keyword(s) => TokenView::Keyword(s@),
            Token::Punctuation(kind) => TokenView::Punctuation(kind),
            Token::Comment(s) => TokenView::Comment(s@),
            Token::Literal(kind, s) => TokenView::Literal(kind, s@),
            Token::Special(kind) => TokenView::Special(kind),
            Token::Whitespace(kind) => TokenView::Whitespace(kind),
        }
    }
}

impl Clone for Token {
    fn clone(&self) -> (copy: Self)
        ensures
            copy == *self,
    {
        match self {
            Token::Identifier(s) => Token::Identifier(s.clone()),
            Token::Keyword(s) => Token::Keyword(s.clone()),
            Token::Punctuation(kind) => Token::Punctuation(*kind),
            Token::Comment(s) => Token::Comment(s.clone()),
            Token::Literal(kind, s) => Token::Literal(*kind, s.clone()),
            Token::Special(kind) => Token::Special(*kind),
            Token::Whitespace(kind) => Token::Whitespace(*kind),
        }
    }
}

/// The views of a sequence of tokens, in order.
pub open spec fn token_views(tokens: Seq<Token>) -> Seq<TokenView> {
    tokens.map_values(|t: Token| t@)
}

/// The number of characters that a token takes up in the source text: its
/// text, and the marker or quotes that the text does not hold.
pub open spec fn token_width(token: TokenView) -> nat {
    match token {
        TokenView::Identifier(s) => s.len(),
        TokenView::Keyword(s) => s.len(),
        TokenView::Comment(s) => s.len() + 1,
        TokenView::Punctuation(_) => 1,
        TokenView::Literal(kind, s) => match kind {
            LiteralKind::StringLiteral => s.len() + 2,
            _ => s.len(),
        },
        TokenView::Special(kind) => match kind {
            SpecialKind::FunctionDefinition => 1,
            SpecialKind::SignatureStart => 2,
            SpecialKind::SignatureArrow => 2,
        },
        TokenView::Whitespace(kind) => match kind {
            WhitespaceKind::NewLine => 1,
            WhitespaceKind::Indentation => 4,
        },
    }
}

/// The widths of a sequence of tokens, added up.
pub open spec fn total_width(tokens: Seq<TokenView>) -> nat
    decreases tokens.len(),
{
    if tokens.len() == 0 {
        0
    } else {
        token_width(tokens.first()) + total_width(tokens.drop_first())
    }
}

/// Retrieves the full size of the token in the source text, in characters.
pub fn token_size(token: &Token) -> (size: usize)
    requires
        token_width(token@) <= usize::MAX,
    ensures
        size == token_width(token@),
{
    match token {
        Token::Identifier(s) => s.as_str().unicode_len(),
        Token::Keyword(s) => s.as_str().unicode_len(),
        Token::Comment(s) => s.as_str().unicode_len() + 1,
        Token::Punctuation(_) => 1,
        Token::Literal(kind, s) => match kind {
            LiteralKind::StringLiteral => s.as_str().unicode_len() + 2,
            _ => s.as_str().unicode_len(),
        },
        Token::Special(kind) => match kind {
            SpecialKind::FunctionDefinition => 1,
            SpecialKind::SignatureStart => 2,
            SpecialKind::SignatureArrow => 2,
        },
        Token::Whitespace(kind) => match kind {
            WhitespaceKind::NewLine => 1,
            WhitespaceKind::Indentation => 4,
        },
    }
}

} // verus!
