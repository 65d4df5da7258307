//! Tokens, the atoms that the scanner produces and the parser consumes.
use vstd::prelude::*;
use crate::text::{chars_of, same_chars};

verus! {

/// A lexical token of uwucode.
#[derive(PartialEq, Clone, Debug)]
pub enum Token {
    ILLEGAL(String),
    EOF,
    IDENT(String),
    ASSIGN,
    PLUS,
    MINUS,
    ASTERISK,
    SLASH,
    MOD,
    EQ,
    LEQ,
    LE,
    GEQ,
    GR,
    NEQ,
    COMMA,
    SEMICOLON,
    LPAR,
    RPAR,
    LBRA,
    RBRA,
    BANG,
    FUNCTION,
    LET,
    RETURN,
    IF,
    ELIF,
    ELSE,
    WHILE,
    INT(i64),
    STRING(String),
    TRUE,
    FALSE,
}

/// The mathematical value of a token: the text of the tokens that carry
/// text, and the token itself for all the others.
pub ghost enum TokenV {
    Illegal(Seq<char>),
    Ident(Seq<char>),
    Str(Seq<char>),
    Plain(Token),
}

impl View for Token {
    type V = TokenV;

    open spec fn view(&self) -> TokenV {
        match self {
            Token::ILLEGAL(s) => TokenV::Illegal(s@),
            Token::IDENT(s) => TokenV::Ident(s@),
            Token::STRING(s) => TokenV::Str(s@),
            _ => TokenV::Plain(*self),
        }
    }
}

/// The keyword that a word spells, if any.
pub open spec fn keyword(w: Seq<char>) -> Option<Token> {
    if w == seq!['u', 'w', 'u'] {
        Some(Token::FUNCTION)
    } else if w == seq!['o', 'w', 'o'] {
        Some(Token::LET)
    } else if w == seq!['n', 'u', 'z', 'z', 'l', 'e', 's'] {
        Some(Token::IF)
    } else if w == seq!['d', 'a', 'b'] {
        Some(Token::ELIF)
    } else if w == seq!['r', 'a', 'w', 'r'] {
        Some(Token::ELSE)
    } else if w == seq!['s', 'u', 'g', 'o', 'i'] {
        Some(Token::RETURN)
    } else if w == seq!['t', 'r', 'u', 'w', 'u'] {
        Some(Token::TRUE)
    } else if w == seq!['f', 'o', 'w', 'o', 's', 'e'] {
        Some(Token::FALSE)
    } else if w == seq!['n', 'y', 'a', 'a'] {
        Some(Token::WHILE)
    } else {
        None
    }
}

/// The token that a word stands for: its keyword, or else an identifier.
pub open spec fn word_token(w: Seq<char>) -> TokenV {
    match keyword(w) {
        Some(t) => TokenV::Plain(t),
        None => TokenV::Ident(w),
    }
}

/// Maps a word to its keyword token, or to an identifier.
pub fn lookup_word(w: &[char]) -> (r: Token)
    ensures
        r@ == word_token(w@),
{
    if same_chars(w, &['u', 'w', 'u']) {
        Token::FUNCTION
    } else if same_chars(w, &['o', 'w', 'o']) {
        Token::LET
    } else if same_chars(w, &['n', 'u', 'z', 'z', 'l', 'e', 's']) {
        Token::IF
    } else if same_chars(w, &['d', 'a', 'b']) {
        Token::ELIF
    } else if same_chars(w, &['r', 'a', 'w', 'r']) {
        Token::ELSE
    } else if same_chars(w, &['s', 'u', 'g', 'o', 'i']) {
        Token::RETURN
    } else if same_chars(w, &['t', 'r', 'u', 'w', 'u']) {
        Token::TRUE
    } else if same_chars(w, &['f', 'o', 'w', 'o', 's', 'e']) {
        Token::FALSE
    } else if same_chars(w, &['n', 'y', 'a', 'a']) {
        Token::WHILE
    } else {
        Token::IDENT(crate::text::string_of(w))
    }
}

/// Maps an identifier to a keyword, or to a variable or function name.
pub fn lookup_ident(ident: &str) -> (r: Token)
    ensures
        r@ == word_token(ident@),
{
    let w = chars_of(ident);
    lookup_word(w.as_slice())
}

} // verus!
