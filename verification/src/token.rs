//! Lexical categories and the tokens the lexer produces.

use vstd::prelude::*;

verus! {

/// The closed set of lexical categories.
#[derive(PartialEq, Eq, Debug, Clone, Copy, Structural)]
pub enum TokenTypes {
    ILLEGLAL,
    EOF,
    IDENT,
    INT,
    ASSIGN,
    PLUS,
    MINUS,
    BANG,
    ASTERISK,
    SLASH,
    EQ,
    NOTEq,
    LT,
    GT,
    COMMA,
    SEMICOLON,
    LPAREN,
    RPAREN,
    LBRACE,
    RBRACE,
    FUNCTION,
    LET,
    TRUE,
    FALSE,
    IF,
    ELSE,
    RETURN,
}

/// A token is a category tag together with the verbatim lexeme.
#[derive(Debug)]
pub struct Token {
    pub token_type: TokenTypes,
    pub litteral: String,
}

impl Clone for Token {
    fn clone(&self) -> (r: Token)
        ensures
            r == *self,
    {
        Token { token_type: self.token_type, litteral: self.litteral.clone() }
    }
}

impl Token {
    pub fn new(token_type: TokenTypes, litteral: String) -> (t: Token)
        ensures
            t.token_type == token_type,
            t.litteral == litteral,
    {
        Token { token_type, litteral }
    }
}

/// The category an identifier-shaped lexeme belongs to: one of the
/// fixed keywords, or `IDENT` for everything else.
pub open spec fn spec_keyword_type(s: Seq<char>) -> TokenTypes {
    if s == "let"@ {
        TokenTypes::LET
    } else if s == "fn"@ {
        TokenTypes::FUNCTION
    } else if s == "return"@ {
        TokenTypes::RETURN
    } else if s == "if"@ {
        TokenTypes::IF
    } else if s == "else"@ {
        TokenTypes::ELSE
    } else if s == "true"@ {
        TokenTypes::TRUE
    } else if s == "false"@ {
        TokenTypes::FALSE
    } else {
        TokenTypes::IDENT
    }
}

/// Keyword table lookup: maps the spellings `let`, `fn`, `return`, `if`,
/// `else`, `true` and `false` to their keyword categories, and every other
/// lexeme to `IDENT`.
pub fn lookup_keyword(s: &String) -> (t: TokenTypes)
    ensures
        t == spec_keyword_type(s@),
{
    if string_eq_lit(s, "let") {
        TokenTypes::LET
    } else if string_eq_lit(s, "fn") {
        TokenTypes::FUNCTION
    } else if string_eq_lit(s, "return") {
        TokenTypes::RETURN
    } else if string_eq_lit(s, "if") {
        TokenTypes::IF
    } else if string_eq_lit(s, "else") {
        TokenTypes::ELSE
    } else if string_eq_lit(s, "true") {
        TokenTypes::TRUE
    } else if string_eq_lit(s, "false") {
        TokenTypes::FALSE
    } else {
        TokenTypes::IDENT
    }
}

/// Equality between an owned string and a literal, stated over the views.
pub fn string_eq_lit(s: &String, w: &str) -> (r: bool)
    ensures
        r == (s@ == w@),
{
    let t = String::from_str(w);
    *s == t
}

} // verus!
