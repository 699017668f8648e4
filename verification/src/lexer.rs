//! The lexer: turns a character buffer into a finite stream of tokens,
//! ending with `EOF` once the input is exhausted.

use vstd::prelude::*;
use crate::token::{spec_keyword_type, Token, TokenTypes};

verus! {

/// The whitespace characters the lexer skips between tokens.
pub open spec fn is_ws_char(c: char) -> bool {
    c == ' ' || c == '\n' || c == '\t' || c == '\r'
}

/// An ASCII letter: identifiers are maximal runs of these.
pub open spec fn is_letter_char(c: char) -> bool {
    ('a' as u32) <= (c as u32) && (c as u32) <= ('z' as u32) || ('A' as u32) <= (c as u32) && (
    c as u32) <= ('Z' as u32)
}

pub use crate::decimal::is_digit_char;

/// The first position at or after `i` holding a non-whitespace character
/// (or the end of the input).
pub open spec fn spec_skip_ws(input: Seq<char>, i: nat) -> nat
    decreases input.len() - i,
{
    if i < input.len() && is_ws_char(input[i as int]) {
        spec_skip_ws(input, i + 1)
    } else {
        i
    }
}

/// The end of the letter run starting at `i`.
pub open spec fn spec_letter_end(input: Seq<char>, i: nat) -> nat
    decreases input.len() - i,
{
    if i < input.len() && is_letter_char(input[i as int]) {
        spec_letter_end(input, i + 1)
    } else {
        i
    }
}

/// The end of the digit run starting at `i`.
pub open spec fn spec_digit_end(input: Seq<char>, i: nat) -> nat
    decreases input.len() - i,
{
    if i < input.len() && is_digit_char(input[i as int]) {
        spec_digit_end(input, i + 1)
    } else {
        i
    }
}

pub proof fn lemma_skip_ws_bounds(input: Seq<char>, i: nat)
    requires
        i <= input.len(),
    ensures
        i <= spec_skip_ws(input, i) <= input.len(),
    decreases input.len() - i,
{
    if i < input.len() && is_ws_char(input[i as int]) {
        lemma_skip_ws_bounds(input, i + 1);
    }
}

pub proof fn lemma_letter_end_bounds(input: Seq<char>, i: nat)
    requires
        i <= input.len(),
    ensures
        i <= spec_letter_end(input, i) <= input.len(),
    decreases input.len() - i,
{
    if i < input.len() && is_letter_char(input[i as int]) {
        lemma_letter_end_bounds(input, i + 1);
    }
}

pub proof fn lemma_digit_end_bounds(input: Seq<char>, i: nat)
    requires
        i <= input.len(),
    ensures
        i <= spec_digit_end(input, i) <= input.len(),
    decreases input.len() - i,
{
    if i < input.len() && is_digit_char(input[i as int]) {
        lemma_digit_end_bounds(input, i + 1);
    }
}

/// What the lexer produces at position `i` (which must already sit on a
/// non-whitespace character): the token's category, its lexeme, and the
/// position right after the token.
pub open spec fn spec_token_at(input: Seq<char>, i: nat) -> (TokenTypes, Seq<char>, nat) {
    if i >= input.len() {
        (TokenTypes::EOF, Seq::<char>::empty(), input.len())
    } else {
        let c = input[i as int];
        if c == '=' {
            if i + 1 < input.len() && input[i + 1 as int] == '=' {
                (TokenTypes::EQ, "=="@, (i + 2) as nat)
            } else {
                (TokenTypes::ASSIGN, "="@, (i + 1) as nat)
            }
        } else if c == '!' {
            if i + 1 < input.len() && input[i + 1 as int] == '=' {
                (TokenTypes::NOTEq, "!="@, (i + 2) as nat)
            } else {
                (TokenTypes::BANG, "!"@, (i + 1) as nat)
            }
        } else if c == '+' {
            (TokenTypes::PLUS, "+"@, (i + 1) as nat)
        } else if c == '-' {
            (TokenTypes::MINUS, "-"@, (i + 1) as nat)
        } else if c == '/' {
            (TokenTypes::SLASH, "/"@, (i + 1) as nat)
        } else if c == '*' {
            (TokenTypes::ASTERISK, "*"@, (i + 1) as nat)
        } else if c == '<' {
            (TokenTypes::LT, "<"@, (i + 1) as nat)
        } else if c == '>' {
            (TokenTypes::GT, ">"@, (i + 1) as nat)
        } else if c == '(' {
            (TokenTypes::LPAREN, "("@, (i + 1) as nat)
        } else if c == ')' {
            (TokenTypes::RPAREN, ")"@, (i + 1) as nat)
        } else if c == '{' {
            (TokenTypes::LBRACE, "{"@, (i + 1) as nat)
        } else if c == '}' {
            (TokenTypes::RBRACE, "}"@, (i + 1) as nat)
        } else if c == ',' {
            (TokenTypes::COMMA, ","@, (i + 1) as nat)
        } else if c == ';' {
            (TokenTypes::SEMICOLON, ";"@, (i + 1) as nat)
        } else if c == '\0' {
            (TokenTypes::EOF, Seq::<char>::empty(), (i + 1) as nat)
        } else if is_letter_char(c) {
            let end = spec_letter_end(input, i);
            let lexeme = input.subrange(i as int, end as int);
            (spec_keyword_type(lexeme), lexeme, end)
        } else if is_digit_char(c) {
            let end = spec_digit_end(input, i);
            (TokenTypes::INT, input.subrange(i as int, end as int), end)
        } else {
            (TokenTypes::ILLEGLAL, input.subrange(i as int, i + 1 as int), (i + 1) as nat)
        }
    }
}

/// The token consumes characters: classification never moves backwards,
/// never leaves the input, and moves strictly forward except at `EOF`.
pub proof fn lemma_token_at_progress(input: Seq<char>, i: nat)
    requires
        i <= input.len(),
    ensures
        ({
            let t = spec_token_at(input, i);
            &&& i <= t.2 <= input.len()
            &&& (t.0 != TokenTypes::EOF ==> t.2 > i)
        }),
{
    if i < input.len() {
        let c = input[i as int];
        lemma_letter_end_bounds(input, i);
        lemma_digit_end_bounds(input, i);
        if is_letter_char(c) {
            lemma_letter_end_bounds(input, (i + 1) as nat);
        }
        if is_digit_char(c) {
            lemma_digit_end_bounds(input, (i + 1) as nat);
        }
    }
}

/// From a position where every remaining character is a digit, the
/// digit run extends to the end of the input.
pub proof fn lemma_digit_end_all(input: Seq<char>, i: nat)
    requires
        i <= input.len(),
        forall|j: int| i <= j < input.len() ==> is_digit_char(#[trigger] input[j]),
    ensures
        spec_digit_end(input, i) == input.len(),
    decreases input.len() - i,
{
    if i < input.len() {
        lemma_digit_end_all(input, i + 1);
    }
}

/// An input that is one non-empty digit run lexes to exactly its `INT`
/// token followed by the `EOF` token.
pub proof fn lemma_token_stream_digits(input: Seq<char>)
    requires
        input.len() >= 1,
        crate::decimal::all_digits(input),
    ensures
        spec_token_stream(input, 0) =~= seq![
            crate::ast::TokenV { token_type: TokenTypes::INT, litteral: input },
            crate::ast::TokenV { token_type: TokenTypes::EOF, litteral: Seq::<char>::empty() },
        ],
{
    let c = input[0];
    assert(is_digit_char(c));
    assert(!is_ws_char(c));
    assert(!is_letter_char(c));
    assert(spec_skip_ws(input, 0) == 0);
    lemma_digit_end_all(input, 0);
    let t = spec_token_at(input, 0);
    assert(t.0 == TokenTypes::INT);
    assert(t.1 =~= input);
    assert(t.2 == input.len());
    let end = input.len() as nat;
    assert(spec_skip_ws(input, end) == end);
    assert(spec_token_at(input, end).0 == TokenTypes::EOF);
    assert(spec_token_stream(input, end) =~= seq![
        crate::ast::TokenV { token_type: TokenTypes::EOF, litteral: Seq::<char>::empty() },
    ]);
}

/// The token images the lexer yields from `pos` on: each token taken at
/// its whitespace-skipped position, ending with the `EOF` token.
pub open spec fn spec_token_stream(input: Seq<char>, pos: nat) -> Seq<crate::ast::TokenV>
    decreases input.len() - pos,
{
    let start = spec_skip_ws(input, pos);
    let t = spec_token_at(input, start);
    if t.0 == TokenTypes::EOF {
        seq![crate::ast::TokenV { token_type: t.0, litteral: t.1 }]
    } else if pos <= start && start < t.2 && t.2 <= input.len() {
        seq![crate::ast::TokenV { token_type: t.0, litteral: t.1 }] + spec_token_stream(
            input,
            t.2,
        )
    } else {
        seq![crate::ast::TokenV { token_type: TokenTypes::EOF, litteral: Seq::<char>::empty() }]
    }
}

/// Produces tokens on demand from a character buffer.  `position` is the
/// index of `ch`, the character under examination; `read_pos` is the next
/// index to read.
pub struct Lexer {
    pub input: String,
    pub position: usize,
    pub read_pos: usize,
    pub ch: char,
}

impl Lexer {
    /// The lexer's cursor sits inside the input (or at its end, where the
    /// examined character is the NUL sentinel).
    pub open spec fn wf(self) -> bool {
        &&& self.position <= self.input@.len()
        &&& self.read_pos == if self.position < self.input@.len() {
            self.position + 1
        } else {
            self.input@.len() as int
        }
        &&& self.ch == if self.position < self.input@.len() {
            self.input@[self.position as int]
        } else {
            '\0'
        }
        &&& self.input@.len() <= usize::MAX
    }

    pub fn new(input: &str) -> (l: Lexer)
        requires
            input@.len() <= usize::MAX,
        ensures
            l.wf(),
            l.input@ == input@,
            l.position == 0,
    {
        let mut lexer = Lexer {
            input: input.to_owned(),
            position: 0,
            read_pos: 0,
            ch: '\0',
        };
        lexer.read_char();
        lexer
    }

    /// Advances the cursor one character; past the end it stays put and
    /// examines the NUL sentinel.
    fn read_char(&mut self)
        requires
            old(self).position <= old(self).input@.len(),
            old(self).read_pos <= old(self).input@.len(),
            old(self).read_pos == old(self).position + 1 || old(self).read_pos == old(
                self,
            ).position,
            old(self).input@.len() <= usize::MAX,
        ensures
            final(self).wf(),
            final(self).input == old(self).input,
            final(self).position == old(self).read_pos,
    {
        let len = self.input.as_str().unicode_len();
        if self.read_pos >= len {
            self.ch = '\0';
            self.position = len;
            self.read_pos = len;
        } else {
            self.ch = self.input.as_str().get_char(self.read_pos);
            self.position = self.read_pos;
            self.read_pos = self.read_pos + 1;
        }
    }

    /// The character one past the cursor, or the NUL sentinel at the end.
    fn peek(&self) -> (c: char)
        requires
            self.wf(),
        ensures
            c == if self.position + 1 < self.input@.len() {
                self.input@[self.position + 1]
            } else {
                '\0'
            },
    {
        let len = self.input.as_str().unicode_len();
        if self.read_pos < len {
            self.input.as_str().get_char(self.read_pos)
        } else {
            '\0'
        }
    }

    fn skip_whitespace(&mut self)
        requires
            old(self).wf(),
        ensures
            final(self).wf(),
            final(self).input == old(self).input,
            final(self).position == spec_skip_ws(old(self).input@, old(self).position as nat),
    {
        let len = self.input.as_str().unicode_len();
        while self.ch == ' ' || self.ch == '\n' || self.ch == '\t' || self.ch == '\r'
            invariant
                self.wf(),
                self.input == old(self).input,
                len == self.input@.len(),
                spec_skip_ws(self.input@, self.position as nat) == spec_skip_ws(
                    old(self).input@,
                    old(self).position as nat,
                ),
            decreases len - self.position,
        {
            self.read_char();
        }
    }

    fn is_number(&self, c: char) -> (r: bool)
        ensures
            r == is_digit_char(c),
    {
        (c as u32) >= ('0' as u32) && (c as u32) <= ('9' as u32)
    }

    fn is_letter(&self, c: char) -> (r: bool)
        ensures
            r == is_letter_char(c),
    {
        (c as u32) >= ('a' as u32) && (c as u32) <= ('z' as u32) || (c as u32) >= ('A' as u32) && (
        c as u32) <= ('Z' as u32)
    }

    /// Consumes the maximal digit run under the cursor and returns it.
    fn read_number(&mut self) -> (lexeme: String)
        requires
            old(self).wf(),
        ensures
            final(self).wf(),
            final(self).input == old(self).input,
            final(self).position == spec_digit_end(old(self).input@, old(self).position as nat),
            lexeme@ == old(self).input@.subrange(
                old(self).position as int,
                spec_digit_end(old(self).input@, old(self).position as nat) as int,
            ),
    {
        let cur_pos = self.position;
        let len = self.input.as_str().unicode_len();
        while self.position < len && self.is_number(self.ch)
            invariant
                self.wf(),
                self.input == old(self).input,
                len == self.input@.len(),
                cur_pos <= self.position,
                spec_digit_end(self.input@, self.position as nat) == spec_digit_end(
                    old(self).input@,
                    old(self).position as nat,
                ),
            decreases len - self.position,
        {
            self.read_char();
        }
        self.input.as_str().substring_char(cur_pos, self.position).to_owned()
    }

    /// Consumes the maximal letter run under the cursor and returns it.
    fn read_identifier(&mut self) -> (lexeme: String)
        requires
            old(self).wf(),
        ensures
            final(self).wf(),
            final(self).input == old(self).input,
            final(self).position == spec_letter_end(old(self).input@, old(self).position as nat),
            lexeme@ == old(self).input@.subrange(
                old(self).position as int,
                spec_letter_end(old(self).input@, old(self).position as nat) as int,
            ),
    {
        let cur_pos = self.position;
        let len = self.input.as_str().unicode_len();
        while self.position < len && self.is_letter(self.ch)
            invariant
                self.wf(),
                self.input == old(self).input,
                len == self.input@.len(),
                cur_pos <= self.position,
                spec_letter_end(self.input@, self.position as nat) == spec_letter_end(
                    old(self).input@,
                    old(self).position as nat,
                ),
            decreases len - self.position,
        {
            self.read_char();
        }
        self.input.as_str().substring_char(cur_pos, self.position).to_owned()
    }

    /// Skips whitespace, then classifies and consumes the next token.
    /// Once the input is exhausted this returns `EOF` indefinitely.
    pub fn next_token(&mut self) -> (token: Token)
        requires
            old(self).wf(),
        ensures
            final(self).wf(),
            final(self).input == old(self).input,
            ({
                let t = spec_token_at(
                    old(self).input@,
                    spec_skip_ws(old(self).input@, old(self).position as nat),
                );
                &&& token.token_type == t.0
                &&& token.litteral@ == t.1
                &&& final(self).position == t.2
            }),
            final(self).position >= old(self).position,
            token.token_type != TokenTypes::EOF ==> final(self).position > old(self).position,
    {
        proof {
            lemma_skip_ws_bounds(self.input@, self.position as nat);
        }
        self.skip_whitespace();
        let ghost start = self.position as nat;
        let len = self.input.as_str().unicode_len();
        if self.position >= len {
            let token = Token::new(TokenTypes::EOF, String::new());
            self.read_char();
            return token;
        }
        let c = self.ch;
        if c == '=' {
            let token = if self.peek() == '=' {
                self.read_char();
                Token::new(TokenTypes::EQ, String::from_str("=="))
            } else {
                Token::new(TokenTypes::ASSIGN, String::from_str("="))
            };
            self.read_char();
            token
        } else if c == '!' {
            let token = if self.peek() == '=' {
                self.read_char();
                Token::new(TokenTypes::NOTEq, String::from_str("!="))
            } else {
                Token::new(TokenTypes::BANG, String::from_str("!"))
            };
            self.read_char();
            token
        } else if c == '+' {
            let token = Token::new(TokenTypes::PLUS, String::from_str("+"));
            self.read_char();
            token
        } else if c == '-' {
            let token = Token::new(TokenTypes::MINUS, String::from_str("-"));
            self.read_char();
            token
        } else if c == '/' {
            let token = Token::new(TokenTypes::SLASH, String::from_str("/"));
            self.read_char();
            token
        } else if c == '*' {
            let token = Token::new(TokenTypes::ASTERISK, String::from_str("*"));
            self.read_char();
            token
        } else if c == '<' {
            let token = Token::new(TokenTypes::LT, String::from_str("<"));
            self.read_char();
            token
        } else if c == '>' {
            let token = Token::new(TokenTypes::GT, String::from_str(">"));
            self.read_char();
            token
        } else if c == '(' {
            let token = Token::new(TokenTypes::LPAREN, String::from_str("("));
            self.read_char();
            token
        } else if c == ')' {
            let token = Token::new(TokenTypes::RPAREN, String::from_str(")"));
            self.read_char();
            token
        } else if c == '{' {
            let token = Token::new(TokenTypes::LBRACE, String::from_str("{"));
            self.read_char();
            token
        } else if c == '}' {
            let token = Token::new(TokenTypes::RBRACE, String::from_str("}"));
            self.read_char();
            token
        } else if c == ',' {
            let token = Token::new(TokenTypes::COMMA, String::from_str(","));
            self.read_char();
            token
        } else if c == ';' {
            let token = Token::new(TokenTypes::SEMICOLON, String::from_str(";"));
            self.read_char();
            token
        } else if c == '\0' {
            let token = Token::new(TokenTypes::EOF, String::new());
            self.read_char();
            token
        } else if self.is_letter(c) {
            proof {
                lemma_letter_end_bounds(self.input@, self.position as nat);
                lemma_letter_end_bounds(self.input@, (self.position + 1) as nat);
            }
            let identifier = self.read_identifier();
            let token_type = crate::token::lookup_keyword(&identifier);
            Token::new(token_type, identifier)
        } else if self.is_number(c) {
            proof {
                lemma_digit_end_bounds(self.input@, self.position as nat);
                lemma_digit_end_bounds(self.input@, (self.position + 1) as nat);
            }
            let number = self.read_number();
            Token::new(TokenTypes::INT, number)
        } else {
            let lexeme = self.input.as_str().substring_char(
                self.position,
                self.position + 1,
            ).to_owned();
            let token = Token::new(TokenTypes::ILLEGLAL, lexeme);
            self.read_char();
            token
        }
    }
}

} // verus!
