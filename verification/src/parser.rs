//! The Pratt parser: consumes the token stream, dispatches on prefix and
//! infix token handlers, climbs precedence, and accumulates errors without
//! aborting on the first failure.

use vstd::prelude::*;
use crate::ast::{
    expr_view, exprs_view, legal_infix_operator, legal_prefix_operator, node_view, nodes_view,
    stmt_view, token_view, tokens_view, wf_expr, wf_exprs, wf_node, wf_nodes, wf_stmt, ExprV,
    Expressions, NodeV, Nodes, Program, Statements, StmtV, TokenV,
};
use crate::lexer::{lemma_skip_ws_bounds, lemma_token_at_progress, spec_token_stream};
use crate::decimal::{all_digits, parse_u64, spec_digits_val};
use crate::lexer::Lexer;
use crate::token::{Token, TokenTypes};

verus! {

/// Precedence ranks, ascending.
pub const PREC_LOWEST: u8 = 0;

pub const PREC_EQUALS: u8 = 1;

pub const PREC_LESSGREATER: u8 = 2;

pub const PREC_SUM: u8 = 3;

pub const PREC_PRODUCT: u8 = 4;

pub const PREC_PREFIX: u8 = 5;

pub const PREC_CALL: u8 = 6;

/// The precedence a token binds with as an infix operator; tokens that
/// never start an infix position rank lowest.
pub open spec fn spec_precedence(t: TokenTypes) -> u8 {
    match t {
        TokenTypes::EQ => PREC_EQUALS,
        TokenTypes::NOTEq => PREC_EQUALS,
        TokenTypes::LT => PREC_LESSGREATER,
        TokenTypes::GT => PREC_LESSGREATER,
        TokenTypes::PLUS => PREC_SUM,
        TokenTypes::MINUS => PREC_SUM,
        TokenTypes::ASTERISK => PREC_PRODUCT,
        TokenTypes::SLASH => PREC_PRODUCT,
        TokenTypes::LPAREN => PREC_CALL,
        _ => PREC_LOWEST,
    }
}

fn token_precedence(t: TokenTypes) -> (r: u8)
    ensures
        r == spec_precedence(t),
{
    match t {
        TokenTypes::EQ => PREC_EQUALS,
        TokenTypes::NOTEq => PREC_EQUALS,
        TokenTypes::LT => PREC_LESSGREATER,
        TokenTypes::GT => PREC_LESSGREATER,
        TokenTypes::PLUS => PREC_SUM,
        TokenTypes::MINUS => PREC_SUM,
        TokenTypes::ASTERISK => PREC_PRODUCT,
        TokenTypes::SLASH => PREC_PRODUCT,
        TokenTypes::LPAREN => PREC_CALL,
        _ => PREC_LOWEST,
    }
}

/// The display name of a token category, as error messages print it.
pub open spec fn spec_type_name(t: TokenTypes) -> Seq<char> {
    match t {
        TokenTypes::ILLEGLAL => "ILLEGLAL"@,
        TokenTypes::EOF => "EOF"@,
        TokenTypes::IDENT => "IDENT"@,
        TokenTypes::INT => "INT"@,
        TokenTypes::ASSIGN => "ASSIGN"@,
        TokenTypes::PLUS => "PLUS"@,
        TokenTypes::MINUS => "MINUS"@,
        TokenTypes::BANG => "BANG"@,
        TokenTypes::ASTERISK => "ASTERISK"@,
        TokenTypes::SLASH => "SLASH"@,
        TokenTypes::EQ => "EQ"@,
        TokenTypes::NOTEq => "NOTEq"@,
        TokenTypes::LT => "LT"@,
        TokenTypes::GT => "GT"@,
        TokenTypes::COMMA => "COMMA"@,
        TokenTypes::SEMICOLON => "SEMICOLON"@,
        TokenTypes::LPAREN => "LPAREN"@,
        TokenTypes::RPAREN => "RPAREN"@,
        TokenTypes::LBRACE => "LBRACE"@,
        TokenTypes::RBRACE => "RBRACE"@,
        TokenTypes::FUNCTION => "FUNCTION"@,
        TokenTypes::LET => "LET"@,
        TokenTypes::TRUE => "TRUE"@,
        TokenTypes::FALSE => "FALSE"@,
        TokenTypes::IF => "IF"@,
        TokenTypes::ELSE => "ELSE"@,
        TokenTypes::RETURN => "RETURN"@,
    }
}

fn token_type_name(t: TokenTypes) -> (r: &'static str)
    ensures
        r@ == spec_type_name(t),
{
    match t {
        TokenTypes::ILLEGLAL => "ILLEGLAL",
        TokenTypes::EOF => "EOF",
        TokenTypes::IDENT => "IDENT",
        TokenTypes::INT => "INT",
        TokenTypes::ASSIGN => "ASSIGN",
        TokenTypes::PLUS => "PLUS",
        TokenTypes::MINUS => "MINUS",
        TokenTypes::BANG => "BANG",
        TokenTypes::ASTERISK => "ASTERISK",
        TokenTypes::SLASH => "SLASH",
        TokenTypes::EQ => "EQ",
        TokenTypes::NOTEq => "NOTEq",
        TokenTypes::LT => "LT",
        TokenTypes::GT => "GT",
        TokenTypes::COMMA => "COMMA",
        TokenTypes::SEMICOLON => "SEMICOLON",
        TokenTypes::LPAREN => "LPAREN",
        TokenTypes::RPAREN => "RPAREN",
        TokenTypes::LBRACE => "LBRACE",
        TokenTypes::RBRACE => "RBRACE",
        TokenTypes::FUNCTION => "FUNCTION",
        TokenTypes::LET => "LET",
        TokenTypes::TRUE => "TRUE",
        TokenTypes::FALSE => "FALSE",
        TokenTypes::IF => "IF",
        TokenTypes::ELSE => "ELSE",
        TokenTypes::RETURN => "RETURN",
    }
}

/// The message recorded when the next token is not the expected one.
pub open spec fn spec_peek_error_msg(expected: TokenTypes, got: TokenTypes) -> Seq<char> {
    "expected next token to be "@ + spec_type_name(expected) + ", got "@ + spec_type_name(got)
        + " instead"@
}

/// The message recorded when no prefix handler exists for a token.
pub open spec fn spec_no_prefix_msg(t: TokenTypes) -> Seq<char> {
    "no prefix parse function for "@ + spec_type_name(t) + " found"@
}

/// The message recorded when an integer literal does not fit in 64 bits.
pub open spec fn spec_int_error_msg(lexeme: Seq<char>) -> Seq<char> {
    "could not parse "@ + lexeme + " as integer"@
}

/// `b` holds everything `a` held, in the same places.
pub open spec fn errors_extend(a: Seq<String>, b: Seq<String>) -> bool {
    a.len() <= b.len() && (forall|i: int| 0 <= i < a.len() ==> a[i] == b[i])
}

/// An operator token carries its canonical spelling as lexeme, as the
/// lexer produces it.
pub open spec fn token_lexeme_ok(t: Token) -> bool {
    &&& t.token_type == TokenTypes::PLUS ==> t.litteral@ == "+"@
    &&& t.token_type == TokenTypes::MINUS ==> t.litteral@ == "-"@
    &&& t.token_type == TokenTypes::ASTERISK ==> t.litteral@ == "*"@
    &&& t.token_type == TokenTypes::SLASH ==> t.litteral@ == "/"@
    &&& t.token_type == TokenTypes::EQ ==> t.litteral@ == "=="@
    &&& t.token_type == TokenTypes::NOTEq ==> t.litteral@ == "!="@
    &&& t.token_type == TokenTypes::LT ==> t.litteral@ == "<"@
    &&& t.token_type == TokenTypes::GT ==> t.litteral@ == ">"@
    &&& t.token_type == TokenTypes::BANG ==> t.litteral@ == "!"@
}

/// Every token of the stream spells its operators canonically.
pub open spec fn tokens_typed(ts: Seq<Token>) -> bool {
    forall|i: int| 0 <= i < ts.len() ==> token_lexeme_ok(#[trigger] ts[i])
}


/// The cursor after one step: one token forward, except on the final
/// `EOF`, where it stays put.
pub open spec fn spec_advance(tokens: Seq<Token>, pos: int) -> int {
    if pos + 1 < tokens.len() {
        pos + 1
    } else {
        pos
    }
}

/// The token one past `pos`; past the end it stays the last token.
pub open spec fn spec_peek_at(tokens: Seq<Token>, pos: int) -> Token {
    if pos + 1 < tokens.len() {
        tokens[pos + 1]
    } else {
        tokens.last()
    }
}

/// What parsing an integer literal at the cursor yields: the spelled
/// value when the lexeme is a digit string fitting 64 bits, else
/// nothing (and the parser records the overflow error).
pub open spec fn spec_parse_integer(tokens: Seq<Token>, pos: int) -> Option<ExprV> {
    let tok = tokens[pos];
    if tok.litteral@.len() > 0 && all_digits(tok.litteral@) && spec_digits_val(tok.litteral@)
        <= u64::MAX {
        Some(
            ExprV::IntegerLiteral {
                token: token_view(tok),
                value: spec_digits_val(tok.litteral@) as u64,
            },
        )
    } else {
        None
    }
}

/// The identifier expression built from the token at the cursor.
pub open spec fn spec_identifier_at(tokens: Seq<Token>, pos: int) -> ExprV {
    ExprV::Identifier { token: token_view(tokens[pos]), value: tokens[pos].litteral@ }
}

/// What the whole program parse yields from `pos`: the nodes of the
/// statements that parse, and the final cursor.  In every mirror below,
/// the guarded recursions only continue where the cursor strictly
/// advanced, which the parser's contracts show always holds.
pub open spec fn spec_parse_program_from(tokens: Seq<Token>, pos: int) -> (Seq<NodeV>, int)
    decreases tokens.len() - pos, 5int,
{
    if tokens[pos].token_type == TokenTypes::EOF {
        (Seq::<NodeV>::empty(), pos)
    } else {
        let r = spec_parse_statement(tokens, pos);
        let p2 = spec_advance(tokens, r.1);
        if pos < p2 && p2 <= tokens.len() {
            let rest = spec_parse_program_from(tokens, p2);
            (
                match r.0 {
                    Some(n) => seq![n] + rest.0,
                    None => rest.0,
                },
                rest.1,
            )
        } else {
            (Seq::<NodeV>::empty(), p2)
        }
    }
}

/// How many statements of the program fail to parse from `pos`: the
/// count of `None` results the statement loop sees.  Each such failure
/// records at least one message, so `parse_program` grows the error
/// list by at least this much.
pub open spec fn spec_parse_failures(tokens: Seq<Token>, pos: int) -> nat
    decreases tokens.len() - pos,
{
    if tokens[pos].token_type == TokenTypes::EOF {
        0
    } else {
        let r = spec_parse_statement(tokens, pos);
        let here: nat = if r.0 is None {
            1
        } else {
            0
        };
        let p2 = spec_advance(tokens, r.1);
        if pos < p2 && p2 <= tokens.len() {
            here + spec_parse_failures(tokens, p2)
        } else {
            here
        }
    }
}

/// What one statement parse yields: dispatch on the current token.
pub open spec fn spec_parse_statement(tokens: Seq<Token>, pos: int) -> (Option<NodeV>, int)
    decreases tokens.len() - pos, 4int,
{
    if tokens[pos].token_type == TokenTypes::LET {
        let r = spec_parse_let(tokens, pos);
        (
            match r.0 {
                Some(st) => Some(NodeV::Statement(st)),
                None => None,
            },
            r.1,
        )
    } else if tokens[pos].token_type == TokenTypes::RETURN {
        let r = spec_parse_return(tokens, pos);
        (
            match r.0 {
                Some(st) => Some(NodeV::Statement(st)),
                None => None,
            },
            r.1,
        )
    } else {
        let r = spec_parse_expression(tokens, pos, PREC_LOWEST);
        match r.0 {
            Some(e) => if spec_peek_at(tokens, r.1).token_type == TokenTypes::SEMICOLON {
                (Some(NodeV::Expression(e)), spec_advance(tokens, r.1))
            } else {
                (Some(NodeV::Expression(e)), r.1)
            },
            None => (None, r.1),
        }
    }
}

/// What a `let` statement parse yields.
pub open spec fn spec_parse_let(tokens: Seq<Token>, pos: int) -> (Option<StmtV>, int)
    decreases tokens.len() - pos, 3int,
{
    let tok = tokens[pos];
    if spec_peek_at(tokens, pos).token_type != TokenTypes::IDENT {
        (None, pos)
    } else {
        let p1 = spec_advance(tokens, pos);
        let name = spec_identifier_at(tokens, p1);
        if spec_peek_at(tokens, p1).token_type != TokenTypes::ASSIGN {
            (None, p1)
        } else {
            let p2 = spec_advance(tokens, p1);
            let p3 = spec_advance(tokens, p2);
            if pos < p3 && p3 <= tokens.len() {
                let r = spec_parse_expression(tokens, p3, PREC_LOWEST);
                match r.0 {
                    Some(v) => {
                        let pe = if spec_peek_at(tokens, r.1).token_type
                            == TokenTypes::SEMICOLON {
                            spec_advance(tokens, r.1)
                        } else {
                            r.1
                        };
                        (Some(StmtV::Let { token: token_view(tok), name, value: v }), pe)
                    },
                    None => (None, r.1),
                }
            } else {
                (None, p3)
            }
        }
    }
}

/// What a `return` statement parse yields.
pub open spec fn spec_parse_return(tokens: Seq<Token>, pos: int) -> (Option<StmtV>, int)
    decreases tokens.len() - pos, 3int,
{
    let tok = tokens[pos];
    let p1 = spec_advance(tokens, pos);
    if pos < p1 && p1 <= tokens.len() {
        let r = spec_parse_expression(tokens, p1, PREC_LOWEST);
        match r.0 {
            Some(v) => {
                let pe = if spec_peek_at(tokens, r.1).token_type == TokenTypes::SEMICOLON {
                    spec_advance(tokens, r.1)
                } else {
                    r.1
                };
                (Some(StmtV::Return { token: token_view(tok), value: v }), pe)
            },
            None => (None, r.1),
        }
    } else {
        (None, pos)
    }
}

/// What one expression parse yields: the prefix form under the cursor,
/// folded into infix and call forms while the peek token binds tighter
/// than `precedence`.
pub open spec fn spec_parse_expression(tokens: Seq<Token>, pos: int, precedence: u8) -> (
    Option<ExprV>,
    int,
)
    decreases tokens.len() - pos, 3int,
{
    let pr = spec_parse_prefix(tokens, pos);
    match pr.0 {
        None => (None, pr.1),
        Some(left) => if pos <= pr.1 && pr.1 <= tokens.len() {
            spec_pratt(tokens, pr.1, precedence, left)
        } else {
            (None, pr.1)
        },
    }
}

/// The Pratt loop: folds `left` while the peek token is not a semicolon
/// and binds tighter than `precedence`.
pub open spec fn spec_pratt(tokens: Seq<Token>, pos: int, precedence: u8, left: ExprV) -> (
    Option<ExprV>,
    int,
)
    decreases tokens.len() - pos, 2int,
{
    let pk = spec_peek_at(tokens, pos).token_type;
    if pk == TokenTypes::SEMICOLON || precedence >= spec_precedence(pk) {
        (Some(left), pos)
    } else {
        let r = spec_parse_infix_expr(tokens, pos, left);
        match r.0 {
            None => (None, r.1),
            Some(l2) => if pos < r.1 && r.1 <= tokens.len() {
                spec_pratt(tokens, r.1, precedence, l2)
            } else {
                (None, r.1)
            },
        }
    }
}

/// What the prefix dispatch yields for the token under the cursor.
pub open spec fn spec_parse_prefix(tokens: Seq<Token>, pos: int) -> (Option<ExprV>, int)
    decreases tokens.len() - pos, 2int,
{
    let tt = tokens[pos].token_type;
    if tt == TokenTypes::IDENT {
        (Some(spec_identifier_at(tokens, pos)), pos)
    } else if tt == TokenTypes::BANG || tt == TokenTypes::MINUS {
        spec_parse_prefix_op(tokens, pos)
    } else if tt == TokenTypes::TRUE || tt == TokenTypes::FALSE {
        (
            Some(
                ExprV::Boolean {
                    token: token_view(tokens[pos]),
                    value: tt == TokenTypes::TRUE,
                },
            ),
            pos,
        )
    } else if tt == TokenTypes::INT {
        (spec_parse_integer(tokens, pos), pos)
    } else if tt == TokenTypes::LPAREN {
        spec_parse_left_paren(tokens, pos)
    } else if tt == TokenTypes::IF {
        spec_parse_if(tokens, pos)
    } else if tt == TokenTypes::FUNCTION {
        spec_parse_fn(tokens, pos)
    } else {
        (None, pos)
    }
}

/// What a prefix operator parse yields: the operator token applied to
/// the expression after it.
pub open spec fn spec_parse_prefix_op(tokens: Seq<Token>, pos: int) -> (Option<ExprV>, int)
    decreases tokens.len() - pos, 1int,
{
    let tok = tokens[pos];
    let q = spec_advance(tokens, pos);
    if pos < q && q <= tokens.len() {
        let r = spec_parse_expression(tokens, q, PREC_PREFIX);
        match r.0 {
            Some(rhs) => (
                Some(
                    ExprV::Prefix {
                        token: token_view(tok),
                        operator: tok.litteral@,
                        right: Box::new(rhs),
                    },
                ),
                r.1,
            ),
            None => (None, r.1),
        }
    } else {
        (None, pos)
    }
}

/// What a parenthesized group parse yields: the inner expression,
/// provided the closing parenthesis follows.
pub open spec fn spec_parse_left_paren(tokens: Seq<Token>, pos: int) -> (Option<ExprV>, int)
    decreases tokens.len() - pos, 1int,
{
    let q = spec_advance(tokens, pos);
    if pos < q && q <= tokens.len() {
        let r = spec_parse_expression(tokens, q, PREC_LOWEST);
        match r.0 {
            None => (None, r.1),
            Some(e) => if spec_peek_at(tokens, r.1).token_type == TokenTypes::RPAREN {
                (Some(e), spec_advance(tokens, r.1))
            } else {
                (None, r.1)
            },
        }
    } else {
        (None, pos)
    }
}

/// What an `if` expression parse yields.
pub open spec fn spec_parse_if(tokens: Seq<Token>, pos: int) -> (Option<ExprV>, int)
    decreases tokens.len() - pos, 1int,
{
    let tok = tokens[pos];
    if spec_peek_at(tokens, pos).token_type != TokenTypes::LPAREN {
        (None, pos)
    } else {
        let p1 = spec_advance(tokens, pos);
        let p2 = spec_advance(tokens, p1);
        if pos < p2 && p2 <= tokens.len() {
            let rc = spec_parse_expression(tokens, p2, PREC_LOWEST);
            match rc.0 {
                None => (None, rc.1),
                Some(cond) => if spec_peek_at(tokens, rc.1).token_type != TokenTypes::RPAREN {
                    (None, rc.1)
                } else {
                    let p3 = spec_advance(tokens, rc.1);
                    if spec_peek_at(tokens, p3).token_type != TokenTypes::LBRACE {
                        (None, p3)
                    } else {
                        let p4 = spec_advance(tokens, p3);
                        if pos < p4 && p4 <= tokens.len() {
                            let rb = spec_parse_block(tokens, p4);
                            if spec_peek_at(tokens, rb.1).token_type == TokenTypes::ELSE {
                                let p5 = spec_advance(tokens, rb.1);
                                if spec_peek_at(tokens, p5).token_type != TokenTypes::LBRACE {
                                    (None, p5)
                                } else {
                                    let p6 = spec_advance(tokens, p5);
                                    if pos < p6 && p6 <= tokens.len() {
                                        let ra = spec_parse_block(tokens, p6);
                                        (
                                            Some(
                                                ExprV::IfExpression {
                                                    token: token_view(tok),
                                                    condition: Box::new(cond),
                                                    consequence: Box::new(rb.0),
                                                    alternative: Some(Box::new(ra.0)),
                                                },
                                            ),
                                            ra.1,
                                        )
                                    } else {
                                        (None, p6)
                                    }
                                }
                            } else {
                                (
                                    Some(
                                        ExprV::IfExpression {
                                            token: token_view(tok),
                                            condition: Box::new(cond),
                                            consequence: Box::new(rb.0),
                                            alternative: None,
                                        },
                                    ),
                                    rb.1,
                                )
                            }
                        } else {
                            (None, p4)
                        }
                    }
                },
            }
        } else {
            (None, p2)
        }
    }
}

/// What a function literal parse yields.
pub open spec fn spec_parse_fn(tokens: Seq<Token>, pos: int) -> (Option<ExprV>, int)
    decreases tokens.len() - pos, 1int,
{
    let tok = tokens[pos];
    if spec_peek_at(tokens, pos).token_type != TokenTypes::LPAREN {
        (None, pos)
    } else {
        let p1 = spec_advance(tokens, pos);
        if pos < p1 && p1 <= tokens.len() {
            let rp = spec_parse_params(tokens, p1);
            match rp.0 {
                None => (None, rp.1),
                Some(params) => if spec_peek_at(tokens, rp.1).token_type != TokenTypes::LBRACE {
                    (None, rp.1)
                } else {
                    let p2 = spec_advance(tokens, rp.1);
                    if pos < p2 && p2 <= tokens.len() {
                        let rb = spec_parse_block(tokens, p2);
                        (
                            Some(
                                ExprV::FnExpression {
                                    token: token_view(tok),
                                    parameters: params,
                                    body: Box::new(rb.0),
                                },
                            ),
                            rb.1,
                        )
                    } else {
                        (None, p2)
                    }
                },
            }
        } else {
            (None, p1)
        }
    }
}

/// What the parameter list of a function literal parse yields; the
/// cursor sits on the opening parenthesis.
pub open spec fn spec_parse_params(tokens: Seq<Token>, pos: int) -> (Option<Seq<ExprV>>, int)
    decreases tokens.len() - pos, 2int,
{
    if spec_peek_at(tokens, pos).token_type == TokenTypes::RPAREN {
        (Some(Seq::<ExprV>::empty()), spec_advance(tokens, pos))
    } else {
        let p1 = spec_advance(tokens, pos);
        if pos < p1 && p1 <= tokens.len() {
            spec_more_params(tokens, p1, seq![spec_identifier_at(tokens, p1)])
        } else {
            (None, p1)
        }
    }
}

/// The remaining comma-led parameters after the one at the cursor.
pub open spec fn spec_more_params(tokens: Seq<Token>, pos: int, acc: Seq<ExprV>) -> (
    Option<Seq<ExprV>>,
    int,
)
    decreases tokens.len() - pos, 1int,
{
    if spec_peek_at(tokens, pos).token_type == TokenTypes::COMMA {
        let p1 = spec_advance(tokens, pos);
        let p2 = spec_advance(tokens, p1);
        if pos < p2 && p2 <= tokens.len() {
            spec_more_params(tokens, p2, acc.push(spec_identifier_at(tokens, p2)))
        } else {
            (None, p2)
        }
    } else if spec_peek_at(tokens, pos).token_type == TokenTypes::RPAREN {
        (Some(acc), spec_advance(tokens, pos))
    } else {
        (None, pos)
    }
}

/// What folding `left` into the infix or call form the peek token
/// starts yields.
pub open spec fn spec_parse_infix_expr(tokens: Seq<Token>, pos: int, left: ExprV) -> (
    Option<ExprV>,
    int,
)
    decreases tokens.len() - pos, 1int,
{
    let pk = spec_peek_at(tokens, pos).token_type;
    if pk == TokenTypes::PLUS || pk == TokenTypes::MINUS || pk == TokenTypes::SLASH || pk
        == TokenTypes::ASTERISK || pk == TokenTypes::EQ || pk == TokenTypes::NOTEq || pk
        == TokenTypes::LT || pk == TokenTypes::GT {
        let p1 = spec_advance(tokens, pos);
        let op_tok = tokens[p1];
        let p2 = spec_advance(tokens, p1);
        if pos < p2 && p2 <= tokens.len() {
            let r = spec_parse_expression(tokens, p2, spec_precedence(op_tok.token_type));
            match r.0 {
                Some(rhs) => (
                    Some(
                        ExprV::Infix {
                            token: token_view(op_tok),
                            left: Box::new(left),
                            operator: op_tok.litteral@,
                            right: Box::new(rhs),
                        },
                    ),
                    r.1,
                ),
                None => (None, r.1),
            }
        } else {
            (None, p2)
        }
    } else if pk == TokenTypes::LPAREN {
        let p1 = spec_advance(tokens, pos);
        if pos < p1 && p1 <= tokens.len() {
            spec_parse_call(tokens, p1, left)
        } else {
            (None, p1)
        }
    } else {
        (None, pos)
    }
}

/// What a call expression parse yields; the cursor sits on the opening
/// parenthesis.
pub open spec fn spec_parse_call(tokens: Seq<Token>, pos: int, function: ExprV) -> (
    Option<ExprV>,
    int,
)
    decreases tokens.len() - pos, 1int,
{
    let tok = tokens[pos];
    let r = spec_parse_call_args(tokens, pos);
    match r.0 {
        Some(args) => (
            Some(
                ExprV::CallExpression {
                    token: token_view(tok),
                    function: Box::new(function),
                    arguments: args,
                },
            ),
            r.1,
        ),
        None => (None, r.1),
    }
}

/// What the argument list of a call parse yields; the cursor sits on
/// the opening parenthesis.
pub open spec fn spec_parse_call_args(tokens: Seq<Token>, pos: int) -> (Option<Seq<ExprV>>, int)
    decreases tokens.len() - pos, 0int,
{
    if spec_peek_at(tokens, pos).token_type == TokenTypes::RPAREN {
        (Some(Seq::<ExprV>::empty()), spec_advance(tokens, pos))
    } else {
        let p1 = spec_advance(tokens, pos);
        if pos < p1 && p1 <= tokens.len() {
            let r = spec_parse_expression(tokens, p1, PREC_LOWEST);
            match r.0 {
                None => (None, r.1),
                Some(e) => if pos < r.1 && r.1 <= tokens.len() {
                    spec_more_args(tokens, r.1, seq![e])
                } else {
                    (None, r.1)
                },
            }
        } else {
            (None, p1)
        }
    }
}

/// The remaining comma-led arguments after the ones in `acc`, up to the
/// closing parenthesis.
pub open spec fn spec_more_args(tokens: Seq<Token>, pos: int, acc: Seq<ExprV>) -> (
    Option<Seq<ExprV>>,
    int,
)
    decreases tokens.len() - pos, 0int,
{
    if spec_peek_at(tokens, pos).token_type == TokenTypes::COMMA {
        let p1 = spec_advance(tokens, pos);
        let p2 = spec_advance(tokens, p1);
        if pos < p2 && p2 <= tokens.len() {
            let r = spec_parse_expression(tokens, p2, PREC_LOWEST);
            match r.0 {
                None => (None, r.1),
                Some(e) => if pos < r.1 && r.1 <= tokens.len() {
                    spec_more_args(tokens, r.1, acc.push(e))
                } else {
                    (None, r.1)
                },
            }
        } else {
            (None, p2)
        }
    } else if spec_peek_at(tokens, pos).token_type == TokenTypes::RPAREN {
        (Some(acc), spec_advance(tokens, pos))
    } else {
        (None, pos)
    }
}

/// What a block parse yields: its children up to the matching brace (or
/// the end); the cursor sits on the opening brace.
pub open spec fn spec_parse_block(tokens: Seq<Token>, pos: int) -> (StmtV, int)
    decreases tokens.len() - pos, 1int,
{
    let tok = tokens[pos];
    let q = spec_advance(tokens, pos);
    if pos < q && q <= tokens.len() {
        let items = spec_parse_block_items(tokens, q);
        (
            StmtV::BlockStatements { token: token_view(tok), statements: items.0 },
            items.1,
        )
    } else {
        (
            StmtV::BlockStatements { token: token_view(tok), statements: Seq::<NodeV>::empty() },
            pos,
        )
    }
}

/// The statements of a block from `pos` up to `}` or the end.
pub open spec fn spec_parse_block_items(tokens: Seq<Token>, pos: int) -> (Seq<NodeV>, int)
    decreases tokens.len() - pos, 5int,
{
    if tokens[pos].token_type == TokenTypes::RBRACE || tokens[pos].token_type
        == TokenTypes::EOF {
        (Seq::<NodeV>::empty(), pos)
    } else {
        let r = spec_parse_statement(tokens, pos);
        let p2 = spec_advance(tokens, r.1);
        if pos < p2 && p2 <= tokens.len() {
            let rest = spec_parse_block_items(tokens, p2);
            (
                match r.0 {
                    Some(n) => seq![n] + rest.0,
                    None => rest.0,
                },
                rest.1,
            )
        } else {
            (Seq::<NodeV>::empty(), p2)
        }
    }
}

/// The Pratt parser: owns the token stream (already fully lexed, ending
/// with `EOF`), a cursor, and the accumulated error messages.
pub struct Parser {
    pub tokens: Vec<Token>,
    pub pos: usize,
    pub errors: Vec<String>,
}

impl Parser {
    /// The token stream is non-empty, ends with `EOF`, and the cursor
    /// sits on a token.
    pub open spec fn wf(self) -> bool {
        &&& self.tokens@.len() >= 1
        &&& self.tokens@.last().token_type == TokenTypes::EOF
        &&& self.pos < self.tokens@.len()
        &&& tokens_typed(self.tokens@)
    }

    /// The token under the cursor.
    pub open spec fn spec_cur(self) -> Token {
        self.tokens@[self.pos as int]
    }

    /// The token after the cursor; past the end it stays `EOF`.
    pub open spec fn spec_peek(self) -> Token {
        if self.pos + 1 < self.tokens@.len() {
            self.tokens@[self.pos + 1]
        } else {
            self.tokens@.last()
        }
    }

    /// Runs the lexer to exhaustion and positions the cursor on the
    /// first token.
    pub fn new(lexer: Lexer) -> (p: Parser)
        requires
            lexer.wf(),
        ensures
            p.wf(),
            p.pos == 0,
            p.errors@.len() == 0,
            tokens_view(p.tokens@) == spec_token_stream(lexer.input@, lexer.position as nat),
    {
        let ghost input0 = lexer.input@;
        let ghost pos0 = lexer.position as nat;
        let mut lexer = lexer;
        let mut tokens: Vec<Token> = Vec::new();
        let mut done = false;
        while !done
            invariant
                lexer.wf(),
                lexer.input@ == input0,
                tokens_typed(tokens@),
                !done ==> spec_token_stream(input0, pos0) == tokens_view(tokens@)
                    + spec_token_stream(input0, lexer.position as nat),
                done ==> tokens@.len() >= 1 && tokens@.last().token_type == TokenTypes::EOF
                    && tokens_view(tokens@) == spec_token_stream(input0, pos0),
            decreases lexer.input@.len() - lexer.position, if done {
                0int
            } else {
                1int
            },
        {
            let ghost lpos = lexer.position as nat;
            let ghost pre_tokens = tokens@;
            let tok = lexer.next_token();
            if tok.token_type == TokenTypes::EOF {
                done = true;
            }
            proof {
                assert(token_lexeme_ok(tok));
                lemma_skip_ws_bounds(input0, lpos);
                let start = crate::lexer::spec_skip_ws(input0, lpos);
                lemma_token_at_progress(input0, start);
                let t = crate::lexer::spec_token_at(input0, start);
                let tv = TokenV { token_type: tok.token_type, litteral: tok.litteral@ };
                assert(tokens_view(pre_tokens.push(tok)) =~= tokens_view(pre_tokens).push(tv));
                if t.0 == TokenTypes::EOF {
                    assert(spec_token_stream(input0, lpos) =~= seq![tv]);
                    assert(tokens_view(pre_tokens.push(tok)) =~= tokens_view(pre_tokens)
                        + seq![tv]);
                } else {
                    assert(spec_token_stream(input0, lpos) =~= seq![tv] + spec_token_stream(
                        input0,
                        t.2,
                    ));
                    assert(tokens_view(pre_tokens) + (seq![tv] + spec_token_stream(input0, t.2))
                        =~= (tokens_view(pre_tokens) + seq![tv]) + spec_token_stream(
                        input0,
                        t.2,
                    ));
                    assert(tokens_view(pre_tokens) + seq![tv] =~= tokens_view(
                        pre_tokens.push(tok),
                    ));
                }
            }
            tokens.push(tok);
        }
        Parser { tokens, pos: 0, errors: Vec::new() }
    }

    /// The accumulated parse errors.
    pub fn errors(&self) -> (r: &Vec<String>)
        ensures
            r == &self.errors,
    {
        &self.errors
    }

    /// Advances the cursor one token; on the final `EOF` it stays put.
    pub fn next_token(&mut self)
        requires
            old(self).wf(),
        ensures
            final(self).wf(),
            final(self).tokens == old(self).tokens,
            final(self).errors == old(self).errors,
            final(self).pos == if old(self).pos + 1 < old(self).tokens@.len() {
                old(self).pos + 1
            } else {
                old(self).pos as int
            },
    {
        let n = self.tokens.len();
        if self.pos + 1 < n {
            self.pos = self.pos + 1;
        }
    }

    pub fn cur_tok_is(&self, tok: TokenTypes) -> (r: bool)
        requires
            self.wf(),
        ensures
            r == (self.spec_cur().token_type == tok),
    {
        self.tokens[self.pos].token_type == tok
    }

    pub fn peek_token_is(&self, tok: TokenTypes) -> (r: bool)
        requires
            self.wf(),
        ensures
            r == (self.spec_peek().token_type == tok),
    {
        let n = self.tokens.len();
        if self.pos + 1 < n {
            self.tokens[self.pos + 1].token_type == tok
        } else {
            self.tokens[n - 1].token_type == tok
        }
    }

    pub fn cur_precedence(&self) -> (r: u8)
        requires
            self.wf(),
        ensures
            r == spec_precedence(self.spec_cur().token_type),
    {
        token_precedence(self.tokens[self.pos].token_type)
    }

    pub fn peek_precedence(&self) -> (r: u8)
        requires
            self.wf(),
        ensures
            r == spec_precedence(self.spec_peek().token_type),
    {
        let n = self.tokens.len();
        if self.pos + 1 < n {
            token_precedence(self.tokens[self.pos + 1].token_type)
        } else {
            token_precedence(self.tokens[n - 1].token_type)
        }
    }

    /// A clone of the token under the cursor.
    fn cur_token(&self) -> (t: Token)
        requires
            self.wf(),
        ensures
            t == self.spec_cur(),
    {
        self.tokens[self.pos].clone()
    }

    /// Records that `tok` was expected but the peek token was found.
    pub fn peek_error(&mut self, tok: TokenTypes)
        requires
            old(self).wf(),
        ensures
            final(self).wf(),
            final(self).tokens == old(self).tokens,
            final(self).pos == old(self).pos,
            final(self).errors@.len() == old(self).errors@.len() + 1,
            final(self).errors@.last()@ == spec_peek_error_msg(
                tok,
                old(self).spec_peek().token_type,
            ),
            errors_extend(old(self).errors@, final(self).errors@),
    {
        let mut msg = String::from_str("expected next token to be ");
        msg.append(token_type_name(tok));
        msg.append(", got ");
        let n = self.tokens.len();
        let got = if self.pos + 1 < n {
            self.tokens[self.pos + 1].token_type
        } else {
            self.tokens[n - 1].token_type
        };
        msg.append(token_type_name(got));
        msg.append(" instead");
        self.errors.push(msg);
    }

    /// Advances over the peek token when it has the expected category;
    /// otherwise records an error and stays put.
    pub fn expect_peek(&mut self, tok: TokenTypes) -> (r: bool)
        requires
            old(self).wf(),
        ensures
            final(self).wf(),
            final(self).tokens == old(self).tokens,
            errors_extend(old(self).errors@, final(self).errors@),
            r == (old(self).spec_peek().token_type == tok),
            r ==> final(self).errors == old(self).errors,
            r && tok != TokenTypes::EOF ==> final(self).pos == old(self).pos + 1
                && final(self).spec_cur().token_type == tok,
            !r ==> final(self).pos == old(self).pos
                && final(self).errors@.len() == old(self).errors@.len() + 1
                && final(self).errors@.last()@ == spec_peek_error_msg(
                tok,
                old(self).spec_peek().token_type,
            ),
            final(self).pos >= old(self).pos,
    {
        if self.peek_token_is(tok) {
            self.next_token();
            true
        } else {
            self.peek_error(tok);
            false
        }
    }

    /// The category of the peek token.
    fn peek_type(&self) -> (t: TokenTypes)
        requires
            self.wf(),
        ensures
            t == self.spec_peek().token_type,
    {
        let n = self.tokens.len();
        if self.pos + 1 < n {
            self.tokens[self.pos + 1].token_type
        } else {
            self.tokens[n - 1].token_type
        }
    }

    /// Parses statements until `EOF`, collecting the ones that parse and
    /// recording errors for the ones that do not: each statement that
    /// fails to parse grows the error list by at least one message
    /// (the exact text of the innermost failure is stated on the
    /// statement parsers themselves).
    pub fn parse_program(&mut self) -> (program: Program)
        requires
            old(self).wf(),
        ensures
            final(self).wf(),
            final(self).tokens == old(self).tokens,
            errors_extend(old(self).errors@, final(self).errors@),
            final(self).errors@.len() >= old(self).errors@.len() + spec_parse_failures(
                old(self).tokens@,
                old(self).pos as int,
            ),
            wf_nodes(program.statments@),
            ({
                let m = spec_parse_program_from(old(self).tokens@, old(self).pos as int);
                &&& final(self).pos == m.1
                &&& nodes_view(program.statments@) == m.0
            }),
    {
        let mut statments: Vec<Nodes> = Vec::new();
        proof {
            assert(nodes_view(statments@) + spec_parse_program_from(
                self.tokens@,
                self.pos as int,
            ).0 =~= spec_parse_program_from(self.tokens@, self.pos as int).0);
        }
        while !self.cur_tok_is(TokenTypes::EOF)
            invariant
                self.wf(),
                self.tokens == old(self).tokens,
                self.pos >= old(self).pos,
                errors_extend(old(self).errors@, self.errors@),
                self.errors@.len() + spec_parse_failures(self.tokens@, self.pos as int)
                    >= old(self).errors@.len() + spec_parse_failures(
                    self.tokens@,
                    old(self).pos as int,
                ),
                wf_nodes(statments@),
                ({
                    let mi = spec_parse_program_from(self.tokens@, old(self).pos as int);
                    let mc = spec_parse_program_from(self.tokens@, self.pos as int);
                    mi.0 == nodes_view(statments@) + mc.0 && mi.1 == mc.1
                }),
            decreases self.tokens@.len() - self.pos,
        {
            let ghost p0 = self.pos;
            let ghost pre_sts = statments@;
            let node_opt = self.parse_statement();
            match node_opt {
                Some(stmt) => {
                    proof {
                        assert(statments@.push(stmt).drop_last() =~= statments@);
                        assert(nodes_view(statments@.push(stmt)) =~= nodes_view(
                            statments@,
                        ).push(node_view(stmt)));
                    }
                    statments.push(stmt);
                },
                None => (),
            }
            self.next_token();
            proof {
                assert(self.pos > p0);
                let mr = spec_parse_statement(self.tokens@, p0 as int);
                let rest = spec_parse_program_from(self.tokens@, self.pos as int);
                match mr.0 {
                    Some(nv) => {
                        assert(nodes_view(pre_sts) + (seq![nv] + rest.0) =~= nodes_view(
                            statments@,
                        ) + rest.0);
                    },
                    None => (),
                }
                assert(spec_parse_program_from(self.tokens@, p0 as int).0 == (match mr.0 {
                    Some(nv) => seq![nv] + rest.0,
                    None => rest.0,
                }));
                assert(spec_parse_failures(self.tokens@, p0 as int) == (if mr.0 is None {
                    1nat
                } else {
                    0nat
                }) + spec_parse_failures(self.tokens@, self.pos as int));
            }
        }
        Program { statments }
    }

    /// Dispatches on the current token: a `let` statement, a `return`
    /// statement, or an expression-statement with an optional trailing
    /// semicolon.
    pub fn parse_statement(&mut self) -> (r: Option<Nodes>)
        requires
            old(self).wf(),
        ensures
            final(self).wf(),
            final(self).tokens == old(self).tokens,
            final(self).pos >= old(self).pos,
            errors_extend(old(self).errors@, final(self).errors@),
            r is None ==> final(self).errors@.len() > old(self).errors@.len(),
            r matches Some(n) ==> wf_node(n),
            ({
                let m = spec_parse_statement(old(self).tokens@, old(self).pos as int);
                &&& final(self).pos == m.1
                &&& match r {
                    Some(n) => m.0 == Some(node_view(n)),
                    None => m.0 is None,
                }
            }),
        decreases old(self).tokens@.len() - old(self).pos, 4int,
    {
        if self.cur_tok_is(TokenTypes::LET) {
            match self.parse_let_statement() {
                Some(stmt) => Some(Nodes::Statement(stmt)),
                None => None,
            }
        } else if self.cur_tok_is(TokenTypes::RETURN) {
            match self.parse_return_statement() {
                Some(stmt) => Some(Nodes::Statement(stmt)),
                None => None,
            }
        } else {
            match self.parse_expression_stmt(PREC_LOWEST) {
                Some(expression) => {
                    if self.peek_token_is(TokenTypes::SEMICOLON) {
                        self.next_token();
                    }
                    Some(Nodes::Expression(expression))
                },
                None => None,
            }
        }
    }

    /// The Pratt loop: parses a prefix expression, then while the peek
    /// token binds tighter than `precedence` (and is not a semicolon),
    /// folds it into an infix or call expression.
    pub fn parse_expression_stmt(&mut self, precedence: u8) -> (r: Option<Expressions>)
        requires
            old(self).wf(),
        ensures
            final(self).wf(),
            final(self).tokens == old(self).tokens,
            final(self).pos >= old(self).pos,
            errors_extend(old(self).errors@, final(self).errors@),
            r is None ==> final(self).errors@.len() > old(self).errors@.len(),
            ({
                let tt = old(self).spec_cur().token_type;
                tt != TokenTypes::IDENT && tt != TokenTypes::BANG && tt != TokenTypes::MINUS
                    && tt != TokenTypes::TRUE && tt != TokenTypes::FALSE && tt != TokenTypes::INT
                    && tt != TokenTypes::LPAREN && tt != TokenTypes::IF && tt
                    != TokenTypes::FUNCTION ==> r is None && final(self).pos == old(self).pos
                    && final(self).errors@.len() == old(self).errors@.len() + 1
                    && final(self).errors@.last()@ == spec_no_prefix_msg(tt)
            }),
            old(self).spec_cur().token_type == TokenTypes::INT && spec_parse_integer(
                old(self).tokens@,
                old(self).pos as int,
            ) is None ==> r is None && final(self).pos == old(self).pos
                && final(self).errors@.len() == old(self).errors@.len() + 1
                && final(self).errors@.last()@ == spec_int_error_msg(
                old(self).spec_cur().litteral@,
            ),
            r matches Some(e) ==> wf_expr(e),
            ({
                let m = spec_parse_expression(
                    old(self).tokens@,
                    old(self).pos as int,
                    precedence,
                );
                &&& final(self).pos == m.1
                &&& match r {
                    Some(e) => m.0 == Some(expr_view(e)),
                    None => m.0 is None,
                }
            }),
        decreases old(self).tokens@.len() - old(self).pos, 3int,
    {
        let mut left = match self.parse_prefix_expression() {
            Some(expression) => expression,
            None => {
                return None;
            },
        };
        proof {
            assert(spec_parse_expression(old(self).tokens@, old(self).pos as int, precedence)
                == spec_pratt(self.tokens@, self.pos as int, precedence, expr_view(left)));
        }
        while !self.peek_token_is(TokenTypes::SEMICOLON) && precedence < self.peek_precedence()
            invariant
                self.wf(),
                self.tokens == old(self).tokens,
                self.pos >= old(self).pos,
                errors_extend(old(self).errors@, self.errors@),
                wf_expr(left),
                spec_pratt(self.tokens@, self.pos as int, precedence, expr_view(left))
                    == spec_parse_expression(
                    old(self).tokens@,
                    old(self).pos as int,
                    precedence,
                ),
            decreases self.tokens@.len() - self.pos,
        {
            let ghost p_before = self.pos as int;
            let ghost lv = expr_view(left);
            left = match self.parse_infix_expression(left) {
                Some(expression) => expression,
                None => {
                    return None;
                },
            };
            proof {
                assert(spec_pratt(self.tokens@, p_before, precedence, lv) == spec_pratt(
                    self.tokens@,
                    self.pos as int,
                    precedence,
                    expr_view(left),
                ));
            }
        }
        Some(left)
    }

    /// Dispatches on the current token's prefix handler; records an error
    /// when the token has none, with the exact message the contract
    /// states, as it does when an integer literal does not fit.
    pub fn parse_prefix_expression(&mut self) -> (r: Option<Expressions>)
        requires
            old(self).wf(),
        ensures
            final(self).wf(),
            final(self).tokens == old(self).tokens,
            final(self).pos >= old(self).pos,
            errors_extend(old(self).errors@, final(self).errors@),
            r is None ==> final(self).errors@.len() > old(self).errors@.len(),
            ({
                let tt = old(self).spec_cur().token_type;
                tt != TokenTypes::IDENT && tt != TokenTypes::BANG && tt != TokenTypes::MINUS
                    && tt != TokenTypes::TRUE && tt != TokenTypes::FALSE && tt != TokenTypes::INT
                    && tt != TokenTypes::LPAREN && tt != TokenTypes::IF && tt
                    != TokenTypes::FUNCTION ==> r is None && final(self).pos == old(self).pos
                    && final(self).errors@.len() == old(self).errors@.len() + 1
                    && final(self).errors@.last()@ == spec_no_prefix_msg(tt)
            }),
            old(self).spec_cur().token_type == TokenTypes::INT && spec_parse_integer(
                old(self).tokens@,
                old(self).pos as int,
            ) is None ==> r is None && final(self).pos == old(self).pos
                && final(self).errors@.len() == old(self).errors@.len() + 1
                && final(self).errors@.last()@ == spec_int_error_msg(
                old(self).spec_cur().litteral@,
            ),
            r matches Some(e) ==> wf_expr(e),
            ({
                let m = spec_parse_prefix(old(self).tokens@, old(self).pos as int);
                &&& final(self).pos == m.1
                &&& match r {
                    Some(e) => m.0 == Some(expr_view(e)),
                    None => m.0 is None,
                }
            }),
        decreases old(self).tokens@.len() - old(self).pos, 2int,
    {
        let t = self.tokens[self.pos].token_type;
        match t {
            TokenTypes::IDENT => Some(self.parse_identifier()),
            TokenTypes::BANG => self.parse_infix(),
            TokenTypes::MINUS => self.parse_infix(),
            TokenTypes::TRUE => Some(self.parse_boolean()),
            TokenTypes::FALSE => Some(self.parse_boolean()),
            TokenTypes::INT => self.parse_integer_litteral(),
            TokenTypes::LPAREN => self.parse_left_paren(),
            TokenTypes::IF => self.parse_if(),
            TokenTypes::FUNCTION => self.parse_fn(),
            _ => {
                let mut msg = String::from_str("no prefix parse function for ");
                msg.append(token_type_name(t));
                msg.append(" found");
                self.errors.push(msg);
                None
            },
        }
    }

    /// Folds `left` into the infix or call expression the peek token
    /// starts; the peek token must bind as an infix operator.
    pub fn parse_infix_expression(&mut self, left: Expressions) -> (r: Option<Expressions>)
        requires
            old(self).wf(),
            spec_precedence(old(self).spec_peek().token_type) != PREC_LOWEST,
            wf_expr(left),
        ensures
            final(self).wf(),
            final(self).tokens == old(self).tokens,
            final(self).pos > old(self).pos,
            errors_extend(old(self).errors@, final(self).errors@),
            r is None ==> final(self).errors@.len() > old(self).errors@.len(),
            r matches Some(e) ==> wf_expr(e),
            ({
                let m = spec_parse_infix_expr(
                    old(self).tokens@,
                    old(self).pos as int,
                    expr_view(left),
                );
                &&& final(self).pos == m.1
                &&& match r {
                    Some(e) => m.0 == Some(expr_view(e)),
                    None => m.0 is None,
                }
            }),
        decreases old(self).tokens@.len() - old(self).pos, 2int,
    {
        let pt = self.peek_type();
        match pt {
            TokenTypes::PLUS
            | TokenTypes::MINUS
            | TokenTypes::SLASH
            | TokenTypes::ASTERISK
            | TokenTypes::EQ
            | TokenTypes::NOTEq
            | TokenTypes::LT
            | TokenTypes::GT => {
                self.next_token();
                let precedence = self.cur_precedence();
                let operator = self.cur_token();
                self.next_token();
                let right = match self.parse_expression_stmt(precedence) {
                    Some(expression) => expression,
                    None => {
                        return None;
                    },
                };
                Some(
                    Expressions::Infix {
                        token: operator.clone(),
                        left: Box::new(left),
                        operator: operator.litteral,
                        right: Box::new(right),
                    },
                )
            },
            TokenTypes::LPAREN => {
                self.next_token();
                self.parse_call_expression(left)
            },
            _ => {
                proof {
                    assert(false);
                }
                None
            },
        }
    }

    /// A call expression: `left` applied to a parenthesized argument
    /// list; the cursor sits on the opening parenthesis.
    pub fn parse_call_expression(&mut self, function: Expressions) -> (r: Option<Expressions>)
        requires
            old(self).wf(),
            old(self).spec_cur().token_type == TokenTypes::LPAREN,
            wf_expr(function),
        ensures
            final(self).wf(),
            final(self).tokens == old(self).tokens,
            final(self).pos >= old(self).pos,
            errors_extend(old(self).errors@, final(self).errors@),
            r is None ==> final(self).errors@.len() > old(self).errors@.len(),
            r matches Some(e) ==> wf_expr(e),
            ({
                let m = spec_parse_call(
                    old(self).tokens@,
                    old(self).pos as int,
                    expr_view(function),
                );
                &&& final(self).pos == m.1
                &&& match r {
                    Some(e) => m.0 == Some(expr_view(e)),
                    None => m.0 is None,
                }
            }),
        decreases old(self).tokens@.len() - old(self).pos, 2int,
    {
        let token = self.cur_token();
        let arguments = match self.parse_call_arguments() {
            Some(args) => args,
            None => {
                return None;
            },
        };
        Some(Expressions::CallExpression { token, function: Box::new(function), arguments })
    }

    /// The comma-separated arguments of a call, up to the closing
    /// parenthesis.
    pub fn parse_call_arguments(&mut self) -> (r: Option<Vec<Expressions>>)
        requires
            old(self).wf(),
            old(self).spec_cur().token_type == TokenTypes::LPAREN,
        ensures
            final(self).wf(),
            final(self).tokens == old(self).tokens,
            final(self).pos >= old(self).pos,
            errors_extend(old(self).errors@, final(self).errors@),
            r is None ==> final(self).errors@.len() > old(self).errors@.len(),
            r matches Some(args) ==> wf_exprs(args@),
            ({
                let m = spec_parse_call_args(old(self).tokens@, old(self).pos as int);
                &&& final(self).pos == m.1
                &&& match r {
                    Some(args) => m.0 == Some(exprs_view(args@)),
                    None => m.0 is None,
                }
            }),
        decreases old(self).tokens@.len() - old(self).pos, 1int,
    {
        let mut args: Vec<Expressions> = Vec::new();
        if self.peek_token_is(TokenTypes::RPAREN) {
            self.next_token();
            proof {
                assert(exprs_view(args@) =~= Seq::<ExprV>::empty());
            }
            return Some(args);
        }
        self.next_token();
        let first = match self.parse_expression_stmt(PREC_LOWEST) {
            Some(expression) => expression,
            None => {
                return None;
            },
        };
        let ghost pre_args = args@;
        args.push(first);
        proof {
            assert(args@.drop_last() =~= pre_args);
            assert(wf_exprs(pre_args));
            assert(wf_exprs(args@));
            assert(exprs_view(pre_args) =~= Seq::<ExprV>::empty());
            assert(exprs_view(args@) =~= seq![expr_view(first)]);
            assert(old(self).pos + 1 < old(self).tokens@.len());
            let p1 = spec_advance(old(self).tokens@, old(self).pos as int);
            assert(p1 == old(self).pos + 1);
            let rr = spec_parse_expression(old(self).tokens@, p1, PREC_LOWEST);
            assert(rr.0 == Some(expr_view(first)) && rr.1 == self.pos as int);
            assert(old(self).pos < rr.1 && rr.1 <= old(self).tokens@.len());
            assert(spec_parse_call_args(old(self).tokens@, old(self).pos as int)
                == spec_more_args(old(self).tokens@, rr.1, seq![expr_view(first)]));
            assert(spec_more_args(self.tokens@, self.pos as int, exprs_view(args@))
                == spec_parse_call_args(old(self).tokens@, old(self).pos as int));
        }
        while self.peek_token_is(TokenTypes::COMMA)
            invariant
                self.wf(),
                self.tokens == old(self).tokens,
                self.pos > old(self).pos,
                errors_extend(old(self).errors@, self.errors@),
                wf_exprs(args@),
                spec_more_args(self.tokens@, self.pos as int, exprs_view(args@))
                    == spec_parse_call_args(old(self).tokens@, old(self).pos as int),
            decreases self.tokens@.len() - self.pos,
        {
            let ghost p_before = self.pos as int;
            let ghost pre_view = exprs_view(args@);
            self.next_token();
            self.next_token();
            let arg = match self.parse_expression_stmt(PREC_LOWEST) {
                Some(expression) => expression,
                None => {
                    return None;
                },
            };
            let ghost pre_args = args@;
            args.push(arg);
            proof {
                assert(args@.drop_last() =~= pre_args);
                assert(wf_exprs(args@));
                assert(exprs_view(args@) =~= exprs_view(pre_args).push(expr_view(arg)));
                assert(spec_more_args(self.tokens@, p_before, pre_view) == spec_more_args(
                    self.tokens@,
                    self.pos as int,
                    exprs_view(args@),
                ));
            }
        }
        if !self.expect_peek(TokenTypes::RPAREN) {
            return None;
        }
        Some(args)
    }

    /// A function literal: parameter list, then a block body; the cursor
    /// sits on the `fn` keyword.
    pub fn parse_fn(&mut self) -> (r: Option<Expressions>)
        requires
            old(self).wf(),
            old(self).spec_cur().token_type == TokenTypes::FUNCTION,
        ensures
            final(self).wf(),
            final(self).tokens == old(self).tokens,
            final(self).pos >= old(self).pos,
            errors_extend(old(self).errors@, final(self).errors@),
            r is None ==> final(self).errors@.len() > old(self).errors@.len(),
            r matches Some(e) ==> wf_expr(e) && e is FnExpression,
            ({
                let m = spec_parse_fn(old(self).tokens@, old(self).pos as int);
                &&& final(self).pos == m.1
                &&& match r {
                    Some(e) => m.0 == Some(expr_view(e)),
                    None => m.0 is None,
                }
            }),
        decreases old(self).tokens@.len() - old(self).pos, 1int,
    {
        let token = self.cur_token();
        if !self.expect_peek(TokenTypes::LPAREN) {
            return None;
        }
        let parameters = match self.parse_parameter() {
            Some(params) => params,
            None => {
                return None;
            },
        };
        if !self.expect_peek(TokenTypes::LBRACE) {
            return None;
        }
        let body = self.parse_block_statement();
        Some(Expressions::FnExpression { token, parameters, body: Box::new(body) })
    }

    /// The comma-separated parameter identifiers of a function literal.
    pub fn parse_parameter(&mut self) -> (r: Option<Vec<Expressions>>)
        requires
            old(self).wf(),
            old(self).spec_cur().token_type == TokenTypes::LPAREN,
        ensures
            final(self).wf(),
            final(self).tokens == old(self).tokens,
            final(self).pos >= old(self).pos,
            errors_extend(old(self).errors@, final(self).errors@),
            r is None ==> final(self).errors@.len() > old(self).errors@.len(),
            r matches Some(params) ==> wf_exprs(params@) && (forall|i: int|
                0 <= i < params@.len() ==> (#[trigger] params@[i]) is Identifier),
            ({
                let m = spec_parse_params(old(self).tokens@, old(self).pos as int);
                &&& final(self).pos == m.1
                &&& match r {
                    Some(params) => m.0 == Some(exprs_view(params@)),
                    None => m.0 is None,
                }
            }),
    {
        let mut params: Vec<Expressions> = Vec::new();
        if self.peek_token_is(TokenTypes::RPAREN) {
            self.next_token();
            proof {
                assert(exprs_view(params@) =~= Seq::<ExprV>::empty());
            }
            return Some(params);
        }
        self.next_token();
        let first = Expressions::Identifier {
            token: self.cur_token(),
            value: self.tokens[self.pos].litteral.clone(),
        };
        let ghost pre_params = params@;
        params.push(first);
        proof {
            assert(params@.drop_last() =~= pre_params);
            assert(wf_exprs(pre_params));
            assert(wf_expr(first));
            assert(wf_exprs(params@));
            assert(exprs_view(pre_params) =~= Seq::<ExprV>::empty());
            assert(exprs_view(params@) =~= seq![expr_view(first)]);
            assert(old(self).pos + 1 < old(self).tokens@.len());
            let p1 = spec_advance(old(self).tokens@, old(self).pos as int);
            assert(p1 == old(self).pos + 1);
            assert(self.pos == p1);
            assert(expr_view(first) == spec_identifier_at(old(self).tokens@, p1));
            assert(spec_parse_params(old(self).tokens@, old(self).pos as int)
                == spec_more_params(
                old(self).tokens@,
                p1,
                seq![spec_identifier_at(old(self).tokens@, p1)],
            ));
            assert(spec_more_params(self.tokens@, self.pos as int, exprs_view(params@))
                == spec_parse_params(old(self).tokens@, old(self).pos as int));
        }
        while self.peek_token_is(TokenTypes::COMMA)
            invariant
                self.wf(),
                self.tokens == old(self).tokens,
                self.pos > old(self).pos,
                errors_extend(old(self).errors@, self.errors@),
                wf_exprs(params@),
                forall|i: int| 0 <= i < params@.len() ==> (#[trigger] params@[i]) is Identifier,
                spec_more_params(self.tokens@, self.pos as int, exprs_view(params@))
                    == spec_parse_params(old(self).tokens@, old(self).pos as int),
            decreases self.tokens@.len() - self.pos,
        {
            let ghost p_before = self.pos as int;
            let ghost pre_view = exprs_view(params@);
            self.next_token();
            self.next_token();
            let param = Expressions::Identifier {
                token: self.cur_token(),
                value: self.tokens[self.pos].litteral.clone(),
            };
            let ghost pre_params = params@;
            params.push(param);
            proof {
                assert(params@.drop_last() =~= pre_params);
                assert(wf_expr(param));
                assert(wf_exprs(params@));
                assert(exprs_view(params@) =~= exprs_view(pre_params).push(expr_view(param)));
                assert(spec_more_params(self.tokens@, p_before, pre_view) == spec_more_params(
                    self.tokens@,
                    self.pos as int,
                    exprs_view(params@),
                ));
            }
        }
        if !self.expect_peek(TokenTypes::RPAREN) {
            return None;
        }
        Some(params)
    }

    /// An `if` expression: parenthesized condition, block consequence,
    /// and an optional `else` block; the cursor sits on the `if` keyword.
    pub fn parse_if(&mut self) -> (r: Option<Expressions>)
        requires
            old(self).wf(),
            old(self).spec_cur().token_type == TokenTypes::IF,
        ensures
            final(self).wf(),
            final(self).tokens == old(self).tokens,
            final(self).pos >= old(self).pos,
            errors_extend(old(self).errors@, final(self).errors@),
            r is None ==> final(self).errors@.len() > old(self).errors@.len(),
            r matches Some(e) ==> wf_expr(e) && e is IfExpression,
            ({
                let m = spec_parse_if(old(self).tokens@, old(self).pos as int);
                &&& final(self).pos == m.1
                &&& match r {
                    Some(e) => m.0 == Some(expr_view(e)),
                    None => m.0 is None,
                }
            }),
        decreases old(self).tokens@.len() - old(self).pos, 1int,
    {
        let token = self.cur_token();
        if !self.expect_peek(TokenTypes::LPAREN) {
            return None;
        }
        self.next_token();
        let condition = match self.parse_expression_stmt(PREC_LOWEST) {
            Some(expression) => expression,
            None => {
                return None;
            },
        };
        if !self.expect_peek(TokenTypes::RPAREN) {
            return None;
        }
        if !self.expect_peek(TokenTypes::LBRACE) {
            return None;
        }
        let consequence = self.parse_block_statement();
        if self.peek_token_is(TokenTypes::ELSE) {
            self.next_token();
            if !self.expect_peek(TokenTypes::LBRACE) {
                return None;
            }
            let alternative = self.parse_block_statement();
            return Some(
                Expressions::IfExpression {
                    token,
                    condition: Box::new(condition),
                    consequence: Box::new(consequence),
                    alternative: Some(Box::new(alternative)),
                },
            );
        }
        Some(
            Expressions::IfExpression {
                token,
                condition: Box::new(condition),
                consequence: Box::new(consequence),
                alternative: None,
            },
        )
    }

    /// The current identifier token as an `Identifier` expression.
    pub fn parse_identifier(&self) -> (e: Expressions)
        requires
            self.wf(),
        ensures
            e matches Expressions::Identifier { token, value } && token == self.spec_cur()
                && value@ == self.spec_cur().litteral@,
            wf_expr(e),
    {
        Expressions::Identifier {
            token: self.cur_token(),
            value: self.tokens[self.pos].litteral.clone(),
        }
    }

    /// A prefix operator expression: the current `!` or `-` token applied
    /// to the expression that follows it.
    pub fn parse_infix(&mut self) -> (r: Option<Expressions>)
        requires
            old(self).wf(),
            old(self).spec_cur().token_type == TokenTypes::BANG || old(
                self,
            ).spec_cur().token_type == TokenTypes::MINUS,
        ensures
            final(self).wf(),
            final(self).tokens == old(self).tokens,
            final(self).pos >= old(self).pos,
            errors_extend(old(self).errors@, final(self).errors@),
            r is None ==> final(self).errors@.len() > old(self).errors@.len(),
            r matches Some(e) ==> wf_expr(e) && (e matches Expressions::Prefix {
                token,
                operator,
                ..
            } && token == old(self).spec_cur() && operator@ == old(self).spec_cur().litteral@),
            ({
                let m = spec_parse_prefix_op(old(self).tokens@, old(self).pos as int);
                &&& final(self).pos == m.1
                &&& match r {
                    Some(e) => m.0 == Some(expr_view(e)),
                    None => m.0 is None,
                }
            }),
        decreases old(self).tokens@.len() - old(self).pos, 1int,
    {
        let token_operator = self.cur_token();
        self.next_token();
        let expression = match self.parse_expression_stmt(PREC_PREFIX) {
            Some(e) => e,
            None => {
                return None;
            },
        };
        Some(
            Expressions::Prefix {
                token: token_operator.clone(),
                operator: token_operator.litteral,
                right: Box::new(expression),
            },
        )
    }

    /// The current integer token as an `IntegerLiteral` expression;
    /// records an error when the lexeme does not spell a 64-bit number.
    pub fn parse_integer_litteral(&mut self) -> (r: Option<Expressions>)
        requires
            old(self).wf(),
        ensures
            final(self).wf(),
            final(self).tokens == old(self).tokens,
            final(self).pos == old(self).pos,
            errors_extend(old(self).errors@, final(self).errors@),
            match r {
                Some(e) => {
                    &&& e matches Expressions::IntegerLiteral { token, value } && token == old(
                        self,
                    ).spec_cur() && value == spec_digits_val(old(self).spec_cur().litteral@)
                    &&& old(self).spec_cur().litteral@.len() > 0
                    &&& all_digits(old(self).spec_cur().litteral@)
                    &&& spec_digits_val(old(self).spec_cur().litteral@) <= u64::MAX
                    &&& final(self).errors == old(self).errors
                    &&& wf_expr(e)
                },
                None => {
                    &&& final(self).errors@.len() == old(self).errors@.len() + 1
                    &&& final(self).errors@.last()@ == spec_int_error_msg(
                        old(self).spec_cur().litteral@,
                    )
                    &&& (old(self).spec_cur().litteral@.len() == 0 || !all_digits(
                        old(self).spec_cur().litteral@,
                    ) || spec_digits_val(old(self).spec_cur().litteral@) > u64::MAX)
                },
            },
            ({
                let m = spec_parse_integer(old(self).tokens@, old(self).pos as int);
                match r {
                    Some(e) => m == Some(expr_view(e)),
                    None => m is None,
                }
            }),
    {
        let token = self.cur_token();
        match parse_u64(&token.litteral) {
            Some(number) => Some(Expressions::IntegerLiteral { token, value: number }),
            None => {
                let mut msg = String::from_str("could not parse ");
                msg.append(self.tokens[self.pos].litteral.as_str());
                msg.append(" as integer");
                self.errors.push(msg);
                None
            },
        }
    }

    /// The current `true` or `false` token as a `Boolean` expression.
    pub fn parse_boolean(&self) -> (e: Expressions)
        requires
            self.wf(),
        ensures
            e matches Expressions::Boolean { token, value } && token == self.spec_cur() && value
                == (self.spec_cur().token_type == TokenTypes::TRUE),
            wf_expr(e),
    {
        Expressions::Boolean {
            token: self.cur_token(),
            value: self.tokens[self.pos].token_type == TokenTypes::TRUE,
        }
    }

    /// A parenthesized expression: the cursor sits on the opening
    /// parenthesis; the grouped expression is returned as-is.
    pub fn parse_left_paren(&mut self) -> (r: Option<Expressions>)
        requires
            old(self).wf(),
            old(self).spec_cur().token_type == TokenTypes::LPAREN,
        ensures
            final(self).wf(),
            final(self).tokens == old(self).tokens,
            final(self).pos >= old(self).pos,
            errors_extend(old(self).errors@, final(self).errors@),
            r is None ==> final(self).errors@.len() > old(self).errors@.len(),
            r matches Some(e) ==> wf_expr(e),
            ({
                let m = spec_parse_left_paren(old(self).tokens@, old(self).pos as int);
                &&& final(self).pos == m.1
                &&& match r {
                    Some(e) => m.0 == Some(expr_view(e)),
                    None => m.0 is None,
                }
            }),
        decreases old(self).tokens@.len() - old(self).pos, 1int,
    {
        self.next_token();
        let expression = match self.parse_expression_stmt(PREC_LOWEST) {
            Some(e) => e,
            None => {
                return None;
            },
        };
        if !self.expect_peek(TokenTypes::RPAREN) {
            return None;
        }
        Some(expression)
    }

    /// A block: statements up to the matching `}` (or `EOF`); the cursor
    /// sits on the opening brace.
    pub fn parse_block_statement(&mut self) -> (r: Statements)
        requires
            old(self).wf(),
            old(self).spec_cur().token_type == TokenTypes::LBRACE,
        ensures
            final(self).wf(),
            final(self).tokens == old(self).tokens,
            final(self).pos >= old(self).pos,
            errors_extend(old(self).errors@, final(self).errors@),
            r is BlockStatements,
            wf_stmt(r),
            ({
                let m = spec_parse_block(old(self).tokens@, old(self).pos as int);
                &&& final(self).pos == m.1
                &&& stmt_view(r) == m.0
            }),
        decreases old(self).tokens@.len() - old(self).pos, 1int,
    {
        let token = self.cur_token();
        let mut statements: Vec<Nodes> = Vec::new();
        self.next_token();
        let ghost q0 = self.pos as int;
        proof {
            assert(nodes_view(statements@) + spec_parse_block_items(self.tokens@, q0).0
                =~= spec_parse_block_items(self.tokens@, q0).0);
        }
        while !self.cur_tok_is(TokenTypes::RBRACE) && !self.cur_tok_is(TokenTypes::EOF)
            invariant
                self.wf(),
                self.tokens == old(self).tokens,
                self.pos > old(self).pos,
                errors_extend(old(self).errors@, self.errors@),
                wf_nodes(statements@),
                q0 == spec_advance(old(self).tokens@, old(self).pos as int),
                ({
                    let mi = spec_parse_block_items(self.tokens@, q0);
                    let mc = spec_parse_block_items(self.tokens@, self.pos as int);
                    mi.0 == nodes_view(statements@) + mc.0 && mi.1 == mc.1
                }),
            decreases self.tokens@.len() - self.pos,
        {
            let ghost p0 = self.pos;
            let ghost pre_sts = statements@;
            let node_opt = self.parse_statement();
            match node_opt {
                Some(node) => {
                    proof {
                        assert(statements@.push(node).drop_last() =~= statements@);
                        assert(nodes_view(statements@.push(node)) =~= nodes_view(
                            statements@,
                        ).push(node_view(node)));
                    }
                    statements.push(node);
                },
                None => (),
            }
            self.next_token();
            proof {
                assert(self.pos > p0);
                let mr = spec_parse_statement(self.tokens@, p0 as int);
                let rest = spec_parse_block_items(self.tokens@, self.pos as int);
                match mr.0 {
                    Some(nv) => {
                        assert(nodes_view(pre_sts) + (seq![nv] + rest.0) =~= nodes_view(
                            statements@,
                        ) + rest.0);
                    },
                    None => (),
                }
                assert(spec_parse_block_items(self.tokens@, p0 as int).0 == (match mr.0 {
                    Some(nv) => seq![nv] + rest.0,
                    None => rest.0,
                }));
            }
        }
        Statements::BlockStatements { token, statements }
    }

    /// A `return` statement: the keyword, the returned expression, and an
    /// optional trailing semicolon.  A failure of the returned expression
    /// records at least one message; when the token after the keyword
    /// starts no expression, it records exactly that message.
    pub fn parse_return_statement(&mut self) -> (r: Option<Statements>)
        requires
            old(self).wf(),
            old(self).spec_cur().token_type == TokenTypes::RETURN,
        ensures
            final(self).wf(),
            final(self).tokens == old(self).tokens,
            final(self).pos >= old(self).pos,
            errors_extend(old(self).errors@, final(self).errors@),
            r is None ==> final(self).errors@.len() > old(self).errors@.len(),
            ({
                let p1 = spec_advance(old(self).tokens@, old(self).pos as int);
                let tt = old(self).tokens@[p1].token_type;
                tt != TokenTypes::IDENT && tt != TokenTypes::BANG && tt != TokenTypes::MINUS
                    && tt != TokenTypes::TRUE && tt != TokenTypes::FALSE && tt != TokenTypes::INT
                    && tt != TokenTypes::LPAREN && tt != TokenTypes::IF && tt
                    != TokenTypes::FUNCTION ==> r is None
                    && final(self).errors@.len() == old(self).errors@.len() + 1
                    && final(self).errors@.last()@ == spec_no_prefix_msg(tt)
            }),
            r matches Some(s) ==> wf_stmt(s) && (s matches Statements::Return { token, .. }
                && token == old(self).spec_cur()),
            ({
                let m = spec_parse_return(old(self).tokens@, old(self).pos as int);
                &&& final(self).pos == m.1
                &&& match r {
                    Some(st) => m.0 == Some(stmt_view(st)),
                    None => m.0 is None,
                }
            }),
        decreases old(self).tokens@.len() - old(self).pos, 3int,
    {
        let stmt_tok = self.cur_token();
        self.next_token();
        let value = match self.parse_expression_stmt(PREC_LOWEST) {
            Some(expression) => expression,
            None => {
                return None;
            },
        };
        if self.peek_token_is(TokenTypes::SEMICOLON) {
            self.next_token();
        }
        Some(Statements::Return { token: stmt_tok, value })
    }

    /// A `let` statement: the keyword, a bound identifier, `=`, the bound
    /// expression, and an optional trailing semicolon.  A failed
    /// identifier or `=` expectation records exactly the one expected-
    /// token message and yields nothing.
    pub fn parse_let_statement(&mut self) -> (r: Option<Statements>)
        requires
            old(self).wf(),
            old(self).spec_cur().token_type == TokenTypes::LET,
        ensures
            final(self).wf(),
            final(self).tokens == old(self).tokens,
            final(self).pos >= old(self).pos,
            errors_extend(old(self).errors@, final(self).errors@),
            r is None ==> final(self).errors@.len() > old(self).errors@.len(),
            old(self).spec_peek().token_type != TokenTypes::IDENT ==> r is None
                && final(self).pos == old(self).pos
                && final(self).errors@.len() == old(self).errors@.len() + 1
                && final(self).errors@.last()@ == spec_peek_error_msg(
                TokenTypes::IDENT,
                old(self).spec_peek().token_type,
            ),
            ({
                let got = spec_peek_at(old(self).tokens@, old(self).pos + 1).token_type;
                old(self).spec_peek().token_type == TokenTypes::IDENT && got
                    != TokenTypes::ASSIGN ==> r is None
                    && final(self).errors@.len() == old(self).errors@.len() + 1
                    && final(self).errors@.last()@ == spec_peek_error_msg(
                    TokenTypes::ASSIGN,
                    got,
                )
            }),
            ({
                let toks = old(self).tokens@;
                let p1 = spec_advance(toks, old(self).pos as int);
                let p3 = spec_advance(toks, spec_advance(toks, p1));
                let tt = toks[p3].token_type;
                old(self).spec_peek().token_type == TokenTypes::IDENT && spec_peek_at(
                    toks,
                    p1,
                ).token_type == TokenTypes::ASSIGN && tt != TokenTypes::IDENT && tt
                    != TokenTypes::BANG && tt != TokenTypes::MINUS && tt != TokenTypes::TRUE && tt
                    != TokenTypes::FALSE && tt != TokenTypes::INT && tt != TokenTypes::LPAREN
                    && tt != TokenTypes::IF && tt != TokenTypes::FUNCTION ==> r is None
                    && final(self).errors@.len() == old(self).errors@.len() + 1
                    && final(self).errors@.last()@ == spec_no_prefix_msg(tt)
            }),
            r matches Some(s) ==> wf_stmt(s) && (s matches Statements::Let { token, name, .. }
                && token == old(self).spec_cur() && name is Identifier),
            ({
                let m = spec_parse_let(old(self).tokens@, old(self).pos as int);
                &&& final(self).pos == m.1
                &&& match r {
                    Some(st) => m.0 == Some(stmt_view(st)),
                    None => m.0 is None,
                }
            }),
        decreases old(self).tokens@.len() - old(self).pos, 3int,
    {
        let stmt_tok = self.cur_token();
        if !self.expect_peek(TokenTypes::IDENT) {
            return None;
        }
        let identifier = Expressions::Identifier {
            token: self.cur_token(),
            value: self.tokens[self.pos].litteral.clone(),
        };
        if !self.expect_peek(TokenTypes::ASSIGN) {
            return None;
        }
        self.next_token();
        let value = match self.parse_expression_stmt(PREC_LOWEST) {
            Some(expression) => expression,
            None => {
                return None;
            },
        };
        if self.peek_token_is(TokenTypes::SEMICOLON) {
            self.next_token();
        }
        Some(Statements::Let { token: stmt_tok, name: identifier, value })
    }
}

} // verus!
