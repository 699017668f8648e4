//! The abstract syntax tree the parser produces: tagged statement and
//! expression variants, and the pretty-printed form each node renders to.

use vstd::prelude::*;
use crate::token::Token;

verus! {

/// An AST node carries its originating token and pretty-prints itself.
pub trait Node {
    /// The lexeme of the node's originating token.
    spec fn spec_token_litteral(&self) -> Seq<char>;

    /// The display name of the node's kind.
    spec fn spec_display_type(&self) -> Seq<char>;

    fn token_litteral(&self) -> (r: &str)
        ensures
            r@ == self.spec_token_litteral(),
    ;

    fn display_type(&self) -> (r: &str)
        ensures
            r@ == self.spec_display_type(),
    ;
}

/// A program is an ordered sequence of nodes.
#[derive(Debug)]
pub struct Program {
    pub statments: Vec<Nodes>,
}

/// A node is either a statement or an expression; a bare expression at
/// program top level is an expression-statement.
#[derive(Debug)]
pub enum Nodes {
    Statement(Statements),
    Expression(Expressions),
}

/// Statement variants.
#[derive(Debug)]
pub enum Statements {
    Return { token: Token, value: Expressions },
    Let { token: Token, name: Expressions, value: Expressions },
    BlockStatements { token: Token, statements: Vec<Nodes> },
}

/// Expression variants.
#[derive(Debug)]
pub enum Expressions {
    Generic { token: Token, expression: Box<Expressions> },
    Identifier { token: Token, value: String },
    IntegerLiteral { token: Token, value: u64 },
    Infix { token: Token, left: Box<Expressions>, operator: String, right: Box<Expressions> },
    Prefix { token: Token, operator: String, right: Box<Expressions> },
    Boolean { token: Token, value: bool },
    IfExpression {
        token: Token,
        condition: Box<Expressions>,
        consequence: Box<Statements>,
        alternative: Option<Box<Statements>>,
    },
    FnExpression { token: Token, parameters: Vec<Expressions>, body: Box<Statements> },
    CallExpression { token: Token, function: Box<Expressions>, arguments: Vec<Expressions> },
}

/// The mathematical image of a token: its category and its lexeme text.
pub ghost struct TokenV {
    pub token_type: crate::token::TokenTypes,
    pub litteral: Seq<char>,
}

/// The mathematical image of a node.
pub ghost enum NodeV {
    Statement(StmtV),
    Expression(ExprV),
}

/// The mathematical image of a statement.
pub ghost enum StmtV {
    Return { token: TokenV, value: ExprV },
    Let { token: TokenV, name: ExprV, value: ExprV },
    BlockStatements { token: TokenV, statements: Seq<NodeV> },
}

/// The mathematical image of an expression.
pub ghost enum ExprV {
    Generic { token: TokenV, expression: Box<ExprV> },
    Identifier { token: TokenV, value: Seq<char> },
    IntegerLiteral { token: TokenV, value: u64 },
    Infix { token: TokenV, left: Box<ExprV>, operator: Seq<char>, right: Box<ExprV> },
    Prefix { token: TokenV, operator: Seq<char>, right: Box<ExprV> },
    Boolean { token: TokenV, value: bool },
    IfExpression {
        token: TokenV,
        condition: Box<ExprV>,
        consequence: Box<StmtV>,
        alternative: Option<Box<StmtV>>,
    },
    FnExpression { token: TokenV, parameters: Seq<ExprV>, body: Box<StmtV> },
    CallExpression { token: TokenV, function: Box<ExprV>, arguments: Seq<ExprV> },
}

/// The image of a token.
pub open spec fn token_view(t: Token) -> TokenV {
    TokenV { token_type: t.token_type, litteral: t.litteral@ }
}

/// The image of a token sequence.
pub open spec fn tokens_view(ts: Seq<Token>) -> Seq<TokenV> {
    Seq::new(ts.len(), |i: int| token_view(ts[i]))
}

/// The image of a node.
pub open spec fn node_view(n: Nodes) -> NodeV
    decreases n,
{
    match n {
        Nodes::Statement(s) => NodeV::Statement(stmt_view(s)),
        Nodes::Expression(e) => NodeV::Expression(expr_view(e)),
    }
}

/// The image of a node list.
pub open spec fn nodes_view(v: Seq<Nodes>) -> Seq<NodeV>
    decreases v,
{
    if v.len() == 0 {
        Seq::<NodeV>::empty()
    } else {
        nodes_view(v.drop_last()).push(node_view(v.last()))
    }
}

/// The image of a statement.
pub open spec fn stmt_view(s: Statements) -> StmtV
    decreases s,
{
    match s {
        Statements::Return { token, value } => StmtV::Return {
            token: token_view(token),
            value: expr_view(value),
        },
        Statements::Let { token, name, value } => StmtV::Let {
            token: token_view(token),
            name: expr_view(name),
            value: expr_view(value),
        },
        Statements::BlockStatements { token, statements } => StmtV::BlockStatements {
            token: token_view(token),
            statements: nodes_view(statements@),
        },
    }
}

/// The image of an expression list.
pub open spec fn exprs_view(v: Seq<Expressions>) -> Seq<ExprV>
    decreases v,
{
    if v.len() == 0 {
        Seq::<ExprV>::empty()
    } else {
        exprs_view(v.drop_last()).push(expr_view(v.last()))
    }
}

/// The image of an expression.
pub open spec fn expr_view(e: Expressions) -> ExprV
    decreases e,
{
    match e {
        Expressions::Generic { token, expression } => ExprV::Generic {
            token: token_view(token),
            expression: Box::new(expr_view(*expression)),
        },
        Expressions::Identifier { token, value } => ExprV::Identifier {
            token: token_view(token),
            value: value@,
        },
        Expressions::IntegerLiteral { token, value } => ExprV::IntegerLiteral {
            token: token_view(token),
            value,
        },
        Expressions::Infix { token, left, operator, right } => ExprV::Infix {
            token: token_view(token),
            left: Box::new(expr_view(*left)),
            operator: operator@,
            right: Box::new(expr_view(*right)),
        },
        Expressions::Prefix { token, operator, right } => ExprV::Prefix {
            token: token_view(token),
            operator: operator@,
            right: Box::new(expr_view(*right)),
        },
        Expressions::Boolean { token, value } => ExprV::Boolean {
            token: token_view(token),
            value,
        },
        Expressions::IfExpression { token, condition, consequence, alternative } => {
            ExprV::IfExpression {
                token: token_view(token),
                condition: Box::new(expr_view(*condition)),
                consequence: Box::new(stmt_view(*consequence)),
                alternative: match alternative {
                    Some(a) => Some(Box::new(stmt_view(*a))),
                    None => None,
                },
            }
        },
        Expressions::FnExpression { token, parameters, body } => ExprV::FnExpression {
            token: token_view(token),
            parameters: exprs_view(parameters@),
            body: Box::new(stmt_view(*body)),
        },
        Expressions::CallExpression { token, function, arguments } => ExprV::CallExpression {
            token: token_view(token),
            function: Box::new(expr_view(*function)),
            arguments: exprs_view(arguments@),
        },
    }
}

/// The infix operator spellings the language knows.
pub open spec fn legal_infix_operator(s: Seq<char>) -> bool {
    s == "+"@ || s == "-"@ || s == "*"@ || s == "/"@ || s == "=="@ || s == "!="@ || s == "<"@ || s
        == ">"@
}

/// The prefix operator spellings the language knows.
pub open spec fn legal_prefix_operator(s: Seq<char>) -> bool {
    s == "!"@ || s == "-"@
}

/// Structural soundness of an expression, as the parser guarantees it:
/// operator strings are drawn from the fixed spellings, the branches of an
/// `if` and the body of a `fn` are block statements, and parameters are
/// identifiers.
pub open spec fn wf_expr(e: Expressions) -> bool
    decreases e,
{
    match e {
        Expressions::Generic { expression, .. } => wf_expr(*expression),
        Expressions::Identifier { .. } => true,
        Expressions::IntegerLiteral { .. } => true,
        Expressions::Boolean { .. } => true,
        Expressions::Infix { left, operator, right, .. } => legal_infix_operator(operator@)
            && wf_expr(*left) && wf_expr(*right),
        Expressions::Prefix { operator, right, .. } => legal_prefix_operator(operator@) && wf_expr(
            *right,
        ),
        Expressions::IfExpression { condition, consequence, alternative, .. } => {
            &&& wf_expr(*condition)
            &&& *consequence is BlockStatements
            &&& wf_stmt(*consequence)
            &&& match alternative {
                Some(a) => (*a is BlockStatements) && wf_stmt(*a),
                None => true,
            }
        },
        Expressions::FnExpression { parameters, body, .. } => {
            &&& wf_exprs(parameters@)
            &&& forall|i: int|
                0 <= i < parameters@.len() ==> (#[trigger] parameters@[i]) is Identifier
            &&& *body is BlockStatements
            &&& wf_stmt(*body)
        },
        Expressions::CallExpression { function, arguments, .. } => wf_expr(*function) && wf_exprs(
            arguments@,
        ),
    }
}

/// Structural soundness of every expression in a list.
pub open spec fn wf_exprs(v: Seq<Expressions>) -> bool
    decreases v,
{
    if v.len() == 0 {
        true
    } else {
        wf_exprs(v.drop_last()) && wf_expr(v.last())
    }
}

/// Structural soundness of a statement.
pub open spec fn wf_stmt(s: Statements) -> bool
    decreases s,
{
    match s {
        Statements::Return { value, .. } => wf_expr(value),
        Statements::Let { name, value, .. } => (name is Identifier) && wf_expr(value),
        Statements::BlockStatements { statements, .. } => wf_nodes(statements@),
    }
}

/// Structural soundness of a node.
pub open spec fn wf_node(n: Nodes) -> bool
    decreases n,
{
    match n {
        Nodes::Statement(s) => wf_stmt(s),
        Nodes::Expression(e) => wf_expr(e),
    }
}

/// Structural soundness of every node in a list.
pub open spec fn wf_nodes(v: Seq<Nodes>) -> bool
    decreases v,
{
    if v.len() == 0 {
        true
    } else {
        wf_nodes(v.drop_last()) && wf_node(v.last())
    }
}

/// The pretty-printed form of a node.
pub open spec fn spec_render_node(n: Nodes) -> Seq<char>
    decreases n,
{
    match n {
        Nodes::Statement(s) => spec_render_stmt(s),
        Nodes::Expression(e) => spec_render_expr(e),
    }
}

/// The concatenation of the pretty-printed forms of a node list.
pub open spec fn spec_render_nodes(v: Seq<Nodes>) -> Seq<char>
    decreases v,
{
    if v.len() == 0 {
        Seq::<char>::empty()
    } else {
        spec_render_nodes(v.drop_last()) + spec_render_node(v.last())
    }
}

/// The pretty-printed form of a statement.
pub open spec fn spec_render_stmt(s: Statements) -> Seq<char>
    decreases s,
{
    match s {
        Statements::Return { token, value } => token.litteral@ + " "@ + spec_render_expr(value),
        Statements::Let { token, name, value } => token.litteral@ + " "@ + spec_render_expr(name)
            + " = "@ + spec_render_expr(value) + ";"@,
        Statements::BlockStatements { token, statements } => spec_render_nodes(statements@),
    }
}

/// The comma-separated pretty-printed forms of an expression list.
pub open spec fn spec_render_exprs(v: Seq<Expressions>) -> Seq<char>
    decreases v,
{
    if v.len() == 0 {
        Seq::<char>::empty()
    } else if v.len() == 1 {
        spec_render_expr(v[0])
    } else {
        spec_render_exprs(v.drop_last()) + ", "@ + spec_render_expr(v.last())
    }
}

/// The pretty-printed form of an expression.  Prefix and infix forms are
/// fully parenthesized, so the text shows how precedence grouped them.
pub open spec fn spec_render_expr(e: Expressions) -> Seq<char>
    decreases e,
{
    match e {
        Expressions::Generic { token, .. } => token.litteral@,
        Expressions::Identifier { token, .. } => token.litteral@,
        Expressions::IntegerLiteral { token, .. } => token.litteral@,
        Expressions::Infix { left, operator, right, .. } => "("@ + spec_render_expr(*left) + " "@
            + operator@ + " "@ + spec_render_expr(*right) + ")"@,
        Expressions::Prefix { operator, right, .. } => "("@ + operator@ + spec_render_expr(*right)
            + ")"@,
        Expressions::Boolean { token, .. } => token.litteral@,
        Expressions::IfExpression { condition, consequence, alternative, .. } => {
            "if "@ + spec_render_expr(*condition) + " "@ + spec_render_stmt(*consequence) + (
            match alternative {
                Some(alt) => "else "@ + spec_render_stmt(*alt),
                None => Seq::<char>::empty(),
            })
        },
        Expressions::FnExpression { parameters, body, .. } => "fn("@ + spec_render_exprs(
            parameters@,
        ) + ")"@ + spec_render_stmt(*body),
        Expressions::CallExpression { function, arguments, .. } => spec_render_expr(*function)
            + "("@ + spec_render_exprs(arguments@) + ")"@,
    }
}

impl Nodes {
    /// Renders the node in its pretty-printed form.
    pub fn render(&self) -> (r: String)
        ensures
            r@ == spec_render_node(*self),
        decreases *self,
    {
        match self {
            Nodes::Statement(s) => s.render(),
            Nodes::Expression(e) => e.render(),
        }
    }
}

fn render_nodes(v: &Vec<Nodes>) -> (r: String)
    ensures
        r@ == spec_render_nodes(v@),
    decreases v@,
{
    let mut out = String::new();
    let mut i: usize = 0;
    while i < v.len()
        invariant
            i <= v@.len(),
            out@ == spec_render_nodes(v@.take(i as int)),
        decreases v@.len() - i,
    {
        let ghost prefix = out@;
        let piece = v[i].render();
        out.append(piece.as_str());
        proof {
            assert(v@.take(i + 1 as int).drop_last() =~= v@.take(i as int));
            assert(v@.take(i + 1 as int).last() == v@[i as int]);
            assert(out@ =~= spec_render_nodes(v@.take(i + 1 as int)));
        }
        i = i + 1;
    }
    proof {
        assert(v@.take(v@.len() as int) =~= v@);
    }
    out
}

fn render_exprs(v: &Vec<Expressions>) -> (r: String)
    ensures
        r@ == spec_render_exprs(v@),
    decreases v@,
{
    let mut out = String::new();
    let mut i: usize = 0;
    while i < v.len()
        invariant
            i <= v@.len(),
            out@ == spec_render_exprs(v@.take(i as int)),
        decreases v@.len() - i,
    {
        let ghost prefix = out@;
        if i > 0 {
            out.append(", ");
        }
        let piece = v[i].render();
        out.append(piece.as_str());
        proof {
            assert(v@.take(i + 1 as int).drop_last() =~= v@.take(i as int));
            assert(v@.take(i + 1 as int).last() == v@[i as int]);
            if i == 0 {
                assert(out@ =~= spec_render_exprs(v@.take(i + 1 as int)));
            } else {
                assert(out@ =~= spec_render_exprs(v@.take(i + 1 as int)));
            }
        }
        i = i + 1;
    }
    proof {
        assert(v@.take(v@.len() as int) =~= v@);
    }
    out
}

impl Statements {
    /// Renders the statement in its pretty-printed form.
    pub fn render(&self) -> (r: String)
        ensures
            r@ == spec_render_stmt(*self),
        decreases *self,
    {
        match self {
            Statements::Return { token, value } => {
                let mut out = token.litteral.clone();
                out.append(" ");
                let val = value.render();
                out.append(val.as_str());
                proof {
                    assert(out@ =~= spec_render_stmt(*self));
                }
                out
            },
            Statements::Let { token, name, value } => {
                let mut out = token.litteral.clone();
                out.append(" ");
                let n = name.render();
                out.append(n.as_str());
                out.append(" = ");
                let val = value.render();
                out.append(val.as_str());
                out.append(";");
                proof {
                    assert(out@ =~= spec_render_stmt(*self));
                }
                out
            },
            Statements::BlockStatements { token, statements } => render_nodes(statements),
        }
    }
}

impl Expressions {
    /// Renders the expression in its pretty-printed form.
    pub fn render(&self) -> (r: String)
        ensures
            r@ == spec_render_expr(*self),
        decreases *self,
    {
        match self {
            Expressions::Generic { token, .. } => token.litteral.clone(),
            Expressions::Identifier { token, .. } => token.litteral.clone(),
            Expressions::IntegerLiteral { token, .. } => token.litteral.clone(),
            Expressions::Infix { left, operator, right, .. } => {
                let mut out = String::from_str("(");
                let l = left.render();
                out.append(l.as_str());
                out.append(" ");
                out.append(operator.as_str());
                out.append(" ");
                let r = right.render();
                out.append(r.as_str());
                out.append(")");
                proof {
                    assert(out@ =~= spec_render_expr(*self));
                }
                out
            },
            Expressions::Prefix { operator, right, .. } => {
                let mut out = String::from_str("(");
                out.append(operator.as_str());
                let r = right.render();
                out.append(r.as_str());
                out.append(")");
                proof {
                    assert(out@ =~= spec_render_expr(*self));
                }
                out
            },
            Expressions::Boolean { token, .. } => token.litteral.clone(),
            Expressions::IfExpression { condition, consequence, alternative, .. } => {
                let mut out = String::from_str("if ");
                let c = condition.render();
                out.append(c.as_str());
                out.append(" ");
                let cons = consequence.render();
                out.append(cons.as_str());
                match alternative {
                    Some(alt) => {
                        out.append("else ");
                        let a = alt.render();
                        out.append(a.as_str());
                    },
                    None => (),
                }
                proof {
                    assert(out@ =~= spec_render_expr(*self));
                }
                out
            },
            Expressions::FnExpression { parameters, body, .. } => {
                let mut out = String::from_str("fn(");
                let ps = render_exprs(parameters);
                out.append(ps.as_str());
                out.append(")");
                let b = body.render();
                out.append(b.as_str());
                proof {
                    assert(out@ =~= spec_render_expr(*self));
                }
                out
            },
            Expressions::CallExpression { function, arguments, .. } => {
                let mut out = function.render();
                out.append("(");
                let args = render_exprs(arguments);
                out.append(args.as_str());
                out.append(")");
                proof {
                    assert(out@ =~= spec_render_expr(*self));
                }
                out
            },
        }
    }
}

impl Program {
    /// The lexeme of the first node's token, or the empty text for an
    /// empty program.
    pub open spec fn spec_token_litteral(&self) -> Seq<char> {
        if self.statments@.len() > 0 {
            match self.statments@[0] {
                Nodes::Statement(s) => s.spec_token_litteral(),
                Nodes::Expression(e) => e.spec_token_litteral(),
            }
        } else {
            ""@
        }
    }

    pub fn token_litteral(&self) -> (r: &str)
        ensures
            r@ == self.spec_token_litteral(),
    {
        if self.statments.len() > 0 {
            match &self.statments[0] {
                Nodes::Statement(s) => s.token_litteral(),
                Nodes::Expression(e) => e.token_litteral(),
            }
        } else {
            ""
        }
    }

    /// Renders the program: the concatenation of its children's
    /// pretty-printed forms.
    pub fn render(&self) -> (r: String)
        ensures
            r@ == spec_render_nodes(self.statments@),
    {
        render_nodes(&self.statments)
    }
}

impl Node for Statements {
    open spec fn spec_token_litteral(&self) -> Seq<char> {
        match self {
            Statements::Return { token, .. } => token.litteral@,
            Statements::Let { token, .. } => token.litteral@,
            Statements::BlockStatements { token, .. } => token.litteral@,
        }
    }

    open spec fn spec_display_type(&self) -> Seq<char> {
        match self {
            Statements::Return { .. } => "Return Statement"@,
            Statements::Let { .. } => "Let Statement"@,
            Statements::BlockStatements { .. } => "Block Statements"@,
        }
    }

    fn token_litteral(&self) -> (r: &str) {
        match self {
            Statements::Return { token, .. } => token.litteral.as_str(),
            Statements::Let { token, .. } => token.litteral.as_str(),
            Statements::BlockStatements { token, .. } => token.litteral.as_str(),
        }
    }

    fn display_type(&self) -> (r: &str) {
        match self {
            Statements::Return { .. } => "Return Statement",
            Statements::Let { .. } => "Let Statement",
            Statements::BlockStatements { .. } => "Block Statements",
        }
    }
}

impl Node for Expressions {
    open spec fn spec_token_litteral(&self) -> Seq<char> {
        match self {
            Expressions::Generic { token, .. } => token.litteral@,
            Expressions::Identifier { token, .. } => token.litteral@,
            Expressions::IntegerLiteral { token, .. } => token.litteral@,
            Expressions::Infix { token, .. } => token.litteral@,
            Expressions::Prefix { token, .. } => token.litteral@,
            Expressions::Boolean { token, .. } => token.litteral@,
            Expressions::IfExpression { token, .. } => token.litteral@,
            Expressions::FnExpression { token, .. } => token.litteral@,
            Expressions::CallExpression { token, .. } => token.litteral@,
        }
    }

    open spec fn spec_display_type(&self) -> Seq<char> {
        match self {
            Expressions::Generic { .. } => "Expression"@,
            Expressions::Identifier { .. } => "Identifier"@,
            Expressions::IntegerLiteral { .. } => "Integer Literal Expression"@,
            Expressions::Infix { .. } => "Infix Expression"@,
            Expressions::Prefix { .. } => "Prefix Expression"@,
            Expressions::Boolean { .. } => "Boolean"@,
            Expressions::IfExpression { .. } => "If Expression"@,
            Expressions::FnExpression { .. } => "Fn Expression"@,
            Expressions::CallExpression { .. } => "Call Expression"@,
        }
    }

    fn token_litteral(&self) -> (r: &str) {
        match self {
            Expressions::Generic { token, .. } => token.litteral.as_str(),
            Expressions::Identifier { token, .. } => token.litteral.as_str(),
            Expressions::IntegerLiteral { token, .. } => token.litteral.as_str(),
            Expressions::Infix { token, .. } => token.litteral.as_str(),
            Expressions::Prefix { token, .. } => token.litteral.as_str(),
            Expressions::Boolean { token, .. } => token.litteral.as_str(),
            Expressions::IfExpression { token, .. } => token.litteral.as_str(),
            Expressions::FnExpression { token, .. } => token.litteral.as_str(),
            Expressions::CallExpression { token, .. } => token.litteral.as_str(),
        }
    }

    fn display_type(&self) -> (r: &str) {
        match self {
            Expressions::Generic { .. } => "Expression",
            Expressions::Identifier { .. } => "Identifier",
            Expressions::IntegerLiteral { .. } => "Integer Literal Expression",
            Expressions::Infix { .. } => "Infix Expression",
            Expressions::Prefix { .. } => "Prefix Expression",
            Expressions::Boolean { .. } => "Boolean",
            Expressions::IfExpression { .. } => "If Expression",
            Expressions::FnExpression { .. } => "Fn Expression",
            Expressions::CallExpression { .. } => "Call Expression",
        }
    }
}

} // verus!
