//! The syntax tree: `Program`, statements and expressions, each with a
//! mathematical view, a well-formedness predicate, and a canonical text
//! rendering proved against its specification.

use vstd::prelude::*;

use crate::tokens::{Token, TokenType};

verus! {

/// The mathematical shape of an expression: what the tree means, with all
/// runtime representation stripped away.
pub enum ExprView {
    Ident { name: Seq<char> },
    IntLit { text: Seq<char>, value: int },
    Prefix { op: TokenType, operand: Box<ExprView> },
}

/// The mathematical shape of a statement.
pub enum StmtView {
    LetStmt { name: Seq<char>, value: Option<ExprView> },
    ReturnStmt { value: Option<ExprView> },
    ExprStmt { value: ExprView },
}

/// The uniform introspection contract of every syntax-tree node: its
/// originating token (absent only for an empty `Program`) and a canonical
/// source-equivalent rendering.
pub trait Node {
    spec fn token_spec(&self) -> Option<Token>;

    spec fn string_spec(&self) -> Seq<char>;

    fn token(&self) -> (t: Option<&Token>)
        ensures
            match t {
                Some(tok) => self.token_spec() == Some(*tok),
                None => self.token_spec() is None,
            },
    ;

    fn string(&self) -> (s: String)
        ensures
            s@ == self.string_spec(),
    ;
}

/// The root node: an ordered sequence of statements; an empty program is a
/// legitimate value, not an error.
pub struct Program {
    pub statements: Vec<Statement>,
}

/// One statement: a `let` binding, a `return`, or a bare expression.
#[derive(Debug)]
pub enum Statement {
    Let { token: Token, name: Identifier, value: Option<Expression> },
    Return { token: Token, value: Option<Expression> },
    Expression { token: Token, value: Expression },
}

/// An identifier expression, carrying its identifier token.
#[derive(Debug)]
pub struct Identifier {
    pub token: Token,
}

/// An integer literal expression: the token plus the parsed 64-bit value.
#[derive(Debug)]
pub struct IntegerLiteral {
    pub token: Token,
    pub value: i64,
}

/// A prefix operator applied to an operand it exclusively owns.
#[derive(Debug)]
pub struct PrefixExpression {
    pub token: Token,
    pub right: Box<Expression>,
}

/// One expression: an identifier, an integer literal, or a prefix operation.
#[derive(Debug)]
pub enum Expression {
    Identifier(Identifier),
    IntegerLiteral(IntegerLiteral),
    PrefixExpression(PrefixExpression),
}

/// The text a token contributes to a rendering: its literal, or nothing.
pub open spec fn token_lit_text(t: Token) -> Seq<char> {
    match t.literal {
        Some(s) => s@,
        None => Seq::<char>::empty(),
    }
}

/// The token an expression originates from.
pub open spec fn expr_token(e: Expression) -> Token {
    match e {
        Expression::Identifier(id) => id.token,
        Expression::IntegerLiteral(il) => il.token,
        Expression::PrefixExpression(p) => p.token,
    }
}

/// Well-formedness of an expression: each node carries the token its variant
/// calls for, and literals are present exactly where the token model demands.
pub open spec fn expr_wf(e: Expression) -> bool
    decreases e,
{
    match e {
        Expression::Identifier(id) => id.token.token_type == TokenType::Identifier
            && id.token.literal is Some,
        Expression::IntegerLiteral(il) => il.token.token_type == TokenType::Integer
            && il.token.literal is Some,
        Expression::PrefixExpression(p) => (p.token.token_type == TokenType::Bang
            || p.token.token_type == TokenType::Minus) && p.token.literal is None && expr_wf(
            *p.right,
        ),
    }
}

/// The mathematical view of an expression.
pub open spec fn expr_view(e: Expression) -> ExprView
    decreases e,
{
    match e {
        Expression::Identifier(id) => ExprView::Ident { name: token_lit_text(id.token) },
        Expression::IntegerLiteral(il) => ExprView::IntLit {
            text: token_lit_text(il.token),
            value: il.value as int,
        },
        Expression::PrefixExpression(p) => ExprView::Prefix {
            op: p.token.token_type,
            operand: Box::new(expr_view(*p.right)),
        },
    }
}

/// Well-formedness of a statement.
pub open spec fn stmt_wf(st: Statement) -> bool {
    match st {
        Statement::Let { token, name, value } => token.token_type == TokenType::Let
            && token.literal is None && name.token.token_type == TokenType::Identifier
            && name.token.literal is Some && (value matches Some(v) ==> expr_wf(v)),
        Statement::Return { token, value } => token.token_type == TokenType::Return
            && token.literal is None && (value matches Some(v) ==> expr_wf(v)),
        Statement::Expression { token, value } => expr_wf(value) && token == expr_token(value),
    }
}

/// The mathematical view of a statement.
pub open spec fn stmt_view(st: Statement) -> StmtView {
    match st {
        Statement::Let { name, value, .. } => StmtView::LetStmt {
            name: token_lit_text(name.token),
            value: match value {
                Some(v) => Some(expr_view(v)),
                None => None,
            },
        },
        Statement::Return { value, .. } => StmtView::ReturnStmt {
            value: match value {
                Some(v) => Some(expr_view(v)),
                None => None,
            },
        },
        Statement::Expression { value, .. } => StmtView::ExprStmt { value: expr_view(value) },
    }
}

/// The token a statement originates from.
pub open spec fn stmt_token(st: Statement) -> Token {
    match st {
        Statement::Let { token, .. } => token,
        Statement::Return { token, .. } => token,
        Statement::Expression { token, .. } => token,
    }
}

/// The canonical rendering of an expression.
pub open spec fn expr_text(e: Expression) -> Seq<char>
    decreases e,
{
    match e {
        Expression::Identifier(id) => id.token.text_spec(),
        Expression::IntegerLiteral(il) => il.token.text_spec(),
        Expression::PrefixExpression(p) => "("@ + p.token.text_spec() + expr_text(*p.right)
            + ")"@,
    }
}

/// The canonical rendering of a statement.
pub open spec fn stmt_text(st: Statement) -> Seq<char> {
    match st {
        Statement::Let { name, value, .. } => "let "@ + name.token.text_spec() + " = "@ + (
        match value {
            Some(v) => expr_text(v),
            None => Seq::<char>::empty(),
        }) + ";"@,
        Statement::Return { value, .. } => "return "@ + (match value {
            Some(v) => expr_text(v),
            None => Seq::<char>::empty(),
        }) + ";"@,
        Statement::Expression { value, .. } => expr_text(value),
    }
}

/// The canonical rendering of a statement sequence: each statement in order.
pub open spec fn stmts_text(ss: Seq<Statement>) -> Seq<char>
    decreases ss.len(),
{
    if ss.len() == 0 {
        Seq::<char>::empty()
    } else {
        stmt_text(ss[0]) + stmts_text(ss.drop_first())
    }
}

/// The mathematical view of a whole program.
pub open spec fn prog_view(p: Program) -> Seq<StmtView> {
    p.statements@.map_values(|st: Statement| stmt_view(st))
}

/// Well-formedness of a whole program: every statement is well-formed.
pub open spec fn prog_wf(p: Program) -> bool {
    forall|i: int| 0 <= i < p.statements@.len() ==> stmt_wf(#[trigger] p.statements@[i])
}

/// Render one expression; the result is exactly `expr_text`.
pub fn expr_string(e: &Expression) -> (s: String)
    ensures
        s@ == expr_text(*e),
    decreases *e,
{
    match e {
        Expression::Identifier(id) => id.token.text(),
        Expression::IntegerLiteral(il) => il.token.text(),
        Expression::PrefixExpression(p) => {
            let mut out = String::from_str("(");
            out.append(p.token.text().as_str());
            out.append(expr_string(&*p.right).as_str());
            out.append(")");
            out
        },
    }
}

impl Program {
    pub fn new() -> (p: Program)
        ensures
            p.statements@ == Seq::<Statement>::empty(),
    {
        Program { statements: Vec::new() }
    }
}

impl Node for Program {
    open spec fn token_spec(&self) -> Option<Token> {
        if self.statements@.len() > 0 {
            Some(stmt_token(self.statements@[0]))
        } else {
            None
        }
    }

    open spec fn string_spec(&self) -> Seq<char> {
        stmts_text(self.statements@)
    }

    fn token(&self) -> (t: Option<&Token>) {
        if self.statements.len() > 0 {
            self.statements[0].token()
        } else {
            None
        }
    }

    fn string(&self) -> (s: String) {
        let ghost ss = self.statements@;
        let mut out = String::new();
        let mut idx: usize = 0;
        proof {
            assert(ss.skip(0) =~= ss);
            assert(Seq::<char>::empty() + stmts_text(ss) =~= stmts_text(ss));
        }
        while idx < self.statements.len()
            invariant
                self.statements@ == ss,
                0 <= idx <= ss.len(),
                out@ + stmts_text(ss.skip(idx as int)) == stmts_text(ss),
            decreases ss.len() - idx,
        {
            let piece = self.statements[idx].string();
            proof {
                let rest = ss.skip(idx as int);
                assert(rest[0] == ss[idx as int]);
                assert(rest.drop_first() =~= ss.skip(idx as int + 1));
                assert((out@ + piece@) + stmts_text(ss.skip(idx as int + 1)) =~= out@ + (piece@
                    + stmts_text(ss.skip(idx as int + 1))));
            }
            out.append(piece.as_str());
            idx = idx + 1;
        }
        proof {
            assert(ss.skip(ss.len() as int) =~= Seq::<Statement>::empty());
            assert(out@ + Seq::<char>::empty() =~= out@);
        }
        out
    }
}

impl Statement {
    /// Render a `let` statement.
    fn let_string(&self) -> (s: String)
        requires
            self matches Statement::Let { .. },
        ensures
            s@ == stmt_text(*self),
    {
        match self {
            Statement::Let { name, value, .. } => {
                let mut out = String::from_str("let ");
                out.append(name.token.text().as_str());
                out.append(" = ");
                if let Some(expr) = value {
                    out.append(expr_string(expr).as_str());
                }
                out.append(";");
                out
            },
            _ => vstd::pervasive::unreached(),
        }
    }

    /// Render a `return` statement.
    fn return_string(&self) -> (s: String)
        requires
            self matches Statement::Return { .. },
        ensures
            s@ == stmt_text(*self),
    {
        match self {
            Statement::Return { value, .. } => {
                let mut out = String::from_str("return ");
                if let Some(expr) = value {
                    out.append(expr_string(expr).as_str());
                }
                out.append(";");
                out
            },
            _ => vstd::pervasive::unreached(),
        }
    }

    /// Render an expression statement.
    fn expression_string(&self) -> (s: String)
        requires
            self matches Statement::Expression { .. },
        ensures
            s@ == stmt_text(*self),
    {
        match self {
            Statement::Expression { value, .. } => expr_string(value),
            _ => vstd::pervasive::unreached(),
        }
    }
}

impl Node for Statement {
    open spec fn token_spec(&self) -> Option<Token> {
        Some(stmt_token(*self))
    }

    open spec fn string_spec(&self) -> Seq<char> {
        stmt_text(*self)
    }

    fn token(&self) -> (t: Option<&Token>) {
        match self {
            Statement::Let { token, .. } => Some(token),
            Statement::Return { token, .. } => Some(token),
            Statement::Expression { token, .. } => Some(token),
        }
    }

    fn string(&self) -> (s: String) {
        match self {
            Statement::Let { .. } => self.let_string(),
            Statement::Return { .. } => self.return_string(),
            Statement::Expression { .. } => self.expression_string(),
        }
    }
}

impl Node for Identifier {
    open spec fn token_spec(&self) -> Option<Token> {
        Some(self.token)
    }

    open spec fn string_spec(&self) -> Seq<char> {
        self.token.text_spec()
    }

    fn token(&self) -> (t: Option<&Token>) {
        Some(&self.token)
    }

    fn string(&self) -> (s: String) {
        self.token.text()
    }
}

impl Node for IntegerLiteral {
    open spec fn token_spec(&self) -> Option<Token> {
        Some(self.token)
    }

    open spec fn string_spec(&self) -> Seq<char> {
        self.token.text_spec()
    }

    fn token(&self) -> (t: Option<&Token>) {
        Some(&self.token)
    }

    fn string(&self) -> (s: String) {
        self.token.text()
    }
}

impl Node for PrefixExpression {
    open spec fn token_spec(&self) -> Option<Token> {
        Some(self.token)
    }

    open spec fn string_spec(&self) -> Seq<char> {
        "("@ + self.token.text_spec() + expr_text(*self.right) + ")"@
    }

    fn token(&self) -> (t: Option<&Token>) {
        Some(&self.token)
    }

    fn string(&self) -> (s: String) {
        let mut out = String::from_str("(");
        out.append(self.token.text().as_str());
        out.append(expr_string(&*self.right).as_str());
        out.append(")");
        out
    }
}

impl Node for Expression {
    open spec fn token_spec(&self) -> Option<Token> {
        Some(expr_token(*self))
    }

    open spec fn string_spec(&self) -> Seq<char> {
        expr_text(*self)
    }

    fn token(&self) -> (t: Option<&Token>) {
        match self {
            Expression::Identifier(x) => Some(&x.token),
            Expression::IntegerLiteral(x) => Some(&x.token),
            Expression::PrefixExpression(x) => Some(&x.token),
        }
    }

    fn string(&self) -> (s: String) {
        expr_string(self)
    }
}

impl From<Identifier> for Expression {
    fn from(value: Identifier) -> (e: Expression) {
        Expression::Identifier(value)
    }
}

impl vstd::std_specs::convert::FromSpecImpl<Identifier> for Expression {
    open spec fn obeys_from_spec() -> bool {
        true
    }

    open spec fn from_spec(value: Identifier) -> Expression {
        Expression::Identifier(value)
    }
}

impl From<IntegerLiteral> for Expression {
    fn from(value: IntegerLiteral) -> (e: Expression) {
        Expression::IntegerLiteral(value)
    }
}

impl vstd::std_specs::convert::FromSpecImpl<IntegerLiteral> for Expression {
    open spec fn obeys_from_spec() -> bool {
        true
    }

    open spec fn from_spec(value: IntegerLiteral) -> Expression {
        Expression::IntegerLiteral(value)
    }
}

impl From<PrefixExpression> for Expression {
    fn from(value: PrefixExpression) -> (e: Expression) {
        Expression::PrefixExpression(value)
    }
}

impl vstd::std_specs::convert::FromSpecImpl<PrefixExpression> for Expression {
    open spec fn obeys_from_spec() -> bool {
        true
    }

    open spec fn from_spec(value: PrefixExpression) -> Expression {
        Expression::PrefixExpression(value)
    }
}

} // verus!
