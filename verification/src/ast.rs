//! Abstract syntax tree nodes for statements and expressions, together with
//! their deterministic, parenthesized textual rendering.

use vstd::prelude::*;
use vstd::string::StringExecFns;

use crate::lexer::{token_text, Token, TokenView};

verus! {

/// An expression node.  Each node exclusively owns its children; operand
/// slots are optional because a failed sub-parse leaves them empty.
#[derive(Debug)]
pub enum Expression {
    Identifier(Token),
    IntegerLiteral(Token, i64),
    Prefix(Token, Option<Box<Expression>>),
    Infix(Option<Box<Expression>>, Token, Option<Box<Expression>>),
}

/// A statement node.
#[derive(Debug)]
pub enum Statement {
    Let(Token, Token, Option<Box<Expression>>),
    Return(Token, Option<Box<Expression>>),
    Expression(Token, Option<Box<Expression>>),
}

/// The root of a parse: an ordered sequence of statements.
#[derive(Debug)]
pub enum Node {
    Program(Vec<Statement>),
}

/// The mathematical value of an expression tree.
pub enum ExprView {
    Identifier(TokenView),
    IntegerLiteral(TokenView, i64),
    Prefix(TokenView, Option<Box<ExprView>>),
    Infix(Option<Box<ExprView>>, TokenView, Option<Box<ExprView>>),
}

/// The mathematical value of a statement.
pub enum StmtView {
    Let(TokenView, TokenView, Option<Box<ExprView>>),
    Return(TokenView, Option<Box<ExprView>>),
    Expression(TokenView, Option<Box<ExprView>>),
}

/// The mathematical value of a program.
pub enum NodeView {
    Program(Seq<StmtView>),
}

pub open spec fn opt_expr_view(e: Option<Box<Expression>>) -> Option<Box<ExprView>>
    decreases e,
{
    match e {
        Option::None => Option::None,
        Option::Some(b) => Option::Some(Box::new(expr_view(*b))),
    }
}

pub open spec fn expr_view(e: Expression) -> ExprView
    decreases e,
{
    match e {
        Expression::Identifier(t) => ExprView::Identifier(t@),
        Expression::IntegerLiteral(t, v) => ExprView::IntegerLiteral(t@, v),
        Expression::Prefix(op, r) => ExprView::Prefix(op@, opt_expr_view(r)),
        Expression::Infix(l, op, r) => ExprView::Infix(opt_expr_view(l), op@, opt_expr_view(r)),
    }
}

pub open spec fn stmt_view(s: Statement) -> StmtView {
    match s {
        Statement::Let(kw, id, e) => StmtView::Let(kw@, id@, opt_expr_view(e)),
        Statement::Return(kw, e) => StmtView::Return(kw@, opt_expr_view(e)),
        Statement::Expression(t, e) => StmtView::Expression(t@, opt_expr_view(e)),
    }
}

pub open spec fn opt_stmt_view(s: Option<Statement>) -> Option<StmtView> {
    match s {
        Option::None => Option::None,
        Option::Some(st) => Option::Some(stmt_view(st)),
    }
}

impl View for Expression {
    type V = ExprView;

    open spec fn view(&self) -> ExprView {
        expr_view(*self)
    }
}

impl View for Statement {
    type V = StmtView;

    open spec fn view(&self) -> StmtView {
        stmt_view(*self)
    }
}

impl View for Node {
    type V = NodeView;

    open spec fn view(&self) -> NodeView {
        match self {
            Node::Program(stmts) => NodeView::Program(stmts@.map_values(|s: Statement| stmt_view(s))),
        }
    }
}

/// Rendering of an optional operand: an empty slot renders as nothing.
pub open spec fn opt_expr_text(e: Option<Box<ExprView>>) -> Seq<char>
    decreases e,
{
    match e {
        Option::None => Seq::empty(),
        Option::Some(b) => expr_text(*b),
    }
}

/// The parenthesized normal form of an expression: identifiers and integer
/// literals render as their text, prefix nodes as `(<op><operand>)`, infix
/// nodes as `(<left> <op> <right>)`.
pub open spec fn expr_text(e: ExprView) -> Seq<char>
    decreases e,
{
    match e {
        ExprView::Identifier(t) => token_text(t),
        ExprView::IntegerLiteral(t, _v) => token_text(t),
        ExprView::Prefix(op, r) => "("@ + token_text(op) + opt_expr_text(r) + ")"@,
        ExprView::Infix(l, op, r) => "("@ + opt_expr_text(l) + " "@ + token_text(op) + " "@
            + opt_expr_text(r) + ")"@,
    }
}

/// The textual rendering of a statement: a let statement renders as
/// `<keyword> <ident> = <expr>`, a return statement as `<keyword> <expr>`,
/// an expression statement as the bare expression.
pub open spec fn stmt_text(s: StmtView) -> Seq<char> {
    match s {
        StmtView::Let(kw, id, e) => token_text(kw) + " "@ + token_text(id) + " = "@
            + opt_expr_text(e),
        StmtView::Return(kw, e) => match e {
            Option::None => token_text(kw),
            Option::Some(b) => token_text(kw) + " "@ + expr_text(*b),
        },
        StmtView::Expression(_t, e) => opt_expr_text(e),
    }
}

fn opt_render(e: &Option<Box<Expression>>) -> (s: String)
    ensures
        s@ == opt_expr_text(opt_expr_view(*e)),
    decreases *e,
{
    match e {
        Option::None => String::new(),
        Option::Some(b) => (**b).render(),
    }
}

impl Expression {
    /// Renders this expression in parenthesized normal form.
    pub fn render(&self) -> (s: String)
        ensures
            s@ == expr_text(self@),
        decreases *self,
    {
        match self {
            Expression::Identifier(t) => t.text(),
            Expression::IntegerLiteral(t, _v) => t.text(),
            Expression::Prefix(op, r) => {
                let mut out = String::from_str("(");
                out.append(op.text().as_str());
                out.append(opt_render(r).as_str());
                out.append(")");
                proof {
                    assert(out@ =~= expr_text(self@));
                }
                out
            },
            Expression::Infix(l, op, r) => {
                let mut out = String::from_str("(");
                out.append(opt_render(l).as_str());
                out.append(" ");
                out.append(op.text().as_str());
                out.append(" ");
                out.append(opt_render(r).as_str());
                out.append(")");
                proof {
                    assert(out@ =~= expr_text(self@));
                }
                out
            },
        }
    }
}

impl Statement {
    /// Renders this statement as text.
    pub fn render(&self) -> (s: String)
        ensures
            s@ == stmt_text(self@),
    {
        match self {
            Statement::Let(kw, id, e) => {
                let mut out = kw.text();
                out.append(" ");
                out.append(id.text().as_str());
                out.append(" = ");
                out.append(opt_render(e).as_str());
                proof {
                    assert(out@ =~= stmt_text(self@));
                }
                out
            },
            Statement::Return(kw, e) => {
                let mut out = kw.text();
                match e {
                    Option::None => {},
                    Option::Some(b) => {
                        out.append(" ");
                        out.append((**b).render().as_str());
                    },
                }
                proof {
                    assert(out@ =~= stmt_text(self@));
                }
                out
            },
            Statement::Expression(_t, e) => opt_render(e),
        }
    }
}

} // verus!
