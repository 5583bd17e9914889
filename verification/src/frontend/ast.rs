//! The abstract syntax tree: statements and expressions, pure data.

use vstd::prelude::*;
use crate::frontend::token::{Token, TokenView};

verus! {

/// A statement.
#[derive(Debug, PartialEq)]
pub enum Statement {
    Let { name: String, value: Expression },
    Return(Expression),
    Expression(Expression),
}

/// An expression.
#[derive(Debug, PartialEq)]
pub enum Expression {
    Identifier(String),
    IntegerLiteral(i64),
    Boolean(bool),
    Prefix { op: Token, right: Box<Expression> },
    Infix { op: Token, left: Box<Expression>, right: Box<Expression> },
    If { condition: Box<Expression>, consequence: BlockStatement, alternative: Option<BlockStatement> },
    FunctionLiteral { params: Vec<String>, body: BlockStatement },
    Call { function: Box<Expression>, arguments: Vec<Expression> },
}

/// A whole compilation unit: its statements in source order.
pub type Program = Vec<Statement>;

/// The statements of one block, in source order.
pub type BlockStatement = Vec<Statement>;

/// The mathematical value of a [`Statement`].
pub enum StatementView {
    Let { name: Seq<char>, value: ExpressionView },
    Return(ExpressionView),
    Expression(ExpressionView),
}

/// The mathematical value of an [`Expression`].
pub enum ExpressionView {
    Identifier(Seq<char>),
    IntegerLiteral(i64),
    Boolean(bool),
    Prefix { op: TokenView, right: Box<ExpressionView> },
    Infix { op: TokenView, left: Box<ExpressionView>, right: Box<ExpressionView> },
    If {
        condition: Box<ExpressionView>,
        consequence: Seq<StatementView>,
        alternative: Option<Seq<StatementView>>,
    },
    FunctionLiteral { params: Seq<Seq<char>>, body: Seq<StatementView> },
    Call { function: Box<ExpressionView>, arguments: Seq<ExpressionView> },
}

/// The value of a statement.
pub open spec fn statement_view(s: Statement) -> StatementView
    decreases s,
{
    match s {
        Statement::Let { name, value } => StatementView::Let {
            name: name@,
            value: expression_view(value),
        },
        Statement::Return(e) => StatementView::Return(expression_view(e)),
        Statement::Expression(e) => StatementView::Expression(expression_view(e)),
    }
}

/// The value of an expression.
pub open spec fn expression_view(e: Expression) -> ExpressionView
    decreases e,
{
    match e {
        Expression::Identifier(name) => ExpressionView::Identifier(name@),
        Expression::IntegerLiteral(n) => ExpressionView::IntegerLiteral(n),
        Expression::Boolean(b) => ExpressionView::Boolean(b),
        Expression::Prefix { op, right } => ExpressionView::Prefix {
            op: op@,
            right: Box::new(expression_view(*right)),
        },
        Expression::Infix { op, left, right } => ExpressionView::Infix {
            op: op@,
            left: Box::new(expression_view(*left)),
            right: Box::new(expression_view(*right)),
        },
        Expression::If { condition, consequence, alternative } => ExpressionView::If {
            condition: Box::new(expression_view(*condition)),
            consequence: block_view(consequence),
            alternative: match alternative {
                Some(block) => Some(block_view(block)),
                None => None,
            },
        },
        Expression::FunctionLiteral { params, body } => ExpressionView::FunctionLiteral {
            params: names_view(params),
            body: block_view(body),
        },
        Expression::Call { function, arguments } => ExpressionView::Call {
            function: Box::new(expression_view(*function)),
            arguments: arguments_view(arguments),
        },
    }
}

/// The values of the arguments of a call, in order.
pub open spec fn arguments_view(arguments: Vec<Expression>) -> Seq<ExpressionView>
    decreases arguments,
{
    Seq::new(
        arguments.len() as nat,
        |i: int|
            if 0 <= i < arguments.len() {
                expression_view(arguments[i])
            } else {
                ExpressionView::Boolean(false)
            },
    )
}

/// The texts of a list of names, in order.
pub open spec fn names_view(names: Vec<String>) -> Seq<Seq<char>> {
    Seq::new(names.len() as nat, |i: int| names[i]@)
}

/// The value of an expression that may be missing.
pub open spec fn optional_expression_view(e: Option<Expression>) -> Option<ExpressionView> {
    match e {
        Some(e) => Some(e@),
        None => None,
    }
}

/// The value of a statement that may be missing.
pub open spec fn optional_statement_view(s: Option<Statement>) -> Option<StatementView> {
    match s {
        Some(s) => Some(s@),
        None => None,
    }
}

/// The value of a block or program: the values of its statements, in order.
pub open spec fn block_view(block: Vec<Statement>) -> Seq<StatementView>
    decreases block,
{
    Seq::new(
        block.len() as nat,
        |i: int|
            if 0 <= i < block.len() {
                statement_view(block[i])
            } else {
                StatementView::Return(ExpressionView::Boolean(false))
            },
    )
}

impl View for Statement {
    type V = StatementView;

    open spec fn view(&self) -> StatementView {
        statement_view(*self)
    }
}

impl View for Expression {
    type V = ExpressionView;

    open spec fn view(&self) -> ExpressionView {
        expression_view(*self)
    }
}

/// A copy of a statement.
fn clone_statement(s: &Statement) -> (copy: Statement)
    ensures
        copy@ == s@,
    decreases s,
{
    match s {
        Statement::Let { name, value } => Statement::Let {
            name: name.clone(),
            value: clone_expression(value),
        },
        Statement::Return(e) => Statement::Return(clone_expression(e)),
        Statement::Expression(e) => Statement::Expression(clone_expression(e)),
    }
}

/// A copy of a block.
fn clone_block(block: &Vec<Statement>) -> (copy: Vec<Statement>)
    ensures
        block_view(copy) == block_view(*block),
    decreases block,
{
    let mut copy: Vec<Statement> = Vec::new();
    let mut i: usize = 0;
    while i < block.len()
        invariant
            i <= block.len(),
            copy.len() == i,
            forall|k: int| 0 <= k < i ==> statement_view(copy[k]) == statement_view(block[k]),
        decreases block.len() - i,
    {
        copy.push(clone_statement(&block[i]));
        i = i + 1;
    }
    assert(block_view(copy) =~= block_view(*block));
    copy
}

/// A copy of an expression.
fn clone_expression(e: &Expression) -> (copy: Expression)
    ensures
        copy@ == e@,
    decreases e,
{
    match e {
        Expression::Identifier(name) => Expression::Identifier(name.clone()),
        Expression::IntegerLiteral(n) => Expression::IntegerLiteral(*n),
        Expression::Boolean(b) => Expression::Boolean(*b),
        Expression::Prefix { op, right } => Expression::Prefix {
            op: op.clone(),
            right: Box::new(clone_expression(right)),
        },
        Expression::Infix { op, left, right } => Expression::Infix {
            op: op.clone(),
            left: Box::new(clone_expression(left)),
            right: Box::new(clone_expression(right)),
        },
        Expression::If { condition, consequence, alternative } => Expression::If {
            condition: Box::new(clone_expression(condition)),
            consequence: clone_block(consequence),
            alternative: match alternative {
                Some(block) => Some(clone_block(block)),
                None => None,
            },
        },
        Expression::FunctionLiteral { params, body } => {
            let mut names: Vec<String> = Vec::new();
            let mut i: usize = 0;
            while i < params.len()
                invariant
                    i <= params.len(),
                    names.len() == i,
                    forall|k: int| 0 <= k < i ==> names[k]@ == params[k]@,
                decreases params.len() - i,
            {
                names.push(params[i].clone());
                i = i + 1;
            }
            let copy = Expression::FunctionLiteral { params: names, body: clone_block(body) };
            assert(names_view(names) =~= names_view(*params));
            copy
        },
        Expression::Call { function, arguments } => {
            let mut args: Vec<Expression> = Vec::new();
            let mut i: usize = 0;
            while i < arguments.len()
                invariant
                    decreases_to!(e => arguments),
                    i <= arguments.len(),
                    args.len() == i,
                    forall|k: int| 0 <= k < i ==> expression_view(args[k]) == expression_view(arguments[k]),
                decreases arguments.len() - i,
            {
                args.push(clone_expression(&arguments[i]));
                i = i + 1;
            }
            let copy = Expression::Call { function: Box::new(clone_expression(function)), arguments: args };
            assert(arguments_view(args) =~= arguments_view(*arguments));
            copy
        },
    }
}

impl Clone for Statement {
    fn clone(&self) -> (copy: Self)
        ensures
            copy@ == self@,
    {
        clone_statement(self)
    }
}

impl Clone for Expression {
    fn clone(&self) -> (copy: Self)
        ensures
            copy@ == self@,
    {
        clone_expression(self)
    }
}

} // verus!
