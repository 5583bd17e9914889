//! The C emitter: one pass over the tree that writes the program as the
//! body of a C `main` function.

use vstd::prelude::*;
use vstd::string::*;
use crate::frontend::ast::{
    arguments_view, block_view, expression_view, Expression, ExpressionView, Program, Statement,
    StatementView,
};
use crate::frontend::token::{Token, TokenView};
use crate::text::{bool_text, decimal_text, push_bool, push_decimal};

verus! {

/// The error type of `std::fmt`, which the emitter names in the type of its
/// result and never produces.
#[verifier::external_type_specification]
#[verifier::external_body]
pub struct ExFmtError(std::fmt::Error);

/// The white space that starts a line at nesting level `level`: four spaces
/// for each level.
pub open spec fn indentation(level: nat) -> Seq<char>
    decreases level,
{
    if level == 0 {
        Seq::empty()
    } else {
        indentation((level - 1) as nat) + "    "@
    }
}

/// The C operator for an infix operator token, or a marker for a token that
/// is no such operator.
pub open spec fn operator_text(op: TokenView) -> Seq<char> {
    match op {
        TokenView::Plus => "+"@,
        TokenView::Minus => "-"@,
        TokenView::Asterisk => "*"@,
        TokenView::Slash => "/"@,
        TokenView::Eq => "=="@,
        TokenView::NotEq => "!="@,
        TokenView::Lt => "<"@,
        TokenView::Gt => ">"@,
        _ => "/* unhandled op */"@,
    }
}

/// The larger of two numbers.
pub open spec fn larger(a: nat, b: nat) -> nat {
    if a >= b {
        a
    } else {
        b
    }
}

/// How many blocks deep the emitted text of an expression is nested.
pub open spec fn expression_nesting(e: ExpressionView) -> nat
    decreases e, 0nat,
{
    match e {
        ExpressionView::Infix { op, left, right } => larger(
            expression_nesting(*left),
            expression_nesting(*right),
        ),
        ExpressionView::If { condition, consequence, alternative } => larger(
            expression_nesting(*condition),
            larger(
                1 + block_nesting_from(consequence, 0),
                match alternative {
                    Some(block) => 1 + block_nesting_from(block, 0),
                    None => 0,
                },
            ),
        ),
        ExpressionView::Call { function, arguments } => match *function {
            ExpressionView::Identifier(name) => if name == "print"@ && arguments.len() > 0 {
                expression_nesting(arguments[0])
            } else {
                0
            },
            _ => 0,
        },
        _ => 0,
    }
}

/// How many blocks deep the emitted text of a statement is nested.
pub open spec fn statement_nesting(s: StatementView) -> nat
    decreases s, 0nat,
{
    match s {
        StatementView::Let { name, value } => expression_nesting(value),
        StatementView::Return(e) => expression_nesting(e),
        StatementView::Expression(e) => expression_nesting(e),
    }
}

/// The deepest nesting among the statements of `stmts` from index `i` on.
pub open spec fn block_nesting_from(stmts: Seq<StatementView>, i: int) -> nat
    decreases stmts, stmts.len() - i,
{
    if i < 0 || i >= stmts.len() {
        0
    } else {
        larger(statement_nesting(stmts[i]), block_nesting_from(stmts, i + 1))
    }
}

/// The deepest nesting among the statements of a block or program.
pub open spec fn block_nesting(stmts: Seq<StatementView>) -> nat {
    block_nesting_from(stmts, 0)
}

/// The C text of an expression that stands at nesting level `level`.
pub open spec fn emit_expression(e: ExpressionView, level: nat) -> Seq<char>
    decreases e, 0nat,
{
    match e {
        ExpressionView::Identifier(name) => name,
        ExpressionView::IntegerLiteral(value) => decimal_text(value as int),
        ExpressionView::Boolean(value) => bool_text(value),
        ExpressionView::Infix { op, left, right } => "("@ + emit_expression(*left, level) + " "@
            + operator_text(op) + " "@ + emit_expression(*right, level) + ")"@,
        ExpressionView::If { condition, consequence, alternative } => "if ("@ + emit_expression(
            *condition,
            level,
        ) + ") "@ + emit_braced(consequence, level) + match alternative {
            Some(block) => " else "@ + emit_braced(block, level),
            None => Seq::empty(),
        },
        ExpressionView::Call { function, arguments } => match *function {
            ExpressionView::Identifier(name) => if name == "print"@ {
                "printf(\"%lld\\n\", "@ + (if arguments.len() > 0 {
                    emit_expression(arguments[0], level)
                } else {
                    Seq::empty()
                }) + ")"@
            } else {
                name + "("@ + ")"@
            },
            _ => "/* unhandled expression */"@,
        },
        _ => "/* unhandled expression */"@,
    }
}

/// The C text of a block that belongs to a statement at nesting level
/// `level`: an opening brace, the statements one level deeper, and the
/// closing brace at the level of the statement.
pub open spec fn emit_braced(stmts: Seq<StatementView>, level: nat) -> Seq<char>
    decreases stmts, stmts.len() + 1,
{
    "{\n"@ + emit_statements_from(stmts, 0, level + 1) + indentation(level) + "}"@
}

/// The C text of a statement at nesting level `level`: one indented line, or
/// several for a conditional.
pub open spec fn emit_statement(s: StatementView, level: nat) -> Seq<char>
    decreases s, 0nat,
{
    match s {
        StatementView::Let { name, value } => indentation(level) + "int64_t "@ + name + " = "@
            + emit_expression(value, level) + ";\n"@,
        StatementView::Return(e) => indentation(level) + "return "@ + emit_expression(e, level)
            + ";\n"@,
        StatementView::Expression(e) => indentation(level) + emit_expression(e, level) + ";\n"@,
    }
}

/// The C text of the statements of `stmts` from index `i` on, in order.
pub open spec fn emit_statements_from(stmts: Seq<StatementView>, i: int, level: nat) -> Seq<char>
    decreases stmts, stmts.len() - i,
{
    if i < 0 || i >= stmts.len() {
        Seq::empty()
    } else {
        emit_statement(stmts[i], level) + emit_statements_from(stmts, i + 1, level)
    }
}

/// The C text of a whole program, one compilation unit: the includes, and
/// a single `main` function whose body holds the statements at nesting level
/// `level` and returns 0.
pub open spec fn emit_program(stmts: Seq<StatementView>, level: nat) -> Seq<char> {
    "#include <stdio.h>\n"@ + "#include <stdint.h>\n"@ + "#include <stdbool.h>\n\n"@
        + "int main() {\n"@ + emit_statements_from(stmts, 0, level) + "    return 0;\n"@ + "}\n"@
}

/// The statements from index `i` on are the statement at `i` followed by
/// those from `i + 1` on; read from the other end, the text of the
/// statements up to `i` grows by that of the statement at `i`.
proof fn lemma_emit_prefix(stmts: Seq<StatementView>, from: int, i: int, level: nat)
    requires
        0 <= from <= i < stmts.len(),
    ensures
        emit_statements_from(stmts.take(i + 1), from, level) == emit_statements_from(
            stmts.take(i),
            from,
            level,
        ) + emit_statement(stmts[i], level),
    decreases i - from,
{
    if from == i {
        assert(emit_statements_from(stmts.take(i), from, level) =~= Seq::<char>::empty());
        assert(emit_statements_from(stmts.take(i + 1), i + 1, level) =~= Seq::<char>::empty());
        assert(stmts.take(i + 1)[i] == stmts[i]);
        assert(emit_statements_from(stmts.take(i + 1), from, level) =~= emit_statement(
            stmts[i],
            level,
        ));
    } else {
        lemma_emit_prefix(stmts, from + 1, i, level);
        assert(stmts.take(i + 1)[from] == stmts.take(i)[from]);
        assert(emit_statements_from(stmts.take(i + 1), from, level) =~= emit_statement(
            stmts[from],
            level,
        ) + emit_statements_from(stmts.take(i + 1), from + 1, level));
        assert(emit_statements_from(stmts.take(i), from, level) =~= emit_statement(
            stmts[from],
            level,
        ) + emit_statements_from(stmts.take(i), from + 1, level));
    }
}

/// The nesting of the statements from index `i` on bounds that of each of
/// them.
proof fn lemma_block_nesting_bounds(stmts: Seq<StatementView>, from: int, i: int)
    requires
        0 <= from <= i < stmts.len(),
    ensures
        statement_nesting(stmts[i]) <= block_nesting_from(stmts, from),
    decreases i - from,
{
    if from < i {
        lemma_block_nesting_bounds(stmts, from + 1, i);
    }
}

/// The emitter: the text written so far and the present nesting level.
pub struct CTranspiler {
    output: String,
    indent_level: usize,
}

impl CTranspiler {
    /// The text emitted so far.
    pub closed spec fn emitted(&self) -> Seq<char> {
        self.output@
    }

    /// The nesting level at which the next statement is emitted.
    pub closed spec fn level(&self) -> nat {
        self.indent_level as nat
    }

    /// An emitter that has written nothing, at nesting level 1: inside the
    /// body of `main`.
    pub fn new() -> (emitter: Self)
        ensures
            emitter.emitted() == Seq::<char>::empty(),
            emitter.level() == 1,
    {
        CTranspiler { output: String::new(), indent_level: 1 }
    }

    /// Whether the nesting counter can take `program`: whether the level of
    /// the emitter and the nesting of the program together fit in `usize`.
    pub fn fits(&self, program: &Program) -> (ok: bool)
        ensures
            ok == (self.level() + block_nesting(block_view(*program)) <= usize::MAX),
    {
        block_within(program, usize::MAX - self.indent_level)
    }

    /// Emits the whole program as one compilation unit and returns its
    /// text. What the emitter wrote before is dropped, so that emitting a
    /// program again gives the same text. Emission cannot fail.
    pub fn transpile(&mut self, program: Program) -> (res: Result<String, std::fmt::Error>)
        requires
            old(self).level() + block_nesting(block_view(program)) <= usize::MAX,
        ensures
            res matches Ok(text) && text@ == emit_program(block_view(program), old(self).level()),
            final(self).emitted() == emit_program(block_view(program), old(self).level()),
            final(self).level() == old(self).level(),
    {
        self.output = String::new();
        self.output.append("#include <stdio.h>\n");
        self.output.append("#include <stdint.h>\n");
        self.output.append("#include <stdbool.h>\n\n");
        self.output.append("int main() {\n");
        self.emit_block(&program);
        self.output.append("    return 0;\n");
        self.output.append("}\n");
        assert(self.output@ =~= emit_program(block_view(program), old(self).level()));
        Ok(self.output.clone())
    }

    /// Emits the statements of a block, in order.
    fn emit_block(&mut self, block: &Vec<Statement>)
        requires
            old(self).level() + block_nesting(block_view(*block)) <= usize::MAX,
        ensures
            final(self).emitted() == old(self).emitted() + emit_statements_from(
                block_view(*block),
                0,
                old(self).level(),
            ),
            final(self).level() == old(self).level(),
        decreases block, 1nat,
    {
        let ghost stmts = block_view(*block);
        let mut i: usize = 0;
        assert(stmts.take(0) =~= Seq::empty());
        assert(self.output@ =~= old(self).output@ + emit_statements_from(
            stmts.take(0),
            0,
            self.level(),
        ));
        while i < block.len()
            invariant
                stmts == block_view(*block),
                i <= block.len(),
                self.indent_level == old(self).indent_level,
                self.indent_level + block_nesting(stmts) <= usize::MAX,
                self.output@ == old(self).output@ + emit_statements_from(
                    stmts.take(i as int),
                    0,
                    self.level(),
                ),
            decreases block.len() - i,
        {
            proof {
                lemma_emit_prefix(stmts, 0, i as int, self.level());
                lemma_block_nesting_bounds(stmts, 0, i as int);
            }
            self.transpile_statement(&block[i]);
            assert(self.output@ =~= old(self).output@ + emit_statements_from(
                stmts.take(i + 1),
                0,
                self.level(),
            ));
            i = i + 1;
        }
        assert(stmts.take(i as int) =~= stmts);
    }

    /// Writes the white space that starts a line at the present level.
    fn indent(&mut self)
        ensures
            final(self).emitted() == old(self).emitted() + indentation(old(self).level()),
            final(self).level() == old(self).level(),
    {
        let mut i: usize = 0;
        assert(self.output@ =~= old(self).output@ + indentation(0));
        while i < self.indent_level
            invariant
                i <= self.indent_level,
                self.indent_level == old(self).indent_level,
                self.output@ == old(self).output@ + indentation(i as nat),
            decreases self.indent_level - i,
        {
            self.output.append("    ");
            i = i + 1;
            assert(self.output@ =~= old(self).output@ + indentation(i as nat));
        }
    }

    /// Emits one statement on a line of its own.
    fn transpile_statement(&mut self, stmt: &Statement)
        requires
            old(self).level() + statement_nesting(stmt@) <= usize::MAX,
        ensures
            final(self).emitted() == old(self).emitted() + emit_statement(
                stmt@,
                old(self).level(),
            ),
            final(self).level() == old(self).level(),
        decreases stmt, 2nat,
    {
        self.indent();
        match stmt {
            Statement::Let { name, value } => {
                self.output.append("int64_t ");
                self.output.append(name.as_str());
                self.output.append(" = ");
                self.transpile_expression(value);
                self.output.append(";\n");
            },
            Statement::Return(expr) => {
                self.output.append("return ");
                self.transpile_expression(expr);
                self.output.append(";\n");
            },
            Statement::Expression(expr) => {
                self.transpile_expression(expr);
                self.output.append(";\n");
            },
        }
        assert(self.output@ =~= old(self).output@ + emit_statement(stmt@, old(self).level()));
    }

    /// Emits one expression.
    fn transpile_expression(&mut self, expr: &Expression)
        requires
            old(self).level() + expression_nesting(expr@) <= usize::MAX,
        ensures
            final(self).emitted() == old(self).emitted() + emit_expression(
                expr@,
                old(self).level(),
            ),
            final(self).level() == old(self).level(),
        decreases expr, 1nat,
    {
        match expr {
            Expression::Identifier(name) => {
                self.output.append(name.as_str());
            },
            Expression::IntegerLiteral(value) => {
                push_decimal(&mut self.output, *value);
            },
            Expression::Boolean(value) => {
                push_bool(&mut self.output, *value);
            },
            Expression::Infix { .. } => {
                self.transpile_infix(expr);
            },
            Expression::If { .. } => {
                self.transpile_if(expr);
            },
            Expression::Call { .. } => {
                self.transpile_call(expr);
            },
            _ => {
                self.output.append("/* unhandled expression */");
            },
        }
    }

    /// Emits an infix expression, fully parenthesized.
    fn transpile_infix(&mut self, expr: &Expression)
        requires
            expr is Infix,
            old(self).level() + expression_nesting(expr@) <= usize::MAX,
        ensures
            final(self).emitted() == old(self).emitted() + emit_expression(
                expr@,
                old(self).level(),
            ),
            final(self).level() == old(self).level(),
        decreases expr, 0nat,
    {
        match expr {
            Expression::Infix { op, left, right } => {
                self.output.append("(");
                self.transpile_expression(left);
                self.output.append(" ");
                self.output.append(Self::op_to_c(op));
                self.output.append(" ");
                self.transpile_expression(right);
                self.output.append(")");
                assert(self.output@ =~= old(self).output@ + emit_expression(
                    expr@,
                    old(self).level(),
                ));
            },
            _ => {},
        }
    }

    /// Emits a conditional: the condition in parentheses, the consequence
    /// in braces and, if there is one, the alternative after `else`.
    fn transpile_if(&mut self, expr: &Expression)
        requires
            expr is If,
            old(self).level() + expression_nesting(expr@) <= usize::MAX,
        ensures
            final(self).emitted() == old(self).emitted() + emit_expression(
                expr@,
                old(self).level(),
            ),
            final(self).level() == old(self).level(),
        decreases expr, 0nat,
    {
        match expr {
            Expression::If { condition, consequence, alternative } => {
                self.output.append("if (");
                self.transpile_expression(condition);
                self.output.append(") ");
                self.emit_braced(consequence);
                match alternative {
                    Some(block) => {
                        self.output.append(" else ");
                        self.emit_braced(block);
                    },
                    None => {},
                }
                assert(self.output@ =~= old(self).output@ + emit_expression(
                    expr@,
                    old(self).level(),
                ));
            },
            _ => {},
        }
    }

    /// Emits a block in braces, its statements one level deeper.
    fn emit_braced(&mut self, block: &Vec<Statement>)
        requires
            old(self).level() + 1 + block_nesting(block_view(*block)) <= usize::MAX,
        ensures
            final(self).emitted() == old(self).emitted() + emit_braced(
                block_view(*block),
                old(self).level(),
            ),
            final(self).level() == old(self).level(),
        decreases block, 2nat,
    {
        self.output.append("{\n");
        self.indent_level = self.indent_level + 1;
        self.emit_block(block);
        self.indent_level = self.indent_level - 1;
        self.indent();
        self.output.append("}");
        assert(self.output@ =~= old(self).output@ + emit_braced(
            block_view(*block),
            old(self).level(),
        ));
    }

    /// Emits a call. A call of `print` becomes a `printf` of its first
    /// argument; a call of another name becomes a call without arguments; a
    /// call of anything but a name leaves the marker of an unhandled
    /// expression.
    fn transpile_call(&mut self, expr: &Expression)
        requires
            expr is Call,
            old(self).level() + expression_nesting(expr@) <= usize::MAX,
        ensures
            final(self).emitted() == old(self).emitted() + emit_expression(
                expr@,
                old(self).level(),
            ),
            final(self).level() == old(self).level(),
        decreases expr, 0nat,
    {
        match expr {
            Expression::Call { function, arguments } => {
                match &**function {
                    Expression::Identifier(name) => {
                        assert(expression_view(**function) == ExpressionView::Identifier(name@));
                        assert(arguments_view(*arguments).len() == arguments.len());
                        assert(expr@ == ExpressionView::Call {
                            function: Box::new(ExpressionView::Identifier(name@)),
                            arguments: arguments_view(*arguments),
                        });
                        if name.as_str().eq("print") {
                            self.output.append("printf(\"%lld\\n\", ");
                            if arguments.len() > 0 {
                                assert(arguments_view(*arguments)[0] == arguments[0]@);
                                self.transpile_expression(&arguments[0]);
                                self.output.append(")");
                                assert(self.output@ =~= old(self).output@ + ("printf(\"%lld\\n\", "@
                                    + emit_expression(arguments[0]@, old(self).level()) + ")"@));
                            } else {
                                self.output.append(")");
                                assert(self.output@ =~= old(self).output@ + ("printf(\"%lld\\n\", "@
                                    + Seq::<char>::empty() + ")"@));
                            }
                        } else {
                            self.output.append(name.as_str());
                            self.output.append("(");
                            self.output.append(")");
                            assert(self.output@ =~= old(self).output@ + (name@ + "("@ + ")"@));
                        }
                    },
                    _ => {
                        assert(!(expression_view(**function) is Identifier));
                        self.output.append("/* unhandled expression */");
                    },
                }
            },
            _ => {},
        }
    }

    /// The C operator for an infix operator token.
    fn op_to_c(op: &Token) -> (text: &'static str)
        ensures
            text@ == operator_text(op@),
    {
        match op {
            Token::Plus => "+",
            Token::Minus => "-",
            Token::Asterisk => "*",
            Token::Slash => "/",
            Token::Eq => "==",
            Token::NotEq => "!=",
            Token::Lt => "<",
            Token::Gt => ">",
            _ => "/* unhandled op */",
        }
    }
}

/// Decides whether the emitted text of an expression is nested at most
/// `budget` blocks deep.
fn expression_within(expr: &Expression, budget: usize) -> (ok: bool)
    ensures
        ok == (expression_nesting(expr@) <= budget),
    decreases expr, 0nat,
{
    match expr {
        Expression::Infix { op: _, left, right } => expression_within(left, budget)
            && expression_within(right, budget),
        Expression::If { condition, consequence, alternative } => {
            if !expression_within(condition, budget) {
                return false;
            }
            if budget == 0 {
                return false;
            }
            if !block_within(consequence, budget - 1) {
                return false;
            }
            match alternative {
                Some(block) => block_within(block, budget - 1),
                None => true,
            }
        },
        Expression::Call { function, arguments } => match &**function {
            Expression::Identifier(name) => {
                assert(expression_view(**function) == ExpressionView::Identifier(name@));
                if name.as_str().eq("print") && arguments.len() > 0 {
                    assert(arguments_view(*arguments)[0] == arguments[0]@);
                    expression_within(&arguments[0], budget)
                } else {
                    true
                }
            },
            _ => {
                assert(!(expression_view(**function) is Identifier));
                true
            },
        },
        _ => true,
    }
}

/// Decides whether the emitted text of a statement is nested at most
/// `budget` blocks deep.
fn statement_within(stmt: &Statement, budget: usize) -> (ok: bool)
    ensures
        ok == (statement_nesting(stmt@) <= budget),
    decreases stmt, 1nat,
{
    match stmt {
        Statement::Let { name: _, value } => expression_within(value, budget),
        Statement::Return(e) => expression_within(e, budget),
        Statement::Expression(e) => expression_within(e, budget),
    }
}

/// Decides whether the emitted text of every statement of a block is nested
/// at most `budget` blocks deep.
fn block_within(block: &Vec<Statement>, budget: usize) -> (ok: bool)
    ensures
        ok == (block_nesting(block_view(*block)) <= budget),
    decreases block, 2nat,
{
    let ghost stmts = block_view(*block);
    let mut i: usize = block.len();
    while i > 0
        invariant
            stmts == block_view(*block),
            i <= block.len(),
            block_nesting_from(stmts, i as int) <= budget,
        decreases i,
    {
        i = i - 1;
        assert(stmts[i as int] == block[i as int]@);
        if !statement_within(&block[i], budget) {
            proof {
                lemma_block_nesting_bounds(stmts, 0, i as int);
            }
            return false;
        }
    }
    true
}

} // verus!
