//! What holds of the parsing functions on every state: the cursor never
//! moves backwards, and diagnostics come in source order.

use vstd::prelude::*;
use crate::frontend::ast::{ExpressionView, StatementView};
use crate::frontend::parser::{
    ends_block, extends, is_boundary, no_prefix_message, not_identifier_message, precedence_of,
    starts_statement, unclosed_if_message, unexpected_token_message, with_statement, ParserState,
    Precedence,
};
use crate::frontend::token::TokenView;

verus! {

/// Moving the cursor leads on, by one token.
pub proof fn lemma_advance_leads_on(st: ParserState)
    ensures
        st.leads_to(st.advance()),
        st.kept_by(st.advance()),
        st.advance().index == st.index + 1,
{
}

/// Reporting a diagnostic leads on and leaves the cursor where it is.
pub proof fn lemma_report_leads_on(st: ParserState, message: Seq<char>)
    ensures
        st.leads_to(st.report(message)),
        st.kept_by(st.report(message)),
        st.report(message).index == st.index,
{
}

/// Steps that lead on and keep the diagnostics can be chained.
pub proof fn lemma_leads_to_chains(a: ParserState, b: ParserState, c: ParserState)
    requires
        a.leads_to(b),
        a.kept_by(b),
        b.leads_to(c),
        b.kept_by(c),
    ensures
        a.leads_to(c),
        a.kept_by(c),
{
}

/// Expecting a token leads on; on success the cursor has moved.
pub proof fn lemma_expect_peek_leads_on(st: ParserState, expected: TokenView)
    ensures
        st.leads_to(st.expect_peek(expected).1),
        st.kept_by(st.expect_peek(expected).1),
        st.expect_peek(expected).0 ==> st.expect_peek(expected).1.index == st.index + 1,
        st.leads_to(st.expect_peek_is_ident().1),
        st.kept_by(st.expect_peek_is_ident().1),
        st.expect_peek_is_ident().0 ==> st.expect_peek_is_ident().1.index == st.index + 1,
{
    lemma_advance_leads_on(st);
    lemma_report_leads_on(st, unexpected_token_message(expected, st.peek));
    lemma_report_leads_on(st, not_identifier_message(st.peek));
}

/// Skipping to the next statement boundary leads on, reports nothing, and
/// ends on a boundary.
pub proof fn lemma_skip_to_boundary_leads_on(st: ParserState, in_block: bool)
    ensures
        st.leads_to(st.skip_to_boundary(in_block)),
        st.kept_by(st.skip_to_boundary(in_block)),
        st.skip_to_boundary(in_block).errors == st.errors,
        st.skip_to_boundary(in_block).marks == st.marks,
        is_boundary(st.skip_to_boundary(in_block).current, in_block),
    decreases st.weight(),
{
    if !is_boundary(st.current, in_block) {
        lemma_advance_leads_on(st);
        lemma_skip_to_boundary_leads_on(st.advance(), in_block);
        lemma_leads_to_chains(st, st.advance(), st.advance().skip_to_boundary(in_block));
    }
}

/// Going on after a statement leads on and moves the cursor.
pub proof fn lemma_after_statement_leads_on(
    st: ParserState,
    stmt: Option<StatementView>,
    in_block: bool,
)
    ensures
        st.leads_to(st.after_statement(stmt, in_block)),
        st.kept_by(st.after_statement(stmt, in_block)),
        st.after_statement(stmt, in_block).errors == st.errors,
        st.after_statement(stmt, in_block).index > st.index,
        stmt is None ==> is_boundary(st.after_statement(stmt, in_block).current, in_block),
{
    lemma_advance_leads_on(st);
    lemma_skip_to_boundary_leads_on(st.advance(), in_block);
    lemma_leads_to_chains(st, st.advance(), st.advance().skip_to_boundary(in_block));
}

/// Parsing a statement leads on.
pub proof fn lemma_parse_statement_leads_on(st: ParserState)
    ensures
        st.leads_to(st.parse_statement().1),
        st.kept_by(st.parse_statement().1),
    decreases st.weight(), 9nat,
{
    reveal_with_fuel(ParserState::parse_statement, 1);
    reveal_with_fuel(ParserState::parse_let_statement, 1);
    reveal_with_fuel(ParserState::parse_return_statement, 1);
    reveal_with_fuel(ParserState::parse_expression_statement, 1);
    match st.current {
        TokenView::Let => lemma_parse_let_statement_leads_on(st),
        TokenView::Return => lemma_parse_return_statement_leads_on(st),
        _ => lemma_parse_expression_statement_leads_on(st),
    }
}

/// Parsing a binding leads on.
pub proof fn lemma_parse_let_statement_leads_on(st: ParserState)
    ensures
        st.leads_to(st.parse_let_statement().1),
        st.kept_by(st.parse_let_statement().1),
    decreases st.weight(), 8nat,
{
    reveal_with_fuel(ParserState::parse_let_statement, 1);
    reveal_with_fuel(ParserState::parse_expression, 1);
    lemma_expect_peek_leads_on(st, TokenView::Assign);
    let named = st.expect_peek_is_ident();
    if named.0 && named.1.current is Ident {
        lemma_expect_peek_leads_on(named.1, TokenView::Assign);
        let assigned = named.1.expect_peek(TokenView::Assign);
        if assigned.0 {
            lemma_advance_leads_on(assigned.1);
            lemma_parse_expression_leads_on(assigned.1.advance(), Precedence::Lowest);
            let value = assigned.1.advance().parse_expression(Precedence::Lowest);
            lemma_leads_to_chains(st, named.1, assigned.1);
            lemma_leads_to_chains(st, assigned.1, assigned.1.advance());
            lemma_leads_to_chains(st, assigned.1.advance(), value.1);
        }
    }
}

/// Parsing a return leads on.
pub proof fn lemma_parse_return_statement_leads_on(st: ParserState)
    requires
        st.current != TokenView::Eof,
    ensures
        st.leads_to(st.parse_return_statement().1),
        st.kept_by(st.parse_return_statement().1),
    decreases st.weight(), 8nat,
{
    reveal_with_fuel(ParserState::parse_return_statement, 1);
    reveal_with_fuel(ParserState::parse_expression, 1);
    lemma_advance_leads_on(st);
    lemma_parse_expression_leads_on(st.advance(), Precedence::Lowest);
    lemma_leads_to_chains(
        st,
        st.advance(),
        st.advance().parse_expression(Precedence::Lowest).1,
    );
}

/// Parsing an expression statement leads on.
pub proof fn lemma_parse_expression_statement_leads_on(st: ParserState)
    ensures
        st.leads_to(st.parse_expression_statement().1),
        st.kept_by(st.parse_expression_statement().1),
    decreases st.weight(), 8nat,
{
    reveal_with_fuel(ParserState::parse_expression_statement, 1);
    reveal_with_fuel(ParserState::parse_expression, 1);
    lemma_parse_expression_leads_on(st, Precedence::Lowest);
}

/// Parsing a block leads on and stops on a token that ends a block.
pub proof fn lemma_parse_block_statement_leads_on(st: ParserState)
    ensures
        st.leads_to(st.parse_block_statement().1),
        st.kept_by(st.parse_block_statement().1),
        ends_block(st.parse_block_statement().1.current),
    decreases st.weight(), 11nat,
{
    reveal_with_fuel(ParserState::parse_block_statement, 1);
    reveal_with_fuel(ParserState::block_from, 1);
    lemma_advance_leads_on(st);
    lemma_block_from_leads_on(st.advance(), Seq::empty());
    lemma_leads_to_chains(st, st.advance(), st.advance().block_from(Seq::empty()).1);
}

/// Parsing the rest of a block leads on and stops on a token that ends a
/// block, and the comparison of weights in its definition holds.
pub proof fn lemma_block_from_leads_on(st: ParserState, block: Seq<StatementView>)
    ensures
        st.leads_to(st.block_from(block).1),
        st.kept_by(st.block_from(block).1),
        ends_block(st.block_from(block).1.current),
        !ends_block(st.current) ==> st.parse_statement().1.after_statement(
            st.parse_statement().0,
            true,
        ).weight() < st.weight(),
    decreases st.weight(), 10nat,
{
    reveal_with_fuel(ParserState::block_from, 1);
    reveal_with_fuel(ParserState::parse_statement, 1);
    if !ends_block(st.current) {
        lemma_parse_statement_leads_on(st);
        let stmt = st.parse_statement();
        lemma_after_statement_leads_on(stmt.1, stmt.0, true);
        let next = stmt.1.after_statement(stmt.0, true);
        lemma_leads_to_chains(st, stmt.1, next);
        lemma_block_from_leads_on(next, with_statement(block, stmt.0));
        lemma_leads_to_chains(st, next, next.block_from(with_statement(block, stmt.0)).1);
    }
}

/// Parsing an expression leads on, and the comparisons of weights in its
/// definition hold.
pub proof fn lemma_parse_expression_leads_on(st: ParserState, precedence: Precedence)
    ensures
        st.leads_to(st.parse_expression(precedence).1),
        st.kept_by(st.parse_expression(precedence).1),
        st.current == TokenView::LParen ==> st.advance().parse_expression(
            Precedence::Lowest,
        ).1.expect_peek(TokenView::RParen).1.weight() <= st.weight(),
        st.current == TokenView::If ==> st.parse_if_expression().1.weight() <= st.weight(),
    decreases st.weight(), 7nat,
{
    reveal_with_fuel(ParserState::parse_expression, 1);
    reveal_with_fuel(ParserState::extend, 1);
    reveal_with_fuel(ParserState::parse_if_expression, 1);
    match st.current {
        TokenView::Ident(name) => lemma_extend_leads_on(
            st,
            ExpressionView::Identifier(name),
            precedence,
        ),
        TokenView::Int(value) => lemma_extend_leads_on(
            st,
            ExpressionView::IntegerLiteral(value),
            precedence,
        ),
        TokenView::True => lemma_extend_leads_on(st, ExpressionView::Boolean(true), precedence),
        TokenView::False => lemma_extend_leads_on(st, ExpressionView::Boolean(false), precedence),
        TokenView::LParen => {
            lemma_advance_leads_on(st);
            lemma_parse_expression_leads_on(st.advance(), Precedence::Lowest);
            let inner = st.advance().parse_expression(Precedence::Lowest);
            lemma_leads_to_chains(st, st.advance(), inner.1);
            lemma_expect_peek_leads_on(inner.1, TokenView::RParen);
            let closed = inner.1.expect_peek(TokenView::RParen);
            lemma_leads_to_chains(st, inner.1, closed.1);
            if let Some(e) = inner.0 {
                if closed.0 {
                    lemma_extend_leads_on(closed.1, e, precedence);
                    lemma_leads_to_chains(st, closed.1, closed.1.extend(e, precedence).1);
                }
            }
        },
        TokenView::If => {
            lemma_parse_if_expression_leads_on(st);
            let conditional = st.parse_if_expression();
            if let Some(e) = conditional.0 {
                lemma_extend_leads_on(conditional.1, e, precedence);
                lemma_leads_to_chains(st, conditional.1, conditional.1.extend(e, precedence).1);
            }
        },
        _ => {
            lemma_report_leads_on(st, no_prefix_message(st.current));
        },
    }
}

/// Extending an expression leads on, and the comparison of weights in its
/// definition holds.
pub proof fn lemma_extend_leads_on(st: ParserState, left: ExpressionView, precedence: Precedence)
    ensures
        st.leads_to(st.extend(left, precedence).1),
        st.kept_by(st.extend(left, precedence).1),
        precedence.level() < precedence_of(st.peek).level() ==> (if st.advance().current
            == TokenView::LParen {
            st.advance().parse_call_expression(left)
        } else {
            st.advance().parse_infix_expression(left)
        }).1.weight() < st.weight(),
    decreases st.weight(), 5nat,
{
    reveal_with_fuel(ParserState::extend, 1);
    reveal_with_fuel(ParserState::parse_call_expression, 1);
    reveal_with_fuel(ParserState::parse_infix_expression, 1);
    if precedence.level() < precedence_of(st.peek).level() {
        lemma_advance_leads_on(st);
        let on_operator = st.advance();
        if on_operator.current == TokenView::LParen {
            lemma_parse_call_expression_leads_on(on_operator, left);
        } else {
            lemma_parse_infix_expression_leads_on(on_operator, left);
        }
        let longer = if on_operator.current == TokenView::LParen {
            on_operator.parse_call_expression(left)
        } else {
            on_operator.parse_infix_expression(left)
        };
        lemma_leads_to_chains(st, on_operator, longer.1);
        if let Some(e) = longer.0 {
            lemma_extend_leads_on(longer.1, e, precedence);
            lemma_leads_to_chains(st, longer.1, longer.1.extend(e, precedence).1);
        }
    }
}

/// Parsing an operator and its right operand leads on and moves the cursor.
pub proof fn lemma_parse_infix_expression_leads_on(st: ParserState, left: ExpressionView)
    requires
        st.current != TokenView::Eof,
    ensures
        st.leads_to(st.parse_infix_expression(left).1),
        st.kept_by(st.parse_infix_expression(left).1),
        st.parse_infix_expression(left).1.index > st.index,
    decreases st.weight(), 4nat,
{
    reveal_with_fuel(ParserState::parse_infix_expression, 1);
    reveal_with_fuel(ParserState::parse_expression, 1);
    lemma_advance_leads_on(st);
    lemma_parse_expression_leads_on(st.advance(), precedence_of(st.current));
    lemma_leads_to_chains(
        st,
        st.advance(),
        st.advance().parse_expression(precedence_of(st.current)).1,
    );
}

/// Parsing a conditional leads on, and the comparisons of weights in its
/// definition hold.
pub proof fn lemma_parse_if_expression_leads_on(st: ParserState)
    requires
        st.current != TokenView::Eof,
    ensures
        st.leads_to(st.parse_if_expression().1),
        st.kept_by(st.parse_if_expression().1),
        st.advance().parse_expression(Precedence::Lowest).1.expect_peek(
            TokenView::Then,
        ).1.weight() < st.weight(),
        st.advance().parse_expression(Precedence::Lowest).1.expect_peek(
            TokenView::Then,
        ).1.parse_block_statement().1.weight() < st.weight(),
    decreases st.weight(), 6nat,
{
    reveal_with_fuel(ParserState::parse_if_expression, 1);
    reveal_with_fuel(ParserState::parse_expression, 1);
    reveal_with_fuel(ParserState::parse_block_statement, 1);
    lemma_advance_leads_on(st);
    lemma_parse_expression_leads_on(st.advance(), Precedence::Lowest);
    let condition = st.advance().parse_expression(Precedence::Lowest);
    lemma_leads_to_chains(st, st.advance(), condition.1);
    lemma_expect_peek_leads_on(condition.1, TokenView::Then);
    let opened = condition.1.expect_peek(TokenView::Then);
    lemma_leads_to_chains(st, condition.1, opened.1);
    lemma_parse_block_statement_leads_on(opened.1);
    let consequence = opened.1.parse_block_statement();
    lemma_leads_to_chains(st, opened.1, consequence.1);
    if condition.0 is Some {
        if opened.0 {
            let after = if consequence.1.current == TokenView::Else {
                lemma_parse_block_statement_leads_on(consequence.1);
                let block = consequence.1.parse_block_statement();
                lemma_leads_to_chains(st, consequence.1, block.1);
                block.1
            } else {
                consequence.1
            };
            lemma_report_leads_on(
                after,
                unclosed_if_message(after.current),
            );
            lemma_leads_to_chains(
                st,
                after,
                after.report(unclosed_if_message(after.current)),
            );
        }
    }
}

/// Parsing a call leads on and moves the cursor.
pub proof fn lemma_parse_call_expression_leads_on(st: ParserState, function: ExpressionView)
    requires
        st.current != TokenView::Eof,
    ensures
        st.leads_to(st.parse_call_expression(function).1),
        st.kept_by(st.parse_call_expression(function).1),
        st.parse_call_expression(function).1.index > st.index,
    decreases st.weight(), 4nat,
{
    reveal_with_fuel(ParserState::parse_call_expression, 1);
    reveal_with_fuel(ParserState::parse_call_arguments, 1);
    lemma_parse_call_arguments_leads_on(st);
}

/// Parsing the arguments of a call leads on and moves the cursor, and the
/// comparison of weights in its definition holds.
pub proof fn lemma_parse_call_arguments_leads_on(st: ParserState)
    requires
        st.current != TokenView::Eof,
    ensures
        st.leads_to(st.parse_call_arguments().1),
        st.kept_by(st.parse_call_arguments().1),
        st.parse_call_arguments().1.index > st.index,
        st.advance().parse_expression(Precedence::Lowest).1.weight() < st.weight(),
    decreases st.weight(), 3nat,
{
    reveal_with_fuel(ParserState::parse_call_arguments, 1);
    reveal_with_fuel(ParserState::parse_expression, 1);
    reveal_with_fuel(ParserState::arguments_from, 1);
    lemma_advance_leads_on(st);
    if st.peek != TokenView::RParen {
        lemma_parse_expression_leads_on(st.advance(), Precedence::Lowest);
        let first = st.advance().parse_expression(Precedence::Lowest);
        lemma_leads_to_chains(st, st.advance(), first.1);
        if let Some(e) = first.0 {
            lemma_arguments_from_leads_on(first.1, seq![e]);
            lemma_leads_to_chains(st, first.1, first.1.arguments_from(seq![e]).1);
        }
    }
}

/// Parsing the rest of the arguments of a call leads on, and the comparison
/// of weights in its definition holds.
pub proof fn lemma_arguments_from_leads_on(st: ParserState, arguments: Seq<ExpressionView>)
    ensures
        st.leads_to(st.arguments_from(arguments).1),
        st.kept_by(st.arguments_from(arguments).1),
        st.peek == TokenView::Comma ==> st.advance().advance().parse_expression(
            Precedence::Lowest,
        ).1.weight() < st.weight(),
    decreases st.weight(), 2nat,
{
    reveal_with_fuel(ParserState::arguments_from, 1);
    reveal_with_fuel(ParserState::parse_expression, 1);
    if st.peek == TokenView::Comma {
        lemma_advance_leads_on(st);
        lemma_advance_leads_on(st.advance());
        let on_argument = st.advance().advance();
        lemma_leads_to_chains(st, st.advance(), on_argument);
        lemma_parse_expression_leads_on(on_argument, Precedence::Lowest);
        let next = on_argument.parse_expression(Precedence::Lowest);
        lemma_leads_to_chains(st, on_argument, next.1);
        if let Some(e) = next.0 {
            lemma_arguments_from_leads_on(next.1, arguments.push(e));
            lemma_leads_to_chains(st, next.1, next.1.arguments_from(arguments.push(e)).1);
        }
    } else {
        lemma_expect_peek_leads_on(st, TokenView::RParen);
    }
}

/// Parsing the rest of a program leads on and ends at end-of-input, and the
/// comparison of weights in its definition holds.
pub proof fn lemma_program_from_leads_on(st: ParserState, program: Seq<StatementView>)
    ensures
        st.leads_to(st.program_from(program).1),
        st.kept_by(st.program_from(program).1),
        st.program_from(program).1.current == TokenView::Eof,
        st.current != TokenView::Eof ==> st.parse_statement().1.after_statement(
            st.parse_statement().0,
            false,
        ).weight() < st.weight(),
    decreases st.weight(),
{
    reveal_with_fuel(ParserState::program_from, 1);
    if st.current != TokenView::Eof {
        lemma_parse_statement_leads_on(st);
        let stmt = st.parse_statement();
        lemma_after_statement_leads_on(stmt.1, stmt.0, false);
        let next = stmt.1.after_statement(stmt.0, false);
        lemma_leads_to_chains(st, stmt.1, next);
        lemma_program_from_leads_on(next, with_statement(program, stmt.0));
        lemma_leads_to_chains(st, next, next.program_from(with_statement(program, stmt.0)).1);
    }
}

/// Diagnostics come in source order: whatever the tokens, parsing a program
/// ends at end-of-input, keeps every diagnostic reported before, and leaves
/// the diagnostics ordered by the place of the cursor at which each was
/// reported.
pub proof fn lemma_diagnostics_in_source_order(st: ParserState)
    requires
        st.ordered(),
    ensures
        st.parse_program().1.ordered(),
        st.parse_program().1.current == TokenView::Eof,
        extends(st.parse_program().1.errors, st.errors),
        extends(st.parse_program().1.marks, st.marks),
{
    lemma_program_from_leads_on(st, Seq::empty());
}

/// Parsing from the tokens of a text starts with no diagnostics, so those
/// that it reports are in source order.
pub proof fn lemma_fresh_parse_is_ordered(tokens: Seq<TokenView>)
    ensures
        ParserState::start(tokens).ordered(),
        ParserState::start(tokens).parse_program().1.ordered(),
{
    lemma_diagnostics_in_source_order(ParserState::start(tokens));
}

/// After a statement the program goes on behind its last token, and after
/// a statement that failed to parse at the next statement boundary.
pub proof fn lemma_program_goes_on(st: ParserState, program: Seq<StatementView>)
    requires
        st.current != TokenView::Eof,
    ensures
        st.program_from(program) == st.parse_statement().1.after_statement(
            st.parse_statement().0,
            false,
        ).program_from(with_statement(program, st.parse_statement().0)),
{
    reveal_with_fuel(ParserState::program_from, 1);
    lemma_program_from_leads_on(st, program);
}

/// Error recovery: a malformed statement is reported once. If parsing the
/// statement under the cursor fails with the one diagnostic `message`, the
/// statement is left out and the program goes on at the next statement
/// boundary, with nothing reported for the tokens passed over. So where
/// what follows parses without a diagnostic, the program as a whole adds
/// exactly that one diagnostic.
pub proof fn lemma_malformed_statement_is_reported_once(
    st: ParserState,
    program: Seq<StatementView>,
    message: Seq<char>,
)
    requires
        st.current != TokenView::Eof,
        st.parse_statement().0 is None,
        st.parse_statement().1.errors == st.errors.push(message),
    ensures
        ({
            let resumed = st.parse_statement().1.advance().skip_to_boundary(false);
            &&& is_boundary(resumed.current, false)
            &&& resumed.errors == st.errors.push(message)
            &&& st.program_from(program) == resumed.program_from(program)
            &&& resumed.program_from(program).1.errors == resumed.errors ==> st.program_from(
                program,
            ).1.errors == st.errors.push(message)
        }),
{
    lemma_program_goes_on(st, program);
    lemma_skip_to_boundary_leads_on(st.parse_statement().1.advance(), false);
}

/// A binding that lacks its name fails with one diagnostic and leaves the
/// cursor where it was.
pub proof fn lemma_binding_without_name_fails_once(st: ParserState)
    requires
        st.current == TokenView::Let,
        !(st.peek is Ident),
    ensures
        st.parse_statement() == (
            None::<StatementView>,
            st.report(not_identifier_message(st.peek)),
        ),
{
    reveal_with_fuel(ParserState::parse_statement, 1);
    reveal_with_fuel(ParserState::parse_let_statement, 1);
    reveal_with_fuel(ParserState::parse_return_statement, 1);
    reveal_with_fuel(ParserState::parse_expression_statement, 1);
    reveal_with_fuel(ParserState::parse_expression, 1);
}

/// A binding that lacks its equals sign fails with one diagnostic and
/// leaves the cursor on the name.
pub proof fn lemma_binding_without_equals_fails_once(st: ParserState)
    requires
        st.current == TokenView::Let,
        st.peek is Ident,
        !st.advance().peek.same_kind(TokenView::Assign),
    ensures
        st.parse_statement() == (
            None::<StatementView>,
            st.advance().report(
                unexpected_token_message(TokenView::Assign, st.advance().peek),
            ),
        ),
{
    reveal_with_fuel(ParserState::parse_statement, 1);
    reveal_with_fuel(ParserState::parse_let_statement, 1);
    reveal_with_fuel(ParserState::parse_return_statement, 1);
    reveal_with_fuel(ParserState::parse_expression_statement, 1);
    reveal_with_fuel(ParserState::parse_expression, 1);
}

/// A token that can start no statement fails with one diagnostic and
/// leaves the cursor where it was.
pub proof fn lemma_stray_token_fails_once(st: ParserState)
    requires
        !starts_statement(st.current),
    ensures
        st.parse_statement() == (None::<StatementView>, st.report(no_prefix_message(st.current))),
{
    reveal_with_fuel(ParserState::parse_statement, 1);
    reveal_with_fuel(ParserState::parse_expression_statement, 1);
    reveal_with_fuel(ParserState::parse_return_statement, 1);
    reveal_with_fuel(ParserState::parse_let_statement, 1);
    reveal_with_fuel(ParserState::parse_expression, 1);
    reveal_with_fuel(ParserState::extend, 1);
    reveal_with_fuel(ParserState::parse_if_expression, 1);
}

/// The expression that a token is by itself: a name or a literal.
pub open spec fn atom(tok: TokenView) -> Option<ExpressionView> {
    match tok {
        TokenView::Ident(name) => Some(ExpressionView::Identifier(name)),
        TokenView::Int(value) => Some(ExpressionView::IntegerLiteral(value)),
        TokenView::True => Some(ExpressionView::Boolean(true)),
        TokenView::False => Some(ExpressionView::Boolean(false)),
        _ => None,
    }
}

/// Whether `tok` is one of the eight infix operators.
pub open spec fn is_infix_operator(tok: TokenView) -> bool {
    tok != TokenView::LParen && precedence_of(tok) != Precedence::Lowest
}

/// The infix expression `left op right`.
pub open spec fn infix(op: TokenView, left: ExpressionView, right: ExpressionView) -> ExpressionView {
    ExpressionView::Infix { op, left: Box::new(left), right: Box::new(right) }
}

/// An expression that starts with a name or a literal is that atom,
/// extended.
pub proof fn lemma_atom_is_extended(st: ParserState, precedence: Precedence)
    requires
        atom(st.current) is Some,
    ensures
        st.parse_expression(precedence) == st.extend(atom(st.current)->0, precedence),
{
    reveal_with_fuel(ParserState::parse_expression, 1);
    reveal_with_fuel(ParserState::extend, 1);
    reveal_with_fuel(ParserState::parse_if_expression, 1);
}

/// An expression is not extended by a token that does not bind tighter than
/// the precedence asked for.
pub proof fn lemma_extend_stops(st: ParserState, left: ExpressionView, precedence: Precedence)
    requires
        precedence_of(st.peek).level() <= precedence.level(),
    ensures
        st.extend(left, precedence) == (Some(left), st),
{
    reveal_with_fuel(ParserState::extend, 1);
    reveal_with_fuel(ParserState::parse_call_expression, 1);
    reveal_with_fuel(ParserState::parse_infix_expression, 1);
}

/// An expression is extended by an infix operator that binds tighter than
/// the precedence asked for: the operator takes as its right operand the
/// expression after it that binds tighter than the operator itself, and the
/// whole is extended again.
pub proof fn lemma_extend_takes_operator(
    st: ParserState,
    left: ExpressionView,
    precedence: Precedence,
)
    requires
        is_infix_operator(st.peek),
        precedence.level() < precedence_of(st.peek).level(),
    ensures
        st.extend(left, precedence) == ({
            let right = st.advance().advance().parse_expression(precedence_of(st.peek));
            match right.0 {
                Some(r) => right.1.extend(infix(st.peek, left, r), precedence),
                None => (None::<ExpressionView>, right.1),
            }
        }),
{
    reveal_with_fuel(ParserState::extend, 1);
    reveal_with_fuel(ParserState::parse_infix_expression, 1);
    reveal_with_fuel(ParserState::parse_call_expression, 1);
    reveal_with_fuel(ParserState::parse_expression, 1);
    lemma_extend_leads_on(st, left, precedence);
}

/// Precedence decides how two operators in a row group their operands: in
/// `x o1 y o2 z`, followed by a token that extends no expression, a second
/// operator that binds tighter than the first takes `y`, and otherwise the
/// first one does, so that operators of equal precedence group to the left.
pub proof fn lemma_precedence_decides_grouping(st: ParserState)
    requires
        st.rest.len() >= 3,
        atom(st.current) is Some,
        is_infix_operator(st.peek),
        atom(st.rest[0]) is Some,
        is_infix_operator(st.rest[1]),
        atom(st.rest[2]) is Some,
        st.rest.len() > 3 ==> precedence_of(st.rest[3]) == Precedence::Lowest,
    ensures
        st.parse_expression(Precedence::Lowest).0 == Some(
            if precedence_of(st.rest[1]).level() > precedence_of(st.peek).level() {
                infix(
                    st.peek,
                    atom(st.current)->0,
                    infix(st.rest[1], atom(st.rest[0])->0, atom(st.rest[2])->0),
                )
            } else {
                infix(
                    st.rest[1],
                    infix(st.peek, atom(st.current)->0, atom(st.rest[0])->0),
                    atom(st.rest[2])->0,
                )
            },
        ),
{
    let x = atom(st.current)->0;
    let y = atom(st.rest[0])->0;
    let z = atom(st.rest[2])->0;
    let o1 = st.peek;
    let o2 = st.rest[1];
    let on_y = st.advance().advance();
    let on_z = on_y.advance().advance();
    assert(on_y.current == st.rest[0] && on_y.peek == o2);
    assert(on_y.rest =~= st.rest.skip(2));
    assert(on_z.current == st.rest[2]);
    assert(precedence_of(on_z.peek) == Precedence::Lowest);
    // the second operator and its right operand
    lemma_atom_is_extended(on_z, precedence_of(o2));
    lemma_extend_stops(on_z, z, precedence_of(o2));
    assert(on_z.parse_expression(precedence_of(o2)) == (Some(z), on_z));
    lemma_atom_is_extended(st, Precedence::Lowest);
    lemma_extend_takes_operator(st, x, Precedence::Lowest);
    lemma_atom_is_extended(on_y, precedence_of(o1));
    if precedence_of(o2).level() > precedence_of(o1).level() {
        lemma_extend_takes_operator(on_y, y, precedence_of(o1));
        lemma_extend_stops(on_z, infix(o2, y, z), precedence_of(o1));
        assert(on_y.parse_expression(precedence_of(o1)) == (Some(infix(o2, y, z)), on_z));
        lemma_extend_stops(on_z, infix(o1, x, infix(o2, y, z)), Precedence::Lowest);
    } else {
        lemma_extend_stops(on_y, y, precedence_of(o1));
        assert(on_y.parse_expression(precedence_of(o1)) == (Some(y), on_y));
        lemma_extend_takes_operator(on_y, infix(o1, x, y), Precedence::Lowest);
        lemma_extend_stops(on_z, infix(o2, infix(o1, x, y), z), Precedence::Lowest);
    }
}

/// A name or a literal that nothing extends is an expression statement by
/// itself, and the cursor stays on it.
pub proof fn lemma_atom_is_a_statement(st: ParserState)
    requires
        atom(st.current) is Some,
        precedence_of(st.peek) == Precedence::Lowest,
    ensures
        st.parse_statement() == (Some(StatementView::Expression(atom(st.current)->0)), st),
{
    reveal_with_fuel(ParserState::parse_statement, 1);
    reveal_with_fuel(ParserState::parse_expression_statement, 1);
    reveal_with_fuel(ParserState::parse_let_statement, 1);
    reveal_with_fuel(ParserState::parse_return_statement, 1);
    reveal_with_fuel(ParserState::parse_expression, 1);
    lemma_atom_is_extended(st, Precedence::Lowest);
    lemma_extend_stops(st, atom(st.current)->0, Precedence::Lowest);
}

/// `local <name> = <atom>`, with nothing that extends the atom, is the
/// binding of the atom to the name, and the cursor ends on the atom.
pub proof fn lemma_binding_of_an_atom(st: ParserState)
    requires
        st.current == TokenView::Let,
        st.peek is Ident,
        st.advance().peek == TokenView::Assign,
        atom(st.advance().advance().peek) is Some,
        precedence_of(st.advance().advance().advance().peek) == Precedence::Lowest,
    ensures
        st.parse_statement() == (
            Some(
                StatementView::Let {
                    name: st.peek->Ident_0,
                    value: atom(st.advance().advance().peek)->0,
                },
            ),
            st.advance().advance().advance(),
        ),
{
    reveal_with_fuel(ParserState::parse_statement, 1);
    reveal_with_fuel(ParserState::parse_let_statement, 1);
    reveal_with_fuel(ParserState::parse_return_statement, 1);
    reveal_with_fuel(ParserState::parse_expression_statement, 1);
    reveal_with_fuel(ParserState::parse_expression, 1);
    let on_value = st.advance().advance().advance();
    lemma_atom_is_extended(on_value, Precedence::Lowest);
    lemma_extend_stops(on_value, atom(on_value.current)->0, Precedence::Lowest);
}

} // verus!
