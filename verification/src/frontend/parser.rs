//! The parser: recursive descent for statements, precedence climbing for
//! expressions, with diagnostics collected instead of a first fatal error.

use vstd::prelude::*;
use vstd::string::*;
use crate::frontend::ast::{
    arguments_view, block_view, optional_expression_view, optional_statement_view, BlockStatement,
    Expression, ExpressionView, Program, Statement, StatementView,
};
use crate::frontend::lexer::Lexer;
use crate::frontend::parser_proofs::lemma_program_from_leads_on;
use crate::frontend::token::{Token, TokenView};

verus! {

/// How tightly an operator binds, from loosest to tightest.
#[derive(Clone, Copy, Debug, PartialEq, Eq, Structural)]
pub enum Precedence {
    Lowest,
    Equals,
    LessGreater,
    Sum,
    Product,
    Call,
}

impl Precedence {
    /// The place of the level in the order, 0 for the loosest.
    pub open spec fn level(self) -> nat {
        match self {
            Precedence::Lowest => 0,
            Precedence::Equals => 1,
            Precedence::LessGreater => 2,
            Precedence::Sum => 3,
            Precedence::Product => 4,
            Precedence::Call => 5,
        }
    }

    /// Computes [`Precedence::level`].
    pub fn rank(&self) -> (r: u8)
        ensures
            r == self.level(),
    {
        match self {
            Precedence::Lowest => 0,
            Precedence::Equals => 1,
            Precedence::LessGreater => 2,
            Precedence::Sum => 3,
            Precedence::Product => 4,
            Precedence::Call => 5,
        }
    }
}

/// The binding power of a token in infix position.
pub open spec fn precedence_of(tok: TokenView) -> Precedence {
    match tok {
        TokenView::Eq | TokenView::NotEq => Precedence::Equals,
        TokenView::Lt | TokenView::Gt => Precedence::LessGreater,
        TokenView::Plus | TokenView::Minus => Precedence::Sum,
        TokenView::Slash | TokenView::Asterisk => Precedence::Product,
        TokenView::LParen => Precedence::Call,
        _ => Precedence::Lowest,
    }
}

/// The diagnostic for a token of the wrong kind after the current one.
pub open spec fn unexpected_token_message(expected: TokenView, got: TokenView) -> Seq<char> {
    "Expected next token to be "@ + expected.debug() + ", got "@ + got.debug() + " instead"@
}

/// The diagnostic for a `local` that no identifier follows.
pub open spec fn not_identifier_message(got: TokenView) -> Seq<char> {
    "Expected next token to be an identifier, got "@ + got.debug()
}

/// The diagnostic for a token that cannot start an expression.
pub open spec fn no_prefix_message(got: TokenView) -> Seq<char> {
    "No prefix parse function for "@ + got.debug()
}

/// The diagnostic for an `if` whose blocks are not closed by `end`.
pub open spec fn unclosed_if_message(got: TokenView) -> Seq<char> {
    "Expected 'end' to close 'if' block, got "@ + got.debug()
}

/// Whether `tok` can start a statement: `local`, `return`, or a token that
/// can start an expression.
pub open spec fn starts_statement(tok: TokenView) -> bool {
    match tok {
        TokenView::Let | TokenView::Return => true,
        TokenView::Ident(_) | TokenView::Int(_) | TokenView::True | TokenView::False => true,
        TokenView::LParen | TokenView::If => true,
        _ => false,
    }
}

/// Whether `tok` ends a block: `end`, `else` or end-of-input.
pub open spec fn ends_block(tok: TokenView) -> bool {
    tok == TokenView::End || tok == TokenView::Else || tok == TokenView::Eof
}

/// Whether `tok` is a statement boundary: it can start a statement, or it
/// is end-of-input, or, inside a block, it ends the block.
pub open spec fn is_boundary(tok: TokenView, in_block: bool) -> bool {
    starts_statement(tok) || tok == TokenView::Eof || (in_block && ends_block(tok))
}

/// 1 for a token that is not end-of-input, 0 for end-of-input.
pub open spec fn live(tok: TokenView) -> nat {
    if tok == TokenView::Eof {
        0
    } else {
        1
    }
}

/// The texts of a list of strings, in order.
pub open spec fn texts(strings: Seq<String>) -> Seq<Seq<char>> {
    strings.map_values(|s: String| s@)
}

/// Whether `longer` starts with all of `shorter`, in the same order.
pub open spec fn extends<T>(longer: Seq<T>, shorter: Seq<T>) -> bool {
    &&& shorter.len() <= longer.len()
    &&& forall|i: int|
        #![trigger longer[i]]
        #![trigger shorter[i]]
        0 <= i < shorter.len() ==> longer[i] == shorter[i]
}

/// Appends `stmt` to `block` if there is one.
pub open spec fn with_statement(
    block: Seq<StatementView>,
    stmt: Option<StatementView>,
) -> Seq<StatementView> {
    match stmt {
        Some(s) => block.push(s),
        None => block,
    }
}

/// The state of a parse: the two tokens of lookahead, the tokens not yet
/// pulled from the lexer, and the diagnostics reported so far.
pub struct ParserState {
    /// The token under the cursor.
    pub current: TokenView,
    /// The token after it.
    pub peek: TokenView,
    /// The tokens that follow, up to the end of the text.
    pub rest: Seq<TokenView>,
    /// How many tokens the cursor has moved past.
    pub index: nat,
    /// The diagnostics, in the order in which they were reported.
    pub errors: Seq<Seq<char>>,
    /// For each diagnostic, where the cursor stood when it was reported.
    pub marks: Seq<nat>,
}

/// The parsing functions below are opaque: a proof that needs the body of one
/// reveals it, or uses what `parser_proofs` states of it.
impl ParserState {
    /// The state in which parsing of the token stream `tokens` starts.
    pub open spec fn start(tokens: Seq<TokenView>) -> ParserState {
        let primed = ParserState {
            current: TokenView::Eof,
            peek: TokenView::Eof,
            rest: tokens,
            index: 0,
            errors: Seq::empty(),
            marks: Seq::empty(),
        }.advance().advance();
        ParserState { index: 0, ..primed }
    }

    /// An upper bound on the tokens still to be consumed; it is 0 only when
    /// the cursor has reached the end of the token stream for good.
    pub open spec fn weight(self) -> nat {
        self.rest.len() + live(self.peek) + live(self.current)
    }

    /// The diagnostics are in source order: there is a mark for each, the
    /// marks never decrease, and none lies ahead of the cursor.
    pub open spec fn ordered(self) -> bool {
        &&& self.marks.len() == self.errors.len()
        &&& forall|i: int, j: int| 0 <= i <= j < self.marks.len() ==> self.marks[i] <= self.marks[j]
        &&& forall|i: int| 0 <= i < self.marks.len() ==> self.marks[i] <= self.index
    }

    /// Whether the state `after` holds all diagnostics reported before, in
    /// their places and with their marks, and holds its diagnostics in
    /// source order if they were so before.
    pub open spec fn kept_by(self, after: ParserState) -> bool {
        &&& extends(after.errors, self.errors)
        &&& extends(after.marks, self.marks)
        &&& self.ordered() ==> after.ordered()
    }

    /// What holds between the state before a parsing step and the state
    /// `after` it: the cursor has not moved backwards; if it has not moved,
    /// the current token is the same; and if it has moved off a token that
    /// was not end-of-input, fewer tokens are left.
    pub open spec fn leads_to(self, after: ParserState) -> bool {
        &&& after.weight() <= self.weight()
        &&& after.index >= self.index
        &&& after.index == self.index ==> after.current == self.current
        &&& after.index > self.index && self.current != TokenView::Eof ==> after.weight()
            < self.weight()
    }

    /// The cursor moves one token forwards; at the end of the stream,
    /// end-of-input follows forever.
    pub open spec fn advance(self) -> ParserState {
        ParserState {
            current: self.peek,
            peek: if self.rest.len() > 0 {
                self.rest[0]
            } else {
                TokenView::Eof
            },
            rest: if self.rest.len() > 0 {
                self.rest.drop_first()
            } else {
                self.rest
            },
            index: self.index + 1,
            ..self
        }
    }

    /// A diagnostic is added at the end of the list, marked with the place
    /// of the cursor.
    pub open spec fn report(self, message: Seq<char>) -> ParserState {
        ParserState {
            errors: self.errors.push(message),
            marks: self.marks.push(self.index),
            ..self
        }
    }

    /// If the next token is of the kind of `expected`, the cursor moves onto
    /// it; otherwise a diagnostic is reported and the cursor stays.
    pub open spec fn expect_peek(self, expected: TokenView) -> (bool, ParserState) {
        if self.peek.same_kind(expected) {
            (true, self.advance())
        } else {
            (false, self.report(unexpected_token_message(expected, self.peek)))
        }
    }

    /// If the next token is an identifier, the cursor moves onto it;
    /// otherwise a diagnostic is reported and the cursor stays.
    pub open spec fn expect_peek_is_ident(self) -> (bool, ParserState) {
        if self.peek is Ident {
            (true, self.advance())
        } else {
            (false, self.report(not_identifier_message(self.peek)))
        }
    }

    /// The state at the next statement boundary: the cursor has passed
    /// over the tokens that can neither start a statement nor end the
    /// program or, with `in_block`, the block. Nothing is reported on the
    /// way.
    pub open spec fn skip_to_boundary(self, in_block: bool) -> ParserState
        decreases self.weight(),
    {
        if is_boundary(self.current, in_block) {
            self
        } else {
            self.advance().skip_to_boundary(in_block)
        }
    }

    /// The state from which parsing goes on after a statement with the
    /// outcome `stmt`, on whose last token the cursor stands: behind that
    /// token, and after a statement that failed to parse at the next
    /// statement boundary, so that one malformed statement is reported
    /// once.
    pub open spec fn after_statement(
        self,
        stmt: Option<StatementView>,
        in_block: bool,
    ) -> ParserState {
        if stmt is Some {
            self.advance()
        } else {
            self.advance().skip_to_boundary(in_block)
        }
    }

    /// One statement, chosen by the current token: `local` starts a
    /// binding, `return` a return, anything else an expression statement.
    /// The cursor ends on the last token of the statement.
    #[verifier::opaque]
    pub open spec fn parse_statement(self) -> (Option<StatementView>, ParserState)
        decreases self.weight(), 9nat,
    {
        match self.current {
            TokenView::Let => self.parse_let_statement(),
            TokenView::Return => self.parse_return_statement(),
            _ => self.parse_expression_statement(),
        }
    }

    /// `local <identifier> = <expression>`, with the cursor on `local`.
    #[verifier::opaque]
    pub open spec fn parse_let_statement(self) -> (Option<StatementView>, ParserState)
        decreases self.weight(), 8nat,
    {
        let named = self.expect_peek_is_ident();
        if !named.0 {
            (None, named.1)
        } else {
            match named.1.current {
                TokenView::Ident(name) => {
                    let assigned = named.1.expect_peek(TokenView::Assign);
                    if !assigned.0 {
                        (None, assigned.1)
                    } else {
                        let value = assigned.1.advance().parse_expression(Precedence::Lowest);
                        match value.0 {
                            Some(v) => (Some(StatementView::Let { name, value: v }), value.1),
                            None => (None, value.1),
                        }
                    }
                },
                _ => (None, named.1),
            }
        }
    }

    /// `return <expression>`, with the cursor on `return`.
    #[verifier::opaque]
    pub open spec fn parse_return_statement(self) -> (Option<StatementView>, ParserState)
        decreases self.weight(), 8nat,
        when self.current != TokenView::Eof
    {
        let value = self.advance().parse_expression(Precedence::Lowest);
        match value.0 {
            Some(v) => (Some(StatementView::Return(v)), value.1),
            None => (None, value.1),
        }
    }

    /// An expression that stands as a statement.
    #[verifier::opaque]
    pub open spec fn parse_expression_statement(self) -> (Option<StatementView>, ParserState)
        decreases self.weight(), 8nat,
    {
        let value = self.parse_expression(Precedence::Lowest);
        match value.0 {
            Some(v) => (Some(StatementView::Expression(v)), value.1),
            None => (None, value.1),
        }
    }

    /// The statements of a block, with the cursor on the token that opens
    /// it (`then` or `else`). The block runs up to `else`, `end` or
    /// end-of-input, on which the cursor stops.
    #[verifier::opaque]
    pub open spec fn parse_block_statement(self) -> (Seq<StatementView>, ParserState)
        decreases self.weight(), 11nat,
    {
        self.advance().block_from(Seq::empty())
    }

    /// The rest of a block, of which `block` has been parsed. A statement
    /// that fails to parse is left out, and parsing goes on at the next
    /// statement boundary. The comparison of weights is what makes the
    /// definition well founded; it holds whenever it is reached
    /// (`lemma_block_from_leads_on`).
    #[verifier::opaque]
    pub open spec fn block_from(self, block: Seq<StatementView>) -> (
        Seq<StatementView>,
        ParserState,
    )
        decreases self.weight(), 10nat,
    {
        if ends_block(self.current) {
            (block, self)
        } else {
            let stmt = self.parse_statement();
            let next = stmt.1.after_statement(stmt.0, true);
            if next.weight() < self.weight() {
                next.block_from(with_statement(block, stmt.0))
            } else {
                (with_statement(block, stmt.0), next)
            }
        }
    }

    /// An expression whose operators all bind tighter than `precedence`.
    /// The cursor starts on its first token and ends on its last. The
    /// comparisons of weights hold whenever they are reached
    /// (`lemma_parse_expression_leads_on`).
    #[verifier::opaque]
    pub open spec fn parse_expression(self, precedence: Precedence) -> (
        Option<ExpressionView>,
        ParserState,
    )
        decreases self.weight(), 7nat,
    {
        match self.current {
            TokenView::Ident(name) => self.extend(ExpressionView::Identifier(name), precedence),
            TokenView::Int(value) => self.extend(ExpressionView::IntegerLiteral(value), precedence),
            TokenView::True => self.extend(ExpressionView::Boolean(true), precedence),
            TokenView::False => self.extend(ExpressionView::Boolean(false), precedence),
            TokenView::LParen => {
                let inner = self.advance().parse_expression(Precedence::Lowest);
                match inner.0 {
                    None => (None, inner.1),
                    Some(e) => {
                        let closed = inner.1.expect_peek(TokenView::RParen);
                        if closed.0 && closed.1.weight() <= self.weight() {
                            closed.1.extend(e, precedence)
                        } else {
                            (None, closed.1)
                        }
                    },
                }
            },
            TokenView::If => {
                let conditional = self.parse_if_expression();
                match conditional.0 {
                    Some(e) if conditional.1.weight() <= self.weight() => conditional.1.extend(
                        e,
                        precedence,
                    ),
                    _ => (None, conditional.1),
                }
            },
            _ => (None, self.report(no_prefix_message(self.current))),
        }
    }

    /// Extends the expression `left`, on whose last token the cursor
    /// stands, by the calls and infix operators that follow and bind
    /// tighter than `precedence`. The comparison of weights holds whenever
    /// it is reached (`lemma_extend_leads_on`).
    #[verifier::opaque]
    pub open spec fn extend(self, left: ExpressionView, precedence: Precedence) -> (
        Option<ExpressionView>,
        ParserState,
    )
        decreases self.weight(), 5nat,
    {
        if precedence.level() < precedence_of(self.peek).level() {
            let on_operator = self.advance();
            let longer = if on_operator.current == TokenView::LParen {
                on_operator.parse_call_expression(left)
            } else {
                on_operator.parse_infix_expression(left)
            };
            match longer.0 {
                Some(e) if longer.1.weight() < self.weight() => longer.1.extend(e, precedence),
                _ => (None, longer.1),
            }
        } else {
            (Some(left), self)
        }
    }

    /// `left <operator> right`, with the cursor on the operator. The right
    /// operand is parsed at the operator's own precedence, so operators of
    /// equal precedence associate to the left.
    #[verifier::opaque]
    pub open spec fn parse_infix_expression(self, left: ExpressionView) -> (
        Option<ExpressionView>,
        ParserState,
    )
        decreases self.weight(), 4nat,
        when self.current != TokenView::Eof
    {
        let right = self.advance().parse_expression(precedence_of(self.current));
        match right.0 {
            Some(r) => (
                Some(
                    ExpressionView::Infix {
                        op: self.current,
                        left: Box::new(left),
                        right: Box::new(r),
                    },
                ),
                right.1,
            ),
            None => (None, right.1),
        }
    }

    /// `if <condition> then <block> [else <block>] end`, with the cursor on
    /// `if`. A block that ends at end-of-input is taken as it is, and the
    /// missing `end` is then reported. The comparisons of weights hold
    /// whenever they are reached (`lemma_parse_if_expression_leads_on`).
    #[verifier::opaque]
    pub open spec fn parse_if_expression(self) -> (Option<ExpressionView>, ParserState)
        decreases self.weight(), 6nat,
        when self.current != TokenView::Eof
    {
        let condition = self.advance().parse_expression(Precedence::Lowest);
        match condition.0 {
            None => (None, condition.1),
            Some(c) => {
                let opened = condition.1.expect_peek(TokenView::Then);
                if opened.0 && opened.1.weight() < self.weight() {
                    let consequence = opened.1.parse_block_statement();
                    let alternative = if consequence.1.current == TokenView::Else
                        && consequence.1.weight() < self.weight() {
                        let block = consequence.1.parse_block_statement();
                        (Some(block.0), block.1)
                    } else {
                        (None, consequence.1)
                    };
                    if alternative.1.current == TokenView::End {
                        (
                            Some(
                                ExpressionView::If {
                                    condition: Box::new(c),
                                    consequence: consequence.0,
                                    alternative: alternative.0,
                                },
                            ),
                            alternative.1,
                        )
                    } else {
                        (None, alternative.1.report(unclosed_if_message(alternative.1.current)))
                    }
                } else {
                    (None, opened.1)
                }
            },
        }
    }

    /// A call of `function`, with the cursor on the opening parenthesis.
    #[verifier::opaque]
    pub open spec fn parse_call_expression(self, function: ExpressionView) -> (
        Option<ExpressionView>,
        ParserState,
    )
        decreases self.weight(), 4nat,
        when self.current != TokenView::Eof
    {
        let arguments = self.parse_call_arguments();
        match arguments.0 {
            Some(args) => (
                Some(ExpressionView::Call { function: Box::new(function), arguments: args }),
                arguments.1,
            ),
            None => (None, arguments.1),
        }
    }

    /// The arguments of a call, with the cursor on the opening parenthesis:
    /// expressions separated by commas, possibly none, closed by `)`. The
    /// comparison of weights holds whenever it is reached
    /// (`lemma_parse_call_arguments_leads_on`).
    #[verifier::opaque]
    pub open spec fn parse_call_arguments(self) -> (Option<Seq<ExpressionView>>, ParserState)
        decreases self.weight(), 3nat,
        when self.current != TokenView::Eof
    {
        if self.peek == TokenView::RParen {
            (Some(Seq::empty()), self.advance())
        } else {
            let first = self.advance().parse_expression(Precedence::Lowest);
            match first.0 {
                Some(e) if first.1.weight() < self.weight() => first.1.arguments_from(seq![e]),
                _ => (None, first.1),
            }
        }
    }

    /// The rest of the arguments of a call, of which `arguments` have been
    /// parsed and the cursor stands on the last token of the latest. The
    /// comparison of weights holds whenever it is reached
    /// (`lemma_arguments_from_leads_on`).
    #[verifier::opaque]
    pub open spec fn arguments_from(self, arguments: Seq<ExpressionView>) -> (
        Option<Seq<ExpressionView>>,
        ParserState,
    )
        decreases self.weight(), 2nat,
    {
        if self.peek == TokenView::Comma {
            let next = self.advance().advance().parse_expression(Precedence::Lowest);
            match next.0 {
                Some(e) if next.1.weight() < self.weight() => next.1.arguments_from(
                    arguments.push(e),
                ),
                _ => (None, next.1),
            }
        } else {
            let closed = self.expect_peek(TokenView::RParen);
            if closed.0 {
                (Some(arguments), closed.1)
            } else {
                (None, closed.1)
            }
        }
    }

    /// The whole program: statements up to end-of-input.
    pub open spec fn parse_program(self) -> (Seq<StatementView>, ParserState) {
        self.program_from(Seq::empty())
    }

    /// The rest of a program, of which `program` has been parsed. A
    /// statement that fails to parse is left out, and parsing goes on at
    /// the next statement boundary. The comparison of weights holds
    /// whenever it is reached (`lemma_program_from_leads_on`).
    #[verifier::opaque]
    pub open spec fn program_from(self, program: Seq<StatementView>) -> (
        Seq<StatementView>,
        ParserState,
    )
        decreases self.weight(),
    {
        if self.current == TokenView::Eof {
            (program, self)
        } else {
            let stmt = self.parse_statement();
            let next = stmt.1.after_statement(stmt.0, false);
            if next.weight() < self.weight() {
                next.program_from(with_statement(program, stmt.0))
            } else {
                (with_statement(program, stmt.0), next)
            }
        }
    }
}

/// A parser over the tokens of a lexer. Its fields are public so that the
/// state that contracts speak of can be read off them.
pub struct Parser {
    /// The lexer from which the tokens after the lookahead come.
    pub lexer: Lexer,
    /// The token under the cursor.
    pub current_token: Token,
    /// The token after it.
    pub peek_token: Token,
    /// The diagnostics reported so far, in the order in which they were
    /// reported.
    pub errors: Vec<String>,
    /// How many tokens the cursor has moved past.
    pub index: Ghost<nat>,
    /// For each diagnostic, where the cursor stood when it was reported.
    pub marks: Ghost<Seq<nat>>,
}

impl View for Parser {
    type V = ParserState;

    /// The state of the parser: its lookahead, the tokens that its lexer
    /// has yet to yield, and the texts of `errors`.
    open spec fn view(&self) -> ParserState {
        ParserState {
            current: self.current_token@,
            peek: self.peek_token@,
            rest: self.lexer.remaining_tokens(),
            index: self.index@,
            errors: texts(self.errors@),
            marks: self.marks@,
        }
    }
}

impl Parser {
    /// A parser at the start of the tokens that `lexer` has yet to yield.
    pub fn new(lexer: Lexer) -> (parser: Self)
        ensures
            parser@ == ParserState::start(lexer.remaining_tokens()),
            parser@.ordered(),
    {
        let mut parser = Parser {
            lexer,
            current_token: Token::Eof,
            peek_token: Token::Eof,
            errors: Vec::new(),
            index: Ghost(0),
            marks: Ghost(Seq::empty()),
        };
        assert(texts(parser.errors@) =~= Seq::empty());
        parser.next_token();
        parser.next_token();
        parser.index = Ghost(0);
        parser
    }

    /// Moves the cursor one token forwards.
    fn next_token(&mut self)
        ensures
            final(self)@ == old(self)@.advance(),
            old(self)@.leads_to(final(self)@),
    {
        self.current_token = self.peek_token.clone();
        self.peek_token = self.lexer.next_token();
        self.index = Ghost(self.index@ + 1);
    }

    /// The diagnostics reported so far: the field `errors`, whose texts are
    /// the diagnostics of the state.
    pub fn diagnostics(&self) -> (list: &Vec<String>)
        ensures
            *list == self.errors,
            texts(list@) == self@.errors,
    {
        &self.errors
    }

    /// Adds a diagnostic at the end of the list.
    fn report(&mut self, message: String)
        ensures
            final(self)@ == old(self)@.report(message@),
            old(self)@.leads_to(final(self)@),
    {
        self.errors.push(message);
        self.marks = Ghost(self.marks@.push(self.index@));
        assert(texts(self.errors@) =~= texts(old(self).errors@).push(message@));
    }

    /// Parses the whole program, up to end-of-input. Statements that cannot
    /// be parsed are left out of the result and reported in `errors`, and
    /// parsing resumes at the next statement boundary. The
    /// diagnostics reported before the call are kept, and if they were in
    /// source order, so are all diagnostics after the call.
    pub fn parse_program(&mut self) -> (program: Program)
        ensures
            (block_view(program), final(self)@) == old(self)@.parse_program(),
            final(self)@.current == TokenView::Eof,
            old(self)@.leads_to(final(self)@),
            old(self)@.kept_by(final(self)@),
    {
        proof {
            reveal_with_fuel(ParserState::program_from, 1);
            lemma_program_from_leads_on(self@, Seq::empty());
        }
        let mut program: Vec<Statement> = Vec::new();
        assert(block_view(program) =~= Seq::empty());
        while !matches!(self.current_token, Token::Eof)
            invariant
                self@.program_from(block_view(program)) == old(self)@.parse_program(),
                old(self)@.leads_to(self@),
            decreases self@.weight(),
        {
            proof {
                reveal_with_fuel(ParserState::program_from, 1);
            }
            let ghost before = block_view(program);
            let ghost start = self@;
            match self.parse_statement() {
                Some(s) => {
                    program.push(s);
                    assert(block_view(program) =~= before.push(s@));
                    self.next_token();
                },
                None => {
                    self.next_token();
                    self.skip_to_boundary(false);
                },
            }
            assert(self@.weight() < start.weight());
        }
        program
    }

    /// Whether the cursor stands on a statement boundary.
    fn at_boundary(&self, in_block: bool) -> (at: bool)
        ensures
            at == is_boundary(self@.current, in_block),
    {
        match self.current_token {
            Token::Let | Token::Return => true,
            Token::Ident(_) | Token::Int(_) | Token::True | Token::False => true,
            Token::LParen | Token::If => true,
            Token::Eof => true,
            Token::End | Token::Else => in_block,
            _ => false,
        }
    }

    /// Moves the cursor to the next statement boundary, reporting nothing.
    fn skip_to_boundary(&mut self, in_block: bool)
        ensures
            final(self)@ == old(self)@.skip_to_boundary(in_block),
            old(self)@.leads_to(final(self)@),
    {
        while !self.at_boundary(in_block)
            invariant
                self@.skip_to_boundary(in_block) == old(self)@.skip_to_boundary(in_block),
                old(self)@.leads_to(self@),
            decreases self@.weight(),
        {
            self.next_token();
        }
    }

    /// Parses one statement, chosen by the current token.
    fn parse_statement(&mut self) -> (stmt: Option<Statement>)
        ensures
            (optional_statement_view(stmt), final(self)@) == old(self)@.parse_statement(),
            old(self)@.leads_to(final(self)@),
        decreases old(self)@.weight(), 9nat,
    {
        proof {
            reveal_with_fuel(ParserState::parse_statement, 1);
            reveal_with_fuel(ParserState::parse_let_statement, 1);
            reveal_with_fuel(ParserState::parse_return_statement, 1);
            reveal_with_fuel(ParserState::parse_expression_statement, 1);
        }
        match self.current_token {
            Token::Let => self.parse_let_statement(),
            Token::Return => self.parse_return_statement(),
            _ => self.parse_expression_statement(),
        }
    }

    /// Parses a binding, with the cursor on `local`.
    fn parse_let_statement(&mut self) -> (stmt: Option<Statement>)
        ensures
            (optional_statement_view(stmt), final(self)@) == old(self)@.parse_let_statement(),
            old(self)@.leads_to(final(self)@),
        decreases old(self)@.weight(), 8nat,
    {
        proof {
            reveal_with_fuel(ParserState::parse_let_statement, 1);
            reveal_with_fuel(ParserState::parse_expression, 1);
        }
        if !self.expect_peek_is_ident() {
            return None;
        }
        let name = match &self.current_token {
            Token::Ident(n) => n.clone(),
            _ => {
                return None;
            },
        };
        if !self.expect_peek(Token::Assign) {
            return None;
        }
        self.next_token();
        match self.parse_expression(Precedence::Lowest) {
            Some(value) => Some(Statement::Let { name, value }),
            None => None,
        }
    }

    /// Parses a return, with the cursor on `return`.
    fn parse_return_statement(&mut self) -> (stmt: Option<Statement>)
        requires
            old(self)@.current != TokenView::Eof,
        ensures
            (optional_statement_view(stmt), final(self)@) == old(self)@.parse_return_statement(),
            old(self)@.leads_to(final(self)@),
        decreases old(self)@.weight(), 8nat,
    {
        proof {
            reveal_with_fuel(ParserState::parse_return_statement, 1);
            reveal_with_fuel(ParserState::parse_expression, 1);
        }
        self.next_token();
        match self.parse_expression(Precedence::Lowest) {
            Some(value) => Some(Statement::Return(value)),
            None => None,
        }
    }

    /// Parses an expression that stands as a statement.
    fn parse_expression_statement(&mut self) -> (stmt: Option<Statement>)
        ensures
            (optional_statement_view(stmt), final(self)@)
                == old(self)@.parse_expression_statement(),
            old(self)@.leads_to(final(self)@),
        decreases old(self)@.weight(), 8nat,
    {
        proof {
            reveal_with_fuel(ParserState::parse_expression_statement, 1);
            reveal_with_fuel(ParserState::parse_expression, 1);
        }
        match self.parse_expression(Precedence::Lowest) {
            Some(value) => Some(Statement::Expression(value)),
            None => None,
        }
    }

    /// Parses a block, with the cursor on the token that opens it.
    fn parse_block_statement(&mut self) -> (block: BlockStatement)
        ensures
            (block_view(block), final(self)@) == old(self)@.parse_block_statement(),
            old(self)@.leads_to(final(self)@),
        decreases old(self)@.weight(), 11nat,
    {
        proof {
            reveal_with_fuel(ParserState::parse_block_statement, 1);
            reveal_with_fuel(ParserState::block_from, 1);
            reveal_with_fuel(ParserState::parse_statement, 1);
        }
        let mut statements: Vec<Statement> = Vec::new();
        assert(block_view(statements) =~= Seq::empty());
        self.next_token();
        while !matches!(self.current_token, Token::End | Token::Else | Token::Eof)
            invariant
                self@.block_from(block_view(statements)) == old(self)@.parse_block_statement(),
                old(self)@.leads_to(self@),
            decreases self@.weight(),
        {
            proof {
                reveal_with_fuel(ParserState::block_from, 1);
                reveal_with_fuel(ParserState::parse_statement, 1);
            }
            let ghost before = block_view(statements);
            let ghost start = self@;
            match self.parse_statement() {
                Some(s) => {
                    statements.push(s);
                    assert(block_view(statements) =~= before.push(s@));
                    self.next_token();
                },
                None => {
                    self.next_token();
                    self.skip_to_boundary(true);
                },
            }
            assert(self@.weight() < start.weight());
        }
        statements
    }

    /// Parses an expression whose operators all bind tighter than
    /// `precedence`.
    fn parse_expression(&mut self, precedence: Precedence) -> (expr: Option<Expression>)
        ensures
            (optional_expression_view(expr), final(self)@) == old(self)@.parse_expression(
                precedence,
            ),
            old(self)@.leads_to(final(self)@),
        decreases old(self)@.weight(), 7nat,
    {
        proof {
            reveal_with_fuel(ParserState::parse_expression, 1);
            reveal_with_fuel(ParserState::extend, 1);
            reveal_with_fuel(ParserState::parse_if_expression, 1);
            reveal_with_fuel(ParserState::parse_call_expression, 1);
            reveal_with_fuel(ParserState::parse_infix_expression, 1);
        }
        let mut left = match &self.current_token {
            Token::Ident(name) => Expression::Identifier(name.clone()),
            Token::Int(value) => Expression::IntegerLiteral(*value),
            Token::True => Expression::Boolean(true),
            Token::False => Expression::Boolean(false),
            Token::LParen => {
                self.next_token();
                let inner = match self.parse_expression(Precedence::Lowest) {
                    Some(e) => e,
                    None => {
                        return None;
                    },
                };
                if !self.expect_peek(Token::RParen) {
                    return None;
                }
                inner
            },
            Token::If => match self.parse_if_expression() {
                Some(e) => e,
                None => {
                    return None;
                },
            },
            _ => {
                let mut message = String::new();
                message.append("No prefix parse function for ");
                self.current_token.push_debug(&mut message);
                assert(message@ =~= no_prefix_message(self.current_token@));
                self.report(message);
                return None;
            },
        };
        while precedence.rank() < self.peek_precedence().rank()
            invariant
                self@.extend(left@, precedence) == old(self)@.parse_expression(precedence),
                old(self)@.leads_to(self@),
            decreases self@.weight(),
        {
            proof {
                reveal_with_fuel(ParserState::extend, 1);
                reveal_with_fuel(ParserState::parse_call_expression, 1);
                reveal_with_fuel(ParserState::parse_infix_expression, 1);
            }
            let ghost start = self@;
            let longer = match self.peek_token {
                Token::LParen => {
                    self.next_token();
                    self.parse_call_expression(left)
                },
                _ => {
                    self.next_token();
                    self.parse_infix_expression(left)
                },
            };
            assert(self@.weight() < start.weight());
            match longer {
                Some(e) => {
                    left = e;
                },
                None => {
                    return None;
                },
            }
        }
        Some(left)
    }

    /// Parses the operator under the cursor and its right operand.
    fn parse_infix_expression(&mut self, left: Expression) -> (expr: Option<Expression>)
        requires
            old(self)@.current != TokenView::Eof,
        ensures
            (optional_expression_view(expr), final(self)@) == old(self)@.parse_infix_expression(
                left@,
            ),
            old(self)@.leads_to(final(self)@),
            final(self)@.index > old(self)@.index,
        decreases old(self)@.weight(), 4nat,
    {
        proof {
            reveal_with_fuel(ParserState::parse_infix_expression, 1);
            reveal_with_fuel(ParserState::parse_expression, 1);
        }
        let op = self.current_token.clone();
        let precedence = self.cur_precedence();
        self.next_token();
        match self.parse_expression(precedence) {
            Some(right) => Some(
                Expression::Infix { op, left: Box::new(left), right: Box::new(right) },
            ),
            None => None,
        }
    }

    /// Parses a conditional, with the cursor on `if`.
    fn parse_if_expression(&mut self) -> (expr: Option<Expression>)
        requires
            old(self)@.current != TokenView::Eof,
        ensures
            (optional_expression_view(expr), final(self)@) == old(self)@.parse_if_expression(),
            old(self)@.leads_to(final(self)@),
        decreases old(self)@.weight(), 6nat,
    {
        proof {
            reveal_with_fuel(ParserState::parse_if_expression, 1);
            reveal_with_fuel(ParserState::parse_expression, 1);
            reveal_with_fuel(ParserState::parse_block_statement, 1);
        }
        self.next_token();
        let condition = match self.parse_expression(Precedence::Lowest) {
            Some(c) => c,
            None => {
                return None;
            },
        };
        assert(self@.weight() < old(self)@.weight());
        if !self.expect_peek(Token::Then) {
            return None;
        }
        assert(self@.weight() < old(self)@.weight());
        let consequence = self.parse_block_statement();
        assert(self@.weight() < old(self)@.weight());
        let alternative = if matches!(self.current_token, Token::Else) {
            Some(self.parse_block_statement())
        } else {
            None
        };
        if !matches!(self.current_token, Token::End) {
            let mut message = String::new();
            message.append("Expected 'end' to close 'if' block, got ");
            self.current_token.push_debug(&mut message);
            assert(message@ =~= unclosed_if_message(self.current_token@));
            self.report(message);
            return None;
        }
        Some(Expression::If { condition: Box::new(condition), consequence, alternative })
    }

    /// Parses a call of `function`, with the cursor on the opening
    /// parenthesis.
    fn parse_call_expression(&mut self, function: Expression) -> (expr: Option<Expression>)
        requires
            old(self)@.current != TokenView::Eof,
        ensures
            (optional_expression_view(expr), final(self)@) == old(self)@.parse_call_expression(
                function@,
            ),
            old(self)@.leads_to(final(self)@),
            final(self)@.index > old(self)@.index,
        decreases old(self)@.weight(), 4nat,
    {
        proof {
            reveal_with_fuel(ParserState::parse_call_expression, 1);
            reveal_with_fuel(ParserState::parse_call_arguments, 1);
        }
        match self.parse_call_arguments() {
            Some(arguments) => Some(Expression::Call { function: Box::new(function), arguments }),
            None => None,
        }
    }

    /// Parses the arguments of a call, with the cursor on the opening
    /// parenthesis.
    fn parse_call_arguments(&mut self) -> (arguments: Option<Vec<Expression>>)
        requires
            old(self)@.current != TokenView::Eof,
        ensures
            (
                match arguments {
                    Some(args) => Some(arguments_view(args)),
                    None => None,
                },
                final(self)@,
            ) == old(self)@.parse_call_arguments(),
            old(self)@.leads_to(final(self)@),
            final(self)@.index > old(self)@.index,
        decreases old(self)@.weight(), 3nat,
    {
        proof {
            reveal_with_fuel(ParserState::parse_call_arguments, 1);
            reveal_with_fuel(ParserState::arguments_from, 1);
            reveal_with_fuel(ParserState::parse_expression, 1);
        }
        let mut args: Vec<Expression> = Vec::new();
        if matches!(self.peek_token, Token::RParen) {
            self.next_token();
            assert(arguments_view(args) =~= Seq::empty());
            return Some(args);
        }
        self.next_token();
        let first = self.parse_expression(Precedence::Lowest);
        assert(self@.weight() < old(self)@.weight());
        match first {
            Some(e) => {
                args.push(e);
                assert(arguments_view(args) =~= seq![e@]);
            },
            None => {
                return None;
            },
        }
        while matches!(self.peek_token, Token::Comma)
            invariant
                old(self)@.current != TokenView::Eof,
                self@.arguments_from(arguments_view(args)) == old(self)@.parse_call_arguments(),
                old(self)@.leads_to(self@),
                self@.index > old(self)@.index,
            decreases self@.weight(),
        {
            proof {
                reveal_with_fuel(ParserState::arguments_from, 1);
                reveal_with_fuel(ParserState::parse_expression, 1);
            }
            let ghost before = arguments_view(args);
            let ghost start = self@;
            self.next_token();
            self.next_token();
            let next = self.parse_expression(Precedence::Lowest);
            assert(self@.weight() < start.weight());
            match next {
                Some(e) => {
                    args.push(e);
                    assert(arguments_view(args) =~= before.push(e@));
                },
                None => {
                    return None;
                },
            }
        }
        if !self.expect_peek(Token::RParen) {
            return None;
        }
        Some(args)
    }

    /// The binding power of a token in infix position.
    fn token_to_precedence(tok: &Token) -> (precedence: Precedence)
        ensures
            precedence == precedence_of(tok@),
    {
        match tok {
            Token::Eq | Token::NotEq => Precedence::Equals,
            Token::Lt | Token::Gt => Precedence::LessGreater,
            Token::Plus | Token::Minus => Precedence::Sum,
            Token::Slash | Token::Asterisk => Precedence::Product,
            Token::LParen => Precedence::Call,
            _ => Precedence::Lowest,
        }
    }

    /// The binding power of the token after the current one.
    fn peek_precedence(&self) -> (precedence: Precedence)
        ensures
            precedence == precedence_of(self@.peek),
    {
        Self::token_to_precedence(&self.peek_token)
    }

    /// The binding power of the current token.
    fn cur_precedence(&self) -> (precedence: Precedence)
        ensures
            precedence == precedence_of(self@.current),
    {
        Self::token_to_precedence(&self.current_token)
    }

    /// Moves onto the next token if it is of the kind of `tok`, and reports
    /// a diagnostic otherwise.
    fn expect_peek(&mut self, tok: Token) -> (found: bool)
        ensures
            (found, final(self)@) == old(self)@.expect_peek(tok@),
            old(self)@.leads_to(final(self)@),
    {
        if self.peek_token.same_kind(&tok) {
            self.next_token();
            true
        } else {
            let mut message = String::new();
            message.append("Expected next token to be ");
            tok.push_debug(&mut message);
            message.append(", got ");
            self.peek_token.push_debug(&mut message);
            message.append(" instead");
            assert(message@ =~= unexpected_token_message(tok@, self.peek_token@));
            self.report(message);
            false
        }
    }

    /// Moves onto the next token if it is an identifier, and reports a
    /// diagnostic otherwise.
    fn expect_peek_is_ident(&mut self) -> (found: bool)
        ensures
            (found, final(self)@) == old(self)@.expect_peek_is_ident(),
            old(self)@.leads_to(final(self)@),
    {
        if matches!(self.peek_token, Token::Ident(_)) {
            self.next_token();
            true
        } else {
            let mut message = String::new();
            message.append("Expected next token to be an identifier, got ");
            self.peek_token.push_debug(&mut message);
            assert(message@ =~= not_identifier_message(self.peek_token@));
            self.report(message);
            false
        }
    }
}

} // verus!
