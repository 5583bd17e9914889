//! The lexer: turns source text into tokens, one per call.

use vstd::prelude::*;
use crate::frontend::token::{
    keyword_or_ident, lemma_keyword_or_ident_is_a_word, lookup_ident, Token, TokenView,
};
use crate::text::{
    alphabetic, alphanumeric, char_is_digit, decimal_value, is_decimal_digit,
    lemma_decimal_value_grows, literal_value, white_space,
};

verus! {

/// The character at index `i` of `s`, and the NUL character past its end.
pub open spec fn char_at(s: Seq<char>, i: int) -> char {
    if 0 <= i < s.len() {
        s[i]
    } else {
        '\0'
    }
}

/// Whether `c` may continue an identifier.
pub open spec fn is_ident_part(c: char) -> bool {
    alphanumeric(c) || c == '_'
}

/// Whether `c` may start an identifier.
pub open spec fn is_ident_start(c: char) -> bool {
    alphabetic(c) || c == '_'
}

/// The first index at or after `i` that holds a line feed, or the length of
/// `s` if there is none.
pub open spec fn line_end(s: Seq<char>, i: int) -> int
    decreases s.len() - i,
{
    if i < 0 || i >= s.len() || s[i] == '\n' {
        i
    } else {
        line_end(s, i + 1)
    }
}

/// The first index at or after `i` that does not continue an identifier.
pub open spec fn ident_end(s: Seq<char>, i: int) -> int
    decreases s.len() - i,
{
    if i < 0 || i >= s.len() || !is_ident_part(s[i]) {
        i
    } else {
        ident_end(s, i + 1)
    }
}

/// The first index at or after `i` that does not hold a decimal digit.
pub open spec fn digits_end(s: Seq<char>, i: int) -> int
    decreases s.len() - i,
{
    if i < 0 || i >= s.len() || !is_decimal_digit(s[i]) {
        i
    } else {
        digits_end(s, i + 1)
    }
}

/// The three scans stop between where they start and the end of the text.
pub proof fn lemma_scan_bounds(s: Seq<char>, i: int)
    requires
        0 <= i <= s.len(),
    ensures
        i <= line_end(s, i) <= s.len(),
        i <= ident_end(s, i) <= s.len(),
        i <= digits_end(s, i) <= s.len(),
    decreases s.len() - i,
{
    if i < s.len() {
        lemma_scan_bounds(s, i + 1);
    }
}

/// The index of the first character at or after `i` that is neither white
/// space nor part of a `--` line comment.
pub open spec fn skip_trivia(s: Seq<char>, i: int) -> int
    decreases s.len() - i,
{
    if i < 0 || i >= s.len() {
        i
    } else if white_space(s[i]) {
        skip_trivia(s, i + 1)
    } else if s[i] == '-' && char_at(s, i + 1) == '-' {
        proof {
            lemma_scan_bounds(s, i + 2);
        }
        skip_trivia(s, line_end(s, i + 2))
    } else {
        i
    }
}

/// Trivia is skipped forwards, and never past the end of the text.
pub proof fn lemma_skip_trivia_bounds(s: Seq<char>, i: int)
    requires
        0 <= i <= s.len(),
    ensures
        i <= skip_trivia(s, i) <= s.len(),
    decreases s.len() - i,
{
    if i < s.len() {
        if white_space(s[i]) {
            lemma_skip_trivia_bounds(s, i + 1);
        } else if s[i] == '-' && char_at(s, i + 1) == '-' {
            lemma_scan_bounds(s, i + 2);
            lemma_skip_trivia_bounds(s, line_end(s, i + 2));
        }
    }
}

/// The token that starts at index `j` of `s`, where `j` is past all trivia,
/// and the index just after it: end-of-input at the end of the text and
/// nowhere else; inside the text the longest operator, a maximal run of
/// identifier characters or of digits, or else an illegal token that holds
/// the one character.
pub open spec fn token_at(s: Seq<char>, j: int) -> (TokenView, int) {
    let c = char_at(s, j);
    if j < 0 || j >= s.len() {
        (TokenView::Eof, j)
    } else if c == '=' {
        if char_at(s, j + 1) == '=' {
            (TokenView::Eq, j + 2)
        } else {
            (TokenView::Assign, j + 1)
        }
    } else if c == '~' || c == '!' {
        if char_at(s, j + 1) == '=' {
            (TokenView::NotEq, j + 2)
        } else {
            (TokenView::Illegal(seq![c]), j + 1)
        }
    } else if c == '+' {
        (TokenView::Plus, j + 1)
    } else if c == '-' {
        (TokenView::Minus, j + 1)
    } else if c == '/' {
        (TokenView::Slash, j + 1)
    } else if c == '*' {
        (TokenView::Asterisk, j + 1)
    } else if c == '<' {
        (TokenView::Lt, j + 1)
    } else if c == '>' {
        (TokenView::Gt, j + 1)
    } else if c == ',' {
        (TokenView::Comma, j + 1)
    } else if c == '(' {
        (TokenView::LParen, j + 1)
    } else if c == ')' {
        (TokenView::RParen, j + 1)
    } else if is_ident_start(c) {
        let end = ident_end(s, j);
        (keyword_or_ident(s.subrange(j, end)), end)
    } else if is_decimal_digit(c) {
        let end = digits_end(s, j);
        (TokenView::Int(literal_value(s.subrange(j, end))), end)
    } else {
        (TokenView::Illegal(seq![c]), j + 1)
    }
}

/// One step of lexing: the first token of `s` at or after index `i`, and the
/// index at which the next step starts.
pub open spec fn lex_at(s: Seq<char>, i: int) -> (TokenView, int) {
    token_at(s, skip_trivia(s, i))
}

/// Every step that starts inside the text moves forwards and stays inside;
/// a step that starts at the end yields end-of-input and stays there.
pub proof fn lemma_lex_progress(s: Seq<char>, i: int)
    requires
        0 <= i <= s.len(),
    ensures
        i < s.len() ==> i < lex_at(s, i).1 <= s.len(),
        i == s.len() ==> lex_at(s, i) == (TokenView::Eof, i),
        lex_at(s, i).0 == TokenView::Eof ==> lex_at(s, i).1 == s.len(),
{
    lemma_keyword_or_ident_is_a_word(s.subrange(skip_trivia(s, i), ident_end(s, skip_trivia(s, i))));
    lemma_skip_trivia_bounds(s, i);
    let j = skip_trivia(s, i);
    if j < s.len() {
        lemma_scan_bounds(s, j);
        lemma_scan_bounds(s, j + 1);
        assert(is_decimal_digit(s[j]) ==> digits_end(s, j) == digits_end(s, j + 1));
        assert(is_ident_start(s[j]) ==> ident_end(s, j) == ident_end(s, j + 1));
    }
}

/// The tokens that lexing yields from index `i` until the text is used up.
pub open spec fn tokens_from(s: Seq<char>, i: int) -> Seq<TokenView>
    decreases s.len() - i,
{
    if i < 0 || i >= s.len() {
        Seq::empty()
    } else {
        proof {
            lemma_lex_progress(s, i);
        }
        seq![lex_at(s, i).0] + tokens_from(s, lex_at(s, i).1)
    }
}

/// The index at which lexing stands after `n` steps from index `i`.
pub open spec fn offset_after(s: Seq<char>, i: int, n: nat) -> int
    decreases n,
{
    if n == 0 {
        i
    } else {
        lex_at(s, offset_after(s, i, (n - 1) as nat)).1
    }
}

/// The token that the `n`-th step from index `i` yields, counting from 0.
pub open spec fn nth_token(s: Seq<char>, i: int, n: nat) -> TokenView {
    lex_at(s, offset_after(s, i, n)).0
}

/// Lexing is total and finite: from any index of any text, after as many
/// steps as there are characters left the lexer stands at the end of the
/// text, stays there, and every later step yields end-of-input.
pub proof fn lemma_lexing_reaches_stable_end(s: Seq<char>, i: int, n: nat)
    requires
        0 <= i <= s.len(),
        n >= s.len() - i,
    ensures
        offset_after(s, i, n) == s.len(),
        nth_token(s, i, n) == TokenView::Eof,
        offset_after(s, i, n + 1) == s.len(),
{
    lemma_offset_after_advances(s, i, n);
    lemma_lex_progress(s, s.len() as int);
}

/// End-of-input is final: once a step has yielded it, every later step
/// yields it too.
pub proof fn lemma_end_of_input_is_final(s: Seq<char>, i: int, n: nat, m: nat)
    requires
        0 <= i <= s.len(),
        nth_token(s, i, n) == TokenView::Eof,
        n <= m,
    ensures
        nth_token(s, i, m) == TokenView::Eof,
    decreases m - n,
{
    lemma_offset_after_advances(s, i, n);
    lemma_lex_progress(s, offset_after(s, i, n));
    assert(offset_after(s, i, n + 1) == s.len());
    if n < m {
        lemma_lex_progress(s, s.len() as int);
        lemma_end_of_input_is_final(s, i, n + 1, m);
    }
}

/// After `n` steps from index `i` the lexer has moved at least `n`
/// characters forwards, unless it has reached the end of the text.
pub proof fn lemma_offset_after_advances(s: Seq<char>, i: int, n: nat)
    requires
        0 <= i <= s.len(),
    ensures
        i <= offset_after(s, i, n) <= s.len(),
        offset_after(s, i, n) == s.len() || offset_after(s, i, n) >= i + n,
    decreases n,
{
    if n > 0 {
        lemma_offset_after_advances(s, i, (n - 1) as nat);
        lemma_lex_progress(s, offset_after(s, i, (n - 1) as nat));
    }
}

/// Taking one step and then `n` more is taking `n + 1` steps.
pub proof fn lemma_offset_after_first_step(s: Seq<char>, i: int, n: nat)
    ensures
        offset_after(s, lex_at(s, i).1, n) == offset_after(s, i, n + 1),
    decreases n,
{
    reveal_with_fuel(offset_after, 2);
    if n > 0 {
        lemma_offset_after_first_step(s, i, (n - 1) as nat);
    }
}

/// The tokens still to come are the tokens that the steps yield, one by
/// one, and there are at most as many as characters are left.
pub proof fn lemma_tokens_are_the_steps(s: Seq<char>, i: int, k: nat)
    requires
        0 <= i <= s.len(),
    ensures
        tokens_from(s, i).len() <= s.len() - i,
        k < tokens_from(s, i).len() ==> tokens_from(s, i)[k as int] == nth_token(s, i, k),
        k >= tokens_from(s, i).len() ==> nth_token(s, i, k) == TokenView::Eof,
    decreases s.len() - i,
{
    lemma_lex_progress(s, i);
    if i < s.len() {
        let next = lex_at(s, i).1;
        if k == 0 {
            lemma_tokens_are_the_steps(s, next, 0);
        } else {
            lemma_tokens_are_the_steps(s, next, (k - 1) as nat);
            lemma_offset_after_first_step(s, i, (k - 1) as nat);
        }
    } else {
        lemma_lexing_reaches_stable_end(s, i, k);
    }
}

/// A pull-based lexer over a text held in memory.
pub struct Lexer {
    input: Vec<char>,
    position: usize,
}

impl Lexer {
    #[verifier::type_invariant]
    closed spec fn in_bounds(self) -> bool {
        self.position <= self.input.len()
    }

    /// The text being lexed.
    pub closed spec fn source(self) -> Seq<char> {
        self.input@
    }

    /// The index of the next character to be read.
    pub closed spec fn offset(self) -> int {
        self.position as int
    }

    /// The tokens still to come, up to the end of the text.
    pub open spec fn remaining_tokens(self) -> Seq<TokenView> {
        tokens_from(self.source(), self.offset())
    }

    /// A lexer at the start of `input`.
    pub fn new(input: String) -> (lexer: Self)
        ensures
            lexer.source() == input@,
            lexer.offset() == 0,
    {
        let mut chars: Vec<char> = Vec::new();
        for c in it: input.as_str().chars()
            invariant
                it.seq() == input@,
                chars@ == it.seq().take(it.index()),
        {
            chars.push(c);
            assert(it.seq().take(it.index() + 1) =~= it.seq().take(it.index()).push(c));
        }
        assert(chars@ =~= input@);
        Lexer { input: chars, position: 0 }
    }

    /// Skips trivia and returns the next token. It returns end-of-input
    /// when the text is used up and only then, so that every call after one
    /// that returned end-of-input returns it again.
    pub fn next_token(&mut self) -> (tok: Token)
        ensures
            final(self).source() == old(self).source(),
            (tok@, final(self).offset()) == lex_at(old(self).source(), old(self).offset()),
            old(self).offset() < old(self).source().len()
                ==> old(self).offset() < final(self).offset() <= old(self).source().len(),
            old(self).offset() == old(self).source().len()
                ==> tok@ == TokenView::Eof && final(self).offset() == old(self).offset(),
            tok@ == TokenView::Eof ==> final(self).offset() == final(self).source().len(),
            old(self).remaining_tokens().len() > 0 ==> tok@ == old(self).remaining_tokens()[0]
                && final(self).remaining_tokens() == old(self).remaining_tokens().drop_first(),
            old(self).remaining_tokens().len() == 0 ==> tok@ == TokenView::Eof
                && final(self).remaining_tokens() == old(self).remaining_tokens(),
    {
        proof {
            use_type_invariant(&*self);
            lemma_lex_progress(self.source(), self.offset());
            if self.offset() < self.source().len() {
                assert(self.remaining_tokens().drop_first() =~= tokens_from(
                    self.source(),
                    lex_at(self.source(), self.offset()).1,
                ));
            }
        }
        self.skip_whitespace_and_comments();
        if self.position >= self.input.len() {
            return Token::Eof;
        }
        let c = self.current();
        let tok = match c {
            '=' => if self.peek() == '=' {
                self.read_char();
                Token::Eq
            } else {
                Token::Assign
            },
            '~' | '!' => if self.peek() == '=' {
                self.read_char();
                Token::NotEq
            } else {
                Token::Illegal(char_text(c))
            },
            '+' => Token::Plus,
            '-' => Token::Minus,
            '/' => Token::Slash,
            '*' => Token::Asterisk,
            '<' => Token::Lt,
            '>' => Token::Gt,
            ',' => Token::Comma,
            '(' => Token::LParen,
            ')' => Token::RParen,
            _ => {
                if c.is_alphabetic() || c == '_' {
                    let ident = self.read_identifier();
                    return lookup_ident(ident.as_str());
                } else if char_is_digit(c) {
                    return Token::Int(self.read_number());
                } else {
                    Token::Illegal(char_text(c))
                }
            },
        };
        self.read_char();
        tok
    }

    /// The character under the cursor, or NUL at the end of the text.
    fn current(&self) -> (c: char)
        ensures
            c == char_at(self.source(), self.offset()),
    {
        proof {
            use_type_invariant(self);
        }
        if self.position < self.input.len() {
            self.input[self.position]
        } else {
            '\0'
        }
    }

    /// Moves the cursor one character forwards, unless it is at the end.
    fn read_char(&mut self)
        ensures
            final(self).source() == old(self).source(),
            final(self).offset() == if old(self).offset() < old(self).source().len() {
                old(self).offset() + 1
            } else {
                old(self).offset()
            },
    {
        proof {
            use_type_invariant(&*self);
        }
        if self.position < self.input.len() {
            self.position = self.position + 1;
        }
    }

    /// The character after the one under the cursor, or NUL if there is none.
    fn peek(&self) -> (c: char)
        ensures
            c == char_at(self.source(), self.offset() + 1),
    {
        proof {
            use_type_invariant(self);
        }
        if self.position < self.input.len() && self.position + 1 < self.input.len() {
            self.input[self.position + 1]
        } else {
            '\0'
        }
    }

    /// Moves the cursor past white space and line comments.
    fn skip_whitespace_and_comments(&mut self)
        ensures
            final(self).source() == old(self).source(),
            final(self).offset() == skip_trivia(old(self).source(), old(self).offset()),
    {
        proof {
            use_type_invariant(&*self);
        }
        loop
            invariant
                self.position <= self.input.len(),
                self.input@ == old(self).input@,
                skip_trivia(self.input@, self.position as int) == skip_trivia(
                    old(self).input@,
                    old(self).position as int,
                ),
            ensures
                self.position as int == skip_trivia(old(self).input@, old(self).position as int),
            decreases self.input.len() - self.position,
        {
            if self.position >= self.input.len() {
                break;
            }
            if self.current().is_whitespace() {
                self.read_char();
                continue;
            }
            if self.current() == '-' && self.peek() == '-' {
                let ghost dashes = self.position as int;
                proof {
                    lemma_scan_bounds(self.input@, dashes + 2);
                }
                self.read_char();
                self.read_char();
                while self.position < self.input.len() && self.current() != '\n'
                    invariant
                        self.position <= self.input.len(),
                        self.input@ == old(self).input@,
                        line_end(self.input@, self.position as int) == line_end(
                            self.input@,
                            dashes + 2,
                        ),
                    decreases self.input.len() - self.position,
                {
                    self.read_char();
                }
                assert(self.position as int == line_end(self.input@, dashes + 2));
                assert(skip_trivia(self.input@, dashes) == skip_trivia(
                    self.input@,
                    self.position as int,
                ));
                continue;
            }
            break;
        }
    }

    /// Reads the maximal run of identifier characters that starts under
    /// the cursor.
    fn read_identifier(&mut self) -> (text: String)
        ensures
            final(self).source() == old(self).source(),
            final(self).offset() == ident_end(old(self).source(), old(self).offset()),
            text@ == old(self).source().subrange(old(self).offset(), final(self).offset()),
    {
        proof {
            use_type_invariant(&*self);
        }
        let start = self.position;
        let mut text = String::new();
        assert(text@ =~= self.input@.subrange(start as int, self.position as int));
        while self.position < self.input.len() && (self.current().is_alphanumeric()
            || self.current() == '_')
            invariant
                start <= self.position <= self.input.len(),
                self.input@ == old(self).input@,
                text@ == self.input@.subrange(start as int, self.position as int),
                ident_end(self.input@, self.position as int) == ident_end(
                    self.input@,
                    start as int,
                ),
            decreases self.input.len() - self.position,
        {
            text.push(self.current());
            self.read_char();
            assert(text@ =~= self.input@.subrange(start as int, self.position as int));
        }
        text
    }

    /// Reads the run of decimal digits that starts under the cursor and
    /// returns the number it writes, or 0 if that number does not fit.
    fn read_number(&mut self) -> (value: i64)
        ensures
            final(self).source() == old(self).source(),
            final(self).offset() == digits_end(old(self).source(), old(self).offset()),
            value == literal_value(
                old(self).source().subrange(old(self).offset(), final(self).offset()),
            ),
    {
        proof {
            use_type_invariant(&*self);
        }
        let start = self.position;
        let mut value: i64 = 0;
        let mut fits = true;
        assert(self.input@.subrange(start as int, start as int) =~= Seq::<char>::empty());
        while self.position < self.input.len() && char_is_digit(self.current())
            invariant
                start <= self.position <= self.input.len(),
                self.input@ == old(self).input@,
                digits_end(self.input@, self.position as int) == digits_end(
                    self.input@,
                    start as int,
                ),
                value >= 0,
                fits ==> value == decimal_value(
                    self.input@.subrange(start as int, self.position as int),
                ),
                !fits ==> decimal_value(self.input@.subrange(start as int, self.position as int))
                    > i64::MAX,
            decreases self.input.len() - self.position,
        {
            let c = self.current();
            let digit: i64 = (c as u32 - '0' as u32) as i64;
            proof {
                lemma_decimal_value_grows(
                    self.input@.subrange(start as int, self.position as int),
                    c,
                );
                assert(self.input@.subrange(start as int, self.position + 1)
                    =~= self.input@.subrange(start as int, self.position as int).push(c));
            }
            if fits {
                if value <= (i64::MAX - digit) / 10 {
                    value = value * 10 + digit;
                } else {
                    fits = false;
                }
            }
            self.read_char();
        }
        if fits {
            value
        } else {
            0
        }
    }
}

/// The text that holds the single character `c`.
fn char_text(c: char) -> (text: String)
    ensures
        text@ == seq![c],
{
    let mut text = String::new();
    text.push(c);
    assert(text@ =~= seq![c]);
    text
}

} // verus!
