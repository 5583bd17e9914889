//! The lexical categories of the language.

use vstd::prelude::*;
use vstd::string::*;
use crate::text::{debug_text, decimal_text, push_decimal, quoted};

verus! {

/// A lexical unit.
#[derive(Debug, PartialEq)]
pub enum Token {
    Illegal(String),
    Eof,
    Ident(String),
    Int(i64),
    Assign,
    Plus,
    Minus,
    Asterisk,
    Slash,
    Eq,
    NotEq,
    Lt,
    Gt,
    LParen,
    RParen,
    Comma,
    Function,
    Let,
    True,
    False,
    If,
    Then,
    Else,
    End,
    Return,
}

/// The mathematical value of a [`Token`]: the same variants, with text as a
/// sequence of characters.
pub enum TokenView {
    Illegal(Seq<char>),
    Eof,
    Ident(Seq<char>),
    Int(i64),
    Assign,
    Plus,
    Minus,
    Asterisk,
    Slash,
    Eq,
    NotEq,
    Lt,
    Gt,
    LParen,
    RParen,
    Comma,
    Function,
    Let,
    True,
    False,
    If,
    Then,
    Else,
    End,
    Return,
}

impl View for Token {
    type V = TokenView;

    open spec fn view(&self) -> TokenView {
        match self {
            Token::Illegal(s) => TokenView::Illegal(s@),
            Token::Eof => TokenView::Eof,
            Token::Ident(s) => TokenView::Ident(s@),
            Token::Int(n) => TokenView::Int(*n),
            Token::Assign => TokenView::Assign,
            Token::Plus => TokenView::Plus,
            Token::Minus => TokenView::Minus,
            Token::Asterisk => TokenView::Asterisk,
            Token::Slash => TokenView::Slash,
            Token::Eq => TokenView::Eq,
            Token::NotEq => TokenView::NotEq,
            Token::Lt => TokenView::Lt,
            Token::Gt => TokenView::Gt,
            Token::LParen => TokenView::LParen,
            Token::RParen => TokenView::RParen,
            Token::Comma => TokenView::Comma,
            Token::Function => TokenView::Function,
            Token::Let => TokenView::Let,
            Token::True => TokenView::True,
            Token::False => TokenView::False,
            Token::If => TokenView::If,
            Token::Then => TokenView::Then,
            Token::Else => TokenView::Else,
            Token::End => TokenView::End,
            Token::Return => TokenView::Return,
        }
    }
}

impl Clone for Token {
    fn clone(&self) -> (res: Self)
        ensures
            res == *self,
    {
        match self {
            Token::Illegal(s) => Token::Illegal(s.clone()),
            Token::Eof => Token::Eof,
            Token::Ident(s) => Token::Ident(s.clone()),
            Token::Int(n) => Token::Int(*n),
            Token::Assign => Token::Assign,
            Token::Plus => Token::Plus,
            Token::Minus => Token::Minus,
            Token::Asterisk => Token::Asterisk,
            Token::Slash => Token::Slash,
            Token::Eq => Token::Eq,
            Token::NotEq => Token::NotEq,
            Token::Lt => Token::Lt,
            Token::Gt => Token::Gt,
            Token::LParen => Token::LParen,
            Token::RParen => Token::RParen,
            Token::Comma => Token::Comma,
            Token::Function => Token::Function,
            Token::Let => Token::Let,
            Token::True => Token::True,
            Token::False => Token::False,
            Token::If => Token::If,
            Token::Then => Token::Then,
            Token::Else => Token::Else,
            Token::End => Token::End,
            Token::Return => Token::Return,
        }
    }
}

impl TokenView {
    /// Whether two tokens are of the same lexical category, whatever text or
    /// number they carry.
    pub open spec fn same_kind(self, other: TokenView) -> bool {
        match self {
            TokenView::Illegal(_) => other is Illegal,
            TokenView::Ident(_) => other is Ident,
            TokenView::Int(_) => other is Int,
            _ => self == other,
        }
    }

    /// The text that debug formatting gives for the token: the name of its
    /// category, followed for a token that carries text or a number by that
    /// payload in parentheses.
    pub open spec fn debug(self) -> Seq<char> {
        match self {
            TokenView::Illegal(s) => "Illegal("@ + debug_text(s) + ")"@,
            TokenView::Eof => "Eof"@,
            TokenView::Ident(s) => "Ident("@ + debug_text(s) + ")"@,
            TokenView::Int(n) => "Int("@ + decimal_text(n as int) + ")"@,
            TokenView::Assign => "Assign"@,
            TokenView::Plus => "Plus"@,
            TokenView::Minus => "Minus"@,
            TokenView::Asterisk => "Asterisk"@,
            TokenView::Slash => "Slash"@,
            TokenView::Eq => "Eq"@,
            TokenView::NotEq => "NotEq"@,
            TokenView::Lt => "Lt"@,
            TokenView::Gt => "Gt"@,
            TokenView::LParen => "LParen"@,
            TokenView::RParen => "RParen"@,
            TokenView::Comma => "Comma"@,
            TokenView::Function => "Function"@,
            TokenView::Let => "Let"@,
            TokenView::True => "True"@,
            TokenView::False => "False"@,
            TokenView::If => "If"@,
            TokenView::Then => "Then"@,
            TokenView::Else => "Else"@,
            TokenView::End => "End"@,
            TokenView::Return => "Return"@,
        }
    }
}

impl Token {
    /// Decides whether two tokens are of the same lexical category.
    pub fn same_kind(&self, other: &Token) -> (same: bool)
        ensures
            same == self@.same_kind(other@),
    {
        match (self, other) {
            (Token::Illegal(_), Token::Illegal(_)) => true,
            (Token::Eof, Token::Eof) => true,
            (Token::Ident(_), Token::Ident(_)) => true,
            (Token::Int(_), Token::Int(_)) => true,
            (Token::Assign, Token::Assign) => true,
            (Token::Plus, Token::Plus) => true,
            (Token::Minus, Token::Minus) => true,
            (Token::Asterisk, Token::Asterisk) => true,
            (Token::Slash, Token::Slash) => true,
            (Token::Eq, Token::Eq) => true,
            (Token::NotEq, Token::NotEq) => true,
            (Token::Lt, Token::Lt) => true,
            (Token::Gt, Token::Gt) => true,
            (Token::LParen, Token::LParen) => true,
            (Token::RParen, Token::RParen) => true,
            (Token::Comma, Token::Comma) => true,
            (Token::Function, Token::Function) => true,
            (Token::Let, Token::Let) => true,
            (Token::True, Token::True) => true,
            (Token::False, Token::False) => true,
            (Token::If, Token::If) => true,
            (Token::Then, Token::Then) => true,
            (Token::Else, Token::Else) => true,
            (Token::End, Token::End) => true,
            (Token::Return, Token::Return) => true,
            _ => false,
        }
    }

    /// Appends the debug text of the token to `out`.
    pub fn push_debug(&self, out: &mut String)
        ensures
            final(out)@ == old(out)@ + self@.debug(),
    {
        match self {
            Token::Illegal(s) => {
                out.append("Illegal(");
                out.append(quoted(s.as_str()).as_str());
                out.append(")");
                assert(out@ =~= old(out)@ + self@.debug());
            },
            Token::Eof => out.append("Eof"),
            Token::Ident(s) => {
                out.append("Ident(");
                out.append(quoted(s.as_str()).as_str());
                out.append(")");
                assert(out@ =~= old(out)@ + self@.debug());
            },
            Token::Int(n) => {
                out.append("Int(");
                push_decimal(out, *n);
                out.append(")");
                assert(out@ =~= old(out)@ + self@.debug());
            },
            Token::Assign => out.append("Assign"),
            Token::Plus => out.append("Plus"),
            Token::Minus => out.append("Minus"),
            Token::Asterisk => out.append("Asterisk"),
            Token::Slash => out.append("Slash"),
            Token::Eq => out.append("Eq"),
            Token::NotEq => out.append("NotEq"),
            Token::Lt => out.append("Lt"),
            Token::Gt => out.append("Gt"),
            Token::LParen => out.append("LParen"),
            Token::RParen => out.append("RParen"),
            Token::Comma => out.append("Comma"),
            Token::Function => out.append("Function"),
            Token::Let => out.append("Let"),
            Token::True => out.append("True"),
            Token::False => out.append("False"),
            Token::If => out.append("If"),
            Token::Then => out.append("Then"),
            Token::Else => out.append("Else"),
            Token::End => out.append("End"),
            Token::Return => out.append("Return"),
        }
    }
}

/// The token that a maximal identifier run stands for: a keyword, or an
/// identifier carrying the text.
pub open spec fn keyword_or_ident(text: Seq<char>) -> TokenView {
    if text == "function"@ {
        TokenView::Function
    } else if text == "local"@ {
        TokenView::Let
    } else if text == "true"@ {
        TokenView::True
    } else if text == "false"@ {
        TokenView::False
    } else if text == "if"@ {
        TokenView::If
    } else if text == "then"@ {
        TokenView::Then
    } else if text == "else"@ {
        TokenView::Else
    } else if text == "end"@ {
        TokenView::End
    } else if text == "return"@ {
        TokenView::Return
    } else {
        TokenView::Ident(text)
    }
}

/// A run of identifier characters never stands for end-of-input.
pub proof fn lemma_keyword_or_ident_is_a_word(text: Seq<char>)
    ensures
        keyword_or_ident(text) != TokenView::Eof,
{
}

/// Maps identifier text through the keyword table.
pub fn lookup_ident(ident: &str) -> (tok: Token)
    ensures
        tok@ == keyword_or_ident(ident@),
{
    proof {
        reveal_strlit("function");
        reveal_strlit("local");
        reveal_strlit("true");
        reveal_strlit("false");
        reveal_strlit("if");
        reveal_strlit("then");
        reveal_strlit("else");
        reveal_strlit("end");
        reveal_strlit("return");
    }
    if ident.eq("function") {
        Token::Function
    } else if ident.eq("local") {
        Token::Let
    } else if ident.eq("true") {
        Token::True
    } else if ident.eq("false") {
        Token::False
    } else if ident.eq("if") {
        Token::If
    } else if ident.eq("then") {
        Token::Then
    } else if ident.eq("else") {
        Token::Else
    } else if ident.eq("end") {
        Token::End
    } else if ident.eq("return") {
        Token::Return
    } else {
        Token::Ident(ident.to_owned())
    }
}

} // verus!
