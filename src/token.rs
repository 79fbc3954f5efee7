//! Tokens: what the lexer reads out of a template.
use vstd::prelude::*;

use crate::text::{push_all, push_char};

verus! {

/// A lexical token of the template language.
#[derive(Debug, Clone, Eq, Hash)]
pub enum Token {
    Text(String),
    Identifier(String),
    StringLiteral(String),
    /// `function.` in front of a legacy helper call
    LegacyHelper,
    /// `{{{` or `<!--`
    BlockOpen,
    /// `}}}` or `-->`
    BlockClose,
    /// `if`, `IF`
    If,
    /// `else`, `ELSE`
    Else,
    /// `each`, `BEGIN`
    Iter,
    /// `end`, `END`, `ENDIF`
    End,
    Bang,
    LeftParen,
    RightParen,
    Comma,
    /// `{{`
    RawOpen,
    /// `}}`
    RawClose,
    /// `{`
    EscapedOpen,
    /// `}`
    EscapedClose,
}

/// The value of a token, with the text of the kinds that carry one.
pub enum Tok {
    Text(Seq<char>),
    Identifier(Seq<char>),
    StringLiteral(Seq<char>),
    LegacyHelper,
    BlockOpen,
    BlockClose,
    If,
    Else,
    Iter,
    End,
    Bang,
    LeftParen,
    RightParen,
    Comma,
    RawOpen,
    RawClose,
    EscapedOpen,
    EscapedClose,
}

impl View for Token {
    type V = Tok;

    open spec fn view(&self) -> Tok {
        match self {
            Token::Text(s) => Tok::Text(s@),
            Token::Identifier(s) => Tok::Identifier(s@),
            Token::StringLiteral(s) => Tok::StringLiteral(s@),
            Token::LegacyHelper => Tok::LegacyHelper,
            Token::BlockOpen => Tok::BlockOpen,
            Token::BlockClose => Tok::BlockClose,
            Token::If => Tok::If,
            Token::Else => Tok::Else,
            Token::Iter => Tok::Iter,
            Token::End => Tok::End,
            Token::Bang => Tok::Bang,
            Token::LeftParen => Tok::LeftParen,
            Token::RightParen => Tok::RightParen,
            Token::Comma => Tok::Comma,
            Token::RawOpen => Tok::RawOpen,
            Token::RawClose => Tok::RawClose,
            Token::EscapedOpen => Tok::EscapedOpen,
            Token::EscapedClose => Tok::EscapedClose,
        }
    }
}

/// The values of a sequence of tokens.
pub open spec fn tok_views(v: Seq<Token>) -> Seq<Tok> {
    v.map_values(|t: Token| t@)
}

impl Token {
    /// A copy of this token.
    pub fn copy(&self) -> (r: Token)
        ensures
            r@ == self@,
    {
        match self {
            Token::Text(s) => Token::Text(s.clone()),
            Token::Identifier(s) => Token::Identifier(s.clone()),
            Token::StringLiteral(s) => Token::StringLiteral(s.clone()),
            Token::LegacyHelper => Token::LegacyHelper,
            Token::BlockOpen => Token::BlockOpen,
            Token::BlockClose => Token::BlockClose,
            Token::If => Token::If,
            Token::Else => Token::Else,
            Token::Iter => Token::Iter,
            Token::End => Token::End,
            Token::Bang => Token::Bang,
            Token::LeftParen => Token::LeftParen,
            Token::RightParen => Token::RightParen,
            Token::Comma => Token::Comma,
            Token::RawOpen => Token::RawOpen,
            Token::RawClose => Token::RawClose,
            Token::EscapedOpen => Token::EscapedOpen,
            Token::EscapedClose => Token::EscapedClose,
        }
    }

    /// Whether this token is the keyword or symbol `other` is, or carries
    /// the same text in the same kind.
    pub fn same(&self, other: &Token) -> (r: bool)
        ensures
            r == (self@ == other@),
    {
        match (self, other) {
            (Token::Text(a), Token::Text(b)) => (*a).eq(b),
            (Token::Identifier(a), Token::Identifier(b)) => (*a).eq(b),
            (Token::StringLiteral(a), Token::StringLiteral(b)) => (*a).eq(b),
            (Token::LegacyHelper, Token::LegacyHelper) => true,
            (Token::BlockOpen, Token::BlockOpen) => true,
            (Token::BlockClose, Token::BlockClose) => true,
            (Token::If, Token::If) => true,
            (Token::Else, Token::Else) => true,
            (Token::Iter, Token::Iter) => true,
            (Token::End, Token::End) => true,
            (Token::Bang, Token::Bang) => true,
            (Token::LeftParen, Token::LeftParen) => true,
            (Token::RightParen, Token::RightParen) => true,
            (Token::Comma, Token::Comma) => true,
            (Token::RawOpen, Token::RawOpen) => true,
            (Token::RawClose, Token::RawClose) => true,
            (Token::EscapedOpen, Token::EscapedOpen) => true,
            (Token::EscapedClose, Token::EscapedClose) => true,
            _ => false,
        }
    }
}

/// The text a token stands for in a listing: text and identifiers as they
/// are, a string literal in quotes, symbols as written, and nothing for
/// keywords and block delimiters.
pub open spec fn tok_text(t: Tok) -> Seq<char> {
    match t {
        Tok::Text(v) => v,
        Tok::Identifier(v) => v,
        Tok::StringLiteral(v) => seq!['"'] + v + seq!['"'],
        Tok::LegacyHelper => seq!['f', 'u', 'n', 'c', 't', 'i', 'o', 'n', '.'],
        Tok::Bang => seq!['!'],
        Tok::LeftParen => seq!['('],
        Tok::RightParen => seq![')'],
        Tok::Comma => seq![','],
        Tok::RawOpen => seq!['{', '{'],
        Tok::RawClose => seq!['}', '}'],
        Tok::EscapedOpen => seq!['{'],
        Tok::EscapedClose => seq!['}'],
        _ => seq![],
    }
}

fn chars_string(cs: &[char]) -> (r: String)
    ensures
        r@ == cs@,
{
    let mut out = String::new();
    let mut i: usize = 0;
    while i < cs.len()
        invariant
            i <= cs.len(),
            out@ == cs@.subrange(0, i as int),
        decreases cs.len() - i,
    {
        push_char(&mut out, cs[i]);
        i += 1;
        assert(out@ =~= cs@.subrange(0, i as int));
    }
    assert(cs@.subrange(0, cs.len() as int) =~= cs@);
    out
}

impl Token {
    /// The text this token stands for in a listing.
    pub fn to_string(&self) -> (r: String)
        ensures
            r@ == tok_text(self@),
    {
        let symbol: &[char] = match self {
            Token::Text(val) => {
                return val.clone();
            },
            Token::Identifier(val) => {
                return val.clone();
            },
            Token::StringLiteral(val) => {
                let mut out = String::new();
                push_char(&mut out, '"');
                push_all(&mut out, val);
                push_char(&mut out, '"');
                return out;
            },
            Token::LegacyHelper => &['f', 'u', 'n', 'c', 't', 'i', 'o', 'n', '.'],
            Token::Bang => &['!'],
            Token::LeftParen => &['('],
            Token::RightParen => &[')'],
            Token::Comma => &[','],
            Token::RawOpen => &['{', '{'],
            Token::RawClose => &['}', '}'],
            Token::EscapedOpen => &['{'],
            Token::EscapedClose => &['}'],
            _ => &[],
        };
        proof {
            assert(symbol@ =~= tok_text(self@));
        }
        chars_string(symbol)
    }
}

impl PartialEq for Token {
    fn eq(&self, other: &Token) -> (r: bool) {
        self.same(other)
    }
}

impl vstd::std_specs::cmp::PartialEqSpecImpl for Token {
    open spec fn obeys_eq_spec() -> bool {
        true
    }

    open spec fn eq_spec(&self, other: &Token) -> bool {
        self@ == other@
    }
}

/// Copies a sequence of tokens, keeping their values.
pub fn copy_tokens(v: &Vec<Token>) -> (r: Vec<Token>)
    ensures
        tok_views(r@) == tok_views(v@),
{
    let mut out: Vec<Token> = Vec::new();
    let mut i: usize = 0;
    while i < v.len()
        invariant
            i <= v.len(),
            out.len() == i,
            forall|k: int| 0 <= k < i ==> (#[trigger] out@[k])@ == v@[k]@,
        decreases v.len() - i,
    {
        out.push(v[i].copy());
        i += 1;
    }
    assert(tok_views(out@) =~= tok_views(v@));
    out
}

/// A token with the span of the template that it was read from.  `lex`
/// gives spans in bytes of the template's UTF-8 encoding; the cursor-level
/// `lex_expression` and `lex_block` give character indexes into the
/// characters they read.
#[derive(Debug, Clone, Eq, Hash)]
pub struct TokenPos {
    pub start: usize,
    pub end: usize,
    pub tok: Token,
}

/// The value of a positioned token.
pub struct TokAt {
    pub start: int,
    pub end: int,
    pub tok: Tok,
}

impl View for TokenPos {
    type V = TokAt;

    open spec fn view(&self) -> TokAt {
        TokAt { start: self.start as int, end: self.end as int, tok: self.tok@ }
    }
}

/// The values of a sequence of positioned tokens.
pub open spec fn tok_at_views(v: Seq<TokenPos>) -> Seq<TokAt> {
    v.map_values(|t: TokenPos| t@)
}

impl TokenPos {
    /// A copy of this positioned token.
    pub fn copy(&self) -> (r: TokenPos)
        ensures
            r@ == self@,
    {
        TokenPos { start: self.start, end: self.end, tok: self.tok.copy() }
    }
}

impl PartialEq for TokenPos {
    fn eq(&self, other: &TokenPos) -> (r: bool) {
        self.start == other.start && self.end == other.end && self.tok.same(&other.tok)
    }
}

impl vstd::std_specs::cmp::PartialEqSpecImpl for TokenPos {
    open spec fn obeys_eq_spec() -> bool {
        true
    }

    open spec fn eq_spec(&self, other: &TokenPos) -> bool {
        self@ == other@
    }
}

} // verus!
