//! Instructions: runs of tokens grouped into text, interpolations and the
//! openers and closers of blocks.
use vstd::prelude::*;

use crate::text::{byte_offset, chars_of, lemma_byte_offset_bounds, push_char, utf8_len_of};
use crate::token::{copy_tokens, tok_views, Tok, Token, TokenPos};

verus! {

/// An instruction of a template.
#[derive(Debug, Clone, PartialEq, Eq, Hash)]
pub enum Instruction {
    Text(String),
    Escaped(Vec<Token>),
    Raw(Vec<Token>),
    IfStart(Vec<Token>),
    IterStart(Vec<Token>),
    Else,
    End(Vec<Token>),
}

/// The value of an instruction.
pub enum Inst {
    Text(Seq<char>),
    Escaped(Seq<Tok>),
    Raw(Seq<Tok>),
    IfStart(Seq<Tok>),
    IterStart(Seq<Tok>),
    Else,
    End(Seq<Tok>),
}

impl View for Instruction {
    type V = Inst;

    open spec fn view(&self) -> Inst {
        match self {
            Instruction::Text(s) => Inst::Text(s@),
            Instruction::Escaped(t) => Inst::Escaped(tok_views(t@)),
            Instruction::Raw(t) => Inst::Raw(tok_views(t@)),
            Instruction::IfStart(t) => Inst::IfStart(tok_views(t@)),
            Instruction::IterStart(t) => Inst::IterStart(tok_views(t@)),
            Instruction::Else => Inst::Else,
            Instruction::End(t) => Inst::End(tok_views(t@)),
        }
    }
}

impl Instruction {
    /// A copy of this instruction.
    pub fn copy(&self) -> (r: Instruction)
        ensures
            r@ == self@,
    {
        match self {
            Instruction::Text(s) => Instruction::Text(s.clone()),
            Instruction::Escaped(t) => Instruction::Escaped(copy_tokens(t)),
            Instruction::Raw(t) => Instruction::Raw(copy_tokens(t)),
            Instruction::IfStart(t) => Instruction::IfStart(copy_tokens(t)),
            Instruction::IterStart(t) => Instruction::IterStart(copy_tokens(t)),
            Instruction::Else => Instruction::Else,
            Instruction::End(t) => Instruction::End(copy_tokens(t)),
        }
    }
}

/// An instruction with the span of the template it was read from, in bytes
/// of its UTF-8 encoding.
#[derive(Debug, Clone, PartialEq, Eq, Hash)]
pub struct InstructionPos {
    pub start: usize,
    pub end: usize,
    pub inst: Instruction,
}

/// The value of a positioned instruction.
pub struct InstAt {
    pub start: int,
    pub end: int,
    pub inst: Inst,
}

impl View for InstructionPos {
    type V = InstAt;

    open spec fn view(&self) -> InstAt {
        InstAt { start: self.start as int, end: self.end as int, inst: self.inst@ }
    }
}

/// The values of a sequence of positioned instructions.
pub open spec fn inst_views(v: Seq<InstructionPos>) -> Seq<InstAt> {
    v.map_values(|i: InstructionPos| i@)
}

/// The text of `source` in `[start, end)`, cut to the source.
pub open spec fn source_text(source: Seq<char>, start: int, end: int) -> Seq<char> {
    chars_in_bytes(source, source.len() as int, start, end)
}

/// Of the first `n` characters of `s`, those whose UTF-8 bytes lie in
/// `[start, end)`.
pub open spec fn chars_in_bytes(s: Seq<char>, n: int, start: int, end: int) -> Seq<char>
    decreases n,
{
    if n <= 0 {
        seq![]
    } else {
        chars_in_bytes(s, n - 1, start, end) + if start <= byte_offset(s, n - 1) && byte_offset(s, n)
            <= end {
            seq![s[n - 1]]
        } else {
            seq![]
        }
    }
}

/// Past a character that ends after `end`, no further character is taken.
proof fn lemma_no_more_chars(s: Seq<char>, i: int, m: int, start: int, end: int)
    requires
        0 <= i < m <= s.len(),
        byte_offset(s, i + 1) > end,
    ensures
        chars_in_bytes(s, m, start, end) == chars_in_bytes(s, i, start, end),
    decreases m,
{
    if m > i + 1 {
        lemma_no_more_chars(s, i, m - 1, start, end);
        lemma_byte_offset_bounds(s, i + 1, m);
    }
    assert(chars_in_bytes(s, m, start, end) =~= chars_in_bytes(s, m - 1, start, end));
}

/// The same span, holding its source text.
pub open spec fn as_text(source: Seq<char>, i: InstAt) -> InstAt {
    InstAt { start: i.start, end: i.end, inst: Inst::Text(source_text(source, i.start, i.end)) }
}

impl InstructionPos {
    /// A copy of this positioned instruction.
    pub fn copy(&self) -> (r: InstructionPos)
        ensures
            r@ == self@,
    {
        InstructionPos { start: self.start, end: self.end, inst: self.inst.copy() }
    }

    /// The text of the template that this instruction was read from.
    pub fn get_source(&self, source: &str) -> (r: String)
        ensures
            r@ == source_text(source@, self.start as int, self.end as int),
    {
        let chars = chars_of(source);
        let mut out = String::new();
        let mut off: usize = 0;
        let mut i: usize = 0;
        assert(out@ =~= chars_in_bytes(source@, 0, self.start as int, self.end as int));
        while i < chars.len()
            invariant
                i <= chars.len(),
                chars@ == source@,
                off == byte_offset(source@, i as int),
                off <= self.end,
                out@ == chars_in_bytes(source@, i as int, self.start as int, self.end as int),
            decreases chars.len() - i,
        {
            let l = utf8_len_of(chars[i]);
            if l > self.end - off {
                proof {
                    lemma_no_more_chars(source@, i as int, chars.len() as int, self.start as int, self.end as int);
                }
                return out;
            }
            if self.start <= off {
                push_char(&mut out, chars[i]);
            }
            off = off + l;
            i += 1;
        }
        out
    }

    /// This instruction turned into text: the same span, with its source.
    pub fn to_text(&self, source: &str) -> (r: InstructionPos)
        ensures
            r@ == as_text(source@, self@),
    {
        InstructionPos { start: self.start, end: self.end, inst: Instruction::Text(self.get_source(source)) }
    }

    /// The text instruction for a text token; nothing for any other token.
    pub fn from_text(input: TokenPos) -> (r: Option<InstructionPos>)
        ensures
            input.tok is Text ==> r == Some(
                InstructionPos {
                    start: input.start,
                    end: input.end,
                    inst: Instruction::Text(input.tok->Text_0),
                },
            ),
            !(input.tok is Text) ==> r is None,
    {
        match input {
            TokenPos { start, end, tok: Token::Text(text) } => Some(
                InstructionPos { start, end, inst: Instruction::Text(text) },
            ),
            _ => None,
        }
    }
}

} // verus!
