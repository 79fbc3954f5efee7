//! The lexer: a cursor over the characters of a template, with a window
//! `[start, end)` that grows, steps and is rolled back by copying.
use vstd::prelude::*;

use crate::text::{byte_offset, byte_offsets, chars_of, push_all, string_from};
use crate::token::{tok_at_views, Tok, TokAt, Token, TokenPos};

verus! {

// ================================================================ the model

/// A window `[start, end)` over the source.
pub struct Cur {
    pub start: int,
    pub end: int,
}

/// Moves the window just past its end, with length one.
pub open spec fn step(c: Cur) -> Cur {
    Cur { start: c.end, end: c.end + 1 }
}

/// Moves the window `n` characters past its end, with length one.
pub open spec fn step_by(c: Cur, n: int) -> Cur {
    Cur { start: c.end + n - 1, end: c.end + n }
}

/// Widens the window by `n` characters to the right.
pub open spec fn grow_by(c: Cur, n: int) -> Cur {
    Cur { start: c.start, end: c.end + n }
}

pub open spec fn has_window(s: Seq<char>, c: Cur) -> bool {
    0 <= c.start <= c.end <= s.len()
}

pub open spec fn window(s: Seq<char>, c: Cur) -> Seq<char> {
    s.subrange(c.start, c.end)
}

/// The window lies inside the source and reads `t`.
pub open spec fn window_is(s: Seq<char>, c: Cur, t: Seq<char>) -> bool {
    has_window(s, c) && window(s, c) == t
}

/// The characters right after the window read `t`.
pub open spec fn followed_by(s: Seq<char>, c: Cur, t: Seq<char>) -> bool {
    0 <= c.end && c.end + t.len() <= s.len() && s.subrange(c.end, c.end + t.len()) == t
}

/// Steps over single spaces.
pub open spec fn skip_spaces(s: Seq<char>, c: Cur) -> Cur
    decreases s.len() - c.start,
{
    if window_is(s, c, seq![' ']) && c.start < c.end {
        skip_spaces(s, step(c))
    } else {
        c
    }
}

pub open spec fn at(c: Cur, tok: Tok) -> TokAt {
    TokAt { start: c.start, end: c.end, tok }
}

/// What `char::is_alphabetic` says of a character.
pub uninterp spec fn alphabetic(c: char) -> bool;

/// What `char::is_numeric` says of a character.
pub uninterp spec fn numeric(c: char) -> bool;

/// A character that may stand in an identifier.
pub open spec fn is_simple(c: char) -> bool {
    alphabetic(c) || numeric(c) || c == '@' || c == '/' || c == '_' || c == ':' || c == '\\'
        || c == '-' || c == '.'
}

/// The end of the run of identifier characters from `e`.
pub open spec fn ident_end(s: Seq<char>, e: int) -> int
    decreases s.len() - e,
{
    if 0 <= e < s.len() && is_simple(s[e]) {
        ident_end(s, e + 1)
    } else {
        e
    }
}

pub open spec fn function_prefix() -> Seq<char> {
    seq!['f', 'u', 'n', 'c', 't', 'i', 'o', 'n', '.']
}

/// The rest of a string literal that began at `start`; `c` holds what has
/// been read after the opening quote.  A backslash takes the next character
/// with it.
pub open spec fn string_rest(s: Seq<char>, start: int, c: Cur) -> (Cur, Option<Seq<TokAt>>)
    decreases s.len() + 2 - c.end,
{
    if !has_window(s, c) || c.end <= c.start {
        (c, None)
    } else if s[c.end - 1] == '\\' {
        string_rest(s, start, grow_by(c, 2))
    } else if s[c.end - 1] == '"' {
        let c2 = step(c);
        (
            c2,
            Some(
                seq![TokAt { start, end: c2.start, tok: Tok::StringLiteral(s.subrange(c.start, c.end - 1)) }],
            ),
        )
    } else {
        string_rest(s, start, grow_by(c, 1))
    }
}

/// A cursor after `c` that moved forward and lies inside the source.
pub open spec fn advanced(s: Seq<char>, c: Cur, next: Cur) -> bool {
    c.start < next.start <= s.len()
}

/// The arguments of a legacy helper call: `, expr` groups; an argument that
/// does not lex is left out, which allows a trailing comma.
pub open spec fn legacy_args(s: Seq<char>, c: Cur, acc: Seq<TokAt>) -> (Cur, Seq<TokAt>)
    decreases s.len() - c.start, 0int,
{
    if window_is(s, c, seq![',']) && c.start + 1 == c.end && c.start < s.len() {
        let acc2 = acc.push(at(c, Tok::Comma));
        let (c3, r) = lex_expr(s, step(c));
        let acc3 = match r {
            Some(t) => acc2 + t,
            None => acc2,
        };
        let c4 = skip_spaces(s, c3);
        if advanced(s, c, c4) {
            legacy_args(s, c4, acc3)
        } else {
            (c4, acc3)
        }
    } else {
        (c, acc)
    }
}

/// The arguments of a call after `(` or `,` at `c`: an expression, then a
/// `,` to go on; an argument that does not lex is left out.
pub open spec fn paren_args(s: Seq<char>, c: Cur, acc: Seq<TokAt>) -> (Cur, Seq<TokAt>)
    decreases s.len() - c.start, 0int,
{
    if c.start + 1 == c.end && 0 <= c.start < s.len() {
        let (c3, r) = lex_expr(s, step(c));
        let acc2 = match r {
            Some(t) => acc + t,
            None => acc,
        };
        let c4 = skip_spaces(s, c3);
        if window_is(s, c4, seq![',']) {
            let acc3 = acc2.push(at(c4, Tok::Comma));
            if advanced(s, c, c4) {
                paren_args(s, c4, acc3)
            } else {
                (c4, acc3)
            }
        } else {
            (c4, acc2)
        }
    } else {
        (c, acc)
    }
}

/// An expression read from the one-character window `c0`, with the cursor
/// after it: a string literal, `!` and an expression, a legacy helper call
/// `function.name, args`, an identifier, or a call `name(args)`.  On failure
/// the cursor is where reading stopped.
pub open spec fn lex_expr(s: Seq<char>, c0: Cur) -> (Cur, Option<Seq<TokAt>>)
    decreases s.len() - c0.start, 1int,
{
    let c = skip_spaces(s, c0);
    if !has_window(s, c) || c.start >= s.len() || c.start < c0.start || c.end != c.start + 1 {
        (c, Some(seq![]))
    } else if s[c.start] == '"' {
        string_rest(s, c.start, step(c))
    } else if s[c.start] == '!' {
        let (c2, r) = lex_expr(s, step(c));
        match r {
            Some(t) => (skip_spaces(s, c2), Some(seq![at(c, Tok::Bang)] + t)),
            None => (c2, None),
        }
    } else if s[c.start] != '-' && is_simple(s[c.start]) {
        let c1 = Cur { start: c.start, end: ident_end(s, c.end) };
        let name = window(s, c1);
        if name.len() >= 9 && name.subrange(0, 9) == function_prefix() {
            let toks = seq![
                TokAt { start: c1.start, end: c1.start + 9, tok: Tok::LegacyHelper },
                TokAt { start: c1.start + 9, end: c1.end, tok: Tok::Identifier(name.subrange(9, name.len() as int)) },
            ];
            let c2 = skip_spaces(s, step(c1));
            if advanced(s, c0, c2) {
                let (c3, acc) = legacy_args(s, c2, toks);
                (skip_spaces(s, c3), Some(acc))
            } else {
                (c2, Some(toks))
            }
        } else {
            let toks = seq![at(c1, Tok::Identifier(name))];
            let c2 = skip_spaces(s, step(c1));
            if window_is(s, c2, seq!['(']) {
                if advanced(s, c0, c2) {
                    let (c3, acc) = paren_args(s, c2, toks.push(at(c2, Tok::LeftParen)));
                    if window_is(s, c3, seq![')']) {
                        (skip_spaces(s, step(c3)), Some(acc.push(at(c3, Tok::RightParen))))
                    } else {
                        (c3, None)
                    }
                } else {
                    (c2, None)
                }
            } else {
                (skip_spaces(s, c2), Some(toks))
            }
        }
    } else {
        (c, None)
    }
}

/// A block keyword and its subject, read after `<!--` or `{{{`:
/// `if x`, `each x` / `BEGIN x`, `end [x]` / `END [x]` / `ENDIF [x]`,
/// `else` / `ELSE`.
pub open spec fn lex_block_spec(s: Seq<char>, c0: Cur) -> (Cur, Option<Seq<TokAt>>) {
    let c = grow_by(skip_spaces(s, c0), 2);
    let w = window(s, c);
    if !has_window(s, c) {
        (c, Some(seq![]))
    } else if w == seq!['i', 'f', ' '] || w == seq!['I', 'F', ' '] {
        let kw = TokAt { start: c.start, end: c.end - 1, tok: Tok::If };
        subject_required(s, skip_spaces(s, step(c)), kw)
    } else if w == seq!['e', 'a', 'c'] {
        if followed_by(s, c, seq!['h', ' ']) {
            let c2 = grow_by(c, 1);
            subject_required(s, skip_spaces(s, step(c2)), at(c2, Tok::Iter))
        } else {
            (c, None)
        }
    } else if w == seq!['B', 'E', 'G'] {
        if followed_by(s, c, seq!['I', 'N', ' ']) {
            let c2 = grow_by(c, 2);
            subject_required(s, skip_spaces(s, step(c2)), at(c2, Tok::Iter))
        } else {
            (c, None)
        }
    } else if w == seq!['e', 'n', 'd'] || w == seq!['E', 'N', 'D'] {
        let c2 = if w == seq!['E', 'N', 'D'] && followed_by(s, c, seq!['I', 'F']) {
            grow_by(c, 2)
        } else {
            c
        };
        let (c3, r) = lex_expr(s, skip_spaces(s, step(c2)));
        let subject = match r {
            Some(t) => t,
            None => seq![],
        };
        (skip_spaces(s, c3), Some(seq![at(c2, Tok::End)] + subject))
    } else if (w == seq!['e', 'l', 's'] && followed_by(s, c, seq!['e'])) || (w == seq![
        'E',
        'L',
        'S',
    ] && followed_by(s, c, seq!['E'])) {
        let c2 = grow_by(c, 1);
        (skip_spaces(s, step(c2)), Some(seq![at(c2, Tok::Else)]))
    } else {
        (c, None)
    }
}

/// A keyword whose subject must lex.
pub open spec fn subject_required(s: Seq<char>, c: Cur, kw: TokAt) -> (Cur, Option<Seq<TokAt>>) {
    let (c2, r) = lex_expr(s, c);
    match r {
        Some(t) => (skip_spaces(s, c2), Some(seq![kw] + t)),
        None => (c2, None),
    }
}

/// The escape targets, in the order they are tried after a backslash.
pub open spec fn escape_target(s: Seq<char>, c: Cur) -> Option<Seq<char>> {
    if followed_by(s, c, seq!['<', '!', '-', '-']) {
        Some(seq!['<', '!', '-', '-'])
    } else if followed_by(s, c, seq!['{', '{', '{']) {
        Some(seq!['{', '{', '{'])
    } else if followed_by(s, c, seq!['{', '{']) {
        Some(seq!['{', '{'])
    } else if followed_by(s, c, seq!['{']) {
        Some(seq!['{'])
    } else {
        None
    }
}

/// An interpolation `{expr}` or `{{expr}}` whose opener is the window `c`:
/// the cursor after it and its tokens, or nothing when it does not lex.
pub open spec fn mustache(s: Seq<char>, c: Cur) -> Option<(Cur, Seq<TokAt>)> {
    let single = window(s, c) == seq!['{'];
    let (c3, r) = lex_expr(s, step(c));
    let closer = if single { c3 } else { grow_by(c3, 1) };
    let closer_text = if single { seq!['}'] } else { seq!['}', '}'] };
    match r {
        Some(t) => if window_is(s, closer, closer_text) {
            let (open, close) = if single {
                (Tok::EscapedOpen, Tok::EscapedClose)
            } else {
                (Tok::RawOpen, Tok::RawClose)
            };
            Some((step(closer), seq![at(c, open)] + t + seq![at(closer, close)]))
        } else {
            None
        },
        None => None,
    }
}

/// A block `<!-- ... -->` or `{{{ ... }}}` whose opener is the window `c`.
pub open spec fn block(s: Seq<char>, c: Cur) -> Option<(Cur, Seq<TokAt>)> {
    let legacy = window(s, c) == seq!['<', '!', '-', '-'];
    let (c3, r) = lex_block_spec(s, step(c));
    let closer = grow_by(c3, 2);
    let closer_text = if legacy { seq!['-', '-', '>'] } else { seq!['}', '}', '}'] };
    match r {
        Some(t) => if window_is(s, closer, closer_text) {
            Some((step(closer), seq![at(c, Tok::BlockOpen)] + t + seq![at(closer, Tok::BlockClose)]))
        } else {
            None
        },
        None => None,
    }
}

/// One move of the lexer from the window `c`.
pub open spec fn lex_step(s: Seq<char>, c: Cur, out: Seq<TokAt>) -> (Cur, Seq<TokAt>) {
    let w = window(s, c);
    if w == seq!['\\'] {
        match escape_target(s, c) {
            Some(t) => {
                let c1 = step(c);
                (step_by(c1, t.len() as int), out.push(TokAt { start: c1.start, end: c1.start + t.len(), tok: Tok::Text(t) }))
            },
            None => (grow_by(c, 1), out),
        }
    } else if w == seq!['{'] || w == seq!['{', '{'] {
        if followed_by(s, c, seq!['{']) {
            (grow_by(c, 1), out)
        } else {
            match mustache(s, c) {
                Some((c2, t)) => (c2, out + t),
                None => (step(c), out.push(at(c, Tok::Text(w)))),
            }
        }
    } else if w == seq!['<', '!', '-', '-'] || w == seq!['{', '{', '{'] {
        match block(s, c) {
            Some((c2, t)) => (c2, out + t),
            None => (step(c), out.push(at(c, Tok::Text(w)))),
        }
    } else if followed_by(s, c, seq!['\\']) || followed_by(s, c, seq!['{']) || followed_by(
        s,
        c,
        seq!['<', '!', '-', '-'],
    ) {
        (step(c), out.push(at(c, Tok::Text(w))))
    } else {
        (grow_by(c, 1), out)
    }
}

/// The lexer's loop from the window `c`: at the end of the source the rest
/// of the window is text.
pub open spec fn lex_run(s: Seq<char>, c: Cur, out: Seq<TokAt>) -> Seq<TokAt>
    decreases 2 * s.len() - c.start - c.end,
{
    if !has_window(s, c) || c.end <= c.start {
        out
    } else {
        let (c2, out2) = lex_step(s, c, out);
        if c2.end >= s.len() {
            if 0 <= c2.start <= s.len() {
                out2.push(TokAt { start: c2.start, end: s.len() as int, tok: Tok::Text(s.subrange(c2.start, s.len() as int)) })
            } else {
                out2
            }
        } else if c.start + c.end < c2.start + c2.end && c2.start < c2.end {
            lex_run(s, c2, out2)
        } else {
            out2
        }
    }
}

/// Whether a token is kept by the collapse: all but empty text.
pub open spec fn kept(t: TokAt) -> bool {
    !(t.tok is Text && t.tok->Text_0.len() == 0)
}

/// Merges runs of text tokens after `prev` and drops empty text.
pub open spec fn merge_texts(acc: Seq<TokAt>, prev: TokAt, rest: Seq<TokAt>) -> Seq<TokAt>
    decreases rest.len(),
{
    if rest.len() == 0 {
        if kept(prev) { acc.push(prev) } else { acc }
    } else {
        let cur = rest[0];
        if prev.tok is Text && cur.tok is Text {
            merge_texts(
                acc,
                TokAt { start: prev.start, end: cur.end, tok: Tok::Text(prev.tok->Text_0 + cur.tok->Text_0) },
                rest.drop_first(),
            )
        } else {
            merge_texts(if kept(prev) { acc.push(prev) } else { acc }, cur, rest.drop_first())
        }
    }
}

pub open spec fn collapse(toks: Seq<TokAt>) -> Seq<TokAt> {
    if toks.len() == 0 {
        seq![]
    } else {
        merge_texts(seq![], toks[0], toks.drop_first())
    }
}

/// The byte offset of the character position `i`, cut to the source.
pub open spec fn byte_at(s: Seq<char>, i: int) -> int {
    if i < 0 {
        0
    } else if i > s.len() {
        byte_offset(s, s.len() as int)
    } else {
        byte_offset(s, i)
    }
}

/// A token with its span in bytes instead of characters.
pub open spec fn tok_in_bytes(s: Seq<char>, t: TokAt) -> TokAt {
    TokAt { start: byte_at(s, t.start), end: byte_at(s, t.end), tok: t.tok }
}

/// The tokens of a template, their spans counting characters.
pub open spec fn lex_chars_spec(s: Seq<char>) -> Seq<TokAt> {
    collapse(lex_run(s, Cur { start: 0, end: 1 }, seq![]))
}

/// The tokens of a template, their spans in bytes of its UTF-8 encoding.
pub open spec fn lex_spec(s: Seq<char>) -> Seq<TokAt> {
    lex_chars_spec(s).map_values(|t: TokAt| tok_in_bytes(s, t))
}

/// The longest template that the lexer takes: positions stay well inside
/// `usize`.
pub open spec fn max_source_len() -> int {
    (usize::MAX / 4) as int
}

// ================================================================ the code

/// Relies on `char::is_alphabetic` (the Unicode `Alphabetic` property): of
/// the ASCII characters, exactly the letters are alphabetic.
#[verifier::external_body]
fn char_is_alphabetic(c: char) -> (r: bool)
    ensures
        r == alphabetic(c),
        (c as u32) < 0x80 ==> (r <==> (('a' <= c && c <= 'z') || ('A' <= c && c <= 'Z'))),
{
    c.is_alphabetic()
}

/// Relies on `char::is_numeric` (the Unicode general categories `Nd`, `Nl`
/// and `No`): of the ASCII characters, exactly the digits are numeric.
#[verifier::external_body]
fn char_is_numeric(c: char) -> (r: bool)
    ensures
        r == numeric(c),
        (c as u32) < 0x80 ==> (r <==> ('0' <= c && c <= '9')),
{
    c.is_numeric()
}

fn is_simple_char(ch: char) -> (r: bool)
    ensures
        r == is_simple(ch),
{
    char_is_alphabetic(ch) || char_is_numeric(ch) || ch == '@' || ch == '/' || ch == '_' || ch
        == ':' || ch == '\\' || ch == '-' || ch == '.'
}

/// A window `[start, end)` over the characters of a source.
#[derive(Debug, Clone, Copy)]
pub struct StringSlicer {
    pub start: usize,
    pub end: usize,
}

impl StringSlicer {
    pub open spec fn cur(self) -> Cur {
        Cur { start: self.start as int, end: self.end as int }
    }

    /// A non-empty window that starts inside the source (or at its end).
    pub open spec fn wf(self, n: int) -> bool {
        &&& self.start < self.end
        &&& self.start <= n
        &&& self.end <= n + 4
        &&& n <= max_source_len()
    }

    /// The window over the first character.
    pub fn new() -> (r: StringSlicer)
        ensures
            r.cur() == (Cur { start: 0, end: 1 }),
    {
        StringSlicer { start: 0, end: 1 }
    }

    /// The text of the window, if it lies inside the source.
    pub fn slice(&self, src: &Vec<char>) -> (r: Option<String>)
        requires
            self.start < self.end,
        ensures
            r is Some <==> has_window(src@, self.cur()),
            r is Some ==> r->0@ == window(src@, self.cur()),
    {
        if self.end <= src.len() {
            Some(string_from(src, self.start, self.end))
        } else {
            None
        }
    }

    /// Whether the window lies inside the source and reads `t`.
    pub fn window_is(&self, src: &Vec<char>, t: &[char]) -> (r: bool)
        requires
            self.start < self.end,
        ensures
            r == window_is(src@, self.cur(), t@),
    {
        if self.end > src.len() || self.end - self.start != t.len() {
            return false;
        }
        let mut i: usize = 0;
        while i < t.len()
            invariant
                self.start < self.end <= src.len(),
                self.end - self.start == t.len(),
                i <= t.len(),
                forall|k: int| 0 <= k < i ==> src@[self.start + k] == t@[k],
            decreases t.len() - i,
        {
            if src[self.start + i] != t[i] {
                return false;
            }
            i += 1;
        }
        assert(window(src@, self.cur()) =~= t@);
        true
    }

    /// Sets the window to length one.
    pub fn reset(&mut self)
        requires
            old(self).start < usize::MAX,
        ensures
            final(self).start == old(self).start,
            final(self).end == old(self).start + 1,
    {
        self.end = self.start + 1;
    }

    /// Moves the window just past its end, with length one.
    pub fn step(&mut self)
        requires
            old(self).end < usize::MAX,
        ensures
            final(self).cur() == step(old(self).cur()),
    {
        self.start = self.end;
        self.reset();
    }

    /// Moves the window `inc` characters past its end, with length one.
    pub fn step_by(&mut self, inc: usize)
        requires
            1 <= inc,
            old(self).end + inc < usize::MAX,
        ensures
            final(self).cur() == step_by(old(self).cur(), inc as int),
    {
        self.start = self.end + inc - 1;
        self.reset();
    }

    /// Widens the window by one character.
    pub fn grow(&mut self)
        requires
            old(self).end < usize::MAX,
        ensures
            final(self).cur() == grow_by(old(self).cur(), 1),
    {
        self.end = self.end + 1;
    }

    /// Widens the window by `inc` characters.
    pub fn grow_by(&mut self, inc: usize)
        requires
            old(self).end + inc <= usize::MAX,
        ensures
            final(self).cur() == grow_by(old(self).cur(), inc as int),
    {
        self.end = self.end + inc;
    }

    /// Whether the characters after the window read `target`.
    pub fn followed_by(&self, src: &Vec<char>, target: &[char]) -> (r: bool)
        requires
            self.end + target@.len() <= usize::MAX,
        ensures
            r == followed_by(src@, self.cur(), target@),
    {
        if self.end + target.len() > src.len() {
            return false;
        }
        let mut i: usize = 0;
        while i < target.len()
            invariant
                self.end + target.len() <= src.len(),
                i <= target.len(),
                forall|k: int| 0 <= k < i ==> src@[self.end + k] == target@[k],
            decreases target.len() - i,
        {
            if src[self.end + i] != target[i] {
                return false;
            }
            i += 1;
        }
        assert(src@.subrange(self.end as int, self.end + target@.len()) =~= target@);
        true
    }

    /// Steps over single spaces.
    pub fn skip_spaces(&mut self, src: &Vec<char>)
        requires
            old(self).wf(src.len() as int),
        ensures
            final(self).wf(src.len() as int),
            final(self).cur() == skip_spaces(src@, old(self).cur()),
            final(self).start >= old(self).start,
            old(self).end == old(self).start + 1 ==> final(self).end == final(self).start + 1,
            final(self).end <= old(self).end || final(self).end <= src.len() + 1,
    {
        let space: &[char] = &[' '];
        assert(space@ =~= seq![' ']);
        while self.window_is(src, space)
            invariant
                space@ == seq![' '],
                self.wf(src.len() as int),
                skip_spaces(src@, self.cur()) == skip_spaces(src@, old(self).cur()),
                self.start >= old(self).start,
                old(self).end == old(self).start + 1 ==> self.end == self.start + 1,
                self.end <= old(self).end || self.end <= src.len() + 1,
            decreases src.len() - self.start,
        {
            self.step();
        }
    }
}

/// The values of an optional token sequence.
pub open spec fn opt_views(r: Option<Vec<TokenPos>>) -> Option<Seq<TokAt>> {
    match r {
        Some(v) => Some(tok_at_views(v@)),
        None => None,
    }
}

proof fn lemma_views_push(v: Seq<TokenPos>, x: TokenPos)
    ensures
        tok_at_views(v.push(x)) == tok_at_views(v).push(x@),
{
    assert(tok_at_views(v.push(x)) =~= tok_at_views(v).push(x@));
}

proof fn lemma_views_append(v: Seq<TokenPos>, w: Seq<TokenPos>)
    ensures
        tok_at_views(v + w) == tok_at_views(v) + tok_at_views(w),
{
    assert(tok_at_views(v + w) =~= tok_at_views(v) + tok_at_views(w));
}

fn push_tok(out: &mut Vec<TokenPos>, start: usize, end: usize, tok: Token)
    ensures
        tok_at_views(final(out)@) == tok_at_views(old(out)@).push(
            TokAt { start: start as int, end: end as int, tok: tok@ },
        ),
{
    proof {
        lemma_views_push(out@, TokenPos { start, end, tok });
    }
    out.push(TokenPos { start, end, tok });
}

fn append_toks(out: &mut Vec<TokenPos>, more: &mut Vec<TokenPos>)
    ensures
        tok_at_views(final(out)@) == tok_at_views(old(out)@) + tok_at_views(old(more)@),
{
    proof {
        lemma_views_append(out@, more@);
    }
    out.append(more);
}

/// Reads the rest of a string literal.
fn lex_string_rest(slicer: &mut StringSlicer, src: &Vec<char>, start: usize) -> (r: Option<
    Vec<TokenPos>,
>)
    requires
        old(slicer).wf(src.len() as int),
        old(slicer).end <= src.len() + 1,
    ensures
        final(slicer).wf(src.len() as int),
        final(slicer).start >= old(slicer).start,
        final(slicer).end <= src.len() + 2,
        (final(slicer).cur(), opt_views(r)) == string_rest(src@, start as int, old(slicer).cur()),
{
    loop
        invariant
            slicer.wf(src.len() as int),
            slicer.start == old(slicer).start,
            slicer.end <= src.len() + 2,
            string_rest(src@, start as int, slicer.cur()) == string_rest(
                src@,
                start as int,
                old(slicer).cur(),
            ),
        decreases src.len() + 2 - slicer.end,
    {
        if slicer.end > src.len() {
            return None;
        }
        let last = src[slicer.end - 1];
        if last == '\\' {
            slicer.grow_by(2);
        } else if last == '"' {
            let value = string_from(src, slicer.start, slicer.end - 1);
            slicer.step();
            let mut out: Vec<TokenPos> = Vec::new();
            push_tok(&mut out, start, slicer.start, Token::StringLiteral(value));
            return Some(out);
        } else {
            slicer.grow();
        }
    }
}

/// Reads an expression from a one-character window; token positions are
/// indexes into `src`.
pub fn lex_expression(slicer: &mut StringSlicer, src: &Vec<char>) -> (r: Option<Vec<TokenPos>>)
    requires
        old(slicer).wf(src.len() as int),
        old(slicer).end == old(slicer).start + 1,
    ensures
        final(slicer).wf(src.len() as int),
        final(slicer).start >= old(slicer).start,
        final(slicer).end <= src.len() + 2,
        (final(slicer).cur(), opt_views(r)) == lex_expr(src@, old(slicer).cur()),
    decreases src.len() - old(slicer).start,
{
    let ghost c0 = slicer.cur();
    let ghost s = src@;
    let entry_start = slicer.start;
    let mut output: Vec<TokenPos> = Vec::new();
    slicer.skip_spaces(src);
    if slicer.end > src.len() || slicer.start >= src.len() {
        return Some(output);
    }
    let ghost c = slicer.cur();
    let first = src[slicer.start];
    if first == '"' {
        let start = slicer.start;
        slicer.step();
        lex_string_rest(slicer, src, start)
    } else if first == '!' {
        let bang_start = slicer.start;
        let bang_end = slicer.end;
        slicer.step();
        match lex_expression(slicer, src) {
            Some(mut sub) => {
                let ghost sub_views = tok_at_views(sub@);
                push_tok(&mut output, bang_start, bang_end, Token::Bang);
                append_toks(&mut output, &mut sub);
                assert(tok_at_views(output@) =~= seq![at(c, Tok::Bang)] + sub_views);
                slicer.skip_spaces(src);
                Some(output)
            },
            None => None,
        }
    } else if first != '-' && is_simple_char(first) {
        // collect the characters of the identifier
        while slicer.end < src.len() && is_simple_char(src[slicer.end])
            invariant
                s == src@,
                slicer.wf(src.len() as int),
                slicer.end <= src.len(),
                slicer.start == skip_spaces(s, c0).start,
                ident_end(s, slicer.end as int) == ident_end(s, skip_spaces(s, c0).end),
            decreases src.len() - slicer.end,
        {
            slicer.grow();
        }
        let ghost c1 = slicer.cur();
        let name_chars_start = slicer.start;
        let name_end = slicer.end;
        let is_legacy = name_end - name_chars_start >= 9 && slicer.function_prefix_at(src, name_chars_start);
        assert(is_legacy == (window(s, c1).len() >= 9 && window(s, c1).subrange(0, 9) == function_prefix())) by {
            if name_end - name_chars_start >= 9 {
                assert(window(s, c1).subrange(0, 9) =~= s.subrange(c1.start, c1.start + 9));
            }
        }
        if is_legacy {
            let helper_name = string_from(src, name_chars_start + 9, name_end);
            assert(helper_name@ =~= window(s, c1).subrange(9, window(s, c1).len() as int));
            push_tok(&mut output, name_chars_start, name_chars_start + 9, Token::LegacyHelper);
            push_tok(&mut output, name_chars_start + 9, name_end, Token::Identifier(helper_name));
            assert(tok_at_views(output@) =~= seq![
                TokAt { start: c1.start, end: c1.start + 9, tok: Tok::LegacyHelper },
                TokAt { start: c1.start + 9, end: c1.end, tok: Tok::Identifier(window(s, c1).subrange(9, window(s, c1).len() as int)) },
            ]);
            slicer.step();
            slicer.skip_spaces(src);
            if !(entry_start < slicer.start && slicer.start <= src.len()) {
                return Some(output);
            }
            let ghost goal = legacy_args(s, slicer.cur(), tok_at_views(output@));
            let comma: &[char] = &[','];
            assert(comma@ =~= seq![',']);
            loop
                invariant_except_break
                    goal == legacy_args(s, slicer.cur(), tok_at_views(output@)),
                    slicer.start > c0.start,
                invariant
                    slicer.wf(src.len() as int),
                    slicer.end <= src.len() + 2,
                    s == src@,
                    c0 == old(slicer).cur(),
                    comma@ == seq![','],
                ensures
                    goal == (slicer.cur(), tok_at_views(output@)),
                    slicer.start > c0.start,
                decreases src.len() - slicer.start,
            {
                if !(slicer.end == slicer.start + 1 && slicer.start < src.len() && slicer.window_is(
                    src,
                    comma,
                )) {
                    break;
                }
                let round_start = slicer.start;
                push_tok(&mut output, slicer.start, slicer.end, Token::Comma);
                slicer.step();
                match lex_expression(slicer, src) {
                    Some(mut arg) => {
                        append_toks(&mut output, &mut arg);
                    },
                    None => {},
                }
                slicer.skip_spaces(src);
                if !(round_start < slicer.start && slicer.start <= src.len()) {
                    break;
                }
            }
            slicer.skip_spaces(src);
            Some(output)
        } else {
            let name = string_from(src, name_chars_start, name_end);
            push_tok(&mut output, name_chars_start, name_end, Token::Identifier(name));
            assert(tok_at_views(output@) =~= seq![at(c1, Tok::Identifier(window(s, c1)))]);
            slicer.step();
            slicer.skip_spaces(src);
            let open: &[char] = &['('];
            assert(open@ =~= seq!['(']);
            if slicer.window_is(src, open) {
                if !(entry_start < slicer.start && slicer.start <= src.len()) {
                    return None;
                }
                push_tok(&mut output, slicer.start, slicer.end, Token::LeftParen);
                let ghost goal = paren_args(s, slicer.cur(), tok_at_views(output@));
                let comma: &[char] = &[','];
                assert(comma@ =~= seq![',']);
                loop
                    invariant_except_break
                        slicer.end == slicer.start + 1,
                        slicer.start < src.len(),
                        goal == paren_args(s, slicer.cur(), tok_at_views(output@)),
                    invariant
                        slicer.wf(src.len() as int),
                        slicer.end <= src.len() + 2,
                        slicer.start > c0.start,
                        s == src@,
                        c0 == old(slicer).cur(),
                        comma@ == seq![','],
                    ensures
                        goal == (slicer.cur(), tok_at_views(output@)),
                    decreases src.len() - slicer.start,
                {
                    let round_start = slicer.start;
                    slicer.step();
                    match lex_expression(slicer, src) {
                        Some(mut arg) => {
                            append_toks(&mut output, &mut arg);
                        },
                        None => {},
                    }
                    slicer.skip_spaces(src);
                    if slicer.window_is(src, comma) {
                        assert(window(s, slicer.cur()).len() == 1);
                        push_tok(&mut output, slicer.start, slicer.end, Token::Comma);
                        if !(round_start < slicer.start && slicer.start <= src.len()) {
                            break;
                        }
                    } else {
                        break;
                    }
                }
                let close: &[char] = &[')'];
                assert(close@ =~= seq![')']);
                if slicer.window_is(src, close) {
                    push_tok(&mut output, slicer.start, slicer.end, Token::RightParen);
                    slicer.step();
                    slicer.skip_spaces(src);
                    Some(output)
                } else {
                    None
                }
            } else {
                slicer.skip_spaces(src);
                Some(output)
            }
        }
    } else {
        None
    }
}

impl StringSlicer {
    /// Whether `function.` stands at `pos` in the source.
    fn function_prefix_at(&self, src: &Vec<char>, pos: usize) -> (r: bool)
        requires
            pos + 9 <= src.len(),
        ensures
            r == (src@.subrange(pos as int, pos + 9) == function_prefix()),
    {
        let p: &[char] = &['f', 'u', 'n', 'c', 't', 'i', 'o', 'n', '.'];
        let mut i: usize = 0;
        while i < 9
            invariant
                pos + 9 <= src.len(),
                p@ == function_prefix(),
                i <= 9,
                forall|k: int| 0 <= k < i ==> src@[pos + k] == p@[k],
            decreases 9 - i,
        {
            if src[pos + i] != p[i] {
                return false;
            }
            i += 1;
        }
        assert(src@.subrange(pos as int, pos + 9) =~= function_prefix());
        true
    }
}

/// Reads a block keyword and its subject; token positions are indexes into
/// `src`.
pub fn lex_block(slicer: &mut StringSlicer, src: &Vec<char>) -> (r: Option<Vec<TokenPos>>)
    requires
        old(slicer).wf(src.len() as int),
        old(slicer).end == old(slicer).start + 1,
    ensures
        final(slicer).wf(src.len() as int),
        final(slicer).start >= old(slicer).start,
        final(slicer).end <= src.len() + 3,
        (final(slicer).cur(), opt_views(r)) == lex_block_spec(src@, old(slicer).cur()),
{
    let ghost s = src@;
    let mut output: Vec<TokenPos> = Vec::new();
    slicer.skip_spaces(src);
    slicer.grow_by(2);
    let ghost c = slicer.cur();
    if slicer.end > src.len() {
        return Some(output);
    }
    let if_lower: &[char] = &['i', 'f', ' '];
    let if_upper: &[char] = &['I', 'F', ' '];
    let each: &[char] = &['e', 'a', 'c'];
    let begin: &[char] = &['B', 'E', 'G'];
    let end_lower: &[char] = &['e', 'n', 'd'];
    let end_upper: &[char] = &['E', 'N', 'D'];
    let else_lower: &[char] = &['e', 'l', 's'];
    let else_upper: &[char] = &['E', 'L', 'S'];
    assert(if_lower@ =~= seq!['i', 'f', ' ']);
    assert(if_upper@ =~= seq!['I', 'F', ' ']);
    assert(each@ =~= seq!['e', 'a', 'c']);
    assert(begin@ =~= seq!['B', 'E', 'G']);
    assert(end_lower@ =~= seq!['e', 'n', 'd']);
    assert(end_upper@ =~= seq!['E', 'N', 'D']);
    assert(else_lower@ =~= seq!['e', 'l', 's']);
    assert(else_upper@ =~= seq!['E', 'L', 'S']);
    let h_space: &[char] = &['h', ' '];
    let in_space: &[char] = &['I', 'N', ' '];
    let if_tail: &[char] = &['I', 'F'];
    let e_lower: &[char] = &['e'];
    let e_upper: &[char] = &['E'];
    assert(h_space@ =~= seq!['h', ' ']);
    assert(in_space@ =~= seq!['I', 'N', ' ']);
    assert(if_tail@ =~= seq!['I', 'F']);
    assert(e_lower@ =~= seq!['e']);
    assert(e_upper@ =~= seq!['E']);
    if slicer.window_is(src, if_lower) || slicer.window_is(src, if_upper) {
        let kw_start = slicer.start;
        let kw_end = slicer.end - 1;
        slicer.step();
        slicer.skip_spaces(src);
        match lex_expression(slicer, src) {
            Some(mut t) => {
                let ghost tv = tok_at_views(t@);
                push_tok(&mut output, kw_start, kw_end, Token::If);
                append_toks(&mut output, &mut t);
                assert(tok_at_views(output@) =~= seq![TokAt { start: c.start, end: c.end - 1, tok: Tok::If }] + tv);
                slicer.skip_spaces(src);
                Some(output)
            },
            None => None,
        }
    } else if slicer.window_is(src, each) || slicer.window_is(src, begin) {
        let is_each = slicer.window_is(src, each);
        if is_each {
            if !slicer.followed_by(src, h_space) {
                return None;
            }
            slicer.grow();
        } else {
            if !slicer.followed_by(src, in_space) {
                return None;
            }
            slicer.grow_by(2);
        }
        let ghost c2 = slicer.cur();
        let kw_start = slicer.start;
        let kw_end = slicer.end;
        slicer.step();
        slicer.skip_spaces(src);
        match lex_expression(slicer, src) {
            Some(mut t) => {
                let ghost tv = tok_at_views(t@);
                push_tok(&mut output, kw_start, kw_end, Token::Iter);
                append_toks(&mut output, &mut t);
                assert(tok_at_views(output@) =~= seq![at(c2, Tok::Iter)] + tv);
                slicer.skip_spaces(src);
                Some(output)
            },
            None => None,
        }
    } else if slicer.window_is(src, end_lower) || slicer.window_is(src, end_upper) {
        if slicer.window_is(src, end_upper) && slicer.followed_by(src, if_tail) {
            slicer.grow_by(2);
        }
        let ghost c2 = slicer.cur();
        push_tok(&mut output, slicer.start, slicer.end, Token::End);
        slicer.step();
        slicer.skip_spaces(src);
        let ghost before = tok_at_views(output@);
        match lex_expression(slicer, src) {
            Some(mut t) => {
                append_toks(&mut output, &mut t);
            },
            None => {},
        }
        assert(before =~= seq![at(c2, Tok::End)]);
        slicer.skip_spaces(src);
        Some(output)
    } else if (slicer.window_is(src, else_lower) && slicer.followed_by(src, e_lower)) || (
    slicer.window_is(src, else_upper) && slicer.followed_by(src, e_upper)) {
        slicer.grow();
        push_tok(&mut output, slicer.start, slicer.end, Token::Else);
        assert(tok_at_views(output@) =~= seq![at(slicer.cur(), Tok::Else)]);
        slicer.step();
        slicer.skip_spaces(src);
        Some(output)
    } else {
        None
    }
}

/// Merges runs of text tokens into one and drops empty text.
fn collapse_texts(toks: Vec<TokenPos>) -> (r: Vec<TokenPos>)
    ensures
        tok_at_views(r@) == collapse(tok_at_views(toks@)),
{
    let ghost tv = tok_at_views(toks@);
    let mut acc: Vec<TokenPos> = Vec::new();
    if toks.len() == 0 {
        return acc;
    }
    let mut prev = toks[0].copy();
    let mut i: usize = 1;
    assert(tok_at_views(acc@) =~= seq![]);
    assert(prev@ == tv[0]);
    assert(tv.drop_first() =~= tv.subrange(1, tv.len() as int));
    while i < toks.len()
        invariant
            1 <= i <= toks.len(),
            tv == tok_at_views(toks@),
            tv.len() == toks.len(),
            collapse(tv) == merge_texts(tok_at_views(acc@), prev@, tv.subrange(i as int, tv.len() as int)),
        decreases toks.len() - i,
    {
        let ghost rest = tv.subrange(i as int, tv.len() as int);
        assert(rest.drop_first() =~= tv.subrange(i + 1, tv.len() as int));
        let cur = &toks[i];
        let merged = match (&prev.tok, &cur.tok) {
            (Token::Text(a), Token::Text(b)) => {
                let mut m = a.clone();
                push_all(&mut m, b);
                Some(m)
            },
            _ => None,
        };
        match merged {
            Some(m) => {
                prev = TokenPos { start: prev.start, end: cur.end, tok: Token::Text(m) };
            },
            None => {
                let keep = match &prev.tok {
                    Token::Text(v) => v.as_str().unicode_len() > 0,
                    _ => true,
                };
                if keep {
                    proof {
                        lemma_views_push(acc@, prev);
                    }
                    acc.push(prev);
                }
                prev = cur.copy();
            },
        }
        i += 1;
    }
    let keep = match &prev.tok {
        Token::Text(v) => v.as_str().unicode_len() > 0,
        _ => true,
    };
    if keep {
        proof {
            lemma_views_push(acc@, prev);
        }
        acc.push(prev);
    }
    acc
}

/// Lexes a template into tokens, with spans in bytes of its UTF-8 encoding.
pub fn lex(input: &str) -> (r: Vec<TokenPos>)
    ensures
        input@.len() <= max_source_len() ==> tok_at_views(r@) == lex_spec(input@),
{
    let chars = chars_of(input);
    let src = &chars;
    if src.len() > usize::MAX / 4 {
        return Vec::new();
    }
    let ghost s = src@;
    let length = src.len();
    let mut output: Vec<TokenPos> = Vec::new();
    let mut slicer = StringSlicer::new();
    assert(tok_at_views(output@) =~= seq![]);
    if length == 0 {
        return output;
    }
    let ghost goal = lex_run(s, slicer.cur(), tok_at_views(output@));
    let backslash: &[char] = &['\\'];
    let brace: &[char] = &['{'];
    let two_braces: &[char] = &['{', '{'];
    let three_braces: &[char] = &['{', '{', '{'];
    let comment: &[char] = &['<', '!', '-', '-'];
    let close: &[char] = &['}'];
    let two_close: &[char] = &['}', '}'];
    let three_close: &[char] = &['}', '}', '}'];
    let comment_close: &[char] = &['-', '-', '>'];
    assert(backslash@ =~= seq!['\\']);
    assert(brace@ =~= seq!['{']);
    assert(two_braces@ =~= seq!['{', '{']);
    assert(three_braces@ =~= seq!['{', '{', '{']);
    assert(comment@ =~= seq!['<', '!', '-', '-']);
    assert(close@ =~= seq!['}']);
    assert(two_close@ =~= seq!['}', '}']);
    assert(three_close@ =~= seq!['}', '}', '}']);
    assert(comment_close@ =~= seq!['-', '-', '>']);
    loop
        invariant_except_break
            slicer.end <= length,
            goal == lex_run(s, slicer.cur(), tok_at_views(output@)),
        invariant
            s == src@,
            length == src.len(),
            1 <= length <= usize::MAX / 4,
            slicer.wf(length as int),
            backslash@ == seq!['\\'],
            brace@ == seq!['{'],
            two_braces@ == seq!['{', '{'],
            three_braces@ == seq!['{', '{', '{'],
            comment@ == seq!['<', '!', '-', '-'],
            close@ == seq!['}'],
            two_close@ == seq!['}', '}'],
            three_close@ == seq!['}', '}', '}'],
            comment_close@ == seq!['-', '-', '>'],
        ensures
            goal == tok_at_views(output@),
        decreases 2 * length - slicer.start - slicer.end,
    {
        let ghost c = slicer.cur();
        let ghost out0 = tok_at_views(output@);
        let w_start = slicer.start;
        let w_end = slicer.end;
        if slicer.window_is(src, backslash) {
            let len: usize = if slicer.followed_by(src, comment) {
                4
            } else if slicer.followed_by(src, three_braces) {
                3
            } else if slicer.followed_by(src, two_braces) {
                2
            } else if slicer.followed_by(src, brace) {
                1
            } else {
                0
            };
            if len > 0 {
                slicer.step();
                let text = string_from(src, slicer.start, slicer.start + len);
                push_tok(&mut output, slicer.start, slicer.start + len, Token::Text(text));
                slicer.step_by(len);
            } else {
                slicer.grow();
            }
        } else if slicer.window_is(src, brace) || slicer.window_is(src, two_braces) {
            if slicer.followed_by(src, brace) {
                slicer.grow();
            } else {
                let single = slicer.window_is(src, brace);
                let mut copy = slicer;
                copy.step();
                let valid = match lex_expression(&mut copy, src) {
                    Some(mut tokens) => {
                        if !single {
                            copy.grow();
                        }
                        let closer_ok = if single {
                            copy.window_is(src, close)
                        } else {
                            copy.window_is(src, two_close)
                        };
                        if closer_ok {
                            let (open, close_tok) = if single {
                                (Token::EscapedOpen, Token::EscapedClose)
                            } else {
                                (Token::RawOpen, Token::RawClose)
                            };
                            push_tok(&mut output, w_start, w_end, open);
                            append_toks(&mut output, &mut tokens);
                            push_tok(&mut output, copy.start, copy.end, close_tok);
                            slicer.step_by(copy.end - w_end + 1);
                            true
                        } else {
                            false
                        }
                    },
                    None => false,
                };
                if !valid {
                    let text = match slicer.slice(src) {
                    Some(t) => t,
                    None => String::new(),
                };
                    push_tok(&mut output, w_start, w_end, Token::Text(text));
                    slicer.step();
                }
            }
        } else if slicer.window_is(src, comment) || slicer.window_is(src, three_braces) {
            let legacy = slicer.window_is(src, comment);
            let mut copy = slicer;
            copy.step();
            let valid = match lex_block(&mut copy, src) {
                Some(mut tokens) => {
                    copy.grow_by(2);
                    let closer_ok = if legacy {
                        copy.window_is(src, comment_close)
                    } else {
                        copy.window_is(src, three_close)
                    };
                    if closer_ok {
                        push_tok(&mut output, w_start, w_end, Token::BlockOpen);
                        append_toks(&mut output, &mut tokens);
                        push_tok(&mut output, copy.start, copy.end, Token::BlockClose);
                        slicer.step_by(copy.end + 3 - w_end - 2);
                        true
                    } else {
                        false
                    }
                },
                None => false,
            };
            if !valid {
                let text = match slicer.slice(src) {
                    Some(t) => t,
                    None => String::new(),
                };
                push_tok(&mut output, w_start, w_end, Token::Text(text));
                slicer.step();
            }
        } else {
            if slicer.followed_by(src, backslash) || slicer.followed_by(src, brace)
                || slicer.followed_by(src, comment) {
                let text = match slicer.slice(src) {
                    Some(t) => t,
                    None => String::new(),
                };
                push_tok(&mut output, w_start, w_end, Token::Text(text));
                slicer.step();
            } else {
                slicer.grow();
            }
        }
        assert((slicer.cur(), tok_at_views(output@)) == lex_step(s, c, out0));
        // the rest of the source is text
        if slicer.end >= length {
            let rest_start = slicer.start;
            let text = string_from(src, rest_start, length);
            push_tok(&mut output, rest_start, length, Token::Text(text));
            break;
        }
        if !(w_start + w_end < slicer.start + slicer.end) {
            break;
        }
    }
    let collapsed = collapse_texts(output);
    in_bytes(src, &collapsed)
}

/// The tokens with their character spans turned into byte spans.
fn in_bytes(src: &Vec<char>, toks: &Vec<TokenPos>) -> (r: Vec<TokenPos>)
    requires
        src.len() <= usize::MAX / 4,
    ensures
        tok_at_views(r@) == tok_at_views(toks@).map_values(|t: TokAt| tok_in_bytes(src@, t)),
{
    let offsets = byte_offsets(src);
    let n = src.len();
    let mut out: Vec<TokenPos> = Vec::new();
    let mut i: usize = 0;
    while i < toks.len()
        invariant
            i <= toks.len(),
            n == src.len(),
            offsets.len() == n + 1,
            forall|k: int| 0 <= k <= n ==> #[trigger] offsets@[k] == byte_offset(src@, k),
            out.len() == i,
            forall|k: int| 0 <= k < i ==> (#[trigger] out@[k])@ == tok_in_bytes(src@, toks@[k]@),
        decreases toks.len() - i,
    {
        let t = &toks[i];
        let start = offsets[if t.start < n { t.start } else { n }];
        let end = offsets[if t.end < n { t.end } else { n }];
        out.push(TokenPos { start, end, tok: t.tok.copy() });
        i += 1;
    }
    assert(tok_at_views(out@) =~= tok_at_views(toks@).map_values(|t: TokAt| tok_in_bytes(src@, t)));
    out
}

} // verus!
