//! From tokens to instructions, the repair of stray closers, and from
//! instructions to the control tree.
use vstd::prelude::*;

use itertools::Itertools;

use crate::instruction::{
    as_text, inst_views, source_text, Inst, InstAt, Instruction, InstructionPos,
};
use crate::paths::{
    copy_segments, iter_element, iter_element_spec, resolve, resolve_spec, seg_views, split,
    split_spec,
};
use crate::text::{push_all, push_char};
use crate::token::{copy_tokens, tok_at_views, tok_views, Tok, TokAt, Token, TokenPos};

verus! {

// ================================================================ instructions

/// The first index at or after `from` whose token is `t`, or the length.
pub open spec fn find_tok(toks: Seq<TokAt>, from: int, t: Tok) -> int
    decreases toks.len() - from,
{
    if from < 0 || from >= toks.len() {
        toks.len() as int
    } else if toks[from].tok == t {
        from
    } else {
        find_tok(toks, from + 1, t)
    }
}

/// The token values of `toks[a..b]`.
pub open spec fn tok_values(toks: Seq<TokAt>, a: int, b: int) -> Seq<Tok> {
    toks.subrange(a, b).map_values(|t: TokAt| t.tok)
}

/// The instruction that a block keyword opens, with its subject.
pub open spec fn block_inst(keyword: Tok, expr: Seq<Tok>) -> Option<Inst> {
    match keyword {
        Tok::If => Some(Inst::IfStart(expr)),
        Tok::Iter => Some(Inst::IterStart(expr)),
        Tok::Else => Some(Inst::Else),
        Tok::End => Some(Inst::End(expr)),
        _ => None,
    }
}

/// The instructions of `toks[i..]` after `out`: text stays text; a block
/// opener, its keyword, the tokens up to the block closer and the closer
/// make one instruction; an interpolation opener, the tokens up to its
/// closer and the closer make another; anything else is dropped, as is a
/// group that is never closed.
pub open spec fn parse_from(toks: Seq<TokAt>, i: int, out: Seq<InstAt>) -> Seq<InstAt>
    decreases toks.len() - i,
{
    if i < 0 || i >= toks.len() {
        out
    } else {
        match toks[i].tok {
            Tok::Text(t) => parse_from(
                toks,
                i + 1,
                out.push(InstAt { start: toks[i].start, end: toks[i].end, inst: Inst::Text(t) }),
            ),
            Tok::BlockOpen => {
                let j = find_tok(toks, i + 2, Tok::BlockClose);
                if i + 1 >= toks.len() || j <= i || j >= toks.len() {
                    out
                } else {
                    let out2 = match block_inst(toks[i + 1].tok, tok_values(toks, i + 2, j)) {
                        Some(inst) => out.push(InstAt { start: toks[i].start, end: toks[j].end, inst }),
                        None => out,
                    };
                    parse_from(toks, j + 1, out2)
                }
            },
            Tok::RawOpen | Tok::EscapedOpen => {
                let raw = toks[i].tok is RawOpen;
                let j = find_tok(toks, i + 1, if raw { Tok::RawClose } else { Tok::EscapedClose });
                if j <= i || j >= toks.len() {
                    out
                } else {
                    let expr = tok_values(toks, i + 1, j);
                    let inst = if raw { Inst::Raw(expr) } else { Inst::Escaped(expr) };
                    parse_from(toks, j + 1, out.push(InstAt { start: toks[i].start, end: toks[j].end, inst }))
                }
            },
            _ => parse_from(toks, i + 1, out),
        }
    }
}

/// The instructions of a token sequence.
pub open spec fn parse_instructions_spec(toks: Seq<TokAt>) -> Seq<InstAt> {
    parse_from(toks, 0, seq![])
}

/// Whether a token is not `closer`.
fn continues(t: &TokenPos, closer: &Token) -> (r: bool)
    ensures
        r == (t.tok@ != closer@),
{
    !t.tok.same(closer)
}

/// Relies on `Itertools::peeking_take_while` over a `Peekable`: it yields
/// the tokens from `from` on while they are not `closer`, and stops before
/// the first that is; their number is returned.
#[verifier::external_body]
fn count_until(tokens: &Vec<TokenPos>, from: usize, closer: &Token) -> (r: usize)
    requires
        from <= tokens.len(),
    ensures
        from + r == find_tok(tok_at_views(tokens@), from as int, closer@),
{
    tokens[from..].iter().peekable().peeking_take_while(|t| continues(t, closer)).count()
}

/// The tokens of `tokens[a..b]`, without their spans.
fn token_run(tokens: &Vec<TokenPos>, a: usize, b: usize) -> (r: Vec<Token>)
    requires
        a <= b <= tokens.len(),
    ensures
        tok_views(r@) == tok_values(tok_at_views(tokens@), a as int, b as int),
{
    let ghost tv = tok_at_views(tokens@);
    let mut out: Vec<Token> = Vec::new();
    let mut i = a;
    while i < b
        invariant
            a <= i <= b <= tokens.len(),
            tv == tok_at_views(tokens@),
            out.len() == i - a,
            forall|k: int| 0 <= k < i - a ==> (#[trigger] out@[k])@ == tv[a + k].tok,
        decreases b - i,
    {
        out.push(tokens[i].tok.copy());
        i += 1;
    }
    assert(tok_views(out@) =~= tok_values(tv, a as int, b as int));
    out
}

proof fn lemma_find_tok_bounds(toks: Seq<TokAt>, from: int, t: Tok)
    requires
        0 <= from,
    ensures
        from <= find_tok(toks, from, t) <= toks.len() || (from > toks.len() && find_tok(
            toks,
            from,
            t,
        ) == toks.len()),
    decreases toks.len() - from,
{
    if from < toks.len() && toks[from].tok != t {
        lemma_find_tok_bounds(toks, from + 1, t);
    }
}

proof fn lemma_inst_views_push(v: Seq<InstructionPos>, x: InstructionPos)
    ensures
        inst_views(v.push(x)) == inst_views(v).push(x@),
{
    assert(inst_views(v.push(x)) =~= inst_views(v).push(x@));
}

fn push_inst(out: &mut Vec<InstructionPos>, x: InstructionPos)
    ensures
        inst_views(final(out)@) == inst_views(old(out)@).push(x@),
{
    proof {
        lemma_inst_views_push(out@, x);
    }
    out.push(x);
}

/// Groups the lexer's tokens into instructions.
pub fn parse_instructions(_source: &str, tokens: Vec<TokenPos>) -> (r: Vec<InstructionPos>)
    ensures
        inst_views(r@) == parse_instructions_spec(tok_at_views(tokens@)),
{
    let ghost tv = tok_at_views(tokens@);
    let mut output: Vec<InstructionPos> = Vec::new();
    let mut i: usize = 0;
    assert(inst_views(output@) =~= seq![]);
    while i < tokens.len()
        invariant
            i <= tokens.len(),
            tv == tok_at_views(tokens@),
            tv.len() == tokens.len(),
            parse_instructions_spec(tv) == parse_from(tv, i as int, inst_views(output@)),
        decreases tokens.len() - i,
    {
        let opener = &tokens[i];
        match &opener.tok {
            Token::Text(text) => {
                push_inst(
                    &mut output,
                    InstructionPos { start: opener.start, end: opener.end, inst: Instruction::Text(text.clone()) },
                );
                i += 1;
            },
            Token::BlockOpen => {
                if i + 1 >= tokens.len() {
                    return output;
                }
                let n = count_until(&tokens, i + 2, &Token::BlockClose);
                proof {
                    lemma_find_tok_bounds(tv, i + 2, Tok::BlockClose);
                }
                let j = i + 2 + n;
                if j >= tokens.len() {
                    return output;
                }
                let expr = token_run(&tokens, i + 2, j);
                let inst = match &tokens[i + 1].tok {
                    Token::If => Some(Instruction::IfStart(expr)),
                    Token::Iter => Some(Instruction::IterStart(expr)),
                    Token::Else => Some(Instruction::Else),
                    Token::End => Some(Instruction::End(expr)),
                    _ => None,
                };
                match inst {
                    Some(inst) => {
                        push_inst(&mut output, InstructionPos { start: opener.start, end: tokens[j].end, inst });
                    },
                    None => {},
                }
                i = j + 1;
            },
            Token::RawOpen | Token::EscapedOpen => {
                let raw = match &opener.tok {
                    Token::RawOpen => true,
                    _ => false,
                };
                let closer = if raw { Token::RawClose } else { Token::EscapedClose };
                let n = count_until(&tokens, i + 1, &closer);
                proof {
                    lemma_find_tok_bounds(tv, i + 1, closer@);
                }
                let j = i + 1 + n;
                if j >= tokens.len() {
                    return output;
                }
                let expr = token_run(&tokens, i + 1, j);
                let inst = if raw { Instruction::Raw(expr) } else { Instruction::Escaped(expr) };
                push_inst(&mut output, InstructionPos { start: opener.start, end: tokens[j].end, inst });
                i = j + 1;
            },
            _ => {
                i += 1;
            },
        }
    }
    output
}

// ================================================================ repair

/// `part` is a prefix of `full`.
pub open spec fn is_prefix(part: Seq<Tok>, full: Seq<Tok>) -> bool {
    part.len() <= full.len() && full.subrange(0, part.len() as int) == part
}

/// Whether a vector of tokens starts with the tokens of another.
pub fn starts_with(full: &Vec<Token>, part: &Vec<Token>) -> (r: bool)
    ensures
        r == is_prefix(tok_views(part@), tok_views(full@)),
{
    if part.len() > full.len() {
        return false;
    }
    let mut i: usize = 0;
    while i < part.len()
        invariant
            i <= part.len() <= full.len(),
            forall|k: int| 0 <= k < i ==> full@[k]@ == part@[k]@,
        decreases part.len() - i,
    {
        if !full[i].same(&part[i]) {
            assert(tok_views(full@).subrange(0, part.len() as int)[i as int] != tok_views(part@)[i as int]);
            return false;
        }
        i += 1;
    }
    assert(tok_views(full@).subrange(0, part.len() as int) =~= tok_views(part@));
    true
}

/// Whether two token vectors hold the same tokens.
fn same_tokens(a: &Vec<Token>, b: &Vec<Token>) -> (r: bool)
    ensures
        r == (tok_views(a@) == tok_views(b@)),
{
    if a.len() != b.len() {
        assert(tok_views(a@).len() != tok_views(b@).len());
        return false;
    }
    let r = starts_with(a, b);
    assert(tok_views(a@).subrange(0, b.len() as int) =~= tok_views(a@));
    r
}

/// Whether, from `j` on, an `End` with exactly `expected` for subject
/// comes before any opener.
pub open spec fn closes_later(ins: Seq<InstAt>, j: int, expected: Seq<Tok>) -> bool
    decreases ins.len() - j,
{
    if j < 0 || j >= ins.len() {
        false
    } else {
        match ins[j].inst {
            Inst::IfStart(_) | Inst::IterStart(_) => false,
            Inst::End(a) => a == expected || closes_later(ins, j + 1, expected),
            _ => closes_later(ins, j + 1, expected),
        }
    }
}

/// The state of the repair scan: the subjects still open, which closers are
/// marked as extra, and how many openers and closers were seen.
pub struct Scan {
    pub stack: Seq<Seq<Tok>>,
    pub marked: Seq<bool>,
    pub opens: nat,
    pub ends: nat,
}

/// The repair scan at instruction `i`.
pub open spec fn scan_step(ins: Seq<InstAt>, i: int, st: Scan) -> Scan {
    match ins[i].inst {
        Inst::IfStart(s) | Inst::IterStart(s) => Scan {
            stack: st.stack.push(s),
            opens: st.opens + 1,
            ..st
        },
        Inst::End(subject) => {
            let marked = Scan { marked: st.marked.update(i, true), ends: st.ends + 1, ..st };
            if st.stack.len() == 0 {
                marked
            } else {
                let expected = st.stack.last();
                if subject.len() > 0 && !is_prefix(subject, expected) {
                    marked
                } else if closes_later(ins, i + 1, expected) {
                    marked
                } else {
                    Scan { stack: st.stack.drop_last(), ends: st.ends + 1, ..st }
                }
            }
        },
        _ => st,
    }
}

/// The repair scan over the first `n` instructions.
pub open spec fn scan(ins: Seq<InstAt>, n: int) -> Scan
    decreases n,
{
    if n <= 0 {
        Scan { stack: seq![], marked: Seq::new(ins.len(), |k: int| false), opens: 0, ends: 0 }
    } else {
        scan_step(ins, n - 1, scan(ins, n - 1))
    }
}

/// The first `n` instructions, where the first `diff` marked ones turn into
/// their source text; also how many of `diff` are left.
pub open spec fn demote(source: Seq<char>, ins: Seq<InstAt>, marked: Seq<bool>, n: int, diff: int) -> (
    Seq<InstAt>,
    int,
)
    decreases n,
{
    if n <= 0 {
        (seq![], diff)
    } else {
        let (out, left) = demote(source, ins, marked, n - 1, diff);
        if marked[n - 1] && left > 0 {
            (out.push(as_text(source, ins[n - 1])), left - 1)
        } else {
            (out.push(ins[n - 1]), left)
        }
    }
}

/// The repaired instructions: where there are more closers than openers,
/// that many marked closers (the first ones) become text.
pub open spec fn fix_spec(source: Seq<char>, ins: Seq<InstAt>) -> Seq<InstAt> {
    let st = scan(ins, ins.len() as int);
    if st.ends > st.opens {
        demote(source, ins, st.marked, ins.len() as int, st.ends - st.opens).0
    } else {
        ins
    }
}

/// The token values of a stack of subjects.
pub open spec fn stack_views(v: Seq<Vec<Token>>) -> Seq<Seq<Tok>> {
    v.map_values(|s: Vec<Token>| tok_views(s@))
}

/// Whether an `End` with exactly `expected` comes, from `from` on, before any
/// opener.
fn find_close_ahead(input: &Vec<InstructionPos>, from: usize, expected: &Vec<Token>) -> (r: bool)
    ensures
        r == closes_later(inst_views(input@), from as int, tok_views(expected@)),
{
    let ghost iv = inst_views(input@);
    let mut i = from;
    while i < input.len()
        invariant
            from <= i,
            iv == inst_views(input@),
            iv.len() == input.len(),
            closes_later(iv, from as int, tok_views(expected@)) == closes_later(
                iv,
                i as int,
                tok_views(expected@),
            ),
        decreases input.len() - i,
    {
        match &input[i].inst {
            Instruction::IfStart(_) | Instruction::IterStart(_) => {
                return false;
            },
            Instruction::End(ahead_subject) => {
                if same_tokens(ahead_subject, expected) {
                    return true;
                }
            },
            _ => {},
        }
        i += 1;
    }
    false
}

/// Turns the extra closers of an instruction sequence into text: when it
/// holds more `End`s than openers, that many of the closers that match no
/// opener pass through as their source text.
pub fn fix_extra_instructions(source: &str, input: Vec<InstructionPos>) -> (r: Vec<InstructionPos>)
    ensures
        inst_views(r@) == fix_spec(source@, inst_views(input@)),
{
    let ghost iv = inst_views(input@);
    let mut marked: Vec<bool> = Vec::new();
    let mut k: usize = 0;
    while k < input.len()
        invariant
            k <= input.len(),
            marked@ == Seq::new(k as nat, |x: int| false),
        decreases input.len() - k,
    {
        marked.push(false);
        k += 1;
        assert(marked@ =~= Seq::new(k as nat, |x: int| false));
    }
    let mut expected_subjects: Vec<Vec<Token>> = Vec::new();
    let mut starts_count: usize = 0;
    let mut ends_count: usize = 0;
    let mut index: usize = 0;
    assert(stack_views(expected_subjects@) =~= seq![]);
    while index < input.len()
        invariant
            index <= input.len(),
            iv == inst_views(input@),
            iv.len() == input.len(),
            marked.len() == input.len(),
            starts_count <= index,
            ends_count <= index,
            scan(iv, index as int) == (Scan {
                stack: stack_views(expected_subjects@),
                marked: marked@,
                opens: starts_count as nat,
                ends: ends_count as nat,
            }),
        decreases input.len() - index,
    {
        let ghost st = scan(iv, index as int);
        match &input[index].inst {
            Instruction::IfStart(subject) | Instruction::IterStart(subject) => {
                let s = copy_tokens(subject);
                expected_subjects.push(s);
                starts_count += 1;
                assert(stack_views(expected_subjects@) =~= st.stack.push(tok_views(subject@)));
            },
            Instruction::End(subject) => {
                ends_count += 1;
                match expected_subjects.pop() {
                    Some(expected_subject) => {
                        assert(st.stack.last() == tok_views(expected_subject@));
                        assert(stack_views(expected_subjects@) =~= st.stack.drop_last());
                        if subject.len() > 0 && !starts_with(&expected_subject, subject) {
                            marked.set(index, true);
                            expected_subjects.push(expected_subject);
                            assert(stack_views(expected_subjects@) =~= st.stack);
                        } else if find_close_ahead(&input, index + 1, &expected_subject) {
                            marked.set(index, true);
                            expected_subjects.push(expected_subject);
                            assert(stack_views(expected_subjects@) =~= st.stack);
                        }
                    },
                    None => {
                        marked.set(index, true);
                    },
                }
            },
            _ => {},
        }
        index += 1;
    }
    if ends_count > starts_count {
        let mut diff = ends_count - starts_count;
        let mut output: Vec<InstructionPos> = Vec::new();
        let mut i: usize = 0;
        assert(inst_views(output@) =~= seq![]);
        while i < input.len()
            invariant
                i <= input.len(),
                iv == inst_views(input@),
                iv.len() == input.len(),
                marked.len() == input.len(),
                scan(iv, iv.len() as int).marked == marked@,
                ({
                    let (o, left) = demote(source@, iv, marked@, i as int, (ends_count - starts_count) as int);
                    o == inst_views(output@) && left == diff as int
                }),
            decreases input.len() - i,
        {
            if marked[i] && diff > 0 {
                push_inst(&mut output, input[i].to_text(source));
                diff -= 1;
            } else {
                push_inst(&mut output, input[i].copy());
            }
            i += 1;
        }
        output
    } else {
        input
    }
}

// ================================================================ the tree

/// An expression in a block or an interpolation.
#[derive(Debug, PartialEq)]
pub enum Expression {
    HelperExpression { helper_name: String, args: Vec<Expression> },
    PathExpression { path: Vec<String> },
    StringLiteral { value: String },
    NegativeExpression { expr: Box<Expression> },
}

/// The value of an expression.
pub enum Expr {
    Helper(Seq<char>, Seq<Expr>),
    Path(Seq<Seq<char>>),
    Str(Seq<char>),
    Neg(Box<Expr>),
}

/// The value of an expression.
pub open spec fn expr_model(e: Expression) -> Expr
    decreases e, 0int,
{
    match e {
        Expression::HelperExpression { helper_name, args } => Expr::Helper(
            helper_name@,
            exprs_model(args, args.len() as int),
        ),
        Expression::PathExpression { path } => Expr::Path(seg_views(path@)),
        Expression::StringLiteral { value } => Expr::Str(value@),
        Expression::NegativeExpression { expr } => Expr::Neg(Box::new(expr_model(*expr))),
    }
}

/// The values of the first `n` expressions of `args`.
pub open spec fn exprs_model(args: Vec<Expression>, n: int) -> Seq<Expr>
    decreases args, n,
{
    if n <= 0 || n > args.len() {
        seq![]
    } else {
        exprs_model(args, n - 1).push(expr_model(args[n - 1]))
    }
}

impl View for Expression {
    type V = Expr;

    open spec fn view(&self) -> Expr {
        expr_model(*self)
    }
}

/// A node of the control tree.
#[derive(Debug, PartialEq)]
pub enum Control {
    Text { value: String },
    If { subject: Expression, body: Vec<Control>, alt: Vec<Control> },
    Iter {
        suffix: usize,
        subject_raw: String,
        subject: Expression,
        body: Vec<Control>,
        alt: Vec<Control>,
    },
    Escaped { subject: Expression },
    Raw { subject: Expression },
}

/// The value of a node of the control tree.
pub enum Ctl {
    Text(Seq<char>),
    If(Expr, Seq<Ctl>, Seq<Ctl>),
    Iter(nat, Seq<char>, Expr, Seq<Ctl>, Seq<Ctl>),
    Escaped(Expr),
    Raw(Expr),
}

/// The value of a node of the control tree.
pub open spec fn ctl_model(c: Control) -> Ctl
    decreases c, 0int,
{
    match c {
        Control::Text { value } => Ctl::Text(value@),
        Control::If { subject, body, alt } => Ctl::If(
            expr_model(subject),
            ctls_model(body, body.len() as int),
            ctls_model(alt, alt.len() as int),
        ),
        Control::Iter { suffix, subject_raw, subject, body, alt } => Ctl::Iter(
            suffix as nat,
            subject_raw@,
            expr_model(subject),
            ctls_model(body, body.len() as int),
            ctls_model(alt, alt.len() as int),
        ),
        Control::Escaped { subject } => Ctl::Escaped(expr_model(subject)),
        Control::Raw { subject } => Ctl::Raw(expr_model(subject)),
    }
}

/// The values of the first `n` nodes of `cs`.
pub open spec fn ctls_model(cs: Vec<Control>, n: int) -> Seq<Ctl>
    decreases cs, n,
{
    if n <= 0 || n > cs.len() {
        seq![]
    } else {
        ctls_model(cs, n - 1).push(ctl_model(cs[n - 1]))
    }
}

impl View for Control {
    type V = Ctl;

    open spec fn view(&self) -> Ctl {
        ctl_model(*self)
    }
}

/// The values of a sequence of nodes.
pub open spec fn ctl_views(cs: Vec<Control>) -> Seq<Ctl> {
    ctls_model(cs, cs.len() as int)
}

pub(crate) proof fn lemma_exprs_model(args: Vec<Expression>, n: int)
    requires
        0 <= n <= args.len(),
    ensures
        exprs_model(args, n).len() == n,
        forall|k: int| 0 <= k < n ==> #[trigger] exprs_model(args, n)[k] == expr_model(args[k]),
    decreases n,
{
    if n > 0 {
        lemma_exprs_model(args, n - 1);
    }
}

pub(crate) proof fn lemma_ctls_model(cs: Vec<Control>, n: int)
    requires
        0 <= n <= cs.len(),
    ensures
        ctls_model(cs, n).len() == n,
        forall|k: int| 0 <= k < n ==> #[trigger] ctls_model(cs, n)[k] == ctl_model(cs[k]),
    decreases n,
{
    if n > 0 {
        lemma_ctls_model(cs, n - 1);
    }
}

/// The values of a vector of expressions, one by one.
pub(crate) proof fn lemma_exprs_view(args: Vec<Expression>)
    ensures
        exprs_model(args, args.len() as int) == args@.map_values(|a: Expression| a@),
{
    lemma_exprs_model(args, args.len() as int);
    assert(exprs_model(args, args.len() as int) =~= args@.map_values(|a: Expression| a@));
}

/// The values of a vector of nodes, one by one.
pub(crate) proof fn lemma_ctl_views(cs: Vec<Control>)
    ensures
        ctl_views(cs) == cs@.map_values(|c: Control| c@),
{
    lemma_ctls_model(cs, cs.len() as int);
    assert(ctl_views(cs) =~= cs@.map_values(|c: Control| c@));
}

// ---------------------------------------------------------------- expressions

/// The value of an optional expression.
pub open spec fn opt_expr(r: Option<Expression>) -> Option<Expr> {
    match r {
        Some(e) => Some(e@),
        None => None,
    }
}

/// An expression read from `toks[pos..]` against the base path, with the
/// position after what was read: `!` and an expression; a call `name(args)`
/// or a legacy call `function.name, args`; a string literal; an identifier,
/// which is split into a path and resolved.
pub open spec fn gen_expr(toks: Seq<Tok>, pos: int, base: Seq<Seq<char>>) -> (Option<Expr>, int)
    decreases toks.len() - pos, 0int,
{
    if pos < 0 || pos >= toks.len() {
        (None, pos)
    } else {
        let first = toks[pos];
        let has_second = pos + 1 < toks.len();
        if first is Bang && has_second {
            let (r, p) = gen_expr(toks, pos + 1, base);
            match r {
                Some(e) => (Some(Expr::Neg(Box::new(e))), p),
                None => (None, p),
            }
        } else if first is Identifier && has_second && toks[pos + 1] is LeftParen {
            let name = first->Identifier_0;
            if pos + 2 < toks.len() && toks[pos + 2] is RightParen {
                (Some(Expr::Helper(name, seq![])), pos + 3)
            } else {
                gen_args(toks, pos + 2, base, true, name, seq![])
            }
        } else if first is LegacyHelper && has_second && toks[pos + 1] is Identifier {
            let name = toks[pos + 1]->Identifier_0;
            let after_comma = if pos + 2 < toks.len() { pos + 3 } else { pos + 2 };
            gen_args(toks, after_comma, base, false, name, seq![])
        } else if first is StringLiteral {
            (Some(Expr::Str(first->StringLiteral_0)), pos + 1)
        } else if first is Identifier {
            (Some(Expr::Path(resolve_spec(base, split_spec(first->Identifier_0)))), pos + 1)
        } else {
            (None, pos + 1)
        }
    }
}

/// The arguments of a call from `pos`: expressions separated by commas, up
/// to `)` for a call in parentheses or to the end for a legacy call; an
/// argument that does not parse is left out.
pub open spec fn gen_args(
    toks: Seq<Tok>,
    pos: int,
    base: Seq<Seq<char>>,
    paren: bool,
    name: Seq<char>,
    acc: Seq<Expr>,
) -> (Option<Expr>, int)
    decreases toks.len() - pos, 1int,
{
    if pos < 0 || pos > toks.len() {
        (None, pos)
    } else {
        let (r, p) = gen_expr(toks, pos, base);
        let acc2 = match r {
            Some(e) => acc.push(e),
            None => acc,
        };
        if p < pos || p > toks.len() {
            (None, p)
        } else if p < toks.len() && toks[p] is Comma {
            if p + 1 > pos {
                gen_args(toks, p + 1, base, paren, name, acc2)
            } else {
                (None, p)
            }
        } else if p >= toks.len() && !paren {
            (Some(Expr::Helper(name, acc2)), p)
        } else if p < toks.len() && paren && toks[p] is RightParen {
            (Some(Expr::Helper(name, acc2)), p + 1)
        } else {
            (None, if p < toks.len() { p + 1 } else { p })
        }
    }
}

/// Reads an expression from `tokens[pos..]`; also the position after it.
fn generate_expression_at(tokens: &Vec<Token>, pos: usize, base: &Vec<String>) -> (r: (
    Option<Expression>,
    usize,
))
    requires
        pos <= tokens.len(),
    ensures
        pos <= r.1 <= tokens.len(),
        (opt_expr(r.0), r.1 as int) == gen_expr(
            tok_views(tokens@),
            pos as int,
            seg_views(base@),
        ),
    decreases tokens.len() - pos, 0int,
{
    let ghost tv = tok_views(tokens@);
    if pos >= tokens.len() {
        return (None, pos);
    }
    let has_second = pos + 1 < tokens.len();
    match &tokens[pos] {
        Token::Bang => {
            if has_second {
                let (r, p) = generate_expression_at(tokens, pos + 1, base);
                return match r {
                    Some(e) => (Some(Expression::NegativeExpression { expr: Box::new(e) }), p),
                    None => (None, p),
                };
            }
        },
        Token::Identifier(name) => {
            if has_second {
                match &tokens[pos + 1] {
                    Token::LeftParen => {
                        if pos + 2 < tokens.len() {
                            match &tokens[pos + 2] {
                                Token::RightParen => {
                                    let no_args: Vec<Expression> = Vec::new();
                                    proof {
                                        lemma_exprs_model(no_args, 0);
                                    }
                                    let e = Expression::HelperExpression {
                                        helper_name: name.clone(),
                                        args: no_args,
                                    };
                                    return (Some(e), pos + 3);
                                },
                                _ => {},
                            }
                        }
                        return generate_args(tokens, pos + 2, base, true, name);
                    },
                    _ => {},
                }
            }
        },
        Token::LegacyHelper => {
            if has_second {
                match &tokens[pos + 1] {
                    Token::Identifier(name) => {
                        let after_comma = if pos + 2 < tokens.len() {
                            pos + 3
                        } else {
                            pos + 2
                        };
                        return generate_args(tokens, after_comma, base, false, name);
                    },
                    _ => {},
                }
            }
        },
        _ => {},
    }
    match &tokens[pos] {
        Token::StringLiteral(value) => (Some(Expression::StringLiteral { value: value.clone() }), pos + 1),
        Token::Identifier(value) => {
            let path = resolve(base, split(value.clone()));
            (Some(Expression::PathExpression { path }), pos + 1)
        },
        _ => (None, pos + 1),
    }
}

/// Reads the arguments of a call from `tokens[pos..]`.
fn generate_args(tokens: &Vec<Token>, pos: usize, base: &Vec<String>, paren: bool, name: &String) -> (r: (
    Option<Expression>,
    usize,
))
    requires
        pos <= tokens.len(),
    ensures
        pos <= r.1 <= tokens.len(),
        (opt_expr(r.0), r.1 as int) == gen_args(
            tok_views(tokens@),
            pos as int,
            seg_views(base@),
            paren,
            name@,
            seq![],
        ),
    decreases tokens.len() - pos, 1int,
{
    let ghost tv = tok_views(tokens@);
    let ghost goal = gen_args(tv, pos as int, seg_views(base@), paren, name@, seq![]);
    let mut args: Vec<Expression> = Vec::new();
    let mut p = pos;
    proof {
        lemma_exprs_view(args);
        assert(args@.map_values(|a: Expression| a@) =~= seq![]);
    }
    loop
        invariant
            pos <= p <= tokens.len(),
            tv == tok_views(tokens@),
            tv.len() == tokens.len(),
            goal == gen_args(tv, p as int, seg_views(base@), paren, name@, args@.map_values(|a: Expression| a@)),
            goal == gen_args(tv, pos as int, seg_views(base@), paren, name@, seq![]),
        decreases tokens.len() - p,
    {
        let ghost acc = args@.map_values(|a: Expression| a@);
        let (r, q) = generate_expression_at(tokens, p, base);
        match r {
            Some(e) => {
                args.push(e);
            },
            None => {},
        }
        assert(args@.map_values(|a: Expression| a@) =~= match opt_expr(r) {
            Some(e) => acc.push(e),
            None => acc,
        });
        let comma = q < tokens.len() && match &tokens[q] {
            Token::Comma => true,
            _ => false,
        };
        proof {
            if q < tokens.len() {
                assert(tv[q as int] == tokens@[q as int]@);
            }
        }
        assert(comma == (q < tv.len() && tv[q as int] is Comma));
        if comma {
            p = q + 1;
        } else {
            let closes = q < tokens.len() && paren && match &tokens[q] {
                Token::RightParen => true,
                _ => false,
            };
            assert(closes == (q < tv.len() && paren && tv[q as int] is RightParen));
            if q >= tokens.len() && !paren {
                let e = Expression::HelperExpression { helper_name: name.clone(), args };
                proof {
                    lemma_exprs_view(args);
                }
                return (Some(e), q);
            } else if closes {
                let e = Expression::HelperExpression { helper_name: name.clone(), args };
                proof {
                    lemma_exprs_view(args);
                }
                return (Some(e), q + 1);
            } else {
                return (None, if q < tokens.len() { q + 1 } else { q });
            }
        }
    }
}

/// Reads an expression from the tokens of an instruction, resolving paths
/// against the base path.
pub fn generate_expression(tokens: &Vec<Token>, base: &Vec<String>) -> (r: Option<Expression>)
    ensures
        opt_expr(r) == gen_expr(tok_views(tokens@), 0, seg_views(base@)).0,
{
    generate_expression_at(tokens, 0, base).0
}

// ---------------------------------------------------------------- tree

/// The value of an optional instruction.
pub open spec fn opt_inst(r: Option<InstructionPos>) -> Option<InstAt> {
    match r {
        Some(i) => Some(i@),
        None => None,
    }
}

/// The values of a vector of nodes, one by one.
pub open spec fn node_views(v: Seq<Control>) -> Seq<Ctl> {
    v.map_values(|c: Control| c@)
}

/// The suffix of the scope inside an iteration (it stays at the largest
/// value rather than wrap).
pub open spec fn next_suffix(s: nat) -> nat {
    if s < usize::MAX {
        s + 1
    } else {
        s
    }
}

/// The path that an iteration walks: its subject's path, or the base path
/// when the subject is no path.
pub open spec fn iter_path(e: Expr, base: Seq<Seq<char>>) -> Seq<Seq<char>> {
    match e {
        Expr::Path(p) => p,
        _ => base,
    }
}

/// The segments of a path joined by `.`.
pub open spec fn join_dots(p: Seq<Seq<char>>) -> Seq<char>
    decreases p.len(),
{
    if p.len() == 0 {
        seq![]
    } else if p.len() == 1 {
        p[0]
    } else {
        join_dots(p.drop_last()) + seq!['.'] + p.last()
    }
}

/// The nodes built from `ins[i..]` after `out`, up to the first `Else` or
/// `End` at this depth, which is returned with the position after it.  An
/// `If` or `Iter` takes its body up to its own `Else` or `End`, and after
/// an `Else` its alternative up to the next closer; an iteration's body and
/// alternative are read in the scope of its path.  An instruction whose
/// subject does not parse becomes its source text.
pub open spec fn tree_from(
    src: Seq<char>,
    ins: Seq<InstAt>,
    i: int,
    base: Seq<Seq<char>>,
    suffix: nat,
    out: Seq<Ctl>,
) -> (Seq<Ctl>, Option<InstAt>, int)
    decreases ins.len() - i,
{
    if i < 0 || i >= ins.len() {
        (out, None, i)
    } else {
        let text = Ctl::Text(source_text(src, ins[i].start, ins[i].end));
        match ins[i].inst {
            Inst::Text(v) => tree_from(src, ins, i + 1, base, suffix, out.push(Ctl::Text(v))),
            Inst::Escaped(t) => {
                let c = match gen_expr(t, 0, base).0 {
                    Some(e) => Ctl::Escaped(e),
                    None => text,
                };
                tree_from(src, ins, i + 1, base, suffix, out.push(c))
            },
            Inst::Raw(t) => {
                let c = match gen_expr(t, 0, base).0 {
                    Some(e) => Ctl::Raw(e),
                    None => text,
                };
                tree_from(src, ins, i + 1, base, suffix, out.push(c))
            },
            Inst::IfStart(t) | Inst::IterStart(t) => match gen_expr(t, 0, base).0 {
                Some(e) => {
                    let is_iter = ins[i].inst is IterStart;
                    let path = iter_path(e, base);
                    let inner = if is_iter { iter_element_spec(path, suffix) } else { base };
                    let inner_suffix = if is_iter { next_suffix(suffix) } else { suffix };
                    let (body, last, j) = tree_from(src, ins, i + 1, inner, inner_suffix, seq![]);
                    if j <= i || j > ins.len() {
                        (out, None, j)
                    } else {
                        let has_alt = last is Some && last->0.inst is Else;
                        let (alt, _, k) = if has_alt {
                            tree_from(src, ins, j, inner, inner_suffix, seq![])
                        } else {
                            (seq![], None, j)
                        };
                        if k < j || k > ins.len() {
                            (out, None, k)
                        } else {
                            let node = if is_iter {
                                Ctl::Iter(suffix, join_dots(path), e, body, alt)
                            } else {
                                Ctl::If(e, body, alt)
                            };
                            tree_from(src, ins, k, base, suffix, out.push(node))
                        }
                    }
                },
                None => tree_from(src, ins, i + 1, base, suffix, out.push(text)),
            },
            Inst::Else | Inst::End(_) => (out, Some(ins[i]), i + 1),
        }
    }
}

/// The segments of a path joined by `.`.
fn join_path(path: &Vec<String>) -> (r: String)
    ensures
        r@ == join_dots(seg_views(path@)),
{
    let ghost pv = seg_views(path@);
    let mut out = String::new();
    let mut k: usize = 0;
    while k < path.len()
        invariant
            k <= path.len(),
            pv == seg_views(path@),
            pv.len() == path.len(),
            out@ == join_dots(pv.subrange(0, k as int)),
        decreases path.len() - k,
    {
        assert(pv.subrange(0, k + 1).drop_last() =~= pv.subrange(0, k as int));
        if k > 0 {
            push_char(&mut out, '.');
        }
        push_all(&mut out, &path[k]);
        k += 1;
        proof {
            if k == 1 {
                assert(out@ =~= join_dots(pv.subrange(0, 1)));
            }
        }
    }
    assert(pv.subrange(0, path.len() as int) =~= pv);
    out
}

proof fn lemma_node_views_push(v: Seq<Control>, c: Control)
    ensures
        node_views(v.push(c)) == node_views(v).push(c@),
{
    assert(node_views(v.push(c)) =~= node_views(v).push(c@));
}

/// Builds the control tree from `input[pos..]`, up to the first `Else` or
/// `End` at this depth: the nodes, that closer, and the position after it.
pub fn parse_tree(
    source: &str,
    input: &Vec<InstructionPos>,
    pos: usize,
    base: &Vec<String>,
    suffix: usize,
) -> (r: (Vec<Control>, Option<InstructionPos>, usize))
    ensures
        pos <= r.2,
        r.2 <= input.len() || r.2 == pos,
        pos < input.len() ==> pos < r.2,
        (node_views(r.0@), opt_inst(r.1), r.2 as int) == tree_from(
            source@,
            inst_views(input@),
            pos as int,
            seg_views(base@),
            suffix as nat,
            seq![],
        ),
    decreases input.len() - pos,
{
    let ghost iv = inst_views(input@);
    let ghost sb = seg_views(base@);
    let ghost goal = tree_from(source@, iv, pos as int, sb, suffix as nat, seq![]);
    let mut output: Vec<Control> = Vec::new();
    let mut i = pos;
    assert(node_views(output@) =~= seq![]);
    loop
        invariant
            pos <= i,
            i <= input.len() || i == pos,
            iv == inst_views(input@),
            iv.len() == input.len(),
            sb == seg_views(base@),
            goal == tree_from(source@, iv, pos as int, sb, suffix as nat, seq![]),
            goal == tree_from(source@, iv, i as int, sb, suffix as nat, node_views(output@)),
        decreases input.len() - i,
    {
        if i >= input.len() {
            return (output, None, i);
        }
        let inst_pos = &input[i];
        let ghost text = Ctl::Text(source_text(source@, iv[i as int].start, iv[i as int].end));
        let ghost out0 = node_views(output@);
        match &inst_pos.inst {
            Instruction::Text(value) => {
                let c = Control::Text { value: value.clone() };
                proof {
                    lemma_node_views_push(output@, c);
                }
                output.push(c);
                i += 1;
            },
            Instruction::Escaped(subject) | Instruction::Raw(subject) => {
                let raw = match &inst_pos.inst {
                    Instruction::Raw(_) => true,
                    _ => false,
                };
                let c = match generate_expression(subject, base) {
                    Some(e) => if raw {
                        Control::Raw { subject: e }
                    } else {
                        Control::Escaped { subject: e }
                    },
                    None => Control::Text { value: inst_pos.get_source(source) },
                };
                proof {
                    lemma_node_views_push(output@, c);
                }
                output.push(c);
                i += 1;
            },
            Instruction::IfStart(subject) | Instruction::IterStart(subject) => {
                let is_iter = match &inst_pos.inst {
                    Instruction::IterStart(_) => true,
                    _ => false,
                };
                match generate_expression(subject, base) {
                    Some(e) => {
                        let path = match &e {
                            Expression::PathExpression { path } => copy_segments(path),
                            _ => copy_segments(base),
                        };
                        let inner = if is_iter {
                            iter_element(&path, suffix)
                        } else {
                            copy_segments(base)
                        };
                        let inner_suffix = if is_iter && suffix < usize::MAX {
                            suffix + 1
                        } else {
                            suffix
                        };
                        let (body, last, j) = parse_tree(source, input, i + 1, &inner, inner_suffix);
                        let has_alt = match &last {
                            Some(InstructionPos { inst: Instruction::Else, .. }) => true,
                            _ => false,
                        };
                        let (alt, k) = if has_alt {
                            let (a, _, k) = parse_tree(source, input, j, &inner, inner_suffix);
                            (a, k)
                        } else {
                            (Vec::new(), j)
                        };
                        proof {
                            lemma_ctl_views(body);
                            lemma_ctl_views(alt);
                            if !has_alt {
                                assert(node_views(alt@) =~= seq![]);
                            }
                        }
                        let c = if is_iter {
                            Control::Iter {
                                suffix,
                                subject_raw: join_path(&path),
                                subject: e,
                                body,
                                alt,
                            }
                        } else {
                            Control::If { subject: e, body, alt }
                        };
                        proof {
                            lemma_node_views_push(output@, c);
                        }
                        output.push(c);
                        i = k;
                    },
                    None => {
                        let c = Control::Text { value: inst_pos.get_source(source) };
                        proof {
                            lemma_node_views_push(output@, c);
                        }
                        output.push(c);
                        i += 1;
                    },
                }
            },
            Instruction::Else | Instruction::End(_) => {
                return (output, Some(inst_pos.copy()), i + 1);
            },
        }
    }
}

} // verus!
