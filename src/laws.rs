//! Properties of the compiler that relate several of its stages.
use vstd::prelude::*;

use crate::generator::{
    block_call, block_def, empty_code, expr_code, gen_ctl, gen_list, gen_seq,
    iter_code, json_quoted, wrapper_code, Gen,
};
use crate::lexer::{collapse, followed_by, lex_run, lex_spec, lex_step, tok_in_bytes, window, Cur};
use crate::parser::{parse_from, parse_instructions_spec, tree_from};
use crate::text::byte_offset;
use crate::token::{Tok, TokAt};
use crate::{compile_spec, tree_spec};
use crate::instruction::{as_text, Inst, InstAt};
use crate::parser::{demote, fix_spec, scan, Ctl, Expr};

verus! {

// ================================================================ negation

/// A negated condition is generated as a test of the expression itself with
/// the branches in swapped places: no negation is written, and the code
/// generated for the alternative comes where the body's would be.
pub proof fn negated_condition_swaps_branches(
    e: Expr,
    body: Seq<Ctl>,
    alt: Seq<Ctl>,
    top: bool,
    names: Seq<Seq<char>>,
)
    ensures
        ({
            let g_body = gen_seq(body, top, names);
            let g_alt = gen_seq(alt, top, g_body.names);
            gen_ctl(Ctl::If(Expr::Neg(Box::new(e)), body, alt), top, names).code == "("@ + expr_code(e)
                + " ? "@ + g_alt.code + " : "@ + g_body.code + ")"@
        }),
{
}

/// Generating nodes inside an iteration body hoists nothing: the code does
/// not depend on the names hoisted so far, no block is defined, and the
/// names stay as they are.
pub proof fn nested_generation_hoists_nothing(c: Ctl, names: Seq<Seq<char>>)
    ensures
        gen_ctl(c, false, names) == (Gen {
            code: gen_ctl(c, false, seq![]).code,
            blocks: seq![],
            names,
        }),
    decreases c, 0int, 0int,
{
    match c {
        Ctl::If(subject, body, alt) => {
            nested_sequence_hoists_nothing(body, names);
            nested_sequence_hoists_nothing(body, seq![]);
            nested_sequence_hoists_nothing(alt, names);
            nested_sequence_hoists_nothing(alt, seq![]);
            assert(seq![] + seq![] =~= Seq::<Seq<char>>::empty());
        },
        _ => {},
    }
}

/// `nested_generation_hoists_nothing`, for a sequence of nodes.
pub proof fn nested_sequence_hoists_nothing(cs: Seq<Ctl>, names: Seq<Seq<char>>)
    ensures
        gen_seq(cs, false, names) == (Gen {
            code: gen_seq(cs, false, seq![]).code,
            blocks: seq![],
            names,
        }),
    decreases cs, 1int, 0int,
{
    if cs.len() > 0 {
        nested_list_hoists_nothing(cs, names, cs.len() as int);
    }
}

/// `nested_generation_hoists_nothing`, for the first `n` nodes of a sequence.
pub proof fn nested_list_hoists_nothing(cs: Seq<Ctl>, names: Seq<Seq<char>>, n: int)
    requires
        cs.len() > 0,
    ensures
        gen_list(cs, false, names, n) == (Gen {
            code: gen_list(cs, false, seq![], n).code,
            blocks: seq![],
            names,
        }),
    decreases cs, 0int, n,
{
    if n <= 1 || n > cs.len() {
        nested_generation_hoists_nothing(cs[0], names);
    } else {
        nested_list_hoists_nothing(cs, names, n - 1);
        nested_list_hoists_nothing(cs, seq![], n - 1);
        nested_generation_hoists_nothing(cs[n - 1], names);
        nested_generation_hoists_nothing(cs[n - 1], seq![]);
        assert(seq![] + seq![] =~= Seq::<Seq<char>>::empty());
    }
}

/// Inside an iteration body, a negated condition generates the same code as
/// the condition on the plain expression with its branches exchanged.
pub proof fn negation_round_trip(e: Expr, body: Seq<Ctl>, alt: Seq<Ctl>, names: Seq<Seq<char>>)
    requires
        !(e is Neg),
    ensures
        gen_ctl(Ctl::If(Expr::Neg(Box::new(e)), body, alt), false, names).code == gen_ctl(
            Ctl::If(e, alt, body),
            false,
            names,
        ).code,
{
    nested_sequence_hoists_nothing(body, names);
    nested_sequence_hoists_nothing(alt, names);
}

// ================================================================ hoisting

/// Two top-level iterations over the same path give one block, defined by
/// the first, and two calls of it.
pub proof fn top_level_iterations_share_a_block(
    s1: nat,
    s2: nat,
    raw: Seq<char>,
    e1: Expr,
    e2: Expr,
    b1: Seq<Ctl>,
    a1: Seq<Ctl>,
    b2: Seq<Ctl>,
    a2: Seq<Ctl>,
)
    ensures
        ({
            let first = Ctl::Iter(s1, raw, e1, b1, a1);
            let g = gen_seq(seq![first, Ctl::Iter(s2, raw, e2, b2, a2)], true, seq![]);
            &&& g.code == block_call(raw) + " + "@ + block_call(raw)
            &&& g.blocks == seq![block_def(raw, gen_ctl(first, false, seq![]).code)]
        }),
{
    let first = Ctl::Iter(s1, raw, e1, b1, a1);
    let cs = seq![first, Ctl::Iter(s2, raw, e2, b2, a2)];
    let g1 = gen_ctl(first, true, seq![]);
    assert(g1.names == seq![raw]);
    assert(g1.names.contains(raw)) by {
        assert(g1.names[0] == raw);
    }
    assert(gen_list(cs, true, seq![], 1) == g1);
    assert(seq![block_def(raw, gen_ctl(first, false, seq![]).code)] + seq![] =~= seq![
        block_def(raw, gen_ctl(first, false, seq![]).code),
    ]);
}

/// The same two iterations inside another iteration are both generated
/// inline, in the block of the outer one.
pub proof fn nested_iterations_stay_inline(
    s: nat,
    raw: Seq<char>,
    e: Expr,
    c1: Ctl,
    c2: Ctl,
)
    requires
        c1 is Iter,
        c2 is Iter,
    ensures
        ({
            let g = gen_seq(seq![Ctl::Iter(s, raw, e, seq![c1, c2], seq![])], true, seq![]);
            let inner = gen_ctl(c1, false, seq![]).code + " + "@ + gen_ctl(c2, false, seq![]).code;
            &&& g.code == block_call(raw)
            &&& g.blocks == seq![block_def(raw, iter_code(s, expr_code(e), inner, empty_code()))]
        }),
{
    let cs = seq![c1, c2];
    let outer = Ctl::Iter(s, raw, e, cs, seq![]);
    assert(gen_list(cs, false, seq![], 1) == gen_ctl(c1, false, seq![]));
    assert(gen_ctl(c1, false, seq![]).names == Seq::<Seq<char>>::empty());
    assert(gen_seq(cs, false, seq![]) == gen_list(cs, false, seq![], 2));
    assert(gen_seq(seq![], false, seq![]).code == empty_code());
    assert(gen_seq(seq![outer], true, seq![]) == gen_list(seq![outer], true, seq![], 1));
    assert(gen_list(seq![outer], true, seq![], 1) == gen_ctl(outer, true, seq![]));
    assert(!Seq::<Seq<char>>::empty().contains(raw));
}

// ================================================================ repair

/// An instruction that opens a block.
pub open spec fn is_opener(i: InstAt) -> bool {
    i.inst is IfStart || i.inst is IterStart
}

/// Openers minus closers among the first `n` instructions.
pub open spec fn depth(ins: Seq<InstAt>, n: int) -> int
    decreases n,
{
    if n <= 0 {
        0
    } else {
        depth(ins, n - 1) + if is_opener(ins[n - 1]) {
            1int
        } else if ins[n - 1].inst is End {
            -1int
        } else {
            0int
        }
    }
}

/// Every closer closes an open block, and every block is closed.
pub open spec fn balanced(ins: Seq<InstAt>) -> bool {
    &&& forall|n: int| 0 <= n <= ins.len() ==> depth(ins, n) >= 0
    &&& depth(ins, ins.len() as int) == 0
}

/// The repair scan counts openers and closers.
proof fn lemma_scan_counts(ins: Seq<InstAt>, n: int)
    requires
        0 <= n <= ins.len(),
    ensures
        scan(ins, n).opens - scan(ins, n).ends == depth(ins, n),
    decreases n,
{
    if n > 0 {
        lemma_scan_counts(ins, n - 1);
    }
}

/// With balanced blocks the repair changes nothing.
pub proof fn balanced_blocks_are_not_repaired(source: Seq<char>, ins: Seq<InstAt>)
    requires
        balanced(ins),
    ensures
        fix_spec(source, ins) == ins,
{
    lemma_scan_counts(ins, ins.len() as int);
}

/// The number of closers among the first `n` instructions.
pub open spec fn ends_before(ins: Seq<InstAt>, n: int) -> int
    decreases n,
{
    if n <= 0 {
        0
    } else {
        ends_before(ins, n - 1) + if ins[n - 1].inst is End {
            1int
        } else {
            0int
        }
    }
}

/// The number of openers among the first `n` instructions.
pub open spec fn opens_before(ins: Seq<InstAt>, n: int) -> int
    decreases n,
{
    if n <= 0 {
        0
    } else {
        opens_before(ins, n - 1) + if is_opener(ins[n - 1]) {
            1int
        } else {
            0int
        }
    }
}

/// The number of marks among the first `n`.
pub open spec fn marks_before(m: Seq<bool>, n: int) -> int
    decreases n,
{
    if n <= 0 {
        0
    } else {
        marks_before(m, n - 1) + if m[n - 1] {
            1int
        } else {
            0int
        }
    }
}

/// The number of the first `n` places where `out` differs from `ins`.
pub open spec fn changes_before(out: Seq<InstAt>, ins: Seq<InstAt>, n: int) -> int
    decreases n,
{
    if n <= 0 {
        0
    } else {
        changes_before(out, ins, n - 1) + if out[n - 1] != ins[n - 1] {
            1int
        } else {
            0int
        }
    }
}

proof fn lemma_marks_agree(m1: Seq<bool>, m2: Seq<bool>, n: int)
    requires
        forall|i: int| 0 <= i < n ==> m1[i] == m2[i],
    ensures
        marks_before(m1, n) == marks_before(m2, n),
    decreases n,
{
    if n > 0 {
        lemma_marks_agree(m1, m2, n - 1);
    }
}

proof fn lemma_changes_agree(o1: Seq<InstAt>, o2: Seq<InstAt>, ins: Seq<InstAt>, n: int)
    requires
        forall|i: int| 0 <= i < n ==> o1[i] == o2[i],
    ensures
        changes_before(o1, ins, n) == changes_before(o2, ins, n),
    decreases n,
{
    if n > 0 {
        lemma_changes_agree(o1, o2, ins, n - 1);
    }
}

/// What the repair scan keeps after `n` instructions: it counts openers and
/// closers, marks closers only, and every closer it does not mark closed a
/// subject that it took off the stack.
proof fn lemma_scan_facts(ins: Seq<InstAt>, n: int)
    requires
        0 <= n <= ins.len(),
    ensures
        scan(ins, n).opens == opens_before(ins, n),
        scan(ins, n).ends == ends_before(ins, n),
        scan(ins, n).marked.len() == ins.len(),
        forall|i: int| n <= i < ins.len() ==> !scan(ins, n).marked[i],
        forall|i: int| 0 <= i < n ==> scan(ins, n).marked[i] ==> ins[i].inst is End,
        scan(ins, n).stack.len() + ends_before(ins, n) - marks_before(scan(ins, n).marked, n)
            == opens_before(ins, n),
    decreases n,
{
    if n > 0 {
        lemma_scan_facts(ins, n - 1);
        let st = scan(ins, n - 1);
        let st2 = scan(ins, n);
        assert forall|i: int| 0 <= i < n - 1 implies st2.marked[i] == st.marked[i] by {}
        lemma_marks_agree(st2.marked, st.marked, n - 1);
    }
}

/// What the demotion of the first `n` instructions gives: each place keeps
/// its instruction or, if marked, may hold its source text; as many places
/// change as marks were used, and `diff` counts down to no further than zero.
proof fn lemma_demote(source: Seq<char>, ins: Seq<InstAt>, m: Seq<bool>, n: int, diff: int)
    requires
        0 <= n <= ins.len(),
        m.len() == ins.len(),
        diff >= 0,
        forall|i: int| 0 <= i < n ==> m[i] ==> ins[i].inst is End,
    ensures
        ({
            let (out, left) = demote(source, ins, m, n, diff);
            &&& out.len() == n
            &&& left == if diff >= marks_before(m, n) { diff - marks_before(m, n) } else { 0 }
            &&& changes_before(out, ins, n) == diff - left
            &&& forall|i: int|
                0 <= i < n ==> out[i] == ins[i] || (ins[i].inst is End && out[i] == as_text(
                    source,
                    ins[i],
                ))
        }),
    decreases n,
{
    if n > 0 {
        lemma_demote(source, ins, m, n - 1, diff);
        let (prev, _) = demote(source, ins, m, n - 1, diff);
        let (out, _) = demote(source, ins, m, n, diff);
        assert forall|i: int| 0 <= i < n - 1 implies out[i] == prev[i] by {}
        lemma_changes_agree(out, prev, ins, n - 1);
    }
}

/// Where there are `N` more closers than openers, the repair turns exactly
/// `N` closers into their source text and leaves every other instruction as
/// it was.
pub proof fn extra_closers_become_text(source: Seq<char>, ins: Seq<InstAt>)
    requires
        ends_before(ins, ins.len() as int) > opens_before(ins, ins.len() as int),
    ensures
        ({
            let out = fix_spec(source, ins);
            &&& out.len() == ins.len()
            &&& forall|i: int|
                0 <= i < ins.len() ==> out[i] == ins[i] || (ins[i].inst is End && out[i] == as_text(
                    source,
                    ins[i],
                ))
            &&& changes_before(out, ins, ins.len() as int) == ends_before(ins, ins.len() as int)
                - opens_before(ins, ins.len() as int)
        }),
{
    let n = ins.len() as int;
    lemma_scan_facts(ins, n);
    let st = scan(ins, n);
    lemma_demote(source, ins, st.marked, n, st.ends - st.opens);
}

/// Marks stand only on closers, so there are no more marks than closers;
/// as many only when every closer is marked.
proof fn lemma_marks_at_most_ends(ins: Seq<InstAt>, m: Seq<bool>, n: int)
    requires
        0 <= n <= ins.len(),
        m.len() == ins.len(),
        forall|i: int| 0 <= i < n ==> m[i] ==> ins[i].inst is End,
    ensures
        marks_before(m, n) <= ends_before(ins, n),
        marks_before(m, n) == ends_before(ins, n) ==> forall|i: int|
            0 <= i < n ==> ins[i].inst is End ==> m[i],
    decreases n,
{
    if n > 0 {
        lemma_marks_at_most_ends(ins, m, n - 1);
    }
}

/// With at least as many to demote as there are marks, every marked place
/// becomes its source text and every other keeps its instruction.
proof fn lemma_demote_all(source: Seq<char>, ins: Seq<InstAt>, m: Seq<bool>, n: int, diff: int)
    requires
        0 <= n <= ins.len(),
        m.len() == ins.len(),
        diff >= 0,
        diff >= marks_before(m, n),
        forall|i: int| 0 <= i < n ==> m[i] ==> ins[i].inst is End,
    ensures
        ({
            let out = demote(source, ins, m, n, diff).0;
            forall|i: int|
                0 <= i < n ==> out[i] == if m[i] {
                    as_text(source, ins[i])
                } else {
                    ins[i]
                }
        }),
    decreases n,
{
    if n > 0 {
        lemma_demote_all(source, ins, m, n - 1, diff);
        lemma_demote(source, ins, m, n - 1, diff);
        let prev = demote(source, ins, m, n - 1, diff).0;
        let out = demote(source, ins, m, n, diff).0;
        assert forall|i: int| 0 <= i < n - 1 implies out[i] == prev[i] by {}
    }
}

/// Where no block is opened, every closer passes through as its source text
/// and every other instruction stays as it was.
pub proof fn closers_without_openers_become_text(source: Seq<char>, ins: Seq<InstAt>)
    requires
        opens_before(ins, ins.len() as int) == 0,
        ends_before(ins, ins.len() as int) > 0,
    ensures
        ({
            let out = fix_spec(source, ins);
            &&& out.len() == ins.len()
            &&& forall|i: int|
                0 <= i < ins.len() ==> out[i] == if ins[i].inst is End {
                    as_text(source, ins[i])
                } else {
                    ins[i]
                }
        }),
{
    let n = ins.len() as int;
    lemma_scan_facts(ins, n);
    let st = scan(ins, n);
    lemma_marks_at_most_ends(ins, st.marked, n);
    lemma_demote(source, ins, st.marked, n, st.ends - st.opens);
    lemma_demote_all(source, ins, st.marked, n, st.ends - st.opens);
}

// ================================================================ plain text

/// Text in which no construct of the language can start: no backslash, no
/// brace, and no `<!--`.
pub open spec fn is_plain(s: Seq<char>) -> bool {
    &&& forall|i: int| 0 <= i < s.len() ==> #[trigger] s[i] != '\\' && s[i] != '{'
    &&& forall|i: int|
        0 <= i && i + 4 <= s.len() ==> #[trigger] s.subrange(i, i + 4) != seq!['<', '!', '-', '-']
}

/// From a window at the start of plain text the lexer only widens it, and
/// the whole text comes out as one text token.
proof fn lemma_lex_plain(s: Seq<char>, e: int)
    requires
        is_plain(s),
        1 <= e <= s.len(),
    ensures
        lex_run(s, Cur { start: 0, end: e }, seq![]) == seq![
            TokAt { start: 0, end: s.len() as int, tok: Tok::Text(s) },
        ],
    decreases s.len() - e,
{
    let c = Cur { start: 0, end: e };
    let w = window(s, c);
    assert(w[0] == s[0]);
    assert(w != seq!['\\']);
    assert(w != seq!['{']);
    assert(w != seq!['{', '{']);
    assert(w != seq!['<', '!', '-', '-']) by {
        if w == seq!['<', '!', '-', '-'] {
            assert(w.len() == e);
            assert(seq!['<', '!', '-', '-'].len() == 4);
            assert(s.subrange(0, 4) =~= w);
            let z: int = 0;
            assert(s.subrange(z, z + 4) != seq!['<', '!', '-', '-']);
        }
    }
    assert(w != seq!['{', '{', '{']);
    if e < s.len() {
        assert(!followed_by(s, c, seq!['\\'])) by {
            if followed_by(s, c, seq!['\\']) {
                assert(s.subrange(e, e + 1)[0] == s[e]);
            }
        }
        assert(!followed_by(s, c, seq!['{'])) by {
            if followed_by(s, c, seq!['{']) {
                assert(s.subrange(e, e + 1)[0] == s[e]);
            }
        }
        assert(!followed_by(s, c, seq!['<', '!', '-', '-'])) by {
            if followed_by(s, c, seq!['<', '!', '-', '-']) {
                assert(s.subrange(e, e + 4) == seq!['<', '!', '-', '-']);
            }
        }
    }
    assert(lex_step(s, c, seq![]) == (Cur { start: 0, end: e + 1 }, Seq::<TokAt>::empty()));
    if e + 1 < s.len() {
        lemma_lex_plain(s, e + 1);
    } else {
        assert(s.subrange(0, s.len() as int) =~= s);
    }
}

/// Plain text lexes to one text token that spans all of its bytes.
pub proof fn plain_text_lexes_to_one_token(s: Seq<char>)
    requires
        is_plain(s),
        s.len() > 0,
    ensures
        lex_spec(s) == seq![
            TokAt { start: 0, end: byte_offset(s, s.len() as int), tok: Tok::Text(s) },
        ],
{
    lemma_lex_plain(s, 1);
    let t = TokAt { start: 0, end: s.len() as int, tok: Tok::Text(s) };
    assert(collapse(seq![t]) == seq![t]);
    assert(lex_spec(s) =~= seq![tok_in_bytes(s, t)]);
}

/// Compiling plain text after the pre-fixer gives the unit whose body is
/// that text as one string constant, with no block.
pub proof fn plain_text_compiles_to_one_constant(s: Seq<char>)
    requires
        is_plain(s),
    ensures
        compile_spec(s) == wrapper_code(json_quoted(s), seq![]),
{
    if s.len() == 0 {
        assert(lex_spec(s) == Seq::<TokAt>::empty());
        assert(tree_spec(s) == Seq::<Ctl>::empty());
        assert(json_quoted(s) =~= seq!['"', '"']);
        reveal_strlit("\"\"");
        assert(empty_code() =~= seq!['"', '"']);
    } else {
        lemma_lex_plain(s, 1);
        let t = TokAt { start: 0, end: s.len() as int, tok: Tok::Text(s) };
        assert(collapse(seq![t]) == seq![t]);
        let tb = tok_in_bytes(s, t);
        assert(lex_spec(s) =~= seq![tb]);
        let t = tb;
        let i = InstAt { start: t.start, end: t.end, inst: Inst::Text(s) };
        assert(parse_from(seq![t], 1, seq![i]) == seq![i]);
        assert(parse_instructions_spec(seq![t]) == seq![i]);
        assert(scan(seq![i], 0).ends == 0);
        assert(seq![i][0].inst is Text);
        assert(scan(seq![i], 1) == scan(seq![i], 0));
        assert(scan(seq![i], 1).ends == 0);
        assert(fix_spec(s, seq![i]) == seq![i]);
        assert(tree_from(s, seq![i], 1, seq![], 1, seq![Ctl::Text(s)]).0 == seq![Ctl::Text(s)]);
        assert(tree_spec(s) == seq![Ctl::Text(s)]);
        assert(gen_seq(seq![Ctl::Text(s)], true, seq![]) == gen_list(seq![Ctl::Text(s)], true, seq![], 1));
    }
}

} // verus!
