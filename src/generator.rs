//! The code generator: JavaScript source for a render function, with the
//! bodies of top-level iterations hoisted into named blocks.
use vstd::prelude::*;

use crate::paths::seg_views;
use crate::parser::{
    ctl_views, expr_model, exprs_model, lemma_ctls_model, lemma_exprs_model, Control,
    Ctl, Expr, Expression,
};
use crate::text::{decimal, push_all, push_decimal, push_str};

verus! {

// ================================================================ JSON strings

/// A lowercase hexadecimal digit.
pub open spec fn hex_digit(d: u32) -> char {
    if d < 10 {
        ((d + 48) as u8) as char
    } else {
        ((d + 87) as u8) as char
    }
}

/// How a JSON string writes one character.
pub open spec fn json_escape(c: char) -> Seq<char> {
    if c == '"' {
        seq!['\\', '"']
    } else if c == '\\' {
        seq!['\\', '\\']
    } else if c == '\u{8}' {
        seq!['\\', 'b']
    } else if c == '\t' {
        seq!['\\', 't']
    } else if c == '\n' {
        seq!['\\', 'n']
    } else if c == '\u{c}' {
        seq!['\\', 'f']
    } else if c == '\r' {
        seq!['\\', 'r']
    } else if (c as u32) < 0x20 {
        seq!['\\', 'u', '0', '0', hex_digit((c as u32) / 16), hex_digit((c as u32) % 16)]
    } else {
        seq![c]
    }
}

/// The characters of `s`, each written as a JSON string writes it.
pub open spec fn json_body(s: Seq<char>) -> Seq<char>
    decreases s.len(),
{
    if s.len() == 0 {
        seq![]
    } else {
        json_body(s.drop_last()) + json_escape(s.last())
    }
}

/// `s` as a JSON string literal.
pub open spec fn json_quoted(s: Seq<char>) -> Seq<char> {
    seq!['"'] + json_body(s) + seq!['"']
}

/// Relies on `json::stringify` of the `JsonValue` made from a string: it
/// writes a quote, the string with `"`, `\` and the control characters
/// escaped (`\b`, `\t`, `\n`, `\f`, `\r`, else `\u00xx`), and a quote.
#[verifier::external_body]
fn json_string(s: &String) -> (r: String)
    ensures
        r@ == json_quoted(s@),
{
    json::stringify(json::from(s.as_str()))
}

// ================================================================ fragments

/// The code that looks a path up in the context.
pub open spec fn path_keys(p: Seq<Seq<char>>) -> Seq<char>
    decreases p.len(),
{
    if p.len() == 0 {
        seq![]
    } else {
        path_keys(p.drop_last()) + "["@ + json_quoted(p.last()) + "]"@
    }
}

/// The code of an expression.
pub open spec fn expr_code(e: Expr) -> Seq<char>
    decreases e, 0int,
{
    match e {
        Expr::Path(p) => "guard(context"@ + path_keys(p) + ")"@,
        Expr::Str(v) => json_quoted(v),
        Expr::Helper(name, args) => "helper(context, helpers, "@ + json_quoted(name) + ", ["@
            + args_code(args, args.len() as int) + "])"@,
        Expr::Neg(inner) => "!"@ + expr_code(*inner),
    }
}

/// The code of the first `n` arguments, separated by `, `.
pub open spec fn args_code(args: Seq<Expr>, n: int) -> Seq<char>
    decreases args, n,
{
    if n <= 0 || n > args.len() {
        seq![]
    } else if n == 1 {
        expr_code(args[0])
    } else {
        args_code(args, n - 1) + ", "@ + expr_code(args[n - 1])
    }
}

/// A conditional; with `neg` the test is the negated subject's inner
/// expression and the branches trade places.
pub open spec fn if_else_code(neg: bool, test: Seq<char>, body: Seq<char>, alt: Seq<char>) -> Seq<
    char,
> {
    "("@ + test + " ? "@ + (if neg { alt } else { body }) + " : "@ + (if neg { body } else { alt })
        + ")"@
}

/// An iteration over the subject, with the key of this nesting depth.
pub open spec fn iter_code(suffix: nat, subject: Seq<char>, body: Seq<char>, alt: Seq<char>) -> Seq<
    char,
> {
    "iter("@ + subject + ", function (key"@ + decimal(suffix) + ") { return "@ + body
        + "; }, function () { return "@ + alt + "; })"@
}

/// The definition of a hoisted block.
pub open spec fn block_def(name: Seq<char>, code: Seq<char>) -> Seq<char> {
    "compiled.blocks["@ + json_quoted(name)
        + "] = function (helpers, context, guard, iter, helper) { var __escape = helpers.__escape; var value = context; return "@
        + code + "; };"@
}

/// A call of a hoisted block.
pub open spec fn block_call(name: Seq<char>) -> Seq<char> {
    "compiled.blocks["@ + json_quoted(name) + "](helpers, context, guard, iter, helper)"@
}

/// The code of an empty sequence of nodes.
pub open spec fn empty_code() -> Seq<char> {
    "\"\""@
}

/// The whole generated unit around the body and the hoisted blocks.
pub open spec fn wrapper_code(body: Seq<char>, blocks: Seq<Seq<char>>) -> Seq<char> {
    "(function (factory) {\n  if (typeof module === 'object' && module.exports) {\n    module.exports = factory();\n  } else if (typeof define === 'function' && define.amd) {\n    define(factory);\n  }\n})(function () {\n  function compiled(helpers, context, guard, iter, helper) {\n    var __escape = helpers.__escape;\n    var value = context;\n    return "@
        + body + ";\n  }\n  compiled.blocks = {};\n"@ + block_lines(blocks)
        + "  return compiled;\n})\n"@
}

/// Each block on a line of its own.
pub open spec fn block_lines(blocks: Seq<Seq<char>>) -> Seq<char>
    decreases blocks.len(),
{
    if blocks.len() == 0 {
        seq![]
    } else {
        block_lines(blocks.drop_last()) + "  "@ + blocks.last() + "\n"@
    }
}

// ================================================================ the walk

/// What generating a sequence of nodes gives: the code, the hoisted blocks,
/// and the names of the blocks hoisted so far.
pub struct Gen {
    pub code: Seq<char>,
    pub blocks: Seq<Seq<char>>,
    pub names: Seq<Seq<char>>,
}

/// The subject of a conditional without its negation, and whether it had one.
pub open spec fn unnegated(e: Expr) -> (Expr, bool) {
    match e {
        Expr::Neg(inner) => (*inner, true),
        _ => (e, false),
    }
}

/// The code of one node.  At the top level (outside every iteration body)
/// an iteration becomes a call of the block named after its path, and the
/// first iteration over a path defines that block; inside an iteration body
/// iterations stay inline.
pub open spec fn gen_ctl(c: Ctl, top: bool, names: Seq<Seq<char>>) -> Gen
    decreases c, 0int, 0int,
{
    match c {
        Ctl::Text(v) => Gen { code: json_quoted(v), blocks: seq![], names },
        Ctl::If(subject, body, alt) => {
            let g1 = gen_seq(body, top, names);
            let g2 = gen_seq(alt, top, g1.names);
            let (e, neg) = unnegated(subject);
            Gen {
                code: if_else_code(neg, expr_code(e), g1.code, g2.code),
                blocks: g1.blocks + g2.blocks,
                names: g2.names,
            }
        },
        Ctl::Iter(suffix, raw, subject, body, alt) => {
            let code = iter_code(
                suffix,
                expr_code(subject),
                gen_seq(body, false, seq![]).code,
                gen_seq(alt, false, seq![]).code,
            );
            if top {
                if names.contains(raw) {
                    Gen { code: block_call(raw), blocks: seq![], names }
                } else {
                    Gen { code: block_call(raw), blocks: seq![block_def(raw, code)], names: names.push(raw) }
                }
            } else {
                Gen { code, blocks: seq![], names }
            }
        },
        Ctl::Escaped(subject) => Gen { code: "__escape("@ + expr_code(subject) + ")"@, blocks: seq![], names },
        Ctl::Raw(subject) => Gen { code: expr_code(subject), blocks: seq![], names },
    }
}

/// The code of a sequence of nodes: their codes joined by ` + `, or an
/// empty string literal for no nodes.
pub open spec fn gen_seq(cs: Seq<Ctl>, top: bool, names: Seq<Seq<char>>) -> Gen
    decreases cs, 1int, 0int,
{
    if cs.len() == 0 {
        Gen { code: empty_code(), blocks: seq![], names }
    } else {
        gen_list(cs, top, names, cs.len() as int)
    }
}

/// The code of the first `n` nodes (at least one).
pub open spec fn gen_list(cs: Seq<Ctl>, top: bool, names: Seq<Seq<char>>, n: int) -> Gen
    decreases cs, 0int, n,
{
    if n <= 1 || n > cs.len() {
        if cs.len() > 0 {
            gen_ctl(cs[0], top, names)
        } else {
            Gen { code: seq![], blocks: seq![], names }
        }
    } else {
        let g = gen_list(cs, top, names, n - 1);
        let h = gen_ctl(cs[n - 1], top, g.names);
        Gen { code: g.code + " + "@ + h.code, blocks: g.blocks + h.blocks, names: h.names }
    }
}

/// The generated unit of a control tree.
pub open spec fn generate_spec(tree: Seq<Ctl>) -> Seq<char> {
    let g = gen_seq(tree, true, seq![]);
    wrapper_code(g.code, g.blocks)
}

// ================================================================ the code

/// The code of an expression.
fn expression(expr: &Expression) -> (r: String)
    ensures
        r@ == expr_code(expr@),
    decreases expr,
{
    match expr {
        Expression::PathExpression { path } => {
            let ghost pv = seg_views(path@);
            let mut out = String::new();
            push_str(&mut out, "guard(context");
            let mut k: usize = 0;
            while k < path.len()
                invariant
                    k <= path.len(),
                    pv == seg_views(path@),
                    pv.len() == path.len(),
                    out@ == "guard(context"@ + path_keys(pv.subrange(0, k as int)),
                decreases path.len() - k,
            {
                assert(pv.subrange(0, k + 1).drop_last() =~= pv.subrange(0, k as int));
                push_str(&mut out, "[");
                push_all(&mut out, &json_string(&path[k]));
                push_str(&mut out, "]");
                k += 1;
                assert(out@ =~= "guard(context"@ + path_keys(pv.subrange(0, k as int)));
            }
            assert(pv.subrange(0, path.len() as int) =~= pv);
            push_str(&mut out, ")");
            out
        },
        Expression::StringLiteral { value } => json_string(value),
        Expression::HelperExpression { helper_name, args } => {
            let ghost models = exprs_model(*args, args.len() as int);
            proof {
                lemma_exprs_model(*args, args.len() as int);
            }
            let mut out = String::new();
            push_str(&mut out, "helper(context, helpers, ");
            push_all(&mut out, &json_string(helper_name));
            push_str(&mut out, ", [");
            let ghost prefix = out@;
            let mut k: usize = 0;
            while k < args.len()
                invariant
                    k <= args.len(),
                    models == exprs_model(*args, args.len() as int),
                    models.len() == args.len(),
                    forall|i: int| 0 <= i < args.len() ==> #[trigger] models[i] == expr_model(args[i]),
                    out@ == prefix + args_code(models, k as int),
                    expr is HelperExpression,
                    *args == expr->args,
                decreases args.len() - k,
            {
                proof {
                    vstd::std_specs::vec::axiom_vec_index_decreases(*args, k as int);
                    assert(decreases_to!(*expr => expr->args));
                }
                if k > 0 {
                    push_str(&mut out, ", ");
                }
                let code = expression(&args[k]);
                push_all(&mut out, &code);
                k += 1;
                assert(out@ =~= prefix + args_code(models, k as int));
            }
            push_str(&mut out, "])");
            assert(out@ =~= "helper(context, helpers, "@ + json_quoted(helper_name@) + ", ["@ + args_code(
                models,
                models.len() as int,
            ) + "])"@);
            out
        },
        Expression::NegativeExpression { expr: inner } => {
            let mut out = String::new();
            push_str(&mut out, "!");
            push_all(&mut out, &expression(inner));
            out
        },
    }
}

fn if_else(neg: bool, test: &String, body: &String, alt: &String) -> (r: String)
    ensures
        r@ == if_else_code(neg, test@, body@, alt@),
{
    let mut out = String::new();
    push_str(&mut out, "(");
    push_all(&mut out, test);
    push_str(&mut out, " ? ");
    push_all(&mut out, if neg { alt } else { body });
    push_str(&mut out, " : ");
    push_all(&mut out, if neg { body } else { alt });
    push_str(&mut out, ")");
    out
}

fn iter(suffix: usize, subject: &String, body: &String, alt: &String) -> (r: String)
    ensures
        r@ == iter_code(suffix as nat, subject@, body@, alt@),
{
    let mut out = String::new();
    push_str(&mut out, "iter(");
    push_all(&mut out, subject);
    push_str(&mut out, ", function (key");
    push_decimal(&mut out, suffix);
    push_str(&mut out, ") { return ");
    push_all(&mut out, body);
    push_str(&mut out, "; }, function () { return ");
    push_all(&mut out, alt);
    push_str(&mut out, "; })");
    out
}

fn block(name: &String, code: &String) -> (r: String)
    ensures
        r@ == block_def(name@, code@),
{
    let mut out = String::new();
    push_str(&mut out, "compiled.blocks[");
    push_all(&mut out, &json_string(name));
    push_str(
        &mut out,
        "] = function (helpers, context, guard, iter, helper) { var __escape = helpers.__escape; var value = context; return ",
    );
    push_all(&mut out, code);
    push_str(&mut out, "; };");
    out
}

fn block_call_code(name: &String) -> (r: String)
    ensures
        r@ == block_call(name@),
{
    let mut out = String::new();
    push_str(&mut out, "compiled.blocks[");
    push_all(&mut out, &json_string(name));
    push_str(&mut out, "](helpers, context, guard, iter, helper)");
    out
}

/// Whether `name` is among `names`.
fn has_name(names: &Vec<String>, name: &String) -> (r: bool)
    ensures
        r == seg_views(names@).contains(name@),
{
    let ghost nv = seg_views(names@);
    let mut k: usize = 0;
    while k < names.len()
        invariant
            k <= names.len(),
            nv == seg_views(names@),
            nv.len() == names.len(),
            forall|i: int| 0 <= i < k ==> nv[i] != name@,
        decreases names.len() - k,
    {
        if names[k].eq(name) {
            assert(nv[k as int] == name@);
            return true;
        }
        k += 1;
    }
    false
}

proof fn lemma_seg_views_push(v: Seq<String>, x: String)
    ensures
        seg_views(v.push(x)) == seg_views(v).push(x@),
{
    assert(seg_views(v.push(x)) =~= seg_views(v).push(x@));
}

proof fn lemma_seg_views_append(v: Seq<String>, w: Seq<String>)
    ensures
        seg_views(v + w) == seg_views(v) + seg_views(w),
{
    assert(seg_views(v + w) =~= seg_views(v) + seg_views(w));
}

/// Generates the code of one node: the code, the blocks it hoists, and the
/// names of the blocks hoisted so far.
fn gen_control(c: &Control, top: bool, block_names: Vec<String>) -> (r: (String, Vec<String>, Vec<String>))
    ensures
        (Gen { code: r.0@, blocks: seg_views(r.1@), names: seg_views(r.2@) }) == gen_ctl(
            c@,
            top,
            seg_views(block_names@),
        ),
    decreases c, 0int,
{
    let ghost nv = seg_views(block_names@);
    match c {
        Control::Text { value } => {
            let no_blocks: Vec<String> = Vec::new();
            assert(seg_views(no_blocks@) =~= seq![]);
            (json_string(value), no_blocks, block_names)
        },
        Control::If { subject, body, alt } => {
            let (b, b_blocks, names1) = gen_body(body, top, block_names);
            let (a, a_blocks, names2) = gen_body(alt, top, names1);
            let (expr, neg) = match subject {
                Expression::NegativeExpression { expr } => (&**expr, true),
                _ => (subject, false),
            };
            let test = expression(expr);
            let code = if_else(neg, &test, &b, &a);
            let mut blocks = b_blocks;
            let mut more = a_blocks;
            proof {
                lemma_seg_views_append(blocks@, more@);
            }
            blocks.append(&mut more);
            (code, blocks, names2)
        },
        Control::Iter { suffix, subject_raw, subject, body, alt } => {
            let no_names: Vec<String> = Vec::new();
            assert(seg_views(no_names@) =~= seq![]);
            let (b, _, _) = gen_body(body, false, no_names);
            let no_names: Vec<String> = Vec::new();
            assert(seg_views(no_names@) =~= seq![]);
            let (a, _, _) = gen_body(alt, false, no_names);
            let code = iter(*suffix, &expression(subject), &b, &a);
            let mut blocks: Vec<String> = Vec::new();
            assert(seg_views(blocks@) =~= seq![]);
            if top {
                let mut names = block_names;
                if !has_name(&names, subject_raw) {
                    let def = block(subject_raw, &code);
                    let name = subject_raw.clone();
                    proof {
                        lemma_seg_views_push(blocks@, def);
                        lemma_seg_views_push(names@, name);
                    }
                    blocks.push(def);
                    names.push(name);
                }
                (block_call_code(subject_raw), blocks, names)
            } else {
                (code, blocks, block_names)
            }
        },
        Control::Escaped { subject } => {
            let mut out = String::new();
            push_str(&mut out, "__escape(");
            push_all(&mut out, &expression(subject));
            push_str(&mut out, ")");
            let no_blocks: Vec<String> = Vec::new();
            assert(seg_views(no_blocks@) =~= seq![]);
            (out, no_blocks, block_names)
        },
        Control::Raw { subject } => {
            let no_blocks: Vec<String> = Vec::new();
            assert(seg_views(no_blocks@) =~= seq![]);
            (expression(subject), no_blocks, block_names)
        },
    }
}

/// Generates the code of a sequence of nodes: the code, the blocks it
/// hoists (when `top`), and the names of the blocks hoisted so far.
pub fn gen_body(entry: &Vec<Control>, top: bool, block_names: Vec<String>) -> (r: (
    String,
    Vec<String>,
    Vec<String>,
))
    ensures
        (Gen { code: r.0@, blocks: seg_views(r.1@), names: seg_views(r.2@) }) == gen_seq(
            ctl_views(*entry),
            top,
            seg_views(block_names@),
        ),
    decreases entry, 1int,
{
    let ghost cv = ctl_views(*entry);
    proof {
        lemma_ctls_model(*entry, entry.len() as int);
    }
    if entry.len() == 0 {
        let mut out = String::new();
        push_str(&mut out, "\"\"");
        let no_blocks: Vec<String> = Vec::new();
        assert(seg_views(no_blocks@) =~= seq![]);
        return (out, no_blocks, block_names);
    }
    let (first, mut blocks, mut names) = gen_control(&entry[0], top, block_names);
    let mut code = first;
    let mut k: usize = 1;
    while k < entry.len()
        invariant
            1 <= k <= entry.len(),
            cv == ctl_views(*entry),
            cv.len() == entry.len(),
            forall|i: int| 0 <= i < entry.len() ==> #[trigger] cv[i] == entry@[i]@,
            (Gen { code: code@, blocks: seg_views(blocks@), names: seg_views(names@) }) == gen_list(
                cv,
                top,
                seg_views(block_names@),
                k as int,
            ),
        decreases entry.len() - k,
    {
        let (c, mut more, names2) = gen_control(&entry[k], top, names);
        push_str(&mut code, " + ");
        push_all(&mut code, &c);
        proof {
            lemma_seg_views_append(blocks@, more@);
        }
        blocks.append(&mut more);
        names = names2;
        k += 1;
    }
    (code, blocks, names)
}

/// The generated unit: the render function's body, then the hoisted blocks.
#[verifier::rlimit(50)]
pub fn generate(input: Vec<Control>) -> (r: String)
    ensures
        r@ == generate_spec(ctl_views(input)),
{
    let no_names: Vec<String> = Vec::new();
    assert(seg_views(no_names@) =~= seq![]);
    let (body, blocks, _) = gen_body(&input, true, no_names);
    let ghost bv = seg_views(blocks@);
    let mut out = String::new();
    push_str(
        &mut out,
        "(function (factory) {\n  if (typeof module === 'object' && module.exports) {\n    module.exports = factory();\n  } else if (typeof define === 'function' && define.amd) {\n    define(factory);\n  }\n})(function () {\n  function compiled(helpers, context, guard, iter, helper) {\n    var __escape = helpers.__escape;\n    var value = context;\n    return ",
    );
    push_all(&mut out, &body);
    push_str(&mut out, ";\n  }\n  compiled.blocks = {};\n");
    let ghost prefix = out@;
    let mut k: usize = 0;
    while k < blocks.len()
        invariant
            k <= blocks.len(),
            bv == seg_views(blocks@),
            bv.len() == blocks.len(),
            out@ == prefix + block_lines(bv.subrange(0, k as int)),
        decreases blocks.len() - k,
    {
        assert(bv.subrange(0, k + 1).drop_last() =~= bv.subrange(0, k as int));
        push_str(&mut out, "  ");
        push_all(&mut out, &blocks[k]);
        push_str(&mut out, "\n");
        k += 1;
        assert(out@ =~= prefix + block_lines(bv.subrange(0, k as int)));
    }
    assert(bv.subrange(0, blocks.len() as int) =~= bv);
    push_str(&mut out, "  return compiled;\n})\n");
    out
}

} // verus!
