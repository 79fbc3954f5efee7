//! A compiler for a templating language with a legacy dialect (HTML
//! comment blocks) and a modern one (braces): it turns a template into
//! JavaScript source for a render function.
use vstd::prelude::*;

pub mod generator;
pub mod instruction;
pub mod laws;
pub mod lexer;
pub mod parser;
pub mod paths;
pub mod pre_fixer;
pub mod text;
pub mod token;

use crate::generator::{generate, generate_spec};
use crate::lexer::{lex, lex_spec, max_source_len};
use crate::parser::{
    fix_extra_instructions, fix_spec, lemma_ctl_views, parse_instructions,
    parse_instructions_spec, parse_tree, tree_from,
};
use crate::pre_fixer::{pre_fix, pre_fix_spec};

verus! {

/// The control tree of a pre-fixed template.
pub open spec fn tree_spec(s: Seq<char>) -> Seq<crate::parser::Ctl> {
    tree_from(s, fix_spec(s, parse_instructions_spec(lex_spec(s))), 0, seq![], 1, seq![]).0
}

/// The code generated for a pre-fixed template.
pub open spec fn compile_spec(s: Seq<char>) -> Seq<char> {
    generate_spec(tree_spec(s))
}

/// The template after the pre-fixer.
pub open spec fn pre_fixed(template: Seq<char>) -> Seq<char> {
    pre_fix_spec(template)
}

/// Compiles a template that has been through the pre-fixer: lexing,
/// grouping into instructions, repair of extra closers, the control tree in
/// the root scope, and code generation.
pub fn compile_prefixed(source: &str) -> (r: String)
    ensures
        source@.len() <= max_source_len() ==> r@ == compile_spec(source@),
{
    let lexed = lex(source);
    let first_parsed = parse_instructions(source, lexed);
    let extras_fixed = fix_extra_instructions(source, first_parsed);
    let root: Vec<String> = Vec::new();
    assert(crate::paths::seg_views(root@) =~= seq![]);
    let (tree, _, _) = parse_tree(source, &extras_fixed, 0, &root, 1);
    proof {
        lemma_ctl_views(tree);
    }
    generate(tree)
}

/// Compiles a template into the source of its render function.
pub fn compile(template: String) -> (r: String)
    ensures
        pre_fixed(template@).len() <= max_source_len() ==> r@ == compile_spec(pre_fixed(template@)),
{
    let pre_fixed = pre_fix(template.as_str());
    compile_prefixed(pre_fixed.as_str())
}

} // verus!
