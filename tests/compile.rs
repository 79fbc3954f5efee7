use benchpress_sys::compile;
use benchpress_sys::generator::{gen_body, generate};
use benchpress_sys::instruction::{Instruction, InstructionPos};
use benchpress_sys::lexer::lex;
use benchpress_sys::parser::{
    fix_extra_instructions, generate_expression, parse_instructions, parse_tree, starts_with,
    Control, Expression,
};
use benchpress_sys::token::Token;

fn unit(body: &str, blocks: &[String]) -> String {
    let mut out = String::from(
        "(function (factory) {\n  if (typeof module === 'object' && module.exports) {\n    module.exports = factory();\n  } else if (typeof define === 'function' && define.amd) {\n    define(factory);\n  }\n})(function () {\n  function compiled(helpers, context, guard, iter, helper) {\n    var __escape = helpers.__escape;\n    var value = context;\n    return ",
    );
    out.push_str(body);
    out.push_str(";\n  }\n  compiled.blocks = {};\n");
    for b in blocks {
        out.push_str("  ");
        out.push_str(b);
        out.push('\n');
    }
    out.push_str("  return compiled;\n})\n");
    out
}

fn block_def(name: &str, code: &str) -> String {
    format!(
        "compiled.blocks[\"{}\"] = function (helpers, context, guard, iter, helper) {{ var __escape = helpers.__escape; var value = context; return {}; }};",
        name, code
    )
}

fn block_call(name: &str) -> String {
    format!("compiled.blocks[\"{}\"](helpers, context, guard, iter, helper)", name)
}

fn instructions(source: &str) -> Vec<InstructionPos> {
    parse_instructions(source, lex(source))
}

fn debug<T: std::fmt::Debug>(v: &T) -> String {
    format!("{:?}", v)
}

#[test]
fn plain_text_compiles_to_one_string_constant() {
    assert_eq!(compile("Hello, world.".to_string()), unit("\"Hello, world.\"", &[]));
}

#[test]
fn empty_template_gives_an_empty_string() {
    assert_eq!(compile(String::new()), unit("\"\"", &[]));
}

#[test]
fn text_is_quoted_as_json() {
    assert_eq!(
        compile("say \"hi\"\nnow\t\u{1}".to_string()),
        unit("\"say \\\"hi\\\"\\nnow\\t\\u0001\"", &[])
    );
}

#[test]
fn interpolations_escape_or_not() {
    assert_eq!(
        compile("a{b}{{c.d}}".to_string()),
        unit("\"a\" + __escape(guard(context[\"b\"])) + guard(context[\"c\"][\"d\"])", &[])
    );
}

#[test]
fn negated_condition_swaps_branches() {
    assert_eq!(
        compile("<!-- IF !flag -->A<!-- ELSE -->B<!-- END -->".to_string()),
        unit("(guard(context[\"flag\"]) ? \"B\" : \"A\")", &[])
    );
    assert_eq!(
        compile("<!-- IF flag -->B<!-- ELSE -->A<!-- END -->".to_string()),
        unit("(guard(context[\"flag\"]) ? \"B\" : \"A\")", &[])
    );
}

#[test]
fn top_level_iterations_share_one_block() {
    let body = "iter(guard(context[\"a\"]), function (key1) { return \"x\"; }, function () { return \"\"; })";
    assert_eq!(
        compile("{{{each a}}}x{{{end}}}{{{each a}}}y{{{end}}}".to_string()),
        unit(&format!("{} + {}", block_call("a"), block_call("a")), &[block_def("a", body)])
    );
}

#[test]
fn nested_iterations_stay_inline() {
    let x = "iter(guard(context[\"a\"]), function (key2) { return \"x\"; }, function () { return \"\"; })";
    let y = "iter(guard(context[\"a\"]), function (key2) { return \"y\"; }, function () { return \"\"; })";
    let outer = format!(
        "iter(guard(context[\"o\"]), function (key1) {{ return {} + {}; }}, function () {{ return \"\"; }})",
        x, y
    );
    assert_eq!(
        compile("{{{each o}}}{{{each a}}}x{{{end}}}{{{each a}}}y{{{end}}}{{{end}}}".to_string()),
        unit(&block_call("o"), &[block_def("o", &outer)])
    );
}

#[test]
fn loop_scope_resolves_fields() {
    let inner = "iter(guard(context[\"people\"]), function (key1) { return __escape(guard(context[\"people[1]\"][\"name\"])); }, function () { return \"\"; })";
    assert_eq!(
        compile("{{{each people}}}{people.name}{{{end}}}".to_string()),
        unit(&block_call("people"), &[block_def("people", inner)])
    );
}

#[test]
fn string_literal_condition() {
    assert_eq!(
        compile("{{{if \"a\"}}}x{{{end}}}".to_string()),
        unit("(\"a\" ? \"x\" : \"\")", &[])
    );
}

#[test]
fn unparsable_subject_stays_as_text() {
    let source = "{!x}y";
    let ins = vec![
        InstructionPos { start: 0, end: 4, inst: Instruction::Raw(vec![Token::Bang]) },
        InstructionPos { start: 4, end: 5, inst: Instruction::Text("y".to_string()) },
    ];
    let (tree, last, pos) = parse_tree(source, &ins, 0, &vec![], 1);
    assert!(last.is_none());
    assert_eq!(pos, 2);
    assert_eq!(
        debug(&tree),
        debug(&vec![Control::Text { value: "{!x}".to_string() }, Control::Text { value: "y".to_string() }])
    );
}

#[test]
fn balanced_blocks_are_left_alone() {
    let source = "<!-- IF a -->x<!-- BEGIN b -->y<!-- END b --><!-- ELSE -->z<!-- END a -->";
    let ins = instructions(source);
    let fixed = fix_extra_instructions(source, ins.clone());
    assert_eq!(debug(&fixed), debug(&ins));
}

#[test]
fn extra_closers_turn_into_text() {
    let source = "x<!-- END -->y<!-- END -->";
    let fixed = fix_extra_instructions(source, instructions(source));
    let insts: Vec<Instruction> = fixed.into_iter().map(|i| i.inst).collect();
    assert_eq!(
        debug(&insts),
        debug(&vec![
            Instruction::Text("x".to_string()),
            Instruction::Text("<!-- END -->".to_string()),
            Instruction::Text("y".to_string()),
            Instruction::Text("<!-- END -->".to_string()),
        ])
    );
}

#[test]
fn one_extra_closer_of_two() {
    let source = "<!-- IF a -->x<!-- END -->y<!-- END -->";
    let fixed = fix_extra_instructions(source, instructions(source));
    assert_eq!(fixed.len(), 5);
    assert_eq!(debug(&fixed[2].inst), debug(&Instruction::End(vec![])));
    assert_eq!(debug(&fixed[4].inst), debug(&Instruction::Text("<!-- END -->".to_string())));
    assert_eq!((fixed[4].start, fixed[4].end), (27, 39));
}

#[test]
fn later_matching_closer_is_preferred() {
    let source = "<!-- IF a -->x<!-- END --><!-- END a -->";
    let fixed = fix_extra_instructions(source, instructions(source));
    assert_eq!(debug(&fixed[2].inst), debug(&Instruction::Text("<!-- END -->".to_string())));
    assert_eq!(debug(&fixed[3].inst), debug(&Instruction::End(vec![Token::Identifier("a".to_string())])));
}

#[test]
fn instructions_from_tokens() {
    let ins = instructions("a{b}<!-- ELSE -->{{{each c}}}");
    let insts: Vec<Instruction> = ins.iter().map(|i| i.inst.clone()).collect();
    assert_eq!(
        debug(&insts),
        debug(&vec![
            Instruction::Text("a".to_string()),
            Instruction::Escaped(vec![Token::Identifier("b".to_string())]),
            Instruction::Else,
            Instruction::IterStart(vec![Token::Identifier("c".to_string())]),
        ])
    );
    assert_eq!((ins[1].start, ins[1].end), (1, 4));
}

#[test]
fn prefix_of_tokens() {
    let a = vec![Token::Identifier("a".to_string()), Token::Comma];
    assert!(starts_with(&a, &vec![Token::Identifier("a".to_string())]));
    assert!(starts_with(&a, &vec![]));
    assert!(!starts_with(&a, &vec![Token::Comma]));
    assert!(!starts_with(&vec![], &a));
}

#[test]
fn expressions_from_tokens() {
    let base = vec!["items[1]".to_string()];
    let toks = vec![
        Token::LegacyHelper,
        Token::Identifier("caps".to_string()),
        Token::Comma,
        Token::StringLiteral("s".to_string()),
        Token::Comma,
        Token::Identifier("items.id".to_string()),
    ];
    assert_eq!(
        debug(&generate_expression(&toks, &base)),
        debug(&Some(Expression::HelperExpression {
            helper_name: "caps".to_string(),
            args: vec![
                Expression::StringLiteral { value: "s".to_string() },
                Expression::PathExpression { path: vec!["items[1]".to_string(), "id".to_string()] },
            ],
        }))
    );
    let neg = vec![Token::Bang, Token::Identifier("x".to_string())];
    assert_eq!(
        debug(&generate_expression(&neg, &vec![])),
        debug(&Some(Expression::NegativeExpression {
            expr: Box::new(Expression::PathExpression { path: vec!["x".to_string()] })
        }))
    );
    assert!(generate_expression(&vec![Token::Comma], &vec![]).is_none());
    assert!(generate_expression(&vec![Token::Identifier("f".to_string()), Token::LeftParen, Token::Identifier("x".to_string())], &vec![]).is_none());
}

#[test]
fn tree_with_else_and_suffixes() {
    let source = "{{{each a}}}{{{each b}}}x{{{end}}}{{{else}}}y{{{end}}}";
    let extras = fix_extra_instructions(source, instructions(source));
    let (tree, last, pos) = parse_tree(source, &extras, 0, &vec![], 1);
    assert!(last.is_none());
    assert_eq!(pos, extras.len());
    assert_eq!(tree.len(), 1);
    match &tree[0] {
        Control::Iter { suffix, subject_raw, body, alt, .. } => {
            assert_eq!(*suffix, 1);
            assert_eq!(subject_raw, "a");
            assert_eq!(body.len(), 1);
            assert_eq!(alt.len(), 1);
            match &body[0] {
                Control::Iter { suffix, subject_raw, .. } => {
                    assert_eq!(*suffix, 2);
                    assert_eq!(subject_raw, "b");
                },
                other => panic!("unexpected {:?}", other),
            }
        },
        other => panic!("unexpected {:?}", other),
    }
}

#[test]
fn generate_empty_tree() {
    assert_eq!(generate(vec![]), unit("\"\"", &[]));
    let (code, blocks, names) = gen_body(&vec![], true, vec![]);
    assert_eq!(code, "\"\"");
    assert!(blocks.is_empty() && names.is_empty());
}

#[test]
fn empty_call_keeps_later_arguments() {
    let toks = vec![
        Token::Identifier("outer".to_string()),
        Token::LeftParen,
        Token::Identifier("inner".to_string()),
        Token::LeftParen,
        Token::RightParen,
        Token::Comma,
        Token::Identifier("x".to_string()),
        Token::RightParen,
    ];
    assert_eq!(
        debug(&generate_expression(&toks, &vec![])),
        debug(&Some(Expression::HelperExpression {
            helper_name: "outer".to_string(),
            args: vec![
                Expression::HelperExpression { helper_name: "inner".to_string(), args: vec![] },
                Expression::PathExpression { path: vec!["x".to_string()] },
            ],
        }))
    );
}

#[test]
fn text_with_non_ascii_and_lone_angle() {
    assert_eq!(compile("a < b é".to_string()), unit("\"a < b é\"", &[]));
}

#[test]
fn tree_and_instruction_values_compare_directly() {
    let source = "x<!-- END -->";
    let fixed = fix_extra_instructions(source, instructions(source));
    assert_eq!(
        fixed,
        vec![
            InstructionPos { start: 0, end: 1, inst: Instruction::Text("x".to_string()) },
            InstructionPos { start: 1, end: 13, inst: Instruction::Text("<!-- END -->".to_string()) },
        ]
    );
    let (tree, _, _) = parse_tree(source, &fixed, 0, &vec![], 1);
    assert_eq!(
        tree,
        vec![Control::Text { value: "x".to_string() }, Control::Text { value: "<!-- END -->".to_string() }]
    );
    assert_eq!(
        generate_expression(&vec![Token::StringLiteral("s".to_string())], &vec![]),
        Some(Expression::StringLiteral { value: "s".to_string() })
    );
}
