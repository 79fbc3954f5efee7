use benchpress_sys::instruction::{Instruction, InstructionPos};
use benchpress_sys::token::{Token, TokenPos};

#[test]
fn source_of_an_instruction() {
    let inst = InstructionPos { start: 2, end: 5, inst: Instruction::Else };
    assert_eq!(inst.get_source("hello world"), "llo");
    assert_eq!(inst.get_source("héllo world"), "ll");
    let past_end = InstructionPos { start: 8, end: 40, inst: Instruction::Else };
    assert_eq!(past_end.get_source("héllo world"), "orld");
    let text = inst.to_text("héllo world");
    assert_eq!((text.start, text.end), (2, 5));
    assert_eq!(format!("{:?}", text.inst), format!("{:?}", Instruction::Text("ll".to_string())));
    let a = InstructionPos { start: 2, end: 3, inst: Instruction::Else };
    assert_eq!(a.get_source("éa"), "a");
}

#[test]
fn text_tokens_become_text_instructions() {
    let t = TokenPos { start: 1, end: 3, tok: Token::Text("ab".to_string()) };
    let i = InstructionPos::from_text(t).unwrap();
    assert_eq!((i.start, i.end), (1, 3));
    assert_eq!(format!("{:?}", i.inst), format!("{:?}", Instruction::Text("ab".to_string())));
    assert!(InstructionPos::from_text(TokenPos { start: 0, end: 1, tok: Token::Comma }).is_none());
}
