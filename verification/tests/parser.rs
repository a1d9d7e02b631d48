use hack_assembler::{Instruction, Parser};

#[test]
fn test_parser_create() {
    let contents = String::from("\
// comment

@2
@3  // in-line comment");

    let mut parser = Parser::create(contents);

    assert_eq!(parser.lines, vec!["@2", "@3"]);
    assert!(parser.has_more_lines());
    parser.advance();
    assert!(!parser.has_more_lines());
}

#[test]
fn test_instruction_types() {
    let contents = String::from("\
@2
@sum
D=0
(END)");

    let mut parser = Parser::create(contents);

    match parser.instruction_type() {
        Some(Instruction::A) => (),
        _ => panic!("Expected Instruction::A"),
    }
    parser.advance();
    match parser.instruction_type() {
        Some(Instruction::A) => (),
        _ => panic!("Expected Instruction::A"),
    }
    parser.advance();
    match parser.instruction_type() {
        Some(Instruction::C) => (),
        _ => panic!("Expected Instruction::C"),
    }
    parser.advance();
    match parser.instruction_type() {
        Some(Instruction::L) => (),
        _ => panic!("Expected Instruction::L"),
    }
}

#[test]
fn test_instruction_symbols() {
    let contents = String::from("\
@2
@sum
D=0
@R2
@R15
@SCREEN
@KBD
@SP
@LCL
@ARG
@THIS
@THAT
(END)");

    let mut parser = Parser::create(contents);

    assert_eq!(parser.symbol(), Some("2".to_string()));
    parser.advance();
    assert_eq!(parser.symbol(), Some("sum".to_string()));
    parser.advance();
    assert_eq!(parser.symbol(), None);
    parser.advance();
    assert_eq!(parser.symbol(), Some("2".to_string()));
    parser.advance();
    assert_eq!(parser.symbol(), Some("15".to_string()));
    parser.advance();
    assert_eq!(parser.symbol(), Some("16384".to_string()));
    parser.advance();
    assert_eq!(parser.symbol(), Some("24576".to_string()));
    parser.advance();
    assert_eq!(parser.symbol(), Some("0".to_string()));
    parser.advance();
    assert_eq!(parser.symbol(), Some("1".to_string()));
    parser.advance();
    assert_eq!(parser.symbol(), Some("2".to_string()));
    parser.advance();
    assert_eq!(parser.symbol(), Some("3".to_string()));
    parser.advance();
    assert_eq!(parser.symbol(), Some("4".to_string()));
    parser.advance();
    assert_eq!(parser.symbol(), Some("END".to_string()));
}

#[test]
fn test_dest_comp_jump() {
    let contents = String::from("\
@2
@sum
D=0
D=D+1;JLE
D;JGT
(END)");

    let mut parser = Parser::create(contents);

    assert!(parser.dest().is_none() && parser.comp().is_none() && parser.jump().is_none());
    parser.advance();
    assert!(parser.dest().is_none() && parser.comp().is_none() && parser.jump().is_none());
    parser.advance();
    assert_eq!(parser.dest(), Some("D".to_string()));
    assert_eq!(parser.comp(), Some("0".to_string()));
    assert_eq!(parser.jump(), None);
    parser.advance();
    assert_eq!(parser.dest(), Some("D".to_string()));
    assert_eq!(parser.comp(), Some("D+1".to_string()));
    assert_eq!(parser.jump(), Some("JLE".to_string()));
    parser.advance();
    assert_eq!(parser.dest(), None);
    assert_eq!(parser.comp(), Some("D".to_string()));
    assert_eq!(parser.jump(), Some("JGT".to_string()));
    parser.advance();
    assert!(parser.dest().is_none() && parser.comp().is_none() && parser.jump().is_none());
}
