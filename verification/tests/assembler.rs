use hack_assembler::assembler::{assemble, first_pass, second_pass};
use hack_assembler::{AssembleError, Config, HackAssembler, Parser, SymbolTable};

fn config() -> Config {
    Config::new(vec!["hack".to_string(), "Prog.asm".to_string(), "Prog.hack".to_string()]).unwrap()
}

fn machine_code(source: &str) -> Result<String, AssembleError> {
    assemble(&config(), source.to_string()).map(|a| a.bytecode().to_string())
}

#[test]
fn assembles_the_addition_program() {
    let code = machine_code("@2\nD=A\n@3\nD=D+A\n@0\nM=D").unwrap();
    let words: Vec<&str> = code.lines().collect();
    assert_eq!(
        words,
        vec![
            "0000000000000010",
            "1110110000010000",
            "0000000000000011",
            "1110000010010000",
            "0000000000000000",
            "1110001100001000",
        ]
    );
    assert_eq!(code.len(), 6 * 17);
    assert!(code.ends_with('\n'));
}

#[test]
fn assembles_a_label_and_a_variable() {
    let code = machine_code("@i\nM=0\n(LOOP)\n@i\nM=M+1\n@LOOP\n0;JMP").unwrap();
    let words: Vec<&str> = code.lines().collect();
    assert_eq!(
        words,
        vec![
            "0000000000010000",
            "1110101010001000",
            "0000000000010000",
            "1111110111001000",
            "0000000000000010",
            "1110101010000111",
        ]
    );
}

#[test]
fn comments_and_blank_lines_give_no_code() {
    assert_eq!(machine_code(""), Ok(String::new()));
    assert_eq!(machine_code("\n\n\n"), Ok(String::new()));
    assert_eq!(machine_code("// only a comment"), Ok(String::new()));
    assert_eq!(machine_code("   \t  \r\n// one\n   // two\r\n\n//"), Ok(String::new()));
    let parser = Parser::create("  // a\n\n\t//b\n".to_string());
    assert!(parser.lines.is_empty());
    assert_eq!(parser.instruction_type(), None);
    assert!(!parser.has_more_lines());
}

#[test]
fn predefined_names_do_not_depend_on_the_table() {
    let names = [
        ("R0", 0), ("R1", 1), ("R2", 2), ("R3", 3), ("R4", 4), ("R5", 5), ("R6", 6), ("R7", 7),
        ("R8", 8), ("R9", 9), ("R10", 10), ("R11", 11), ("R12", 12), ("R13", 13), ("R14", 14),
        ("R15", 15), ("SCREEN", 16384), ("KBD", 24576), ("SP", 0), ("LCL", 1), ("ARG", 2),
        ("THIS", 3), ("THAT", 4),
    ];
    for (name, address) in names {
        let expected = format!("{:016b}\n", address);
        assert_eq!(machine_code(&format!("@{}", name)), Ok(expected.clone()));

        // The same name, with a table that says otherwise.
        let mut parser = Parser::create(format!("@{}", name));
        let mut symbols = SymbolTable::new();
        symbols.add_entry(name.to_string(), 12345);
        let mut assembler = HackAssembler::new(&config());
        assert_eq!(second_pass(&mut parser, &mut symbols, &mut assembler), Ok(()));
        assert_eq!(assembler.bytecode(), expected);

        // And with a label of that name in the program.
        let source = format!("D=A\n({})\n@{}", name, name);
        assert_eq!(machine_code(&source), Ok(format!("1110110000010000\n{}", expected)));
    }
}

#[test]
fn variables_get_addresses_in_order_of_first_use() {
    let code = machine_code("@first\n@second\n@first\n@third\n@second\n@first").unwrap();
    let words: Vec<&str> = code.lines().collect();
    assert_eq!(
        words,
        vec![
            "0000000000010000",
            "0000000000010001",
            "0000000000010000",
            "0000000000010010",
            "0000000000010001",
            "0000000000010000",
        ]
    );
}

#[test]
fn second_pass_extends_the_table() {
    let mut parser = Parser::create("@x\n@END\n@y\n@x".to_string());
    let mut symbols = SymbolTable::new();
    symbols.add_entry("END".to_string(), 300);
    let mut assembler = HackAssembler::new(&config());
    assert_eq!(second_pass(&mut parser, &mut symbols, &mut assembler), Ok(()));
    assert_eq!(symbols.get_address("x"), Some(&16));
    assert_eq!(symbols.get_address("y"), Some(&17));
    assert_eq!(symbols.get_address("END"), Some(&300));
    assert_eq!(
        assembler.bytecode(),
        "0000000000010000\n0000000100101100\n0000000000010001\n0000000000010000\n"
    );
    assert_eq!(parser.lines, vec!["@x", "@END", "@y", "@x"]);
}

#[test]
fn labels_resolve_to_the_following_instruction() {
    let source = "(START)\n@START\n0;JMP\n(MID)\n(ALSO)\n@MID\n@ALSO\n@END\nD=M\n(END)";
    let mut parser = Parser::create(source.to_string());
    let mut symbols = SymbolTable::new();
    assert_eq!(first_pass(&mut parser, &mut symbols), Ok(()));
    assert_eq!(parser.lines, vec!["@START", "0;JMP", "@MID", "@ALSO", "@END", "D=M"]);
    assert_eq!(parser.current_instruction, 0);
    assert_eq!(symbols.get_address("START"), Some(&0));
    assert_eq!(symbols.get_address("MID"), Some(&2));
    assert_eq!(symbols.get_address("ALSO"), Some(&2));
    assert_eq!(symbols.get_address("END"), Some(&6));

    let code = machine_code(source).unwrap();
    let words: Vec<&str> = code.lines().collect();
    assert_eq!(
        words,
        vec![
            "0000000000000000",
            "1110101010000111",
            "0000000000000010",
            "0000000000000010",
            "0000000000000110",
            "1111110000010000",
        ]
    );
}

#[test]
fn a_label_may_be_used_before_it_is_defined() {
    let code = machine_code("@END\n0;JMP\n(END)\n@END\n0;JMP").unwrap();
    let words: Vec<&str> = code.lines().collect();
    assert_eq!(words[0], "0000000000000010");
    assert_eq!(words[2], "0000000000000010");
    assert_eq!(words.len(), 4);
}

#[test]
fn the_last_definition_of_a_label_wins() {
    let code = machine_code("(X)\nD=A\n(X)\n@X").unwrap();
    let words: Vec<&str> = code.lines().collect();
    assert_eq!(words, vec!["1110110000010000", "0000000000000001"]);
}

#[test]
fn label_names_lose_all_brackets_at_their_ends() {
    let mut parser = Parser::create("((X))\n()\n(a)(b)\n@X".to_string());
    assert_eq!(parser.symbol(), Some("X".to_string()));
    parser.advance();
    assert_eq!(parser.symbol(), Some(String::new()));
    parser.advance();
    assert_eq!(parser.symbol(), Some("a)(b".to_string()));
    let mut symbols = SymbolTable::new();
    assert_eq!(first_pass(&mut parser, &mut symbols), Ok(()));
    assert_eq!(parser.lines, vec!["@X"]);
    assert_eq!(symbols.get_address("X"), Some(&0));
    assert_eq!(symbols.get_address(""), Some(&0));
    assert_eq!(symbols.get_address("a)(b"), Some(&0));
}

#[test]
fn numbers_are_encoded_directly() {
    assert_eq!(machine_code("@0"), Ok("0000000000000000\n".to_string()));
    assert_eq!(machine_code("@1"), Ok("0000000000000001\n".to_string()));
    assert_eq!(machine_code("@32767"), Ok("0111111111111111\n".to_string()));
    assert_eq!(machine_code("@32768"), Ok("1000000000000000\n".to_string()));
    assert_eq!(machine_code("@65535"), Ok("1111111111111111\n".to_string()));
    assert_eq!(machine_code("@+5"), Ok("0000000000000101\n".to_string()));
    assert_eq!(machine_code("@-0"), Ok("0000000000000000\n".to_string()));
    assert_eq!(machine_code("@007"), Ok("0000000000000111\n".to_string()));
    assert_eq!(machine_code("@21845"), Ok("0101010101010101\n".to_string()));
}

#[test]
fn numbers_that_need_more_than_sixteen_bits_fail() {
    assert_eq!(machine_code("@65536"), Err(AssembleError::WordSize));
    assert_eq!(machine_code("@2147483647"), Err(AssembleError::WordSize));
    assert_eq!(machine_code("D=A\n@70000\nJUNK"), Err(AssembleError::WordSize));
}

#[test]
fn what_is_no_number_is_a_name() {
    // Negative numbers and numbers beyond the range of an integer are names.
    let code = machine_code("@-5\n@2147483648\n@12ab\n@-5\n@+\n@").unwrap();
    let words: Vec<&str> = code.lines().collect();
    assert_eq!(
        words,
        vec![
            "0000000000010000",
            "0000000000010001",
            "0000000000010010",
            "0000000000010000",
            "0000000000010011",
            "0000000000010100",
        ]
    );
}

#[test]
fn invalid_mnemonics_fail_the_run() {
    assert_eq!(machine_code("X=D"), Err(AssembleError::InvalidDest));
    assert_eq!(machine_code("D=Q"), Err(AssembleError::InvalidComp));
    assert_eq!(machine_code("D;JXX"), Err(AssembleError::InvalidJump));
    assert_eq!(machine_code("garbage"), Err(AssembleError::InvalidComp));
    assert_eq!(machine_code("D="), Err(AssembleError::InvalidComp));
    assert_eq!(machine_code("D;"), Err(AssembleError::InvalidJump));
    assert_eq!(machine_code("=D"), Err(AssembleError::InvalidDest));
    assert_eq!(machine_code("D = A"), Err(AssembleError::InvalidComp));
    // The computation is looked at first, then the destination, then the jump.
    assert_eq!(machine_code("X=Q;JXX"), Err(AssembleError::InvalidComp));
    assert_eq!(machine_code("X=D;JXX"), Err(AssembleError::InvalidDest));
    // The first line that fails decides.
    assert_eq!(machine_code("@1\nD;JXX\nX=D"), Err(AssembleError::InvalidJump));
}

#[test]
fn a_semicolon_before_the_equals_sign_leaves_no_computation() {
    let parser = Parser::create("D;JGT=0".to_string());
    assert_eq!(parser.comp(), None);
    assert_eq!(parser.dest(), Some("D;JGT".to_string()));
    assert_eq!(parser.jump(), Some("JGT=0".to_string()));
    assert_eq!(machine_code("D;JGT=0"), Err(AssembleError::MissingComp));
}

#[test]
fn a_stray_label_fails_the_second_pass() {
    let mut parser = Parser::create("@1\n(X)\n@2".to_string());
    let mut symbols = SymbolTable::new();
    let mut assembler = HackAssembler::new(&config());
    assert_eq!(
        second_pass(&mut parser, &mut symbols, &mut assembler),
        Err(AssembleError::UnexpectedLabel)
    );
}

#[test]
fn a_label_beyond_the_address_space_fails() {
    let mut source = String::new();
    for _ in 0..65535 {
        source.push_str("0;JMP\n");
    }
    let fits = format!("{}(LAST)\n@LAST", source);
    let code = machine_code(&fits).unwrap();
    assert_eq!(code.lines().last(), Some("1111111111111111"));
    let too_far = format!("{}D=A\n(LAST)", source);
    assert_eq!(machine_code(&too_far), Err(AssembleError::AddressRange));
}

#[test]
fn a_variable_beyond_the_address_space_fails() {
    let mut source = String::new();
    for i in 16..65536 {
        source.push_str(&format!("@v{}\n", i));
    }
    let code = machine_code(&source).unwrap();
    assert_eq!(code.lines().next(), Some("0000000000010000"));
    assert_eq!(code.lines().last(), Some("1111111111111111"));
    source.push_str("@v65535\n");
    assert!(machine_code(&source).is_ok());
    source.push_str("@one_too_many\n");
    assert_eq!(machine_code(&source), Err(AssembleError::AddressRange));
}

#[test]
fn output_is_one_word_per_instruction() {
    let source = "// sum\n@i\nM=1 // i = 1\n(LOOP)\n  @i\n  D=M\n@100\nD=D-A\n@END\nD;JGT\n(END)\n@END\n0;JMP\n";
    let code = machine_code(source).unwrap();
    assert_eq!(code.len(), 17 * 10);
    for line in code.split_inclusive('\n') {
        assert_eq!(line.len(), 17);
        assert!(line.ends_with('\n'));
        assert!(line[..16].chars().all(|c| c == '0' || c == '1'));
    }
}

#[test]
fn the_assembler_keeps_the_output_path() {
    let assembler = assemble(&config(), "@1".to_string()).unwrap();
    assert_eq!(assembler.output_file(), "Prog.hack");
    assert_eq!(assembler.bytecode(), "0000000000000001\n");
}

#[test]
fn add_bytecode_takes_words_of_sixteen_characters() {
    let mut assembler = HackAssembler::new(&config());
    assert_eq!(assembler.bytecode(), "");
    assert_eq!(assembler.add_bytecode("0000000000000010"), Ok(()));
    assert_eq!(assembler.add_bytecode("1110110000010000"), Ok(()));
    assert_eq!(assembler.bytecode(), "0000000000000010\n1110110000010000\n");
    assert_eq!(
        assembler.add_bytecode("000000000000010"),
        Err("Wrong size, should be 16 chars!".to_string())
    );
    assert_eq!(
        assembler.add_bytecode("00000000000000100"),
        Err("Wrong size, should be 16 chars!".to_string())
    );
    assert_eq!(assembler.add_bytecode(""), Err("Wrong size, should be 16 chars!".to_string()));
    assert_eq!(assembler.bytecode(), "0000000000000010\n1110110000010000\n");
    assert_eq!(assembler.add_bytecode("abcdefghijklmnop"), Ok(()));
    assert_eq!(assembler.bytecode(), "0000000000000010\n1110110000010000\nabcdefghijklmnop\n");
}

#[test]
fn the_passes_start_at_the_first_line() {
    let mut parser = Parser::create("@1\n(X)\n@2\n@X".to_string());
    parser.advance();
    parser.advance();
    let mut symbols = SymbolTable::new();
    assert_eq!(first_pass(&mut parser, &mut symbols), Ok(()));
    assert_eq!(parser.lines, vec!["@1", "@2", "@X"]);
    assert_eq!(symbols.get_address("X"), Some(&1));
    parser.advance();
    let mut assembler = HackAssembler::new(&config());
    assert_eq!(second_pass(&mut parser, &mut symbols, &mut assembler), Ok(()));
    assert_eq!(
        assembler.bytecode(),
        "0000000000000001\n0000000000000010\n0000000000000001\n"
    );
}
