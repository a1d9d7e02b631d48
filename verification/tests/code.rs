use hack_assembler::{AssembleError, Code};

#[test]
#[should_panic(expected = "Invalid dest")]
fn test_code_dest() {
    assert_eq!(Code::dest(None), Ok(String::from("000")));
    assert_eq!(Code::dest(Some(String::from("M"))), Ok(String::from("001")));
    assert_eq!(Code::dest(Some(String::from("D"))), Ok(String::from("010")));
    assert_eq!(Code::dest(Some(String::from("DM"))), Ok(String::from("011")));
    assert_eq!(Code::dest(Some(String::from("A"))), Ok(String::from("100")));
    assert_eq!(Code::dest(Some(String::from("AM"))), Ok(String::from("101")));
    assert_eq!(Code::dest(Some(String::from("AD"))), Ok(String::from("110")));
    assert_eq!(Code::dest(Some(String::from("ADM"))), Ok(String::from("111")));

    // panic
    if let Err(e) = Code::dest(Some(String::from("ELMO"))) {
        panic!("{}: ELMO", e.message());
    }
}

#[test]
#[should_panic(expected = "Invalid jump condition")]
fn test_code_jump() {
    assert_eq!(Code::jump(None), Ok(String::from("000")));
    assert_eq!(Code::jump(Some(String::from("JGT"))), Ok(String::from("001")));
    assert_eq!(Code::jump(Some(String::from("JEQ"))), Ok(String::from("010")));
    assert_eq!(Code::jump(Some(String::from("JGE"))), Ok(String::from("011")));
    assert_eq!(Code::jump(Some(String::from("JLT"))), Ok(String::from("100")));
    assert_eq!(Code::jump(Some(String::from("JNE"))), Ok(String::from("101")));
    assert_eq!(Code::jump(Some(String::from("JLE"))), Ok(String::from("110")));
    assert_eq!(Code::jump(Some(String::from("JMP"))), Ok(String::from("111")));

    // panic
    if let Err(e) = Code::jump(Some(String::from("ELMO"))) {
        panic!("{}: ELMO", e.message());
    }
}

#[test]
fn test_code_comp() {
    assert_eq!(Code::comp(Some(String::from("0"))).unwrap(), "0101010");
    assert_eq!(Code::comp(Some(String::from("1"))).unwrap(), "0111111");
    assert_eq!(Code::comp(Some(String::from("-1"))).unwrap(), "0111010");
    assert_eq!(Code::comp(Some(String::from("D"))).unwrap(), "0001100");
    assert_eq!(Code::comp(Some(String::from("A"))).unwrap(), "0110000");
    assert_eq!(Code::comp(Some(String::from("!D"))).unwrap(), "0001101");
    assert_eq!(Code::comp(Some(String::from("!A"))).unwrap(), "0110011");
    assert_eq!(Code::comp(Some(String::from("-D"))).unwrap(), "0001111");
    assert_eq!(Code::comp(Some(String::from("-A"))).unwrap(), "0110011");
    assert_eq!(Code::comp(Some(String::from("D+1"))).unwrap(), "0011111");
    assert_eq!(Code::comp(Some(String::from("A+1"))).unwrap(), "0110111");
    assert_eq!(Code::comp(Some(String::from("D-1"))).unwrap(), "0001110");
    assert_eq!(Code::comp(Some(String::from("A-1"))).unwrap(), "0110010");
    assert_eq!(Code::comp(Some(String::from("D+A"))).unwrap(), "0000010");
    assert_eq!(Code::comp(Some(String::from("D-A"))).unwrap(), "0010011");
    assert_eq!(Code::comp(Some(String::from("A-D"))).unwrap(), "0000111");
    assert_eq!(Code::comp(Some(String::from("D&A"))).unwrap(), "0000000");
    assert_eq!(Code::comp(Some(String::from("D|A"))).unwrap(), "0010101");
    assert_eq!(Code::comp(Some(String::from("M"))).unwrap(), "1110000");
    assert_eq!(Code::comp(Some(String::from("!M"))).unwrap(), "1110001");
    assert_eq!(Code::comp(Some(String::from("-M"))).unwrap(), "1110011");
    assert_eq!(Code::comp(Some(String::from("M+1"))).unwrap(), "1110111");
    assert_eq!(Code::comp(Some(String::from("M-1"))).unwrap(), "1110010");
    assert_eq!(Code::comp(Some(String::from("D+M"))).unwrap(), "1000010");
    assert_eq!(Code::comp(Some(String::from("D-M"))).unwrap(), "1010011");
    assert_eq!(Code::comp(Some(String::from("M-D"))).unwrap(), "1000111");
    assert_eq!(Code::comp(Some(String::from("D&M"))).unwrap(), "1000000");
    assert_eq!(Code::comp(Some(String::from("D|M"))).unwrap(), "1010101");
}

#[test]
#[should_panic(expected = "No comp provided")]
fn test_code_comp_panic1() {
    if let Err(e) = Code::comp(None) {
        panic!("{}", e.message());
    }
}

#[test]
#[should_panic(expected = "Invalid comp")]
fn test_code_comp_panic2() {
    if let Err(e) = Code::comp(Some(String::from("ELMO"))) {
        panic!("{}: ELMO", e.message());
    }
}

#[test]
fn code_errors_are_tagged() {
    assert_eq!(Code::dest(Some(String::from("ELMO"))), Err(AssembleError::InvalidDest));
    assert_eq!(Code::jump(Some(String::from("ELMO"))), Err(AssembleError::InvalidJump));
    assert_eq!(Code::comp(Some(String::from("ELMO"))), Err(AssembleError::InvalidComp));
    assert_eq!(Code::comp(None), Err(AssembleError::MissingComp));
}

#[test]
fn code_rejects_near_misses() {
    assert_eq!(Code::dest(Some(String::new())), Err(AssembleError::InvalidDest));
    assert_eq!(Code::dest(Some(String::from("MD"))), Err(AssembleError::InvalidDest));
    assert_eq!(Code::dest(Some(String::from("m"))), Err(AssembleError::InvalidDest));
    assert_eq!(Code::dest(Some(String::from("ADM "))), Err(AssembleError::InvalidDest));
    assert_eq!(Code::jump(Some(String::new())), Err(AssembleError::InvalidJump));
    assert_eq!(Code::jump(Some(String::from("JM"))), Err(AssembleError::InvalidJump));
    assert_eq!(Code::jump(Some(String::from("JMPX"))), Err(AssembleError::InvalidJump));
    assert_eq!(Code::comp(Some(String::new())), Err(AssembleError::InvalidComp));
    assert_eq!(Code::comp(Some(String::from("A+D"))), Err(AssembleError::InvalidComp));
    assert_eq!(Code::comp(Some(String::from("D + 1"))), Err(AssembleError::InvalidComp));
    assert_eq!(Code::comp(Some(String::from("2"))), Err(AssembleError::InvalidComp));
}

#[test]
fn dest_bits_follow_the_registers() {
    let names = ["M", "D", "DM", "A", "AM", "AD", "ADM"];
    for name in names {
        let bits = Code::dest(Some(String::from(name))).unwrap();
        let bits: Vec<char> = bits.chars().collect();
        assert_eq!(bits[0] == '1', name.contains('A'));
        assert_eq!(bits[1] == '1', name.contains('D'));
        assert_eq!(bits[2] == '1', name.contains('M'));
    }
}

#[test]
fn codes_tell_mnemonics_apart() {
    let dests = ["M", "D", "DM", "A", "AM", "AD", "ADM"];
    let jumps = ["JGT", "JEQ", "JGE", "JLT", "JNE", "JLE", "JMP"];
    let comps = [
        "0", "1", "-1", "D", "A", "!D", "!A", "-D", "-A", "D+1", "A+1", "D-1", "A-1", "D+A", "D-A",
        "A-D", "D&A", "D|A", "M", "!M", "-M", "M+1", "M-1", "D+M", "D-M", "M-D", "D&M", "D|M",
    ];
    for a in dests {
        for b in dests {
            let same = Code::dest(Some(String::from(a))) == Code::dest(Some(String::from(b)));
            assert_eq!(same, a == b);
        }
        assert_ne!(Code::dest(Some(String::from(a))), Code::dest(None));
    }
    for a in jumps {
        for b in jumps {
            let same = Code::jump(Some(String::from(a))) == Code::jump(Some(String::from(b)));
            assert_eq!(same, a == b);
        }
        assert_ne!(Code::jump(Some(String::from(a))), Code::jump(None));
    }
    for a in comps {
        for b in comps {
            let same = Code::comp(Some(String::from(a))) == Code::comp(Some(String::from(b)));
            let twins = (a == "!A" && b == "-A") || (a == "-A" && b == "!A");
            assert_eq!(same, a == b || twins);
        }
    }
}

#[test]
fn error_messages() {
    assert_eq!(AssembleError::InvalidDest.message(), "Invalid dest");
    assert_eq!(AssembleError::InvalidJump.message(), "Invalid jump condition");
    assert_eq!(AssembleError::InvalidComp.message(), "Invalid comp");
    assert_eq!(AssembleError::MissingComp.message(), "No comp provided!");
    assert_eq!(AssembleError::WordSize.message(), "Wrong size, should be 16 chars!");
    assert_eq!(AssembleError::AddressRange.message(), "Address out of range");
    assert_eq!(AssembleError::UnexpectedLabel.message(), "Unexpected label definition");
}
