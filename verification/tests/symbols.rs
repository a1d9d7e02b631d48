use hack_assembler::SymbolTable;

#[test]
fn test_symboltable() {
    let mut symbols = SymbolTable::new();

    assert!(!symbols.contains("END"));
    symbols.add_entry("END".to_string(), 123);
    assert!(symbols.contains("END"));
    assert_eq!(symbols.get_address("END"), Some(&123));
    assert_eq!(symbols.get_address("START"), None);
}

#[test]
fn new_table_holds_the_predefined_names() {
    let symbols = SymbolTable::new();
    for i in 0..16u16 {
        let name = format!("R{}", i);
        assert_eq!(symbols.get_address(&name), Some(&i));
    }
    assert_eq!(symbols.get_address("SCREEN"), Some(&16384));
    assert_eq!(symbols.get_address("KBD"), Some(&24576));
    assert_eq!(symbols.get_address("SP"), Some(&0));
    assert_eq!(symbols.get_address("LCL"), Some(&1));
    assert_eq!(symbols.get_address("ARG"), Some(&2));
    assert_eq!(symbols.get_address("THIS"), Some(&3));
    assert_eq!(symbols.get_address("THAT"), Some(&4));
    assert!(!symbols.contains("R16"));
    assert!(!symbols.contains("r0"));
    assert!(!symbols.contains(""));
}

#[test]
fn add_entry_overwrites() {
    let mut symbols = SymbolTable::new();
    symbols.add_entry("LOOP".to_string(), 4);
    symbols.add_entry("LOOP".to_string(), 9);
    assert_eq!(symbols.get_address("LOOP"), Some(&9));
    symbols.add_entry("SP".to_string(), 77);
    assert_eq!(symbols.get_address("SP"), Some(&77));
    assert_eq!(symbols.get_address("R0"), Some(&0));
}
