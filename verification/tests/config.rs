use hack_assembler::Config;

fn args(list: &[&str]) -> Vec<String> {
    list.iter().map(|s| s.to_string()).collect()
}

#[test]
fn config_takes_the_two_paths() {
    let config = Config::new(args(&["hack", "Add.asm", "Add.hack"])).unwrap();
    assert_eq!(config.input_file(), "Add.asm");
    assert_eq!(config.output_file(), "Add.hack");
}

#[test]
fn config_ignores_further_arguments() {
    let config = Config::new(args(&["hack", "in", "out", "more", "and more"])).unwrap();
    assert_eq!(config.input_file(), "in");
    assert_eq!(config.output_file(), "out");
}

#[test]
fn config_wants_an_input_file() {
    assert_eq!(Config::new(args(&[])).err(), Some("Didn't provide input file"));
    assert_eq!(Config::new(args(&["hack"])).err(), Some("Didn't provide input file"));
}

#[test]
fn config_wants_an_output_file() {
    assert_eq!(Config::new(args(&["hack", "Add.asm"])).err(), Some("Didn't provide output file"));
}
