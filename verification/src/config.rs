//! The two file names that a run of the assembler is given.

use vstd::prelude::*;
use vstd::string::*;

verus! {

/// Where the source text comes from and where the machine code goes.
pub struct Config {
    input_file: String,
    output_file: String,
}

impl Config {
    /// The path of the source file.
    pub closed spec fn input_path(&self) -> Seq<char> {
        self.input_file@
    }

    /// The path of the file that receives the machine code.
    pub closed spec fn output_path(&self) -> Seq<char> {
        self.output_file@
    }

    /// Reads the two paths from a command line: `args[0]` is the name of the
    /// program, `args[1]` the source file and `args[2]` the output file.
    /// Arguments behind these are not looked at.
    pub fn new(args: Vec<String>) -> (r: Result<Config, &'static str>)
        ensures
            args.len() < 2 ==> r is Err && r->Err_0@ == "Didn't provide input file"@,
            args.len() == 2 ==> r is Err && r->Err_0@ == "Didn't provide output file"@,
            args.len() > 2 ==> r is Ok && r->Ok_0.input_path() == args[1]@
                && r->Ok_0.output_path() == args[2]@,
    {
        if args.len() < 2 {
            return Err("Didn't provide input file");
        }
        if args.len() < 3 {
            return Err("Didn't provide output file");
        }
        let input_file = args[1].clone();
        let output_file = args[2].clone();
        Ok(Config { input_file, output_file })
    }

    /// The path of the source file.
    pub fn input_file(&self) -> (path: &str)
        ensures
            path@ == self.input_path(),
    {
        self.input_file.as_str()
    }

    /// The path of the file that receives the machine code.
    pub fn output_file(&self) -> (path: &str)
        ensures
            path@ == self.output_path(),
    {
        self.output_file.as_str()
    }
}

} // verus!
