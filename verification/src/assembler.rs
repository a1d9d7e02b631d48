//! The two-pass driver: labels are bound in a first pass over the lines,
//! instructions are encoded in a second one.

use vstd::prelude::*;
use vstd::string::*;
use crate::code::{lemma_comp_bits_width, lemma_dest_bits_width, lemma_jump_bits_width, Code};
use crate::config::Config;
use crate::error::AssembleError;
use crate::parser::{comp_text, dest_text, jump_text, texts, Instruction, Parser};
use crate::program::{
    assembled, bind_labels, emit, encode, instructions, lemma_binary_digits,
    lemma_emit_in_two_parts, lemma_emit_one_more, lemma_instructions_step, resolve, Emission,
    FIRST_VARIABLE, MAX_ADDRESS,
};
use crate::symbols::SymbolTable;
use crate::text::{binary, chars_of, parse_number, push_binary};

verus! {

/// The machine code of a program as it grows, and the file it is meant for.
pub struct HackAssembler {
    output_file: String,
    bytecode: String,
}

impl HackAssembler {
    /// The path of the file that the machine code is meant for.
    pub closed spec fn output_path(&self) -> Seq<char> {
        self.output_file@
    }

    /// The machine code so far.
    pub closed spec fn output(&self) -> Seq<char> {
        self.bytecode@
    }

    /// An assembler without machine code, for the output file of `config`.
    pub fn new(config: &Config) -> (assembler: HackAssembler)
        ensures
            assembler.output_path() == config.output_path(),
            assembler.output() == Seq::<char>::empty(),
    {
        HackAssembler { output_file: config.output_file().to_string(), bytecode: String::new() }
    }

    /// Appends one machine word and a line feed. A word that is not sixteen
    /// characters long is refused, and nothing changes.
    pub fn add_bytecode(&mut self, bytecode: &str) -> (r: Result<(), String>)
        ensures
            final(self).output_path() == old(self).output_path(),
            bytecode@.len() == 16 ==> r is Ok && final(self).output() == old(self).output()
                + bytecode@ + seq!['\n'],
            bytecode@.len() != 16 ==> r is Err && r->Err_0@ == "Wrong size, should be 16 chars!"@
                && final(self).output() == old(self).output(),
    {
        if bytecode.unicode_len() != 16 {
            return Err("Wrong size, should be 16 chars!".to_string());
        }
        self.bytecode.append(bytecode);
        self.bytecode.push('\n');
        assert(self.bytecode@ =~= old(self).bytecode@ + bytecode@ + seq!['\n']);
        Ok(())
    }

    /// The machine code so far.
    pub fn bytecode(&self) -> (code: &str)
        ensures
            code@ == self.output(),
    {
        self.bytecode.as_str()
    }

    /// The path of the file that the machine code is meant for.
    pub fn output_file(&self) -> (path: &str)
        ensures
            path@ == self.output_path(),
    {
        self.output_file.as_str()
    }
}

/// Finds the address that the symbol of an address load stands for, and
/// makes the symbol a variable if it is a name that the table does not know.
pub fn resolve_symbol(symbol: String, symbols: &mut SymbolTable, next: &mut u32) -> (r: Result<
    u16,
    AssembleError,
>)
    ensures
        match resolve(symbol@, old(symbols)@, *old(next) as nat) {
            Ok((address, table, free)) => r == Ok::<u16, AssembleError>(address as u16)
                && address <= MAX_ADDRESS && final(symbols)@ == table && *final(next) == free,
            Err(e) => r == Err::<u16, AssembleError>(e) && final(symbols)@ == old(symbols)@
                && *final(next) == *old(next),
        },
{
    let text = chars_of(symbol.as_str());
    match parse_number(&text) {
        Some(n) => {
            if n <= MAX_ADDRESS {
                Ok(n as u16)
            } else {
                Err(AssembleError::WordSize)
            }
        },
        None => {
            match symbols.get_address(symbol.as_str()) {
                Some(address) => Ok(*address),
                None => {
                    if *next <= MAX_ADDRESS {
                        let address: u16 = *next as u16;
                        symbols.add_entry(symbol, address);
                        *next = *next + 1;
                        Ok(address)
                    } else {
                        Err(AssembleError::AddressRange)
                    }
                },
            }
        },
    }
}

/// Encodes the instruction under the cursor of `parser` as a machine word.
fn encode_instruction(parser: &Parser, symbols: &mut SymbolTable, next: &mut u32) -> (r: Result<
    String,
    AssembleError,
>)
    requires
        parser.current_line() is Some,
    ensures
        match encode(parser.current_line()->0, old(symbols)@, *old(next) as nat) {
            Ok((word, table, free)) => r is Ok && r->Ok_0@ == word && word.len() == 16
                && final(symbols)@ == table && *final(next) == free && free <= *old(next) + 1,
            Err(e) => r == Err::<String, AssembleError>(e) && final(symbols)@ == old(symbols)@
                && *final(next) == *old(next),
        },
{
    let ghost line = parser.current_line()->0;
    match parser.instruction_type() {
        Some(Instruction::A) => {
            let symbol = parser.symbol().unwrap();
            let address: u16 = resolve_symbol(symbol, symbols, next)?;
            let mut word = String::new();
            push_binary(&mut word, address as u32, 16);
            proof {
                lemma_binary_digits(address as nat, 16);
                assert(word@ =~= binary(address as nat, 16));
            }
            Ok(word)
        },
        Some(Instruction::C) => {
            let comp = Code::comp(parser.comp())?;
            let dest = Code::dest(parser.dest())?;
            let jump = Code::jump(parser.jump())?;
            let mut word = "111".to_string();
            word.append(comp.as_str());
            word.append(dest.as_str());
            word.append(jump.as_str());
            proof {
                reveal_strlit("111");
                lemma_comp_bits_width(comp_text(line)->0);
                lemma_dest_bits_width(dest_text(line));
                lemma_jump_bits_width(jump_text(line));
            }
            Ok(word)
        },
        _ => Err(AssembleError::UnexpectedLabel),
    }
}

/// The table with the entries of `labels` added to it, in their order.
spec fn with_labels(table: Map<Seq<char>, u16>, labels: Seq<(String, u16)>) -> Map<
    Seq<char>,
    u16,
>
    decreases labels.len(),
{
    if labels.len() == 0 {
        table
    } else {
        with_labels(table, labels.drop_last()).insert(labels.last().0@, labels.last().1)
    }
}

/// The first pass: binds each label to the position of the instruction that
/// follows it, takes the label definitions out of the lines of `parser` and
/// leaves the cursor on the first line. If a label cannot be bound, the
/// lines and the table stay as they were.
pub fn first_pass(parser: &mut Parser, symbols: &mut SymbolTable) -> (r: Result<
    (),
    AssembleError,
>)
    ensures
        final(parser).current_instruction == 0,
        match bind_labels(texts(old(parser).lines@), old(symbols)@, 0) {
            Ok(table) => r is Ok && final(symbols)@ == table && texts(final(parser).lines@)
                == instructions(texts(old(parser).lines@)),
            Err(e) => r == Err::<(), AssembleError>(e) && final(symbols)@ == old(symbols)@
                && final(parser).lines == old(parser).lines,
        },
{
    let ghost all = texts(parser.lines@);
    let ghost table = symbols@;
    let mut kept: Vec<String> = Vec::new();
    let mut labels: Vec<(String, u16)> = Vec::new();
    parser.current_instruction = 0;
    proof {
        assert(all.skip(0) =~= all);
        assert(texts(kept@) + instructions(all) =~= instructions(all));
    }
    loop
        invariant_except_break
            parser.current_instruction <= parser.lines.len(),
            bind_labels(all, table, 0) == bind_labels(
                all.skip(parser.current_instruction as int),
                with_labels(table, labels@),
                kept.len() as nat,
            ),
            instructions(all) == texts(kept@) + instructions(
                all.skip(parser.current_instruction as int),
            ),
        invariant
            parser.lines == old(parser).lines,
            all == texts(parser.lines@),
            table == old(symbols)@,
            symbols@ == table,
        ensures
            bind_labels(all, table, 0) == Ok::<Map<Seq<char>, u16>, AssembleError>(
                with_labels(table, labels@),
            ),
            instructions(all) == texts(kept@),
        decreases parser.lines.len() - parser.current_instruction,
    {
        let ghost rest = all.skip(parser.current_instruction as int);
        let ghost before = texts(kept@);
        match parser.instruction_type() {
            Some(Instruction::L) => {
                proof {
                    lemma_instructions_step(rest);
                }
                if kept.len() > MAX_ADDRESS as usize {
                    parser.current_instruction = 0;
                    return Err(AssembleError::AddressRange);
                }
                let name = parser.symbol().unwrap();
                let ghost bound = labels@;
                labels.push((name, kept.len() as u16));
                assert(labels@.drop_last() =~= bound);
            },
            Some(_) => {
                proof {
                    lemma_instructions_step(rest);
                }
                let line = parser.lines[parser.current_instruction].clone();
                kept.push(line);
                assert(texts(kept@) =~= before + seq![rest[0]]);
            },
            None => {},
        }
        if !parser.has_more_lines() {
            proof {
                let none = Seq::<Seq<char>>::empty();
                if rest.len() > 0 {
                    assert(rest.skip(1) =~= none);
                }
                assert(bind_labels(none, with_labels(table, labels@), kept.len() as nat) == Ok::<
                    Map<Seq<char>, u16>,
                    AssembleError,
                >(with_labels(table, labels@)));
                assert(instructions(Seq::<Seq<char>>::empty()) =~= Seq::<Seq<char>>::empty()) by {
                    reveal_with_fuel(Seq::filter, 1);
                }
                assert(texts(kept@) + Seq::<Seq<char>>::empty() =~= texts(kept@));
            }
            break ;
        }
        assert(rest.skip(1) =~= all.skip(parser.current_instruction + 1));
        parser.advance();
    }
    let mut i: usize = 0;
    while i < labels.len()
        invariant
            i <= labels.len(),
            symbols@ == with_labels(table, labels@.take(i as int)),
        decreases labels.len() - i,
    {
        let name = labels[i].0.clone();
        let address: u16 = labels[i].1;
        symbols.add_entry(name, address);
        assert(labels@.take(i + 1).drop_last() =~= labels@.take(i as int));
        i += 1;
    }
    assert(labels@.take(labels.len() as int) =~= labels@);
    parser.lines = kept;
    parser.current_instruction = 0;
    Ok(())
}

/// The position of the last of `lines`; 0 if there are none.
pub open spec fn last_position(lines: Seq<String>) -> int {
    if lines.len() == 0 {
        0
    } else {
        lines.len() - 1
    }
}

/// Whether the second pass over `lines`, begun with the table `table`,
/// fails at line `k`: the lines before it give the machine code `written`
/// and leave the table `left`, and line `k` cannot be encoded then.
pub open spec fn fails_at(
    lines: Seq<Seq<char>>,
    table: Map<Seq<char>, u16>,
    k: int,
    written: Seq<char>,
    left: Map<Seq<char>, u16>,
) -> bool {
    &&& 0 <= k < lines.len()
    &&& emit(lines.take(k), table, FIRST_VARIABLE as nat) matches Ok(part)
    &&& part.output == written
    &&& part.table == left
    &&& encode(lines[k], part.table, part.next) is Err
}

/// The second pass: encodes the lines of `parser` from the first on, hands
/// each machine word to `assembler` and makes the names it meets variables,
/// the first of them at address 16. It stops at the first line that cannot
/// be encoded, with the machine code and the variables of the lines before
/// it. The cursor is left on that line, or on the last line if all went
/// well.
pub fn second_pass(
    parser: &mut Parser,
    symbols: &mut SymbolTable,
    assembler: &mut HackAssembler,
) -> (r: Result<(), AssembleError>)
    ensures
        final(parser).lines == old(parser).lines,
        final(assembler).output_path() == old(assembler).output_path(),
        match emit(texts(old(parser).lines@), old(symbols)@, FIRST_VARIABLE as nat) {
            Ok(done) => r is Ok && final(assembler).output() == old(assembler).output()
                + done.output && final(symbols)@ == done.table
                && final(parser).current_instruction == last_position(old(parser).lines@),
            Err(e) => r == Err::<(), AssembleError>(e) && exists|written: Seq<char>|
                #[trigger] fails_at(
                    texts(old(parser).lines@),
                    old(symbols)@,
                    final(parser).current_instruction as int,
                    written,
                    final(symbols)@,
                ) && final(assembler).output() == old(assembler).output() + written,
        },
{
    let ghost all = texts(parser.lines@);
    let ghost table = symbols@;
    let ghost mut written: Seq<char> = Seq::empty();
    let mut next: u32 = FIRST_VARIABLE;
    parser.current_instruction = 0;
    proof {
        assert(assembler.output() + written =~= assembler.output());
        assert(all.take(0) =~= Seq::<Seq<char>>::empty());
    }
    loop
        invariant_except_break
            parser.current_instruction < parser.lines.len() || parser.current_instruction == 0,
            emit(all.take(parser.current_instruction as int), table, FIRST_VARIABLE as nat)
                == Ok::<Emission, AssembleError>(
                Emission { output: written, table: symbols@, next: next as nat },
            ),
        invariant
            parser.lines == old(parser).lines,
            all == texts(parser.lines@),
            table == old(symbols)@,
            next <= MAX_ADDRESS + 1,
            assembler.output_path() == old(assembler).output_path(),
            assembler.output() == old(assembler).output() + written,
        ensures
            emit(all, table, FIRST_VARIABLE as nat) == Ok::<Emission, AssembleError>(
                Emission { output: written, table: symbols@, next: next as nat },
            ),
            parser.current_instruction == last_position(parser.lines@),
        decreases parser.lines.len() - parser.current_instruction,
    {
        let ghost k = parser.current_instruction as int;
        let ghost before = written;
        if parser.current_instruction < parser.lines.len() {
            proof {
                lemma_emit_in_two_parts(all, k, table, FIRST_VARIABLE as nat);
                lemma_emit_one_more(all, k, table, FIRST_VARIABLE as nat);
                assert(all.skip(k)[0] == all[k]);
            }
            let word = match encode_instruction(parser, symbols, &mut next) {
                Ok(word) => word,
                Err(e) => {
                    assert(fails_at(all, table, k, written, symbols@));
                    return Err(e);
                },
            };
            // Every encoded word is sixteen characters wide, so this never fails.
            if assembler.add_bytecode(word.as_str()).is_err() {
                return Err(AssembleError::WordSize);
            }
            proof {
                written = written + word@ + seq!['\n'];
                assert(old(assembler).output() + before + word@ + seq!['\n'] =~= old(
                    assembler,
                ).output() + written);
            }
        }
        if !parser.has_more_lines() {
            proof {
                if k < all.len() {
                    assert(all.take(k + 1) =~= all);
                } else {
                    assert(all.take(k) =~= all);
                }
            }
            break ;
        }
        parser.advance();
    }
    Ok(())
}

/// Assembles a source text: reads its lines, binds its labels, encodes its
/// instructions. The machine code comes back in an assembler for the output
/// file of `config`; a text that cannot be assembled gives its first error
/// and no machine code.
pub fn assemble(config: &Config, contents: String) -> (r: Result<HackAssembler, AssembleError>)
    ensures
        match assembled(contents@) {
            Ok(code) => r is Ok && r->Ok_0.output() == code && r->Ok_0.output_path()
                == config.output_path(),
            Err(e) => r is Err && r->Err_0 == e,
        },
{
    let mut assembler = HackAssembler::new(config);
    let mut parser = Parser::create(contents);
    let mut symbols = SymbolTable::new();
    first_pass(&mut parser, &mut symbols)?;
    second_pass(&mut parser, &mut symbols, &mut assembler)?;
    assert(Seq::<char>::empty() + assembler.output() =~= assembler.output());
    Ok(assembler)
}

} // verus!
