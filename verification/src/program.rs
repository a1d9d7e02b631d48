//! What a program means: the symbol table that its labels give, and the
//! machine code of its instructions.

use vstd::prelude::*;
use vstd::string::*;
use crate::code::{
    comp_bits, dest_bits, is_binary, jump_bits, lemma_comp_bits_width, lemma_dest_bits_width,
    lemma_jump_bits_width,
};
use crate::error::AssembleError;
use crate::parser::{
    comp_text, dest_text, instruction_kind, jump_text, normalized_lines, symbol_text, Instruction,
};
use crate::symbols::predefined_symbols;
use crate::text::{binary, number_literal};

verus! {

/// The address of the first variable.
pub const FIRST_VARIABLE: u32 = 16;

/// The highest address that a machine word can hold.
pub const MAX_ADDRESS: u32 = 65535;

/// The lines that produce a machine word: all but the label definitions.
pub open spec fn instructions(lines: Seq<Seq<char>>) -> Seq<Seq<char>> {
    lines.filter(|line: Seq<char>| instruction_kind(line) != Instruction::L)
}

/// The table after the labels of `lines` have been bound, where `count`
/// instructions stand before `lines`: each label gets the position, among
/// the instructions, of the instruction that follows it, and a later
/// definition of a name replaces an earlier one. A label at a position above
/// the highest address fails the run.
pub open spec fn bind_labels(
    lines: Seq<Seq<char>>,
    table: Map<Seq<char>, u16>,
    count: nat,
) -> Result<Map<Seq<char>, u16>, AssembleError>
    decreases lines.len(),
{
    if lines.len() == 0 {
        Ok(table)
    } else if instruction_kind(lines[0]) == Instruction::L {
        if count <= MAX_ADDRESS {
            bind_labels(
                lines.skip(1),
                table.insert(symbol_text(lines[0])->0, count as u16),
                count,
            )
        } else {
            Err(AssembleError::AddressRange)
        }
    } else {
        bind_labels(lines.skip(1), table, count + 1)
    }
}

/// What the second pass has produced and what it has learnt.
pub struct Emission {
    /// The machine words so far, each followed by a line feed.
    pub output: Seq<char>,
    /// The symbol table, with the variables met so far.
    pub table: Map<Seq<char>, u16>,
    /// The address that the next new variable gets.
    pub next: nat,
}

/// The address that the symbol of an address load stands for, with the table
/// and the next free address as they are afterwards. A number stands for
/// itself; a name that the table knows stands for its entry; any other name
/// becomes a variable at the next free address.
pub open spec fn resolve(symbol: Seq<char>, table: Map<Seq<char>, u16>, next: nat) -> Result<
    (nat, Map<Seq<char>, u16>, nat),
    AssembleError,
> {
    match number_literal(symbol) {
        Some(n) => if n <= MAX_ADDRESS {
            Ok((n, table, next))
        } else {
            Err(AssembleError::WordSize)
        },
        None => if table.contains_key(symbol) {
            Ok((table[symbol] as nat, table, next))
        } else if next <= MAX_ADDRESS {
            Ok((next, table.insert(symbol, next as u16), next + 1))
        } else {
            Err(AssembleError::AddressRange)
        },
    }
}

/// The machine word of a computation: `111`, then the bits of its
/// computation, destination and jump fields.
pub open spec fn computation_word(line: Seq<char>) -> Result<Seq<char>, AssembleError> {
    match comp_text(line) {
        None => Err(AssembleError::MissingComp),
        Some(comp) => match comp_bits(comp) {
            None => Err(AssembleError::InvalidComp),
            Some(c) => match dest_bits(dest_text(line)) {
                None => Err(AssembleError::InvalidDest),
                Some(d) => match jump_bits(jump_text(line)) {
                    None => Err(AssembleError::InvalidJump),
                    Some(j) => Ok("111"@ + c + d + j),
                },
            },
        },
    }
}

/// The machine word of one line, with the table and the next free address
/// as they are afterwards. A label definition has no machine word.
pub open spec fn encode(line: Seq<char>, table: Map<Seq<char>, u16>, next: nat) -> Result<
    (Seq<char>, Map<Seq<char>, u16>, nat),
    AssembleError,
> {
    match instruction_kind(line) {
        Instruction::A => match resolve(symbol_text(line)->0, table, next) {
            Ok((address, table, next)) => Ok((binary(address, 16), table, next)),
            Err(e) => Err(e),
        },
        Instruction::C => match computation_word(line) {
            Ok(word) => Ok((word, table, next)),
            Err(e) => Err(e),
        },
        Instruction::L => Err(AssembleError::UnexpectedLabel),
    }
}

/// The outcome of the second pass over `lines`, begun with `table` and
/// with `next` as the next free address: the words of the lines in their
/// order, or the error of the first line that has one.
pub open spec fn emit(lines: Seq<Seq<char>>, table: Map<Seq<char>, u16>, next: nat) -> Result<
    Emission,
    AssembleError,
>
    decreases lines.len(),
{
    if lines.len() == 0 {
        Ok(Emission { output: Seq::empty(), table, next })
    } else {
        match encode(lines[0], table, next) {
            Err(e) => Err(e),
            Ok((word, table, next)) => match emit(lines.skip(1), table, next) {
                Err(e) => Err(e),
                Ok(rest) => Ok(
                    Emission {
                        output: word + seq!['\n'] + rest.output,
                        table: rest.table,
                        next: rest.next,
                    },
                ),
            },
        }
    }
}

/// The machine code of a source text: one word of sixteen binary digits
/// and a line feed for each instruction, in the order of the source.
pub open spec fn assembled(text: Seq<char>) -> Result<Seq<char>, AssembleError> {
    let lines = normalized_lines(text);
    match bind_labels(lines, predefined_symbols(), 0) {
        Err(e) => Err(e),
        Ok(table) => match emit(instructions(lines), table, FIRST_VARIABLE as nat) {
            Err(e) => Err(e),
            Ok(done) => Ok(done.output),
        },
    }
}

/// The outcome of a pass that has written `done` and then goes on as `rest`.
pub open spec fn prepend(done: Seq<char>, rest: Result<Emission, AssembleError>) -> Result<
    Emission,
    AssembleError,
> {
    match rest {
        Ok(t) => Ok(Emission { output: done + t.output, table: t.table, next: t.next }),
        Err(e) => Err(e),
    }
}

/// The instructions of a sequence of lines are its first line, unless that
/// is a label definition, and then the instructions of the other lines.
pub proof fn lemma_instructions_step(lines: Seq<Seq<char>>)
    requires
        lines.len() > 0,
    ensures
        instructions(lines) == if instruction_kind(lines[0]) != Instruction::L {
            seq![lines[0]] + instructions(lines.skip(1))
        } else {
            instructions(lines.skip(1))
        },
{
    let kept = |line: Seq<char>| instruction_kind(line) != Instruction::L;
    let first = seq![lines[0]];
    assert(lines =~= first + lines.skip(1));
    Seq::filter_distributes_over_add(first, lines.skip(1), kept);
    assert(first.filter(kept) =~= if kept(lines[0]) {
        first
    } else {
        Seq::empty()
    }) by {
        reveal_with_fuel(Seq::filter, 2);
        assert(first.drop_last() =~= Seq::<Seq<char>>::empty());
    }
}

/// The second pass can be run in two parts: over the first `m` lines, and
/// then over the others with the table and the free address that the first
/// part left behind.
pub proof fn lemma_emit_in_two_parts(
    lines: Seq<Seq<char>>,
    m: int,
    table: Map<Seq<char>, u16>,
    next: nat,
)
    requires
        0 <= m <= lines.len(),
    ensures
        emit(lines, table, next) == match emit(lines.take(m), table, next) {
            Ok(first) => prepend(first.output, emit(lines.skip(m), first.table, first.next)),
            Err(e) => Err(e),
        },
    decreases m,
{
    if m == 0 {
        assert(lines.skip(0) =~= lines);
        let whole = emit(lines, table, next);
        if whole is Ok {
            assert(Seq::<char>::empty() + whole->Ok_0.output =~= whole->Ok_0.output);
        }
    } else {
        let head = lines.take(m);
        assert(head[0] == lines[0]);
        assert(head.skip(1) =~= lines.skip(1).take(m - 1));
        assert(lines.skip(1).skip(m - 1) =~= lines.skip(m));
        match encode(lines[0], table, next) {
            Ok((word, table1, next1)) => {
                lemma_emit_in_two_parts(lines.skip(1), m - 1, table1, next1);
                match emit(head.skip(1), table1, next1) {
                    Ok(first) => {
                        let rest = emit(lines.skip(m), first.table, first.next);
                        if rest is Ok {
                            assert(word + seq!['\n'] + (first.output + rest->Ok_0.output) =~= (word
                                + seq!['\n'] + first.output) + rest->Ok_0.output);
                        }
                    },
                    Err(_) => {},
                }
            },
            Err(_) => {},
        }
    }
}

/// The second pass over one line more: what the pass over the first `k`
/// lines gave, and then the word of line `k`.
pub proof fn lemma_emit_one_more(
    lines: Seq<Seq<char>>,
    k: int,
    table: Map<Seq<char>, u16>,
    next: nat,
)
    requires
        0 <= k < lines.len(),
        emit(lines.take(k), table, next) is Ok,
    ensures
        ({
            let part = emit(lines.take(k), table, next)->Ok_0;
            emit(lines.take(k + 1), table, next) == match encode(
                lines[k],
                part.table,
                part.next,
            ) {
                Ok((word, table, next)) => Ok::<Emission, AssembleError>(
                    Emission { output: part.output + word + seq!['\n'], table, next },
                ),
                Err(e) => Err(e),
            }
        }),
{
    let part = emit(lines.take(k), table, next)->Ok_0;
    let head = lines.take(k + 1);
    lemma_emit_in_two_parts(head, k, table, next);
    assert(head.take(k) =~= lines.take(k));
    let last = head.skip(k);
    assert(last =~= seq![lines[k]]);
    assert(last.skip(1) =~= Seq::<Seq<char>>::empty());
    match encode(lines[k], part.table, part.next) {
        Ok((word, table1, next1)) => {
            assert(emit(last.skip(1), table1, next1) == Ok::<Emission, AssembleError>(
                Emission { output: Seq::empty(), table: table1, next: next1 },
            ));
            assert(part.output + (word + seq!['\n'] + Seq::<char>::empty()) =~= part.output + word
                + seq!['\n']);
        },
        Err(_) => {},
    }
}

/// A number written in `width` binary digits is that many characters, each
/// `0` or `1`.
pub proof fn lemma_binary_digits(v: nat, width: nat)
    ensures
        is_binary(binary(v, width), width),
    decreases width,
{
    if width > 0 {
        lemma_binary_digits(v / 2, (width - 1) as nat);
    }
}

/// Every machine word is sixteen binary digits.
pub proof fn lemma_word_shape(line: Seq<char>, table: Map<Seq<char>, u16>, next: nat)
    requires
        encode(line, table, next) is Ok,
    ensures
        is_binary(encode(line, table, next)->Ok_0.0, 16),
{
    match instruction_kind(line) {
        Instruction::A => {
            let address = resolve(symbol_text(line)->0, table, next)->Ok_0.0;
            lemma_binary_digits(address, 16);
        },
        Instruction::C => {
            reveal_strlit("111");
            lemma_comp_bits_width(comp_text(line)->0);
            lemma_dest_bits_width(dest_text(line));
            lemma_jump_bits_width(jump_text(line));
        },
        Instruction::L => {},
    }
}

} // verus!
