//! What holds of every program: how comments, predefined names, variables
//! and labels come out, and what the machine code looks like.

use vstd::prelude::*;
use crate::code::is_binary;
use crate::error::AssembleError;
use crate::parser::{
    instruction_kind, is_blank_or_comment, lemma_comments_only, normalized_lines, raw_lines,
    symbol_text, Instruction,
};
use crate::program::{
    assembled, bind_labels, emit, encode, instructions, lemma_binary_digits,
    lemma_emit_in_two_parts, lemma_emit_one_more, lemma_instructions_step, lemma_word_shape,
    Emission, FIRST_VARIABLE, MAX_ADDRESS,
};
use crate::symbols::{predefined_address, predefined_symbols};
use crate::text::{binary, lemma_decimal_text_is_number, number_literal};

verus! {

/// A text in which every line is blank or only a comment assembles to no
/// machine code at all.
pub proof fn lemma_comments_only_assemble_to_nothing(text: Seq<char>)
    requires
        forall|i: int|
            0 <= i < raw_lines(text).len() ==> is_blank_or_comment(#[trigger] raw_lines(text)[i]),
    ensures
        assembled(text) == Ok::<Seq<char>, AssembleError>(Seq::empty()),
{
    lemma_comments_only(text);
    let none = Seq::<Seq<char>>::empty();
    assert(instructions(none) =~= none) by {
        reveal_with_fuel(Seq::filter, 1);
    }
}

/// An address load of a predefined name encodes the address that the
/// machine gives to that name, whatever the symbol table holds, and leaves
/// the table and the next free address as they are.
pub proof fn lemma_predefined_name_ignores_table(
    name: Seq<char>,
    table: Map<Seq<char>, u16>,
    next: nat,
)
    requires
        predefined_address(name) is Some,
    ensures
        encode(seq!['@'] + name, table, next) == Ok::<
            (Seq<char>, Map<Seq<char>, u16>, nat),
            AssembleError,
        >((binary(predefined_address(name)->0 as nat, 16), table, next)),
{
    let line = seq!['@'] + name;
    assert(line.skip(1) =~= name);
    lemma_decimal_text_is_number(predefined_address(name)->0 as nat);
}

/// An address load of a name that the table knows, and that is neither a
/// number nor a predefined name, encodes the address in the table and
/// changes nothing: a label resolves to what the first pass bound it to, and
/// a variable keeps the address it was first given.
pub proof fn lemma_known_name_keeps_address(
    name: Seq<char>,
    table: Map<Seq<char>, u16>,
    next: nat,
)
    requires
        predefined_address(name) is None,
        number_literal(name) is None,
        table.contains_key(name),
    ensures
        encode(seq!['@'] + name, table, next) == Ok::<
            (Seq<char>, Map<Seq<char>, u16>, nat),
            AssembleError,
        >((binary(table[name] as nat, 16), table, next)),
{
    let line = seq!['@'] + name;
    assert(line.skip(1) =~= name);
}

/// An address load of a name that the table does not know, and that is
/// neither a number nor a predefined name, makes the name a variable at the
/// next free address, and the address behind it the next free one.
pub proof fn lemma_new_name_becomes_variable(
    name: Seq<char>,
    table: Map<Seq<char>, u16>,
    next: nat,
)
    requires
        predefined_address(name) is None,
        number_literal(name) is None,
        !table.contains_key(name),
        next <= MAX_ADDRESS,
    ensures
        encode(seq!['@'] + name, table, next) == Ok::<
            (Seq<char>, Map<Seq<char>, u16>, nat),
            AssembleError,
        >((binary(next, 16), table.insert(name, next as u16), next + 1)),
{
    let line = seq!['@'] + name;
    assert(line.skip(1) =~= name);
}

/// Whether `name` has the address `address` in the table `after` and none
/// in the table `before`.
pub open spec fn is_variable_at(
    before: Map<Seq<char>, u16>,
    after: Map<Seq<char>, u16>,
    name: Seq<char>,
    address: int,
) -> bool {
    after.contains_key(name) && !before.contains_key(name) && after[name] == address
}

/// Whether the table `after` gives the address `address` to a name that the
/// table `before` does not know.
pub open spec fn allocated(
    before: Map<Seq<char>, u16>,
    after: Map<Seq<char>, u16>,
    address: int,
) -> bool {
    exists|name: Seq<char>| is_variable_at(before, after, name, address)
}

/// The second pass only adds to the table: every name keeps the address it
/// had. The names it adds are variables at the free addresses, from the
/// first free one on, one address for each name and none left out.
pub proof fn lemma_emit_allocates_in_order(
    lines: Seq<Seq<char>>,
    table: Map<Seq<char>, u16>,
    next: nat,
)
    requires
        emit(lines, table, next) is Ok,
    ensures
        ({
            let done = emit(lines, table, next)->Ok_0;
            &&& next <= done.next
            &&& forall|name: Seq<char>| #[trigger]
                table.contains_key(name) ==> done.table.contains_key(name) && done.table[name]
                    == table[name]
            &&& forall|name: Seq<char>| #[trigger]
                done.table.contains_key(name) && !table.contains_key(name) ==> next
                    <= done.table[name] < done.next
            &&& forall|a: Seq<char>, b: Seq<char>|
                #![trigger done.table[a], done.table[b]]
                done.table.contains_key(a) && !table.contains_key(a) && done.table.contains_key(b)
                    && !table.contains_key(b) && a != b ==> done.table[a] != done.table[b]
            &&& forall|address: int|
                next <= address < done.next ==> #[trigger] allocated(table, done.table, address)
        }),
    decreases lines.len(),
{
    if lines.len() > 0 {
        let (word, table1, next1) = encode(lines[0], table, next)->Ok_0;
        lemma_emit_allocates_in_order(lines.skip(1), table1, next1);
        let done = emit(lines, table, next)->Ok_0;
        assert(done.table == emit(lines.skip(1), table1, next1)->Ok_0.table);
        assert forall|name: Seq<char>| #[trigger]
            table.contains_key(name) implies done.table.contains_key(name) by {
            assert(table1.contains_key(name));
        }
        assert forall|address: int| next <= address < done.next implies #[trigger] allocated(
            table,
            done.table,
            address,
        ) by {
            if address < next1 {
                let name = symbol_text(lines[0])->0;
                assert(table1.contains_key(name));
                assert(is_variable_at(table, done.table, name, address));
            } else {
                assert(allocated(table1, done.table, address));
                let name = choose|name: Seq<char>|
                    is_variable_at(table1, done.table, name, address);
                assert(is_variable_at(table, done.table, name, address));
            }
        }
    }
}

/// Variables get their addresses in the order of their first use: a name
/// that became a variable in the first `m` lines has a lower address than
/// one that became a variable in a later line.
pub proof fn lemma_variables_in_order_of_first_use(
    lines: Seq<Seq<char>>,
    m: int,
    table: Map<Seq<char>, u16>,
    next: nat,
)
    requires
        0 <= m <= lines.len(),
        emit(lines, table, next) is Ok,
    ensures
        emit(lines.take(m), table, next) is Ok,
        ({
            let first = emit(lines.take(m), table, next)->Ok_0;
            let done = emit(lines, table, next)->Ok_0;
            forall|a: Seq<char>, b: Seq<char>|
                #![trigger done.table[a], done.table[b]]
                first.table.contains_key(a) && !table.contains_key(a) && done.table.contains_key(b)
                    && !first.table.contains_key(b) ==> done.table[a] == first.table[a]
                    && done.table[a] < done.table[b]
        }),
{
    lemma_emit_in_two_parts(lines, m, table, next);
    let first = emit(lines.take(m), table, next)->Ok_0;
    lemma_emit_allocates_in_order(lines.take(m), table, next);
    lemma_emit_allocates_in_order(lines.skip(m), first.table, first.next);
}

/// The names that become variables in the second pass over `lines`, in the
/// order of their first use: the symbols of the address loads that are no
/// numbers and not among the names `known` before, each of them once.
pub open spec fn variables(lines: Seq<Seq<char>>, known: Set<Seq<char>>) -> Seq<Seq<char>>
    decreases lines.len(),
{
    if lines.len() == 0 {
        Seq::empty()
    } else {
        let symbol = symbol_text(lines[0])->0;
        if instruction_kind(lines[0]) == Instruction::A && number_literal(symbol) is None
            && !known.contains(symbol) {
            seq![symbol] + variables(lines.skip(1), known.insert(symbol))
        } else {
            variables(lines.skip(1), known)
        }
    }
}

/// Variables get the free addresses one after the other: the name that is
/// the `j`-th to become a variable, counted from 0, gets the address `j`
/// above the first free one, and the next free address after the pass lies
/// behind the last of them. In an assembly the first free address is 16.
pub proof fn lemma_variables_are_numbered(
    lines: Seq<Seq<char>>,
    table: Map<Seq<char>, u16>,
    next: nat,
)
    requires
        emit(lines, table, next) is Ok,
    ensures
        ({
            let done = emit(lines, table, next)->Ok_0;
            let names = variables(lines, table.dom());
            &&& done.next == next + names.len()
            &&& done.table.dom() == table.dom().union(names.to_set())
            &&& forall|j: int|
                0 <= j < names.len() ==> !table.contains_key(#[trigger] names[j])
                    && done.table.contains_key(names[j]) && done.table[names[j]] == next + j
        }),
    decreases lines.len(),
{
    let done = emit(lines, table, next)->Ok_0;
    let names = variables(lines, table.dom());
    if lines.len() == 0 {
        assert(done.table.dom() =~= table.dom().union(names.to_set()));
    } else {
        let (word, table1, next1) = encode(lines[0], table, next)->Ok_0;
        let rest = lines.skip(1);
        lemma_variables_are_numbered(rest, table1, next1);
        lemma_emit_allocates_in_order(rest, table1, next1);
        let later = variables(rest, table1.dom());
        let symbol = symbol_text(lines[0])->0;
        if instruction_kind(lines[0]) == Instruction::A && number_literal(symbol) is None
            && !table.contains_key(symbol) {
            assert(table1.dom() =~= table.dom().insert(symbol));
            assert(names == seq![symbol] + later);
            assert(table1.contains_key(symbol));
            assert forall|j: int| 0 <= j < names.len() implies !table.contains_key(
                #[trigger] names[j],
            ) && done.table.contains_key(names[j]) && done.table[names[j]] == next + j by {
                if j > 0 {
                    assert(names[j] == later[j - 1]);
                }
            }
            assert(done.table.dom() =~= table.dom().union(names.to_set())) by {
                assert forall|name: Seq<char>|
                    done.table.dom().contains(name) == table.dom().union(
                        names.to_set(),
                    ).contains(name) by {
                    if later.to_set().contains(name) {
                        let j = choose|j: int| 0 <= j < later.len() && later[j] == name;
                        assert(names[j + 1] == name);
                    }
                    if names.to_set().contains(name) {
                        let j = choose|j: int| 0 <= j < names.len() && names[j] == name;
                        if j > 0 {
                            assert(later[j - 1] == name);
                        } else {
                            assert(name == symbol);
                        }
                    }
                }
            }
        } else {
            assert(table1 == table);
            assert(names == later);
        }
    }
}

/// An address load of a name encodes the address that the name has when the
/// pass is over, wherever the load stands: if instruction `k` loads a symbol
/// that is no number, then word `k` of the machine code is the address of
/// that symbol in the table that the pass leaves behind.
pub proof fn lemma_load_encodes_address_of_name(
    lines: Seq<Seq<char>>,
    table: Map<Seq<char>, u16>,
    next: nat,
    k: int,
)
    requires
        emit(lines, table, next) is Ok,
        0 <= k < lines.len(),
        instruction_kind(lines[k]) == Instruction::A,
        number_literal(symbol_text(lines[k])->0) is None,
    ensures
        ({
            let done = emit(lines, table, next)->Ok_0;
            let name = symbol_text(lines[k])->0;
            &&& done.table.contains_key(name)
            &&& 17 * k + 16 < done.output.len()
            &&& done.output.subrange(17 * k, 17 * k + 16) == binary(done.table[name] as nat, 16)
        }),
{
    let name = symbol_text(lines[k])->0;
    lemma_emit_in_two_parts(lines, k, table, next);
    let part = emit(lines.take(k), table, next)->Ok_0;
    lemma_emit_one_more(lines, k, table, next);
    lemma_emit_in_two_parts(lines, k + 1, table, next);
    lemma_output_length(lines.take(k), table, next);
    let head = emit(lines.take(k + 1), table, next)->Ok_0;
    let tail = emit(lines.skip(k + 1), head.table, head.next)->Ok_0;
    lemma_emit_allocates_in_order(lines.skip(k + 1), head.table, head.next);
    assert(head.table.contains_key(name));
    let word = binary(head.table[name] as nat, 16);
    lemma_binary_digits(head.table[name] as nat, 16);
    let output = emit(lines, table, next)->Ok_0.output;
    assert(output == part.output + word + seq!['\n'] + tail.output);
    assert(output.subrange(17 * k, 17 * k + 16) =~= word);
}

/// The lines up to a label definition and the lines behind it give the
/// instructions of the whole: the definition itself is no instruction.
pub proof fn lemma_instructions_around_label(lines: Seq<Seq<char>>, i: int)
    requires
        0 <= i < lines.len(),
        instruction_kind(lines[i]) == Instruction::L,
    ensures
        instructions(lines) == instructions(lines.take(i)) + instructions(lines.skip(i + 1)),
{
    let kept = |line: Seq<char>| instruction_kind(line) != Instruction::L;
    let tail = lines.skip(i);
    assert(lines =~= lines.take(i) + tail);
    Seq::filter_distributes_over_add(lines.take(i), tail, kept);
    lemma_instructions_step(tail);
    assert(tail.skip(1) =~= lines.skip(i + 1));
}

/// A name that no label definition among `lines` defines has after the
/// first pass what it had before.
pub proof fn lemma_bind_labels_keeps_other_names(
    lines: Seq<Seq<char>>,
    table: Map<Seq<char>, u16>,
    count: nat,
    name: Seq<char>,
)
    requires
        bind_labels(lines, table, count) is Ok,
        forall|j: int|
            0 <= j < lines.len() && instruction_kind(#[trigger] lines[j]) == Instruction::L
                ==> symbol_text(lines[j]) != Some(name),
    ensures
        bind_labels(lines, table, count)->Ok_0.contains_key(name) == table.contains_key(name),
        bind_labels(lines, table, count)->Ok_0[name] == table[name],
    decreases lines.len(),
{
    if lines.len() > 0 {
        let rest = lines.skip(1);
        assert forall|j: int|
            0 <= j < rest.len() && instruction_kind(#[trigger] rest[j])
                == Instruction::L implies symbol_text(rest[j]) != Some(name) by {
            assert(rest[j] == lines[j + 1]);
        }
        assert(instruction_kind(lines[0]) == Instruction::L ==> symbol_text(lines[0]) != Some(
            name,
        ));
        if instruction_kind(lines[0]) == Instruction::L {
            lemma_bind_labels_keeps_other_names(
                rest,
                table.insert(symbol_text(lines[0])->0, count as u16),
                count,
                name,
            );
        } else {
            lemma_bind_labels_keeps_other_names(rest, table, count + 1, name);
        }
    }
}

/// The first pass binds a label to the position, among the instructions, of
/// the instruction that follows its definition: to the number of
/// instructions before the definition. Where a name is defined more than
/// once, this holds of its last definition.
pub proof fn lemma_label_address(
    lines: Seq<Seq<char>>,
    table: Map<Seq<char>, u16>,
    count: nat,
    i: int,
)
    requires
        0 <= i < lines.len(),
        instruction_kind(lines[i]) == Instruction::L,
        forall|j: int|
            i < j < lines.len() && instruction_kind(#[trigger] lines[j]) == Instruction::L
                ==> symbol_text(lines[j]) != symbol_text(lines[i]),
        bind_labels(lines, table, count) is Ok,
    ensures
        ({
            let name = symbol_text(lines[i])->0;
            let bound = bind_labels(lines, table, count)->Ok_0;
            &&& bound.contains_key(name)
            &&& bound[name] == count + instructions(lines.take(i)).len()
        }),
    decreases i,
{
    let name = symbol_text(lines[i])->0;
    let rest = lines.skip(1);
    if i == 0 {
        assert forall|j: int|
            0 <= j < rest.len() && instruction_kind(#[trigger] rest[j])
                == Instruction::L implies symbol_text(rest[j]) != Some(name) by {
            assert(rest[j] == lines[j + 1]);
        }
        lemma_bind_labels_keeps_other_names(rest, table.insert(name, count as u16), count, name);
        assert(instructions(lines.take(0)) =~= Seq::<Seq<char>>::empty()) by {
            reveal_with_fuel(Seq::filter, 1);
        }
    } else {
        assert forall|j: int|
            i - 1 < j < rest.len() && instruction_kind(#[trigger] rest[j])
                == Instruction::L implies symbol_text(rest[j]) != symbol_text(rest[i - 1]) by {
            assert(rest[j] == lines[j + 1]);
        }
        lemma_instructions_step(lines.take(i));
        assert(lines.take(i).skip(1) =~= rest.take(i - 1));
        if instruction_kind(lines[0]) == Instruction::L {
            lemma_label_address(
                rest,
                table.insert(symbol_text(lines[0])->0, count as u16),
                count,
                i - 1,
            );
        } else {
            lemma_label_address(rest, table, count + 1, i - 1);
        }
    }
}

/// An address load of a label encodes the position of the instruction that
/// follows the definition of the label, wherever in the program the load
/// stands: if line `i` is the last definition of a name that is neither a
/// number nor predefined, and instruction `k` loads that name, then word `k`
/// of the machine code is the number of instructions before line `i`.
pub proof fn lemma_label_reference(
    lines: Seq<Seq<char>>,
    table: Map<Seq<char>, u16>,
    i: int,
    k: int,
)
    requires
        0 <= i < lines.len(),
        instruction_kind(lines[i]) == Instruction::L,
        forall|j: int|
            i < j < lines.len() && instruction_kind(#[trigger] lines[j]) == Instruction::L
                ==> symbol_text(lines[j]) != symbol_text(lines[i]),
        predefined_address(symbol_text(lines[i])->0) is None,
        number_literal(symbol_text(lines[i])->0) is None,
        0 <= k < instructions(lines).len(),
        instructions(lines)[k] == seq!['@'] + symbol_text(lines[i])->0,
        bind_labels(lines, table, 0) is Ok,
        emit(
            instructions(lines),
            bind_labels(lines, table, 0)->Ok_0,
            FIRST_VARIABLE as nat,
        ) is Ok,
    ensures
        ({
            let bound = bind_labels(lines, table, 0)->Ok_0;
            let output = emit(instructions(lines), bound, FIRST_VARIABLE as nat)->Ok_0.output;
            &&& 17 * k + 16 < output.len()
            &&& output.subrange(17 * k, 17 * k + 16) == binary(
                instructions(lines.take(i)).len(),
                16,
            )
        }),
{
    let name = symbol_text(lines[i])->0;
    let bound = bind_labels(lines, table, 0)->Ok_0;
    let code = instructions(lines);
    let first = FIRST_VARIABLE as nat;
    lemma_label_address(lines, table, 0, i);
    lemma_emit_in_two_parts(code, k, bound, first);
    let part = emit(code.take(k), bound, first)->Ok_0;
    lemma_emit_allocates_in_order(code.take(k), bound, first);
    assert(bound.contains_key(name));
    lemma_known_name_keeps_address(name, part.table, part.next);
    lemma_emit_one_more(code, k, bound, first);
    lemma_emit_in_two_parts(code, k + 1, bound, first);
    lemma_output_length(code.take(k), bound, first);
    lemma_binary_digits(bound[name] as nat, 16);
    let word = binary(bound[name] as nat, 16);
    let head = emit(code.take(k + 1), bound, first)->Ok_0;
    let tail = emit(code.skip(k + 1), head.table, head.next)->Ok_0;
    let output = emit(code, bound, first)->Ok_0.output;
    assert(output == part.output + word + seq!['\n'] + tail.output);
    assert(output.subrange(17 * k, 17 * k + 16) =~= word);
}

/// The first pass fails in one way only: a label beyond the highest address.
pub proof fn lemma_bind_labels_fails_for_range_only(
    lines: Seq<Seq<char>>,
    table: Map<Seq<char>, u16>,
    count: nat,
)
    ensures
        bind_labels(lines, table, count) is Err ==> bind_labels(lines, table, count)
            == Err::<Map<Seq<char>, u16>, AssembleError>(AssembleError::AddressRange),
    decreases lines.len(),
{
    if lines.len() > 0 {
        if instruction_kind(lines[0]) == Instruction::L {
            lemma_bind_labels_fails_for_range_only(
                lines.skip(1),
                table.insert(symbol_text(lines[0])->0, count as u16),
                count,
            );
        } else {
            lemma_bind_labels_fails_for_range_only(lines.skip(1), table, count + 1);
        }
    }
}

/// The second pass never meets a label definition among lines that hold
/// none.
pub proof fn lemma_emit_meets_no_label(
    lines: Seq<Seq<char>>,
    table: Map<Seq<char>, u16>,
    next: nat,
)
    requires
        forall|i: int| 0 <= i < lines.len() ==> instruction_kind(#[trigger] lines[i])
            != Instruction::L,
    ensures
        emit(lines, table, next) != Err::<Emission, AssembleError>(
            AssembleError::UnexpectedLabel,
        ),
    decreases lines.len(),
{
    if lines.len() > 0 {
        assert(instruction_kind(lines[0]) != Instruction::L);
        let rest = lines.skip(1);
        assert forall|i: int| 0 <= i < rest.len() implies instruction_kind(#[trigger] rest[i])
            != Instruction::L by {
            assert(rest[i] == lines[i + 1]);
        }
        match encode(lines[0], table, next) {
            Ok((word, table1, next1)) => lemma_emit_meets_no_label(rest, table1, next1),
            Err(_) => {},
        }
    }
}

/// No source text fails for a label definition in the second pass: the
/// first pass has taken them all out.
pub proof fn lemma_assembly_meets_no_label(text: Seq<char>)
    ensures
        assembled(text) != Err::<Seq<char>, AssembleError>(AssembleError::UnexpectedLabel),
{
    let lines = normalized_lines(text);
    let kept = |line: Seq<char>| instruction_kind(line) != Instruction::L;
    assert forall|i: int| 0 <= i < instructions(lines).len() implies instruction_kind(
        #[trigger] instructions(lines)[i],
    ) != Instruction::L by {
        lines.lemma_filter_pred(kept, i);
    }
    match bind_labels(lines, predefined_symbols(), 0) {
        Ok(table) => lemma_emit_meets_no_label(
            instructions(lines),
            table,
            FIRST_VARIABLE as nat,
        ),
        Err(_) => lemma_bind_labels_fails_for_range_only(lines, predefined_symbols(), 0),
    }
}

/// The machine code holds one line for each instruction, in the order of
/// the instructions: sixteen binary digits and a line feed.
pub proof fn lemma_output_shape(
    lines: Seq<Seq<char>>,
    table: Map<Seq<char>, u16>,
    next: nat,
    i: int,
)
    requires
        emit(lines, table, next) is Ok,
        0 <= i < lines.len(),
    ensures
        ({
            let output = emit(lines, table, next)->Ok_0.output;
            &&& output.len() == 17 * lines.len()
            &&& is_binary(output.subrange(17 * i, 17 * i + 16), 16)
            &&& output[17 * i + 16] == '\n'
        }),
    decreases lines.len(),
{
    let (word, table1, next1) = encode(lines[0], table, next)->Ok_0;
    lemma_word_shape(lines[0], table, next);
    let rest = emit(lines.skip(1), table1, next1)->Ok_0.output;
    let output = emit(lines, table, next)->Ok_0.output;
    assert(output == word + seq!['\n'] + rest);
    if lines.len() > 1 {
        lemma_output_shape(lines.skip(1), table1, next1, if i > 0 {
            i - 1
        } else {
            0
        });
    } else {
        assert(rest.len() == 0);
    }
    if i == 0 {
        assert(output.subrange(0, 16) =~= word);
    } else {
        assert(output.subrange(17 * i, 17 * i + 16) =~= rest.subrange(
            17 * (i - 1),
            17 * (i - 1) + 16,
        ));
    }
}

/// The machine code is seventeen characters for each instruction.
pub proof fn lemma_output_length(lines: Seq<Seq<char>>, table: Map<Seq<char>, u16>, next: nat)
    requires
        emit(lines, table, next) is Ok,
    ensures
        emit(lines, table, next)->Ok_0.output.len() == 17 * lines.len(),
{
    if lines.len() > 0 {
        lemma_output_shape(lines, table, next, 0);
    }
}

} // verus!
