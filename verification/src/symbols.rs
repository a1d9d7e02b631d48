//! The symbol table: the names of a program and the addresses they stand for.

use vstd::prelude::*;
use vstd::string::*;
use vstd::hash_map::StringHashMap;
use crate::text::{spelling, spells};

verus! {

/// The address of a name that the machine defines: the sixteen registers,
/// the two memory-mapped devices and the five pointers, which share the
/// addresses of the first five registers.
pub open spec fn predefined_address(name: Seq<char>) -> Option<u16> {
    if name == "R0"@ {
        Some(0u16)
    } else if name == "R1"@ {
        Some(1u16)
    } else if name == "R2"@ {
        Some(2u16)
    } else if name == "R3"@ {
        Some(3u16)
    } else if name == "R4"@ {
        Some(4u16)
    } else if name == "R5"@ {
        Some(5u16)
    } else if name == "R6"@ {
        Some(6u16)
    } else if name == "R7"@ {
        Some(7u16)
    } else if name == "R8"@ {
        Some(8u16)
    } else if name == "R9"@ {
        Some(9u16)
    } else if name == "R10"@ {
        Some(10u16)
    } else if name == "R11"@ {
        Some(11u16)
    } else if name == "R12"@ {
        Some(12u16)
    } else if name == "R13"@ {
        Some(13u16)
    } else if name == "R14"@ {
        Some(14u16)
    } else if name == "R15"@ {
        Some(15u16)
    } else if name == "SCREEN"@ {
        Some(16384u16)
    } else if name == "KBD"@ {
        Some(24576u16)
    } else if name == "SP"@ {
        Some(0u16)
    } else if name == "LCL"@ {
        Some(1u16)
    } else if name == "ARG"@ {
        Some(2u16)
    } else if name == "THIS"@ {
        Some(3u16)
    } else if name == "THAT"@ {
        Some(4u16)
    } else {
        None
    }
}

/// The table as it is before a program has defined anything.
pub open spec fn predefined_symbols() -> Map<Seq<char>, u16> {
    Map::new(
        |name: Seq<char>| predefined_address(name) is Some,
        |name: Seq<char>| predefined_address(name)->0,
    )
}

/// Spells out the predefined names.
proof fn spell_predefined_names()
    ensures
        spelling("R0"@) == (2nat, 'R', '0', ' ', ' ', ' ', ' ', ' '),
        spelling("R1"@) == (2nat, 'R', '1', ' ', ' ', ' ', ' ', ' '),
        spelling("R2"@) == (2nat, 'R', '2', ' ', ' ', ' ', ' ', ' '),
        spelling("R3"@) == (2nat, 'R', '3', ' ', ' ', ' ', ' ', ' '),
        spelling("R4"@) == (2nat, 'R', '4', ' ', ' ', ' ', ' ', ' '),
        spelling("R5"@) == (2nat, 'R', '5', ' ', ' ', ' ', ' ', ' '),
        spelling("R6"@) == (2nat, 'R', '6', ' ', ' ', ' ', ' ', ' '),
        spelling("R7"@) == (2nat, 'R', '7', ' ', ' ', ' ', ' ', ' '),
        spelling("R8"@) == (2nat, 'R', '8', ' ', ' ', ' ', ' ', ' '),
        spelling("R9"@) == (2nat, 'R', '9', ' ', ' ', ' ', ' ', ' '),
        spelling("R10"@) == (3nat, 'R', '1', '0', ' ', ' ', ' ', ' '),
        spelling("R11"@) == (3nat, 'R', '1', '1', ' ', ' ', ' ', ' '),
        spelling("R12"@) == (3nat, 'R', '1', '2', ' ', ' ', ' ', ' '),
        spelling("R13"@) == (3nat, 'R', '1', '3', ' ', ' ', ' ', ' '),
        spelling("R14"@) == (3nat, 'R', '1', '4', ' ', ' ', ' ', ' '),
        spelling("R15"@) == (3nat, 'R', '1', '5', ' ', ' ', ' ', ' '),
        spelling("SCREEN"@) == (6nat, 'S', 'C', 'R', 'E', 'E', 'N', ' '),
        spelling("KBD"@) == (3nat, 'K', 'B', 'D', ' ', ' ', ' ', ' '),
        spelling("SP"@) == (2nat, 'S', 'P', ' ', ' ', ' ', ' ', ' '),
        spelling("LCL"@) == (3nat, 'L', 'C', 'L', ' ', ' ', ' ', ' '),
        spelling("ARG"@) == (3nat, 'A', 'R', 'G', ' ', ' ', ' ', ' '),
        spelling("THIS"@) == (4nat, 'T', 'H', 'I', 'S', ' ', ' ', ' '),
        spelling("THAT"@) == (4nat, 'T', 'H', 'A', 'T', ' ', ' ', ' '),
{
    reveal_strlit("R0");
    reveal_strlit("R1");
    reveal_strlit("R2");
    reveal_strlit("R3");
    reveal_strlit("R4");
    reveal_strlit("R5");
    reveal_strlit("R6");
    reveal_strlit("R7");
    reveal_strlit("R8");
    reveal_strlit("R9");
    reveal_strlit("R10");
    reveal_strlit("R11");
    reveal_strlit("R12");
    reveal_strlit("R13");
    reveal_strlit("R14");
    reveal_strlit("R15");
    reveal_strlit("SCREEN");
    reveal_strlit("KBD");
    reveal_strlit("SP");
    reveal_strlit("LCL");
    reveal_strlit("ARG");
    reveal_strlit("THIS");
    reveal_strlit("THAT");
}

/// Looks `name` up among the predefined names.
pub fn predefined(name: &Vec<char>) -> (r: Option<u16>)
    ensures
        r == predefined_address(name@),
{
    if spells(name, "R0") {
        Some(0)
    } else if spells(name, "R1") {
        Some(1)
    } else if spells(name, "R2") {
        Some(2)
    } else if spells(name, "R3") {
        Some(3)
    } else if spells(name, "R4") {
        Some(4)
    } else if spells(name, "R5") {
        Some(5)
    } else if spells(name, "R6") {
        Some(6)
    } else if spells(name, "R7") {
        Some(7)
    } else if spells(name, "R8") {
        Some(8)
    } else if spells(name, "R9") {
        Some(9)
    } else if spells(name, "R10") {
        Some(10)
    } else if spells(name, "R11") {
        Some(11)
    } else if spells(name, "R12") {
        Some(12)
    } else if spells(name, "R13") {
        Some(13)
    } else if spells(name, "R14") {
        Some(14)
    } else if spells(name, "R15") {
        Some(15)
    } else if spells(name, "SCREEN") {
        Some(16384)
    } else if spells(name, "KBD") {
        Some(24576)
    } else if spells(name, "SP") {
        Some(0)
    } else if spells(name, "LCL") {
        Some(1)
    } else if spells(name, "ARG") {
        Some(2)
    } else if spells(name, "THIS") {
        Some(3)
    } else if spells(name, "THAT") {
        Some(4)
    } else {
        None
    }
}

/// A mapping from names to addresses. It starts with the predefined names
/// and keeps every entry that is added to it.
pub struct SymbolTable {
    symbols: StringHashMap<u16>,
}

impl View for SymbolTable {
    type V = Map<Seq<char>, u16>;

    closed spec fn view(&self) -> Map<Seq<char>, u16> {
        self.symbols@
    }
}

impl SymbolTable {
    /// A table that holds the predefined names and nothing else.
    pub fn new() -> (table: SymbolTable)
        ensures
            table@ == predefined_symbols(),
    {
        let mut symbols: StringHashMap<u16> = StringHashMap::new();
        symbols.insert("R0".to_string(), 0);
        symbols.insert("R1".to_string(), 1);
        symbols.insert("R2".to_string(), 2);
        symbols.insert("R3".to_string(), 3);
        symbols.insert("R4".to_string(), 4);
        symbols.insert("R5".to_string(), 5);
        symbols.insert("R6".to_string(), 6);
        symbols.insert("R7".to_string(), 7);
        symbols.insert("R8".to_string(), 8);
        symbols.insert("R9".to_string(), 9);
        symbols.insert("R10".to_string(), 10);
        symbols.insert("R11".to_string(), 11);
        symbols.insert("R12".to_string(), 12);
        symbols.insert("R13".to_string(), 13);
        symbols.insert("R14".to_string(), 14);
        symbols.insert("R15".to_string(), 15);
        symbols.insert("SCREEN".to_string(), 16384);
        symbols.insert("KBD".to_string(), 24576);
        symbols.insert("SP".to_string(), 0);
        symbols.insert("LCL".to_string(), 1);
        symbols.insert("ARG".to_string(), 2);
        symbols.insert("THIS".to_string(), 3);
        symbols.insert("THAT".to_string(), 4);
        proof {
            spell_predefined_names();
            assert(symbols@ =~= predefined_symbols());
        }
        SymbolTable { symbols }
    }

    /// Whether the table has an entry for `symbol`.
    pub fn contains(&self, symbol: &str) -> (r: bool)
        ensures
            r == self@.contains_key(symbol@),
    {
        self.symbols.contains_key(symbol)
    }

    /// Binds `symbol` to `address`, in place of any address it had before.
    pub fn add_entry(&mut self, symbol: String, address: u16)
        ensures
            final(self)@ == old(self)@.insert(symbol@, address),
    {
        self.symbols.insert(symbol, address);
    }

    /// The address that `symbol` is bound to, if it is bound.
    pub fn get_address(&self, symbol: &str) -> (r: Option<&u16>)
        ensures
            match r {
                Some(address) => self@.contains_key(symbol@) && *address == self@[symbol@],
                None => !self@.contains_key(symbol@),
            },
    {
        self.symbols.get(symbol)
    }
}

} // verus!
