//! The mnemonic encoder: the bit patterns of the destination, jump and
//! computation fields of a computation instruction.

use vstd::prelude::*;
use vstd::string::*;
use crate::error::AssembleError;
use crate::text::{chars_of, field_text, spelling, spells};

verus! {

/// The three bits of a destination field, or `None` for a string that is no
/// destination mnemonic. An absent field stores nothing.
pub open spec fn dest_bits(dest: Option<Seq<char>>) -> Option<Seq<char>> {
    match dest {
        None => Some("000"@),
        Some(d) => if d == "M"@ {
            Some("001"@)
        } else if d == "D"@ {
            Some("010"@)
        } else if d == "DM"@ {
            Some("011"@)
        } else if d == "A"@ {
            Some("100"@)
        } else if d == "AM"@ {
            Some("101"@)
        } else if d == "AD"@ {
            Some("110"@)
        } else if d == "ADM"@ {
            Some("111"@)
        } else {
            None
        },
    }
}

/// The three bits of a jump field, or `None` for a string that is no jump
/// mnemonic. An absent field never jumps.
pub open spec fn jump_bits(jump: Option<Seq<char>>) -> Option<Seq<char>> {
    match jump {
        None => Some("000"@),
        Some(j) => if j == "JGT"@ {
            Some("001"@)
        } else if j == "JEQ"@ {
            Some("010"@)
        } else if j == "JGE"@ {
            Some("011"@)
        } else if j == "JLT"@ {
            Some("100"@)
        } else if j == "JNE"@ {
            Some("101"@)
        } else if j == "JLE"@ {
            Some("110"@)
        } else if j == "JMP"@ {
            Some("111"@)
        } else {
            None
        },
    }
}

/// The seven bits of a computation mnemonic, or `None` for a string that is
/// none. The first bit tells whether the computation reads `M` instead of `A`.
pub open spec fn comp_bits(comp: Seq<char>) -> Option<Seq<char>> {
    if comp == "0"@ {
        Some("0101010"@)
    } else if comp == "1"@ {
        Some("0111111"@)
    } else if comp == "-1"@ {
        Some("0111010"@)
    } else if comp == "D"@ {
        Some("0001100"@)
    } else if comp == "A"@ {
        Some("0110000"@)
    } else if comp == "!D"@ {
        Some("0001101"@)
    } else if comp == "!A"@ {
        Some("0110011"@)
    } else if comp == "-D"@ {
        Some("0001111"@)
    } else if comp == "-A"@ {
        Some("0110011"@)
    } else if comp == "D+1"@ {
        Some("0011111"@)
    } else if comp == "A+1"@ {
        Some("0110111"@)
    } else if comp == "D-1"@ {
        Some("0001110"@)
    } else if comp == "A-1"@ {
        Some("0110010"@)
    } else if comp == "D+A"@ {
        Some("0000010"@)
    } else if comp == "D-A"@ {
        Some("0010011"@)
    } else if comp == "A-D"@ {
        Some("0000111"@)
    } else if comp == "D&A"@ {
        Some("0000000"@)
    } else if comp == "D|A"@ {
        Some("0010101"@)
    } else if comp == "M"@ {
        Some("1110000"@)
    } else if comp == "!M"@ {
        Some("1110001"@)
    } else if comp == "-M"@ {
        Some("1110011"@)
    } else if comp == "M+1"@ {
        Some("1110111"@)
    } else if comp == "M-1"@ {
        Some("1110010"@)
    } else if comp == "D+M"@ {
        Some("1000010"@)
    } else if comp == "D-M"@ {
        Some("1010011"@)
    } else if comp == "M-D"@ {
        Some("1000111"@)
    } else if comp == "D&M"@ {
        Some("1000000"@)
    } else if comp == "D|M"@ {
        Some("1010101"@)
    } else {
        None
    }
}

/// Whether `bits` is a string of exactly `width` characters, each `0` or `1`.
pub open spec fn is_binary(bits: Seq<char>, width: nat) -> bool {
    &&& bits.len() == width
    &&& forall|i: int| 0 <= i < bits.len() ==> bits[i] == '0' || bits[i] == '1'
}

/// Spells out the eight three-bit codes.
proof fn spell_three_bit_codes()
    ensures
        spelling("000"@) == (3nat, '0', '0', '0', ' ', ' ', ' ', ' '),
        spelling("001"@) == (3nat, '0', '0', '1', ' ', ' ', ' ', ' '),
        spelling("010"@) == (3nat, '0', '1', '0', ' ', ' ', ' ', ' '),
        spelling("011"@) == (3nat, '0', '1', '1', ' ', ' ', ' ', ' '),
        spelling("100"@) == (3nat, '1', '0', '0', ' ', ' ', ' ', ' '),
        spelling("101"@) == (3nat, '1', '0', '1', ' ', ' ', ' ', ' '),
        spelling("110"@) == (3nat, '1', '1', '0', ' ', ' ', ' ', ' '),
        spelling("111"@) == (3nat, '1', '1', '1', ' ', ' ', ' ', ' '),
{
    reveal_strlit("000");
    reveal_strlit("001");
    reveal_strlit("010");
    reveal_strlit("011");
    reveal_strlit("100");
    reveal_strlit("101");
    reveal_strlit("110");
    reveal_strlit("111");
}

/// Spells out the seven-bit computation codes.
proof fn spell_comp_codes()
    ensures
        spelling("0101010"@) == (7nat, '0', '1', '0', '1', '0', '1', '0'),
        spelling("0111111"@) == (7nat, '0', '1', '1', '1', '1', '1', '1'),
        spelling("0111010"@) == (7nat, '0', '1', '1', '1', '0', '1', '0'),
        spelling("0001100"@) == (7nat, '0', '0', '0', '1', '1', '0', '0'),
        spelling("0110000"@) == (7nat, '0', '1', '1', '0', '0', '0', '0'),
        spelling("0001101"@) == (7nat, '0', '0', '0', '1', '1', '0', '1'),
        spelling("0110011"@) == (7nat, '0', '1', '1', '0', '0', '1', '1'),
        spelling("0001111"@) == (7nat, '0', '0', '0', '1', '1', '1', '1'),
        spelling("0011111"@) == (7nat, '0', '0', '1', '1', '1', '1', '1'),
        spelling("0110111"@) == (7nat, '0', '1', '1', '0', '1', '1', '1'),
        spelling("0001110"@) == (7nat, '0', '0', '0', '1', '1', '1', '0'),
        spelling("0110010"@) == (7nat, '0', '1', '1', '0', '0', '1', '0'),
        spelling("0000010"@) == (7nat, '0', '0', '0', '0', '0', '1', '0'),
        spelling("0010011"@) == (7nat, '0', '0', '1', '0', '0', '1', '1'),
        spelling("0000111"@) == (7nat, '0', '0', '0', '0', '1', '1', '1'),
        spelling("0000000"@) == (7nat, '0', '0', '0', '0', '0', '0', '0'),
        spelling("0010101"@) == (7nat, '0', '0', '1', '0', '1', '0', '1'),
        spelling("1110000"@) == (7nat, '1', '1', '1', '0', '0', '0', '0'),
        spelling("1110001"@) == (7nat, '1', '1', '1', '0', '0', '0', '1'),
        spelling("1110011"@) == (7nat, '1', '1', '1', '0', '0', '1', '1'),
        spelling("1110111"@) == (7nat, '1', '1', '1', '0', '1', '1', '1'),
        spelling("1110010"@) == (7nat, '1', '1', '1', '0', '0', '1', '0'),
        spelling("1000010"@) == (7nat, '1', '0', '0', '0', '0', '1', '0'),
        spelling("1010011"@) == (7nat, '1', '0', '1', '0', '0', '1', '1'),
        spelling("1000111"@) == (7nat, '1', '0', '0', '0', '1', '1', '1'),
        spelling("1000000"@) == (7nat, '1', '0', '0', '0', '0', '0', '0'),
        spelling("1010101"@) == (7nat, '1', '0', '1', '0', '1', '0', '1'),
{
    reveal_strlit("0101010");
    reveal_strlit("0111111");
    reveal_strlit("0111010");
    reveal_strlit("0001100");
    reveal_strlit("0110000");
    reveal_strlit("0001101");
    reveal_strlit("0110011");
    reveal_strlit("0001111");
    reveal_strlit("0011111");
    reveal_strlit("0110111");
    reveal_strlit("0001110");
    reveal_strlit("0110010");
    reveal_strlit("0000010");
    reveal_strlit("0010011");
    reveal_strlit("0000111");
    reveal_strlit("0000000");
    reveal_strlit("0010101");
    reveal_strlit("1110000");
    reveal_strlit("1110001");
    reveal_strlit("1110011");
    reveal_strlit("1110111");
    reveal_strlit("1110010");
    reveal_strlit("1000010");
    reveal_strlit("1010011");
    reveal_strlit("1000111");
    reveal_strlit("1000000");
    reveal_strlit("1010101");
}

/// Spells out the destination mnemonics.
proof fn spell_dest_mnemonics()
    ensures
        spelling("M"@) == (1nat, 'M', ' ', ' ', ' ', ' ', ' ', ' '),
        spelling("D"@) == (1nat, 'D', ' ', ' ', ' ', ' ', ' ', ' '),
        spelling("DM"@) == (2nat, 'D', 'M', ' ', ' ', ' ', ' ', ' '),
        spelling("A"@) == (1nat, 'A', ' ', ' ', ' ', ' ', ' ', ' '),
        spelling("AM"@) == (2nat, 'A', 'M', ' ', ' ', ' ', ' ', ' '),
        spelling("AD"@) == (2nat, 'A', 'D', ' ', ' ', ' ', ' ', ' '),
        spelling("ADM"@) == (3nat, 'A', 'D', 'M', ' ', ' ', ' ', ' '),
{
    reveal_strlit("M");
    reveal_strlit("D");
    reveal_strlit("DM");
    reveal_strlit("A");
    reveal_strlit("AM");
    reveal_strlit("AD");
    reveal_strlit("ADM");
}

/// Spells out the jump mnemonics.
proof fn spell_jump_mnemonics()
    ensures
        spelling("JGT"@) == (3nat, 'J', 'G', 'T', ' ', ' ', ' ', ' '),
        spelling("JEQ"@) == (3nat, 'J', 'E', 'Q', ' ', ' ', ' ', ' '),
        spelling("JGE"@) == (3nat, 'J', 'G', 'E', ' ', ' ', ' ', ' '),
        spelling("JLT"@) == (3nat, 'J', 'L', 'T', ' ', ' ', ' ', ' '),
        spelling("JNE"@) == (3nat, 'J', 'N', 'E', ' ', ' ', ' ', ' '),
        spelling("JLE"@) == (3nat, 'J', 'L', 'E', ' ', ' ', ' ', ' '),
        spelling("JMP"@) == (3nat, 'J', 'M', 'P', ' ', ' ', ' ', ' '),
{
    reveal_strlit("JGT");
    reveal_strlit("JEQ");
    reveal_strlit("JGE");
    reveal_strlit("JLT");
    reveal_strlit("JNE");
    reveal_strlit("JLE");
    reveal_strlit("JMP");
}

/// Spells out the computation mnemonics.
proof fn spell_comp_mnemonics()
    ensures
        spelling("0"@) == (1nat, '0', ' ', ' ', ' ', ' ', ' ', ' '),
        spelling("1"@) == (1nat, '1', ' ', ' ', ' ', ' ', ' ', ' '),
        spelling("-1"@) == (2nat, '-', '1', ' ', ' ', ' ', ' ', ' '),
        spelling("D"@) == (1nat, 'D', ' ', ' ', ' ', ' ', ' ', ' '),
        spelling("A"@) == (1nat, 'A', ' ', ' ', ' ', ' ', ' ', ' '),
        spelling("!D"@) == (2nat, '!', 'D', ' ', ' ', ' ', ' ', ' '),
        spelling("!A"@) == (2nat, '!', 'A', ' ', ' ', ' ', ' ', ' '),
        spelling("-D"@) == (2nat, '-', 'D', ' ', ' ', ' ', ' ', ' '),
        spelling("-A"@) == (2nat, '-', 'A', ' ', ' ', ' ', ' ', ' '),
        spelling("D+1"@) == (3nat, 'D', '+', '1', ' ', ' ', ' ', ' '),
        spelling("A+1"@) == (3nat, 'A', '+', '1', ' ', ' ', ' ', ' '),
        spelling("D-1"@) == (3nat, 'D', '-', '1', ' ', ' ', ' ', ' '),
        spelling("A-1"@) == (3nat, 'A', '-', '1', ' ', ' ', ' ', ' '),
        spelling("D+A"@) == (3nat, 'D', '+', 'A', ' ', ' ', ' ', ' '),
        spelling("D-A"@) == (3nat, 'D', '-', 'A', ' ', ' ', ' ', ' '),
        spelling("A-D"@) == (3nat, 'A', '-', 'D', ' ', ' ', ' ', ' '),
        spelling("D&A"@) == (3nat, 'D', '&', 'A', ' ', ' ', ' ', ' '),
        spelling("D|A"@) == (3nat, 'D', '|', 'A', ' ', ' ', ' ', ' '),
        spelling("M"@) == (1nat, 'M', ' ', ' ', ' ', ' ', ' ', ' '),
        spelling("!M"@) == (2nat, '!', 'M', ' ', ' ', ' ', ' ', ' '),
        spelling("-M"@) == (2nat, '-', 'M', ' ', ' ', ' ', ' ', ' '),
        spelling("M+1"@) == (3nat, 'M', '+', '1', ' ', ' ', ' ', ' '),
        spelling("M-1"@) == (3nat, 'M', '-', '1', ' ', ' ', ' ', ' '),
        spelling("D+M"@) == (3nat, 'D', '+', 'M', ' ', ' ', ' ', ' '),
        spelling("D-M"@) == (3nat, 'D', '-', 'M', ' ', ' ', ' ', ' '),
        spelling("M-D"@) == (3nat, 'M', '-', 'D', ' ', ' ', ' ', ' '),
        spelling("D&M"@) == (3nat, 'D', '&', 'M', ' ', ' ', ' ', ' '),
        spelling("D|M"@) == (3nat, 'D', '|', 'M', ' ', ' ', ' ', ' '),
{
    reveal_strlit("0");
    reveal_strlit("1");
    reveal_strlit("-1");
    reveal_strlit("D");
    reveal_strlit("A");
    reveal_strlit("!D");
    reveal_strlit("!A");
    reveal_strlit("-D");
    reveal_strlit("-A");
    reveal_strlit("D+1");
    reveal_strlit("A+1");
    reveal_strlit("D-1");
    reveal_strlit("A-1");
    reveal_strlit("D+A");
    reveal_strlit("D-A");
    reveal_strlit("A-D");
    reveal_strlit("D&A");
    reveal_strlit("D|A");
    reveal_strlit("M");
    reveal_strlit("!M");
    reveal_strlit("-M");
    reveal_strlit("M+1");
    reveal_strlit("M-1");
    reveal_strlit("D+M");
    reveal_strlit("D-M");
    reveal_strlit("M-D");
    reveal_strlit("D&M");
    reveal_strlit("D|M");
}

/// Every destination code is three binary digits.
pub proof fn lemma_dest_bits_width(dest: Option<Seq<char>>)
    requires
        dest_bits(dest) is Some,
    ensures
        is_binary(dest_bits(dest)->0, 3),
{
    spell_three_bit_codes();
}

/// Every jump code is three binary digits.
pub proof fn lemma_jump_bits_width(jump: Option<Seq<char>>)
    requires
        jump_bits(jump) is Some,
    ensures
        is_binary(jump_bits(jump)->0, 3),
{
    spell_three_bit_codes();
}

/// Every computation code is seven binary digits.
pub proof fn lemma_comp_bits_width(comp: Seq<char>)
    requires
        comp_bits(comp) is Some,
    ensures
        is_binary(comp_bits(comp)->0, 7),
{
    spell_comp_codes();
}

/// The three bits of a destination tell which registers it names: the first
/// bit is set for `A`, the second for `D` and the third for `M`.
pub proof fn lemma_dest_bits_name_registers(dest: Seq<char>)
    requires
        dest_bits(Some(dest)) is Some,
    ensures
        ({
            let bits = dest_bits(Some(dest))->0;
            &&& (bits[0] == '1') == dest.contains('A')
            &&& (bits[1] == '1') == dest.contains('D')
            &&& (bits[2] == '1') == dest.contains('M')
        }),
{
    spell_three_bit_codes();
    spell_dest_mnemonics();
    if dest == "M"@ {
        assert(dest[0] == 'M');
    } else if dest == "D"@ {
        assert(dest[0] == 'D');
    } else if dest == "DM"@ {
        assert(dest[0] == 'D' && dest[1] == 'M');
    } else if dest == "A"@ {
        assert(dest[0] == 'A');
    } else if dest == "AM"@ {
        assert(dest[0] == 'A' && dest[1] == 'M');
    } else if dest == "AD"@ {
        assert(dest[0] == 'A' && dest[1] == 'D');
    } else {
        assert(dest[0] == 'A' && dest[1] == 'D' && dest[2] == 'M');
    }
}

/// The destination table can be read backwards: two destination fields with
/// the same code are the same field, the absent one included.
pub proof fn lemma_dest_bits_injective(a: Option<Seq<char>>, b: Option<Seq<char>>)
    requires
        dest_bits(a) is Some,
        dest_bits(a) == dest_bits(b),
    ensures
        a == b,
{
    spell_three_bit_codes();
    spell_dest_mnemonics();
}

/// The jump table can be read backwards: two jump fields with the same code
/// are the same field, the absent one included.
pub proof fn lemma_jump_bits_injective(a: Option<Seq<char>>, b: Option<Seq<char>>)
    requires
        jump_bits(a) is Some,
        jump_bits(a) == jump_bits(b),
    ensures
        a == b,
{
    spell_three_bit_codes();
    spell_jump_mnemonics();
}

/// The computation table can be read backwards, but for the one code that it
/// gives to both `!A` and `-A`: two other mnemonics with the same code are the
/// same mnemonic.
pub proof fn lemma_comp_bits_injective(a: Seq<char>, b: Seq<char>)
    requires
        comp_bits(a) is Some,
        comp_bits(a) == comp_bits(b),
        !(a == "!A"@ && b == "-A"@),
        !(a == "-A"@ && b == "!A"@),
    ensures
        a == b,
{
    spell_comp_codes();
    spell_comp_mnemonics();
}

/// The lookup tables that turn mnemonics into bits.
pub struct Code;

impl Code {
    /// Encodes the destination field of a computation instruction.
    pub fn dest(dest: Option<String>) -> (r: Result<String, AssembleError>)
        ensures
            match dest_bits(field_text(dest)) {
                Some(bits) => r is Ok && r->Ok_0@ == bits,
                None => r == Err::<String, AssembleError>(AssembleError::InvalidDest),
            },
    {
        match dest {
            None => Ok("000".to_string()),
            Some(d) => {
                let d = chars_of(d.as_str());
                if spells(&d, "M") {
                    Ok("001".to_string())
                } else if spells(&d, "D") {
                    Ok("010".to_string())
                } else if spells(&d, "DM") {
                    Ok("011".to_string())
                } else if spells(&d, "A") {
                    Ok("100".to_string())
                } else if spells(&d, "AM") {
                    Ok("101".to_string())
                } else if spells(&d, "AD") {
                    Ok("110".to_string())
                } else if spells(&d, "ADM") {
                    Ok("111".to_string())
                } else {
                    Err(AssembleError::InvalidDest)
                }
            },
        }
    }

    /// Encodes the jump field of a computation instruction.
    pub fn jump(jump: Option<String>) -> (r: Result<String, AssembleError>)
        ensures
            match jump_bits(field_text(jump)) {
                Some(bits) => r is Ok && r->Ok_0@ == bits,
                None => r == Err::<String, AssembleError>(AssembleError::InvalidJump),
            },
    {
        match jump {
            None => Ok("000".to_string()),
            Some(cond) => {
                let cond = chars_of(cond.as_str());
                if spells(&cond, "JGT") {
                    Ok("001".to_string())
                } else if spells(&cond, "JEQ") {
                    Ok("010".to_string())
                } else if spells(&cond, "JGE") {
                    Ok("011".to_string())
                } else if spells(&cond, "JLT") {
                    Ok("100".to_string())
                } else if spells(&cond, "JNE") {
                    Ok("101".to_string())
                } else if spells(&cond, "JLE") {
                    Ok("110".to_string())
                } else if spells(&cond, "JMP") {
                    Ok("111".to_string())
                } else {
                    Err(AssembleError::InvalidJump)
                }
            },
        }
    }
    /// Encodes the computation field of a computation instruction. The field
    /// is mandatory: an absent one is an error of its own.
    pub fn comp(comp: Option<String>) -> (r: Result<String, AssembleError>)
        ensures
            match field_text(comp) {
                None => r == Err::<String, AssembleError>(AssembleError::MissingComp),
                Some(c) => match comp_bits(c) {
                    Some(bits) => r is Ok && r->Ok_0@ == bits,
                    None => r == Err::<String, AssembleError>(AssembleError::InvalidComp),
                },
            },
    {
        match comp {
            None => Err(AssembleError::MissingComp),
            Some(comp) => {
                let comp = chars_of(comp.as_str());
                if spells(&comp, "0") {
                    Ok("0101010".to_string())
                } else if spells(&comp, "1") {
                    Ok("0111111".to_string())
                } else if spells(&comp, "-1") {
                    Ok("0111010".to_string())
                } else if spells(&comp, "D") {
                    Ok("0001100".to_string())
                } else if spells(&comp, "A") {
                    Ok("0110000".to_string())
                } else if spells(&comp, "!D") {
                    Ok("0001101".to_string())
                } else if spells(&comp, "!A") {
                    Ok("0110011".to_string())
                } else if spells(&comp, "-D") {
                    Ok("0001111".to_string())
                } else if spells(&comp, "-A") {
                    Ok("0110011".to_string())
                } else if spells(&comp, "D+1") {
                    Ok("0011111".to_string())
                } else if spells(&comp, "A+1") {
                    Ok("0110111".to_string())
                } else if spells(&comp, "D-1") {
                    Ok("0001110".to_string())
                } else if spells(&comp, "A-1") {
                    Ok("0110010".to_string())
                } else if spells(&comp, "D+A") {
                    Ok("0000010".to_string())
                } else if spells(&comp, "D-A") {
                    Ok("0010011".to_string())
                } else if spells(&comp, "A-D") {
                    Ok("0000111".to_string())
                } else if spells(&comp, "D&A") {
                    Ok("0000000".to_string())
                } else if spells(&comp, "D|A") {
                    Ok("0010101".to_string())
                } else if spells(&comp, "M") {
                    Ok("1110000".to_string())
                } else if spells(&comp, "!M") {
                    Ok("1110001".to_string())
                } else if spells(&comp, "-M") {
                    Ok("1110011".to_string())
                } else if spells(&comp, "M+1") {
                    Ok("1110111".to_string())
                } else if spells(&comp, "M-1") {
                    Ok("1110010".to_string())
                } else if spells(&comp, "D+M") {
                    Ok("1000010".to_string())
                } else if spells(&comp, "D-M") {
                    Ok("1010011".to_string())
                } else if spells(&comp, "M-D") {
                    Ok("1000111".to_string())
                } else if spells(&comp, "D&M") {
                    Ok("1000000".to_string())
                } else if spells(&comp, "D|M") {
                    Ok("1010101".to_string())
                } else {
                    Err(AssembleError::InvalidComp)
                }
            },
        }
    }
}

} // verus!
