//! Textual rendering: uppercase hexadecimal literals, the canonical
//! two-digit `"0xHH"` opcode key, and the assembly text of resolved
//! operands and instructions.

use crate::table::Instruction;
use crate::table::Operand;
use vstd::prelude::*;

verus! {

/// The uppercase hexadecimal digit for `d` (meaningful for 0..16).
pub open spec fn hex_digit_char(d: int) -> char {
    if d == 0 {
        '0'
    } else if d == 1 {
        '1'
    } else if d == 2 {
        '2'
    } else if d == 3 {
        '3'
    } else if d == 4 {
        '4'
    } else if d == 5 {
        '5'
    } else if d == 6 {
        '6'
    } else if d == 7 {
        '7'
    } else if d == 8 {
        '8'
    } else if d == 9 {
        '9'
    } else if d == 10 {
        'A'
    } else if d == 11 {
        'B'
    } else if d == 12 {
        'C'
    } else if d == 13 {
        'D'
    } else if d == 14 {
        'E'
    } else {
        'F'
    }
}

/// The uppercase hexadecimal digits of `v`, most significant first,
/// with no leading zeroes (a single `'0'` for zero itself).
pub open spec fn hex_digits(v: int) -> Seq<char>
    decreases v,
{
    if v < 16 {
        seq![hex_digit_char(v)]
    } else {
        hex_digits(v / 16).push(hex_digit_char(v % 16))
    }
}

/// The canonical text of the value `v`: `"0x"` followed by its
/// uppercase hexadecimal digits, zero-padded to at least two digits.
pub open spec fn hex_text(v: int) -> Seq<char> {
    if v < 16 {
        seq!['0', 'x', '0', hex_digit_char(v)]
    } else {
        seq!['0', 'x'] + hex_digits(v)
    }
}

/// The canonical table key of the opcode byte `b`: `"0x"` followed by
/// exactly two uppercase hexadecimal digits.
pub open spec fn opcode_key(b: int) -> Seq<char> {
    seq!['0', 'x', hex_digit_char(b / 16), hex_digit_char(b % 16)]
}

/// The single-character string for the hexadecimal digit `d`.
fn hex_digit_str(d: u8) -> (r: &'static str)
    requires
        d < 16,
    ensures
        r@ == seq![hex_digit_char(d as int)],
{
    proof {
        reveal_strlit("0");
        reveal_strlit("1");
        reveal_strlit("2");
        reveal_strlit("3");
        reveal_strlit("4");
        reveal_strlit("5");
        reveal_strlit("6");
        reveal_strlit("7");
        reveal_strlit("8");
        reveal_strlit("9");
        reveal_strlit("A");
        reveal_strlit("B");
        reveal_strlit("C");
        reveal_strlit("D");
        reveal_strlit("E");
        reveal_strlit("F");
    }
    match d {
        0 => "0",
        1 => "1",
        2 => "2",
        3 => "3",
        4 => "4",
        5 => "5",
        6 => "6",
        7 => "7",
        8 => "8",
        9 => "9",
        10 => "A",
        11 => "B",
        12 => "C",
        13 => "D",
        14 => "E",
        _ => "F",
    }
}

/// The canonical two-hex-digit uppercase table key of an opcode byte,
/// e.g. `"0x0A"`.
pub fn make_opcode_string(opcode: &u8) -> (s: String)
    ensures
        s@ == opcode_key(*opcode as int),
{
    proof {
        reveal_strlit("0x");
    }
    let mut s = String::new();
    s.append("0x");
    s.append(hex_digit_str(*opcode / 16));
    s.append(hex_digit_str(*opcode % 16));
    proof {
        assert(s@ =~= opcode_key(*opcode as int));
    }
    s
}

/// Appends the uppercase hexadecimal digits of `v`, most significant
/// first, without leading zeroes.
fn push_hex_digits(s: &mut String, v: u64)
    ensures
        final(s)@ == old(s)@ + hex_digits(v as int),
    decreases v,
{
    if v < 16 {
        s.append(hex_digit_str(v as u8));
        proof {
            assert(s@ =~= old(s)@ + hex_digits(v as int));
        }
    } else {
        push_hex_digits(s, v / 16);
        s.append(hex_digit_str((v % 16) as u8));
        proof {
            assert(s@ =~= old(s)@ + hex_digits(v as int));
        }
    }
}

/// `s` wrapped in parentheses when `wrap` holds, else `s` itself.
pub open spec fn parenthesized_if(wrap: bool, s: Seq<char>) -> Seq<char> {
    if wrap {
        seq!['('] + s + seq![')']
    } else {
        s
    }
}

/// The assembly text of one operand. A resolved value renders as its
/// canonical hexadecimal text; otherwise the name renders with a `+`
/// or `-` suffix when the increment / decrement marker is present.
/// Either form is parenthesized when the operand is a memory reference
/// rather than an immediate.
pub open spec fn operand_text(o: Operand) -> Seq<char> {
    match o.value {
        Some(v) => parenthesized_if(!o.immediate, hex_text(v as int)),
        None => {
            let suffixed = o.name@ + (if o.increment is Some {
                seq!['+']
            } else {
                Seq::<char>::empty()
            }) + (if o.decrement is Some {
                seq!['-']
            } else {
                Seq::<char>::empty()
            });
            parenthesized_if(!o.immediate, suffixed)
        },
    }
}

/// The operand texts joined by `", "`.
pub open spec fn joined_operand_text(ops: Seq<Operand>) -> Seq<char>
    decreases ops.len(),
{
    if ops.len() == 0 {
        Seq::<char>::empty()
    } else if ops.len() == 1 {
        operand_text(ops[0])
    } else {
        operand_text(ops[0]) + seq![',', ' '] + joined_operand_text(ops.drop_first())
    }
}

/// The assembly text of an instruction with the given mnemonic and
/// operands: the mnemonic alone when there are no operands, else the
/// mnemonic, one space, and the operand texts joined by `", "`.
pub open spec fn assembly_text(mnemonic: Seq<char>, ops: Seq<Operand>) -> Seq<char> {
    if ops.len() == 0 {
        mnemonic
    } else {
        mnemonic + seq![' '] + joined_operand_text(ops)
    }
}

/// The assembly text of one instruction value.
pub open spec fn instruction_text(i: Instruction) -> Seq<char> {
    assembly_text(i.mnemonic@, i.operands@)
}

/// Joining after one more operand appends `", "` and its text, except
/// that the very first operand needs no separator.
proof fn lemma_join_snoc(ops: Seq<Operand>, o: Operand)
    ensures
        joined_operand_text(ops.push(o)) == if ops.len() == 0 {
            operand_text(o)
        } else {
            joined_operand_text(ops) + seq![',', ' '] + operand_text(o)
        },
    decreases ops.len(),
{
    let whole = ops.push(o);
    if ops.len() == 0 {
        assert(whole.len() == 1);
        assert(whole[0] == o);
    } else {
        assert(whole[0] == ops[0]);
        assert(whole.drop_first() =~= ops.drop_first().push(o));
        lemma_join_snoc(ops.drop_first(), o);
        if ops.len() == 1 {
            assert(ops.drop_first().len() == 0);
            assert(joined_operand_text(whole) =~= joined_operand_text(ops) + seq![',', ' ']
                + operand_text(o));
        } else {
            assert(joined_operand_text(whole) =~= joined_operand_text(ops) + seq![',', ' ']
                + operand_text(o));
        }
    }
}

/// The assembly text of one operand, as `operand_text` gives it.
pub fn render_operand(o: &Operand) -> (r: String)
    ensures
        r@ == operand_text(*o),
{
    proof {
        reveal_strlit("(");
        reveal_strlit(")");
        reveal_strlit("+");
        reveal_strlit("-");
    }
    let mut inner: String;
    match o.value {
        Some(v) => {
            inner = hex_text_string(v as u64);
        },
        None => {
            inner = o.name.clone();
            if o.increment.is_some() {
                inner.append("+");
            }
            if o.decrement.is_some() {
                inner.append("-");
            }
        },
    }
    let mut r = String::new();
    if !o.immediate {
        r.append("(");
    }
    r.append(inner.as_str());
    if !o.immediate {
        r.append(")");
    }
    proof {
        assert(r@ =~= operand_text(*o));
    }
    r
}

/// The assembly text of one instruction, as `instruction_text` gives
/// it: e.g. `"HALT"`, `"LD BC, d16"`, `"LD (HL-), A"`.
pub fn render_instruction(instruction: &Instruction) -> (r: String)
    ensures
        r@ == instruction_text(*instruction),
{
    proof {
        reveal_strlit(" ");
        reveal_strlit(", ");
    }
    let mut r = instruction.mnemonic.clone();
    if instruction.operands.len() == 0 {
        return r;
    }
    r.append(" ");
    let mut i: usize = 0;
    while i < instruction.operands.len()
        invariant
            i <= instruction.operands@.len(),
            instruction.operands@.len() > 0,
            ", "@ == seq![',', ' '],
            r@ == instruction.mnemonic@ + seq![' '] + joined_operand_text(
                instruction.operands@.take(i as int),
            ),
        decreases instruction.operands@.len() - i,
    {
        if i > 0 {
            r.append(", ");
        }
        let piece = render_operand(&instruction.operands[i]);
        r.append(piece.as_str());
        proof {
            let ops = instruction.operands@;
            assert(ops.take(i + 1) =~= ops.take(i as int).push(ops[i as int]));
            lemma_join_snoc(ops.take(i as int), ops[i as int]);
            assert(r@ =~= instruction.mnemonic@ + seq![' '] + joined_operand_text(
                ops.take(i + 1),
            ));
        }
        i = i + 1;
    }
    proof {
        assert(instruction.operands@.take(instruction.operands@.len() as int)
            =~= instruction.operands@);
    }
    r
}

/// The canonical text of a value: `"0x"` plus uppercase hexadecimal,
/// zero-padded to at least two digits.
pub fn hex_text_string(v: u64) -> (s: String)
    ensures
        s@ == hex_text(v as int),
{
    proof {
        reveal_strlit("0x");
        reveal_strlit("0");
    }
    let mut s = String::new();
    s.append("0x");
    if v < 16 {
        s.append("0");
        s.append(hex_digit_str(v as u8));
        proof {
            assert(s@ =~= hex_text(v as int));
        }
    } else {
        push_hex_digits(&mut s, v);
    }
    s
}

} // verus!
