//! The disassembly driver: decodes a fixed number of instructions in
//! sequence, threading the cursor forward, and renders one report line
//! per decoded instruction. On a decode failure it stops and hands the
//! error back with the lines produced so far.

use crate::decode::decode;
use crate::decode::decode_error_matches;
use crate::decode::decode_ok;
use crate::decode::looked_up;
use crate::decode::next_cursor;
use crate::decode::operands_start;
use crate::decode::resolve_operands;
use crate::decode::DecodeError;
use crate::render::assembly_text;
use crate::render::hex_text;
use crate::render::hex_text_string;
use crate::render::render_instruction;
use crate::table::InstructionBank;
use vstd::prelude::*;
use vstd::string::StringExecFns;

verus! {

/// The report line for a successful decode at cursor `a`: the cursor's
/// canonical hexadecimal text, one space, and the assembly text of the
/// decoded instruction.
pub open spec fn decoded_line(a: int, stream: Seq<u8>, bank: InstructionBank) -> Seq<char> {
    hex_text(a) + seq![' '] + assembly_text(
        looked_up(a, stream, bank)->0.mnemonic@,
        resolve_operands(looked_up(a, stream, bank)->0.operands@, stream, operands_start(stream, a)),
    )
}

/// Every one of `count` decodes in sequence from cursor `a` succeeds.
pub open spec fn disassembly_ok(a: int, stream: Seq<u8>, bank: InstructionBank, count: int) -> bool
    decreases count,
{
    count <= 0 || (decode_ok(a, stream, bank) && disassembly_ok(
        next_cursor(a, stream, bank),
        stream,
        bank,
        count - 1,
    ))
}

/// The report lines of `count` decodes in sequence from cursor `a`,
/// cut short at the first failing decode.
pub open spec fn disassembly_lines(
    a: int,
    stream: Seq<u8>,
    bank: InstructionBank,
    count: int,
) -> Seq<Seq<char>>
    decreases count,
{
    if count <= 0 || !decode_ok(a, stream, bank) {
        Seq::<Seq<char>>::empty()
    } else {
        seq![decoded_line(a, stream, bank)] + disassembly_lines(
            next_cursor(a, stream, bank),
            stream,
            bank,
            count - 1,
        )
    }
}

/// The cursor of the first failing decode in the sequence (meaningful
/// when `disassembly_ok` does not hold).
pub open spec fn first_failure_cursor(
    a: int,
    stream: Seq<u8>,
    bank: InstructionBank,
    count: int,
) -> int
    decreases count,
{
    if count <= 0 || !decode_ok(a, stream, bank) {
        a
    } else {
        first_failure_cursor(next_cursor(a, stream, bank), stream, bank, count - 1)
    }
}

/// The texts of a list of report lines.
pub open spec fn line_views(lines: Seq<String>) -> Seq<Seq<char>> {
    lines.map_values(|s: String| s@)
}

/// Disassembles `amount_of_instructions` instructions starting at
/// `start_address`, producing one report line per decoded instruction.
/// The lines are exactly the per-instruction reports up to the first
/// failing decode; the second component is the error of that failing
/// decode, or `None` when every decode succeeded. No line is produced
/// for a failing instruction.
pub fn disassemble(
    start_address: usize,
    bytes: &[u8],
    instructions: &InstructionBank,
    amount_of_instructions: usize,
) -> (r: (Vec<String>, Option<DecodeError>))
    requires
        instructions.wf(),
    ensures
        line_views(r.0@) == disassembly_lines(
            start_address as int,
            bytes@,
            *instructions,
            amount_of_instructions as int,
        ),
        r.1 is None <==> disassembly_ok(
            start_address as int,
            bytes@,
            *instructions,
            amount_of_instructions as int,
        ),
        r.1 matches Some(e) ==> decode_error_matches(
            e,
            first_failure_cursor(
                start_address as int,
                bytes@,
                *instructions,
                amount_of_instructions as int,
            ),
            bytes@,
            *instructions,
        ),
{
    let ghost stream = bytes@;
    let ghost bank = *instructions;
    let ghost start = start_address as int;
    let ghost count = amount_of_instructions as int;
    let mut lines: Vec<String> = Vec::new();
    let mut address = start_address;
    let mut i: usize = 0;
    while i < amount_of_instructions
        invariant
            i <= amount_of_instructions,
            instructions.wf(),
            stream == bytes@,
            bank == *instructions,
            start == start_address as int,
            count == amount_of_instructions as int,
            disassembly_lines(start, stream, bank, count) == line_views(lines@)
                + disassembly_lines(address as int, stream, bank, count - i),
            disassembly_ok(start, stream, bank, count) <==> disassembly_ok(
                address as int,
                stream,
                bank,
                count - i,
            ),
            !disassembly_ok(address as int, stream, bank, count - i) ==> first_failure_cursor(
                start,
                stream,
                bank,
                count,
            ) == first_failure_cursor(address as int, stream, bank, count - i),
        decreases amount_of_instructions - i,
    {
        match decode(address, bytes, instructions) {
            Ok((new_address, instruction)) => {
                proof {
                    reveal_strlit(" ");
                }
                let mut line = hex_text_string(address as u64);
                line.append(" ");
                let text = render_instruction(&instruction);
                line.append(text.as_str());
                assert(line@ =~= decoded_line(address as int, stream, bank));
                let ghost previous = lines@;
                lines.push(line);
                proof {
                    assert(line_views(lines@) =~= line_views(previous).push(line@));
                    assert(disassembly_lines(address as int, stream, bank, count - i) == seq![
                        decoded_line(address as int, stream, bank),
                    ] + disassembly_lines(new_address as int, stream, bank, count - i - 1));
                    assert(line_views(lines@) + disassembly_lines(
                        new_address as int,
                        stream,
                        bank,
                        count - i - 1,
                    ) =~= line_views(previous) + disassembly_lines(
                        address as int,
                        stream,
                        bank,
                        count - i,
                    ));
                }
                address = new_address;
            },
            Err(error) => {
                proof {
                    assert(!decode_ok(address as int, stream, bank));
                    assert(disassembly_lines(address as int, stream, bank, count - i)
                        =~= Seq::<Seq<char>>::empty());
                    assert(line_views(lines@) + disassembly_lines(
                        address as int,
                        stream,
                        bank,
                        count - i,
                    ) =~= line_views(lines@));
                    assert(first_failure_cursor(address as int, stream, bank, count - i)
                        == address as int);
                }
                return (lines, Some(error));
            },
        }
        i = i + 1;
    }
    proof {
        assert(disassembly_lines(address as int, stream, bank, 0) =~= Seq::<Seq<char>>::empty());
        assert(line_views(lines@) + disassembly_lines(address as int, stream, bank, 0)
            =~= line_views(lines@));
    }
    (lines, None)
}

} // verus!
