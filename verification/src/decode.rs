//! The decode engine: reads one opcode (following the 0xCB prefix
//! escape to the second table when needed), looks its shape up in the
//! metadata bank, consumes the operand bytes the shape declares, and
//! returns the resolved instruction together with the advanced cursor.

use crate::render::opcode_key;
use crate::table::Instruction;
use crate::table::InstructionBank;
use crate::table::Operand;
use vstd::prelude::*;

verus! {

/// The prefix escape byte: it selects the second table by the byte
/// that follows it.
pub const PREFIX_ESCAPE: u8 = 0xCB;

/// Why one decode call failed.
#[derive(Debug, PartialEq)]
pub enum DecodeError {
    /// The table has no entry for the looked-up byte; carries the
    /// canonical `"0xHH"` key that was missing.
    UnknownOpcode(String),
    /// The stream ended before the opcode, sub-opcode, or a declared
    /// operand could be fully read.
    TruncatedInput,
    /// An operand declares an encoded width other than 1 or 2.
    UnsupportedOperandWidth,
}

/// What can go wrong while consuming one operand's bytes.
pub enum OperandFault {
    Truncated,
    Unsupported,
}

/// The bytes one operand consumes after the opcode byte(s): its
/// declared width, or none.
pub open spec fn operand_width(o: Operand) -> int {
    match o.bytes {
        None => 0,
        Some(w) => w as int,
    }
}

/// The bytes a whole operand list consumes, in declared order.
pub open spec fn operands_size(ops: Seq<Operand>) -> int
    decreases ops.len(),
{
    if ops.len() == 0 {
        0
    } else {
        operand_width(ops[0]) + operands_size(ops.drop_first())
    }
}

/// The first fault, if any, hit while consuming the operands in
/// declared order from position `at` of a stream of length `n`: an
/// undecodable declared width, or a declared width that runs past the
/// end of the stream.
pub open spec fn first_operand_fault(ops: Seq<Operand>, n: int, at: int) -> Option<OperandFault>
    decreases ops.len(),
{
    if ops.len() == 0 {
        None
    } else {
        match ops[0].bytes {
            None => first_operand_fault(ops.drop_first(), n, at),
            Some(w) => if w == 1 || w == 2 {
                if at + w > n {
                    Some(OperandFault::Truncated)
                } else {
                    first_operand_fault(ops.drop_first(), n, at + w)
                }
            } else {
                Some(OperandFault::Unsupported)
            },
        }
    }
}

/// One operand resolved against the stream at position `at`: a shape
/// without a width is copied unchanged; width 1 takes one byte; width
/// 2 takes two bytes little-endian (low byte first).
pub open spec fn resolve_operand(o: Operand, stream: Seq<u8>, at: int) -> Operand {
    match o.bytes {
        None => o,
        Some(w) => Operand {
            name: o.name,
            bytes: o.bytes,
            increment: o.increment,
            decrement: o.decrement,
            immediate: o.immediate,
            value: if w == 1 {
                Some(stream[at] as u16)
            } else {
                Some((stream[at] + 256 * stream[at + 1]) as u16)
            },
        },
    }
}

/// The operand list resolved in declared order, each operand consuming
/// its declared width.
pub open spec fn resolve_operands(ops: Seq<Operand>, stream: Seq<u8>, at: int) -> Seq<Operand>
    decreases ops.len(),
{
    if ops.len() == 0 {
        Seq::<Operand>::empty()
    } else {
        seq![resolve_operand(ops[0], stream, at)] + resolve_operands(
            ops.drop_first(),
            stream,
            at + operand_width(ops[0]),
        )
    }
}

/// Whether the opcode at cursor `a` escapes into the prefixed table.
pub open spec fn selects_prefixed(stream: Seq<u8>, a: int) -> bool {
    stream[a] == PREFIX_ESCAPE
}

/// The opcode (or sub-opcode) and prefix flag at cursor `a` can be
/// read without running off the stream.
pub open spec fn header_ok(stream: Seq<u8>, a: int) -> bool {
    a < stream.len() && (selects_prefixed(stream, a) ==> a + 1 < stream.len())
}

/// The byte that selects the instruction shape: the sub-opcode after a
/// prefix escape, else the opcode itself.
pub open spec fn selected_opcode(stream: Seq<u8>, a: int) -> u8 {
    if selects_prefixed(stream, a) {
        stream[a + 1]
    } else {
        stream[a]
    }
}

/// Where the operand bytes start: after one opcode byte, or two when
/// the prefix escape was taken.
pub open spec fn operands_start(stream: Seq<u8>, a: int) -> int {
    if selects_prefixed(stream, a) {
        a + 2
    } else {
        a + 1
    }
}

/// The table entry a decode at cursor `a` looks up.
pub open spec fn looked_up(a: int, stream: Seq<u8>, bank: InstructionBank) -> Option<Instruction> {
    bank.entry(selects_prefixed(stream, a), selected_opcode(stream, a))
}

/// A decode at cursor `a` succeeds: the opcode bytes are in bounds,
/// the table has the entry, and every declared operand width is
/// supported and fully readable.
pub open spec fn decode_ok(a: int, stream: Seq<u8>, bank: InstructionBank) -> bool {
    &&& header_ok(stream, a)
    &&& looked_up(a, stream, bank) is Some
    &&& first_operand_fault(
        looked_up(a, stream, bank)->0.operands@,
        stream.len() as int,
        operands_start(stream, a),
    ) is None
}

/// The cursor after a successful decode at `a`: past the opcode
/// byte(s) and every consumed operand byte.
pub open spec fn next_cursor(a: int, stream: Seq<u8>, bank: InstructionBank) -> int {
    operands_start(stream, a) + operands_size(looked_up(a, stream, bank)->0.operands@)
}

/// A decode at cursor `a` fails for want of bytes: the opcode bytes
/// themselves run off the stream, or the first faulting operand does.
pub open spec fn truncated_at(a: int, stream: Seq<u8>, bank: InstructionBank) -> bool {
    ||| !header_ok(stream, a)
    ||| (looked_up(a, stream, bank) is Some && first_operand_fault(
        looked_up(a, stream, bank)->0.operands@,
        stream.len() as int,
        operands_start(stream, a),
    ) == Some(OperandFault::Truncated))
}

/// A decode at cursor `a` fails because the table lacks the entry.
pub open spec fn unknown_at(a: int, stream: Seq<u8>, bank: InstructionBank) -> bool {
    header_ok(stream, a) && looked_up(a, stream, bank) is None
}

/// A decode at cursor `a` fails on an operand whose declared width is
/// neither 1 nor 2.
pub open spec fn unsupported_at(a: int, stream: Seq<u8>, bank: InstructionBank) -> bool {
    &&& header_ok(stream, a)
    &&& looked_up(a, stream, bank) is Some
    &&& first_operand_fault(
        looked_up(a, stream, bank)->0.operands@,
        stream.len() as int,
        operands_start(stream, a),
    ) == Some(OperandFault::Unsupported)
}

/// The returned error names the failure the stream and table force at
/// cursor `a`; an unknown-opcode error carries the canonical key of
/// the byte whose entry is missing.
pub open spec fn decode_error_matches(
    e: DecodeError,
    a: int,
    stream: Seq<u8>,
    bank: InstructionBank,
) -> bool {
    match e {
        DecodeError::TruncatedInput => truncated_at(a, stream, bank),
        DecodeError::UnsupportedOperandWidth => unsupported_at(a, stream, bank),
        DecodeError::UnknownOpcode(k) => unknown_at(a, stream, bank) && k@ == opcode_key(
            selected_opcode(stream, a) as int,
        ),
    }
}

/// Exactly one of the four decode outcomes holds at any cursor.
pub proof fn lemma_decode_cases(a: int, stream: Seq<u8>, bank: InstructionBank)
    ensures
        decode_ok(a, stream, bank) || truncated_at(a, stream, bank) || unknown_at(
            a,
            stream,
            bank,
        ) || unsupported_at(a, stream, bank),
        decode_ok(a, stream, bank) ==> !truncated_at(a, stream, bank) && !unknown_at(
            a,
            stream,
            bank,
        ) && !unsupported_at(a, stream, bank),
        truncated_at(a, stream, bank) ==> !unknown_at(a, stream, bank) && !unsupported_at(
            a,
            stream,
            bank,
        ),
        unknown_at(a, stream, bank) ==> !unsupported_at(a, stream, bank),
{
    if header_ok(stream, a) && looked_up(a, stream, bank) is Some {
        let fault = first_operand_fault(
            looked_up(a, stream, bank)->0.operands@,
            stream.len() as int,
            operands_start(stream, a),
        );
        match fault {
            None => assert(decode_ok(a, stream, bank)),
            Some(OperandFault::Truncated) => assert(truncated_at(a, stream, bank)),
            Some(OperandFault::Unsupported) => assert(unsupported_at(a, stream, bank)),
        }
    }
}

/// The whole decode contract: the call succeeds exactly when
/// `decode_ok` holds; a success returns the cursor advanced past the
/// opcode byte(s) and every consumed operand byte, and the instruction
/// whose mnemonic, length, cycles and flags are the matched shape's
/// and whose operands are the shape's resolved in declared order; a
/// failure returns the error the stream and table force at the cursor.
pub open spec fn decode_post(
    r: Result<(usize, Instruction), DecodeError>,
    a: int,
    stream: Seq<u8>,
    bank: InstructionBank,
) -> bool {
    &&& (r is Ok <==> decode_ok(a, stream, bank))
    &&& (r matches Ok((next, instr)) ==> {
        let shape = looked_up(a, stream, bank)->0;
        &&& next == next_cursor(a, stream, bank)
        &&& instr.mnemonic == shape.mnemonic
        &&& instr.bytes == shape.bytes
        &&& instr.cycles@ == shape.cycles@
        &&& instr.flags@ == shape.flags@
        &&& instr.operands@ == resolve_operands(
            shape.operands@,
            stream,
            operands_start(stream, a),
        )
    })
    &&& (r matches Err(e) ==> decode_error_matches(e, a, stream, bank))
}

/// Decoding is deterministic: any two results that meet the decode
/// contract for the same cursor, stream and table succeed or fail
/// together, agree on the advanced cursor and on every field of the
/// decoded instruction, and fail with the same kind of error over the
/// same missing key. No hidden state can make two decodes differ.
pub proof fn lemma_decode_deterministic(
    a: int,
    stream: Seq<u8>,
    bank: InstructionBank,
    r1: Result<(usize, Instruction), DecodeError>,
    r2: Result<(usize, Instruction), DecodeError>,
)
    requires
        decode_post(r1, a, stream, bank),
        decode_post(r2, a, stream, bank),
    ensures
        r1 is Ok <==> r2 is Ok,
        r1 matches Ok((n1, i1)) ==> (r2 matches Ok((n2, i2)) ==> {
            &&& n1 == n2
            &&& i1.mnemonic == i2.mnemonic
            &&& i1.bytes == i2.bytes
            &&& i1.cycles@ == i2.cycles@
            &&& i1.flags@ == i2.flags@
            &&& i1.operands@ == i2.operands@
        }),
        (r1 matches Err(DecodeError::TruncatedInput)) <==> (r2 matches Err(
            DecodeError::TruncatedInput,
        )),
        (r1 matches Err(DecodeError::UnsupportedOperandWidth)) <==> (r2 matches Err(
            DecodeError::UnsupportedOperandWidth,
        )),
        r1 matches Err(DecodeError::UnknownOpcode(k1)) ==> (r2 matches Err(
            DecodeError::UnknownOpcode(k2),
        ) ==> k1@ == k2@),
{
    lemma_decode_cases(a, stream, bank);
}

/// Splitting an operand list at `i` splits its size, its resolution,
/// and — when the first part is fault-free — its first fault.
proof fn lemma_operands_split(ops: Seq<Operand>, stream: Seq<u8>, n: int, at: int, i: int)
    requires
        0 <= i <= ops.len(),
    ensures
        operands_size(ops) == operands_size(ops.take(i)) + operands_size(ops.skip(i)),
        resolve_operands(ops, stream, at) == resolve_operands(ops.take(i), stream, at)
            + resolve_operands(ops.skip(i), stream, at + operands_size(ops.take(i))),
        first_operand_fault(ops.take(i), n, at) is None ==> first_operand_fault(ops, n, at)
            == first_operand_fault(ops.skip(i), n, at + operands_size(ops.take(i))),
    decreases i,
{
    if i == 0 {
        assert(ops.take(0) =~= Seq::<Operand>::empty());
        assert(ops.skip(0) =~= ops);
        assert(resolve_operands(ops, stream, at) =~= resolve_operands(
            ops.take(0),
            stream,
            at,
        ) + resolve_operands(ops.skip(0), stream, at + operands_size(ops.take(0))));
    } else {
        let head = ops[0];
        let rest = ops.drop_first();
        let w = operand_width(head);
        assert(ops.take(i).drop_first() =~= rest.take(i - 1));
        assert(ops.take(i)[0] == head);
        assert(ops.skip(i) =~= rest.skip(i - 1));
        lemma_operands_split(rest, stream, n, at + w, i - 1);
        assert(resolve_operands(ops, stream, at) =~= resolve_operands(ops.take(i), stream, at)
            + resolve_operands(ops.skip(i), stream, at + operands_size(ops.take(i))));
    }
}

/// An owned copy of a cycle-count list, equal element for element.
fn copy_cycle_counts(v: &Vec<u8>) -> (r: Vec<u8>)
    ensures
        r@ == v@,
{
    let mut r: Vec<u8> = Vec::new();
    let mut i: usize = 0;
    while i < v.len()
        invariant
            i <= v@.len(),
            r@ == v@.take(i as int),
        decreases v@.len() - i,
    {
        r.push(v[i]);
        proof {
            assert(r@ =~= v@.take(i + 1));
        }
        i = i + 1;
    }
    proof {
        assert(v@.take(v@.len() as int) =~= v@);
    }
    r
}

/// An owned copy of a flag-effect list, equal pair for pair.
fn copy_flag_pairs(v: &Vec<(String, String)>) -> (r: Vec<(String, String)>)
    ensures
        r@ == v@,
{
    let mut r: Vec<(String, String)> = Vec::new();
    let mut i: usize = 0;
    while i < v.len()
        invariant
            i <= v@.len(),
            r@ == v@.take(i as int),
        decreases v@.len() - i,
    {
        let pair = &v[i];
        let copied = (pair.0.clone(), pair.1.clone());
        assert(copied == v@[i as int]);
        r.push(copied);
        proof {
            assert(r@ =~= v@.take(i + 1));
        }
        i = i + 1;
    }
    proof {
        assert(v@.take(v@.len() as int) =~= v@);
    }
    r
}

/// Decodes one instruction at cursor `address` of the stream: reads
/// the opcode byte (and, after the 0xCB prefix escape, the sub-opcode
/// byte), looks the shape up in the bank, and consumes each declared
/// operand width in order, little-endian for two-byte widths. Returns
/// the advanced cursor — the old cursor plus one opcode byte, plus one
/// for the prefix escape, plus the sum of the declared operand widths
/// — together with the resolved instruction, or the error the stream
/// and table force.
pub fn decode(address: usize, bytes: &[u8], instructions: &InstructionBank) -> (r: Result<
    (usize, Instruction),
    DecodeError,
>)
    requires
        instructions.wf(),
    ensures
        decode_post(r, address as int, bytes@, *instructions),
{
    let ghost stream = bytes@;
    let ghost a = address as int;
    let n = bytes.len();
    if address >= n {
        return Err(DecodeError::TruncatedInput);
    }
    let opcode = bytes[address];
    let prefixed = opcode == PREFIX_ESCAPE;
    let mut pos = address + 1;
    let selected: u8;
    if prefixed {
        if pos >= n {
            return Err(DecodeError::TruncatedInput);
        }
        selected = bytes[pos];
        pos = pos + 1;
    } else {
        selected = opcode;
    }
    assert(header_ok(stream, a));
    assert(prefixed == selects_prefixed(stream, a));
    assert(selected == selected_opcode(stream, a));
    let ghost start = operands_start(stream, a);
    assert(pos == start);
    let entry: &Option<Instruction> = instructions.lookup(prefixed, selected);
    let shape: &Instruction = match entry {
        Some(shape) => shape,
        None => {
            return Err(DecodeError::UnknownOpcode(crate::render::make_opcode_string(&selected)));
        },
    };
    assert(Some(*shape) == looked_up(a, stream, *instructions));
    let ghost ops = shape.operands@;
    let mut resolved: Vec<Operand> = Vec::new();
    let mut i: usize = 0;
    while i < shape.operands.len()
        invariant
            i <= ops.len(),
            instructions.wf(),
            n == stream.len(),
            stream == bytes@,
            a == address as int,
            header_ok(stream, a),
            Some(*shape) == looked_up(a, stream, *instructions),
            ops == shape.operands@,
            start == operands_start(stream, a),
            pos == start + operands_size(ops.take(i as int)),
            start <= pos <= n,
            first_operand_fault(ops.take(i as int), n as int, start) is None,
            resolved@ == resolve_operands(ops.take(i as int), stream, start),
        decreases ops.len() - i,
    {
        let o = &shape.operands[i];
        proof {
            lemma_operands_split(ops, stream, n as int, start, i as int);
            assert(ops.skip(i as int)[0] == ops[i as int]);
        }
        match o.bytes {
            None => {
                resolved.push(o.duplicate());
            },
            Some(w) => {
                if w == 1 {
                    if pos >= n {
                        proof {
                            assert(first_operand_fault(ops.skip(i as int), n as int, pos as int)
                                == Some(OperandFault::Truncated));
                        }
                        return Err(DecodeError::TruncatedInput);
                    }
                    let v = bytes[pos];
                    resolved.push(
                        Operand {
                            name: o.name.clone(),
                            bytes: o.bytes,
                            increment: o.increment,
                            decrement: o.decrement,
                            immediate: o.immediate,
                            value: Some(v as u16),
                        },
                    );
                    pos = pos + 1;
                } else if w == 2 {
                    if n - pos < 2 {
                        proof {
                            assert(first_operand_fault(ops.skip(i as int), n as int, pos as int)
                                == Some(OperandFault::Truncated));
                        }
                        return Err(DecodeError::TruncatedInput);
                    }
                    let lo = bytes[pos];
                    let hi = bytes[pos + 1];
                    resolved.push(
                        Operand {
                            name: o.name.clone(),
                            bytes: o.bytes,
                            increment: o.increment,
                            decrement: o.decrement,
                            immediate: o.immediate,
                            value: Some(lo as u16 + 256 * (hi as u16)),
                        },
                    );
                    pos = pos + 2;
                } else {
                    proof {
                        assert(first_operand_fault(ops.skip(i as int), n as int, pos as int)
                            == Some(OperandFault::Unsupported));
                    }
                    return Err(DecodeError::UnsupportedOperandWidth);
                }
            },
        }
        proof {
            let head = ops[i as int];
            let single = seq![head];
            let old_pos = start + operands_size(ops.take(i as int));
            lemma_operands_split(ops.take(i + 1), stream, n as int, start, i as int);
            assert(ops.take(i + 1).take(i as int) =~= ops.take(i as int));
            assert(ops.take(i + 1).skip(i as int) =~= single);
            assert(single.drop_first() =~= Seq::<Operand>::empty());
            assert(operands_size(Seq::<Operand>::empty()) == 0);
            assert(resolve_operands(Seq::<Operand>::empty(), stream, old_pos + operand_width(head))
                =~= Seq::<Operand>::empty());
            assert(single[0] == head);
            assert(operands_size(single) == operand_width(head));
            assert(pos == old_pos + operand_width(head));
            assert(first_operand_fault(Seq::<Operand>::empty(), n as int, old_pos) is None);
            assert(first_operand_fault(Seq::<Operand>::empty(), n as int, old_pos + 1) is None);
            assert(first_operand_fault(Seq::<Operand>::empty(), n as int, old_pos + 2) is None);
            match head.bytes {
                None => {},
                Some(w) => {
                    assert(w == 1 || w == 2);
                    assert(old_pos + w <= n);
                },
            }
            assert(first_operand_fault(single, n as int, old_pos) is None);
            assert(resolve_operands(single, stream, old_pos) =~= seq![
                resolve_operand(head, stream, old_pos),
            ]);
            assert(resolved@ =~= resolve_operands(ops.take(i + 1), stream, start));
        }
        i = i + 1;
    }
    proof {
        assert(ops.take(ops.len() as int) =~= ops);
        assert(decode_ok(a, stream, *instructions));
        assert(pos == next_cursor(a, stream, *instructions));
    }
    let decoded = Instruction {
        mnemonic: shape.mnemonic.clone(),
        bytes: shape.bytes,
        cycles: copy_cycle_counts(&shape.cycles),
        operands: resolved,
        flags: copy_flag_pairs(&shape.flags),
    };
    Ok((pos, decoded))
}

} // verus!
