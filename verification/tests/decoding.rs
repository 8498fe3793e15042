use gbdis::decode;
use gbdis::disassemble;
use gbdis::DecodeError;
use gbdis::Instruction;
use gbdis::InstructionBank;
use gbdis::Operand;

fn register(name: &str, immediate: bool) -> Operand {
    Operand {
        name: String::from(name),
        bytes: None,
        increment: None,
        decrement: None,
        immediate,
        value: None,
    }
}

fn sized(name: &str, width: u8) -> Operand {
    Operand {
        name: String::from(name),
        bytes: Some(width),
        increment: None,
        decrement: None,
        immediate: true,
        value: None,
    }
}

fn shape(mnemonic: &str, total: u8, operands: Vec<Operand>) -> Instruction {
    Instruction {
        mnemonic: String::from(mnemonic),
        bytes: total,
        cycles: vec![4],
        operands,
        flags: vec![(String::from("Z"), String::from("-"))],
    }
}

/// A small bank: NOP at 0x00, LD BC,d16 at 0x01, and RLC (HL) behind
/// the prefix at 0x06.
fn small_bank() -> InstructionBank {
    let mut bank = InstructionBank::new();
    bank.set_entry(false, 0x00, shape("NOP", 1, Vec::new()));
    bank.set_entry(
        false,
        0x01,
        shape("LD", 3, vec![register("BC", true), sized("d16", 2)]),
    );
    bank.set_entry(true, 0x06, shape("RLC", 2, vec![register("HL", false)]));
    bank
}

#[test]
fn two_byte_operand_is_little_endian_and_advances_cursor_by_three() {
    let bank = small_bank();
    let stream = [0x01u8, 0x34, 0x12];
    let (next, instruction) = decode(0, &stream, &bank).unwrap();
    assert_eq!(3, next);
    assert_eq!("LD", instruction.mnemonic);
    assert_eq!(2, instruction.operands.len());
    assert_eq!(None, instruction.operands[0].value);
    assert_eq!(Some(0x1234), instruction.operands[1].value);
    assert_eq!("LD BC, 0x1234", gbdis::render_instruction(&instruction));
}

#[test]
fn one_byte_operand_advances_cursor_by_two() {
    let mut bank = InstructionBank::new();
    bank.set_entry(false, 0x3E, shape("LD", 2, vec![register("A", true), sized("d8", 1)]));
    let stream = [0x3Eu8, 0x7F];
    let (next, instruction) = decode(0, &stream, &bank).unwrap();
    assert_eq!(2, next);
    assert_eq!(Some(0x7F), instruction.operands[1].value);
}

#[test]
fn prefix_escape_selects_the_second_table() {
    let bank = small_bank();
    let stream = [0xCBu8, 0x06];
    let (next, instruction) = decode(0, &stream, &bank).unwrap();
    assert_eq!(2, next);
    assert_eq!("RLC", instruction.mnemonic);
    assert_eq!("RLC (HL)", gbdis::render_instruction(&instruction));
}

#[test]
fn widthless_operands_consume_no_bytes() {
    let bank = small_bank();
    let stream = [0x00u8];
    let (next, instruction) = decode(0, &stream, &bank).unwrap();
    assert_eq!(1, next);
    assert_eq!("NOP", instruction.mnemonic);
    assert!(instruction.operands.is_empty());
}

#[test]
fn lone_prefix_byte_is_truncated_input() {
    let bank = small_bank();
    let stream = [0xCBu8];
    assert_eq!(Err(DecodeError::TruncatedInput), decode(0, &stream, &bank).map(|(n, _)| n));
}

#[test]
fn missing_operand_bytes_are_truncated_input() {
    let bank = small_bank();
    let stream = [0x01u8, 0x34];
    assert!(matches!(decode(0, &stream, &bank), Err(DecodeError::TruncatedInput)));
}

#[test]
fn empty_stream_is_truncated_input() {
    let bank = small_bank();
    let stream: [u8; 0] = [];
    assert!(matches!(decode(0, &stream, &bank), Err(DecodeError::TruncatedInput)));
}

#[test]
fn missing_table_entry_is_unknown_opcode_with_its_key() {
    let bank = small_bank();
    let stream = [0xFFu8];
    match decode(0, &stream, &bank) {
        Err(DecodeError::UnknownOpcode(key)) => assert_eq!("0xFF", key),
        other => panic!("expected an unknown opcode failure, got {:?}", other),
    }
}

#[test]
fn unknown_sub_opcode_reports_the_key_behind_the_prefix() {
    let bank = small_bank();
    let stream = [0xCBu8, 0x9A];
    match decode(0, &stream, &bank) {
        Err(DecodeError::UnknownOpcode(key)) => assert_eq!("0x9A", key),
        other => panic!("expected an unknown opcode failure, got {:?}", other),
    }
}

#[test]
fn refilling_a_slot_replaces_its_shape() {
    let mut bank = InstructionBank::new();
    bank.set_entry(false, 0x00, shape("NOP", 1, Vec::new()));
    bank.set_entry(false, 0x00, shape("STOP", 1, Vec::new()));
    let stream = [0x00u8];
    let (_, instruction) = decode(0, &stream, &bank).unwrap();
    assert_eq!("STOP", instruction.mnemonic);
}

#[test]
fn undecodable_declared_width_is_unsupported() {
    let mut bank = InstructionBank::new();
    bank.set_entry(false, 0x10, shape("BAD", 4, vec![sized("d24", 3)]));
    let stream = [0x10u8, 0x01, 0x02, 0x03];
    assert!(matches!(decode(0, &stream, &bank), Err(DecodeError::UnsupportedOperandWidth)));
}

#[test]
fn decoding_twice_yields_identical_results() {
    let bank = small_bank();
    let stream = [0x01u8, 0x34, 0x12, 0xCB, 0x06, 0x00];
    let first = decode(0, &stream, &bank).unwrap();
    let second = decode(0, &stream, &bank).unwrap();
    assert_eq!(first, second);
    let (lines_a, err_a) = disassemble(0, &stream, &bank, 3);
    let (lines_b, err_b) = disassemble(0, &stream, &bank, 3);
    assert_eq!(lines_a, lines_b);
    assert_eq!(err_a, err_b);
}

#[test]
fn disassembly_threads_the_cursor_and_reports_addresses() {
    let bank = small_bank();
    let stream = [0x01u8, 0x34, 0x12, 0xCB, 0x06, 0x00];
    let (lines, error) = disassemble(0, &stream, &bank, 3);
    assert_eq!(None, error);
    assert_eq!(
        vec![
            String::from("0x00 LD BC, 0x1234"),
            String::from("0x03 RLC (HL)"),
            String::from("0x05 NOP"),
        ],
        lines
    );
}

#[test]
fn disassembly_stops_at_the_failing_instruction() {
    let bank = small_bank();
    let stream = [0x00u8, 0xFF];
    let (lines, error) = disassemble(0, &stream, &bank, 3);
    assert_eq!(vec![String::from("0x00 NOP")], lines);
    match error {
        Some(DecodeError::UnknownOpcode(key)) => assert_eq!("0xFF", key),
        other => panic!("expected an unknown opcode failure, got {:?}", other),
    }
}

#[test]
fn unknown_opcode_produces_no_output_line() {
    let bank = small_bank();
    let stream = [0xFFu8];
    let (lines, error) = disassemble(0, &stream, &bank, 1);
    assert!(lines.is_empty());
    assert!(matches!(error, Some(DecodeError::UnknownOpcode(_))));
}

#[test]
fn disassembly_starts_at_the_entry_address() {
    let bank = small_bank();
    let stream = [0xFFu8, 0xFF, 0x00, 0x01, 0x34, 0x12];
    let (lines, error) = disassemble(2, &stream, &bank, 2);
    assert_eq!(None, error);
    assert_eq!(
        vec![String::from("0x02 NOP"), String::from("0x03 LD BC, 0x1234")],
        lines
    );
}
