use gbdis::render_instruction;
use gbdis::render_operand;
use gbdis::Instruction;
use gbdis::Operand;

fn register(name: &str, immediate: bool) -> Operand {
    Operand {
        name: String::from(name),
        bytes: None,
        increment: None,
        decrement: None,
        immediate,
        value: None,
    }
}

fn wide_immediate(name: &str) -> Operand {
    Operand {
        name: String::from(name),
        bytes: Some(2),
        increment: None,
        decrement: None,
        immediate: true,
        value: None,
    }
}

fn shape(mnemonic: &str, operands: Vec<Operand>) -> Instruction {
    Instruction {
        mnemonic: String::from(mnemonic),
        bytes: 1,
        cycles: vec![4],
        operands,
        flags: Vec::new(),
    }
}

#[test]
fn display_operand() {
    let a = Operand {
        name: String::from("BC"),
        increment: None,
        decrement: None,
        bytes: None,
        immediate: true,
        value: None,
    };

    let b = Operand {
        name: String::from("HL"),
        increment: Some(true),
        decrement: None,
        bytes: None,
        immediate: false,
        value: None,
    };

    let c = Operand {
        name: String::from("HL"),
        increment: None,
        decrement: Some(true),
        bytes: None,
        immediate: false,
        value: None,
    };

    assert_eq!("BC", render_operand(&a));
    assert_eq!("(HL+)", render_operand(&b));
    assert_eq!("(HL-)", render_operand(&c));
}

#[test]
fn display_metadata() {
    // unprefixed shapes, as the metadata table declares them
    let ld_bc_d16 = shape("LD", vec![register("BC", true), wide_immediate("d16")]);
    assert_eq!("LD BC, d16", render_instruction(&ld_bc_d16));

    let mut hl_minus = register("HL", false);
    hl_minus.decrement = Some(true);
    let ld_hld_a = shape("LD", vec![hl_minus, register("A", true)]);
    assert_eq!("LD (HL-), A", render_instruction(&ld_hld_a));

    let halt = shape("HALT", Vec::new());
    assert_eq!("HALT", render_instruction(&halt));

    let pop_de = shape("POP", vec![register("DE", true)]);
    assert_eq!("POP DE", render_instruction(&pop_de));

    // cbprefixed shapes
    let rlc_hl = shape("RLC", vec![register("HL", false)]);
    assert_eq!("RLC (HL)", render_instruction(&rlc_hl));

    let bit_0_hl = shape("BIT", vec![register("0", true), register("HL", false)]);
    assert_eq!("BIT 0, (HL)", render_instruction(&bit_0_hl));

    let bit_6_a = shape("BIT", vec![register("6", true), register("A", true)]);
    assert_eq!("BIT 6, A", render_instruction(&bit_6_a));

    let set_6_b = shape("SET", vec![register("6", true), register("B", true)]);
    assert_eq!("SET 6, B", render_instruction(&set_6_b));
}

#[test]
fn resolved_values_render_as_padded_uppercase_hex() {
    let mut low = register("d8", true);
    low.bytes = Some(1);
    low.value = Some(0x5);
    assert_eq!("0x05", render_operand(&low));

    let mut wide = wide_immediate("d16");
    wide.value = Some(0x1234);
    assert_eq!("0x1234", render_operand(&wide));

    let mut indirect = register("a8", false);
    indirect.bytes = Some(1);
    indirect.value = Some(0x12);
    assert_eq!("(0x12)", render_operand(&indirect));
}

#[test]
fn opcode_keys_are_two_uppercase_hex_digits() {
    assert_eq!("0x00", gbdis::make_opcode_string(&0x00));
    assert_eq!("0x0A", gbdis::make_opcode_string(&0x0A));
    assert_eq!("0x76", gbdis::make_opcode_string(&0x76));
    assert_eq!("0xFF", gbdis::make_opcode_string(&0xFF));
}

#[test]
fn addresses_render_with_at_least_two_digits() {
    assert_eq!("0x00", gbdis::hex_text_string(0));
    assert_eq!("0x05", gbdis::hex_text_string(5));
    assert_eq!("0x150", gbdis::hex_text_string(0x150));
    assert_eq!("0x1234", gbdis::hex_text_string(0x1234));
}
