//! Disassembler for Game Boy cartridge images, driven by an opcode
//! metadata table: table lookup, variable-length operand consumption
//! (including the 0xCB prefixed-opcode escape), and textual rendering
//! of decoded instructions.

pub mod decode;
pub mod driver;
pub mod numeric;
pub mod render;
pub mod table;

pub use decode::decode;
pub use decode::DecodeError;
pub use driver::disassemble;
pub use numeric::parse_hex_string;
pub use numeric::ParseNumberError;
pub use render::hex_text_string;
pub use render::make_opcode_string;
pub use render::render_instruction;
pub use render::render_operand;
pub use table::Instruction;
pub use table::InstructionBank;
pub use table::Operand;
