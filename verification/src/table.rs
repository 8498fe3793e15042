//! The opcode metadata table and the value types it describes: operand
//! shapes, instruction shapes, and the two-sided (unprefixed / 0xCB
//! prefixed) lookup bank, stored densely with one slot per opcode byte.

use vstd::prelude::*;

verus! {

/// One operand of an instruction. The table supplies its static shape:
/// a name, an optional encoded width in bytes (absent for register
/// operands), optional increment / decrement markers, and whether the
/// operand is immediate (rendered bare) or a memory reference (rendered
/// in parentheses). After decoding, `value` holds the little-endian
/// literal consumed from the stream, present exactly when the shape
/// declares a width of 1 or 2.
#[derive(Debug, PartialEq)]
pub struct Operand {
    pub name: String,
    pub bytes: Option<u8>,
    pub increment: Option<bool>,
    pub decrement: Option<bool>,
    pub immediate: bool,
    pub value: Option<u16>,
}

/// One instruction shape from the table (or, after decoding, one
/// resolved instruction): mnemonic, total encoded length in bytes
/// (informational), cycle counts, operands in declared order, and the
/// flag-effect pairs copied verbatim from the table.
#[derive(Debug, PartialEq)]
pub struct Instruction {
    pub mnemonic: String,
    pub bytes: u8,
    pub cycles: Vec<u8>,
    pub operands: Vec<Operand>,
    pub flags: Vec<(String, String)>,
}

/// The opcode metadata table: one dense sub-table per opcode byte for
/// plain opcodes, and one for opcodes selected by the byte after the
/// 0xCB prefix escape. A missing entry (`None`) is a gap in the
/// supplied metadata; looking it up fails with `UnknownOpcode`.
pub struct InstructionBank {
    pub unprefixed: Vec<Option<Instruction>>,
    pub cbprefixed: Vec<Option<Instruction>>,
}

impl Operand {
    /// An owned copy, equal to `self` field for field.
    pub fn duplicate(&self) -> (r: Operand)
        ensures
            r == *self,
    {
        Operand {
            name: self.name.clone(),
            bytes: self.bytes,
            increment: self.increment,
            decrement: self.decrement,
            immediate: self.immediate,
            value: self.value,
        }
    }
}

impl InstructionBank {
    /// Well-formed banks hold exactly one slot per opcode byte value on
    /// each side.
    pub open spec fn wf(&self) -> bool {
        self.unprefixed@.len() == 256 && self.cbprefixed@.len() == 256
    }

    /// The table entry selected by `prefixed` (which sub-table) and the
    /// opcode byte.
    pub open spec fn entry(&self, prefixed: bool, opcode: u8) -> Option<Instruction> {
        if prefixed {
            self.cbprefixed@[opcode as int]
        } else {
            self.unprefixed@[opcode as int]
        }
    }

    /// An empty bank: every slot on both sides is vacant.
    pub fn new() -> (r: InstructionBank)
        ensures
            r.wf(),
            forall|p: bool, b: u8| #[trigger] r.entry(p, b) is None,
    {
        let unprefixed = vacant_side();
        let cbprefixed = vacant_side();
        InstructionBank { unprefixed, cbprefixed }
    }

    /// The shape the table holds for this opcode, or `None` for a gap
    /// in the supplied metadata.
    pub fn lookup(&self, prefixed: bool, opcode: u8) -> (r: &Option<Instruction>)
        requires
            self.wf(),
        ensures
            *r == self.entry(prefixed, opcode),
    {
        if prefixed {
            &self.cbprefixed[opcode as usize]
        } else {
            &self.unprefixed[opcode as usize]
        }
    }

    /// Fill one slot; every other slot on both sides keeps its entry.
    pub fn set_entry(&mut self, prefixed: bool, opcode: u8, instruction: Instruction)
        requires
            old(self).wf(),
        ensures
            final(self).wf(),
            final(self).entry(prefixed, opcode) == Some(instruction),
            forall|p: bool, b: u8|
                p != prefixed || b != opcode ==> #[trigger] final(self).entry(p, b) == old(
                    self,
                ).entry(p, b),
    {
        if prefixed {
            vstd::std_specs::core::index_set(&mut self.cbprefixed, opcode as usize, Some(instruction));
        } else {
            vstd::std_specs::core::index_set(&mut self.unprefixed, opcode as usize, Some(instruction));
        }
    }
}

/// One side of a bank with all 256 slots vacant.
fn vacant_side() -> (r: Vec<Option<Instruction>>)
    ensures
        r@.len() == 256,
        forall|i: int| 0 <= i < 256 ==> r@[i] is None,
{
    let mut side: Vec<Option<Instruction>> = Vec::new();
    let mut i: usize = 0;
    while i < 256
        invariant
            i <= 256,
            side@.len() == i,
            forall|j: int| 0 <= j < i ==> side@[j] is None,
        decreases 256 - i,
    {
        side.push(None);
        i = i + 1;
    }
    side
}

} // verus!
