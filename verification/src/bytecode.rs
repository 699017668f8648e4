//! The bytecode model: the opcode enumeration, the operand-width table,
//! the `make`/`read_operhands` codec over flat byte buffers, and the
//! disassembler.
//!
//! Operands are big-endian and either 0 or 2 bytes wide; an instruction is
//! the opcode byte followed by its operand bytes.

use vstd::prelude::*;
use crate::decimal::{dec_digits, dec_digits_pad4, dec_string, dec_string_pad4};

verus! {

/// A flat buffer of encoded instructions.
#[derive(Debug)]
pub struct Instruction(pub Vec<u8>);

impl View for Instruction {
    type V = Seq<u8>;

    open spec fn view(&self) -> Seq<u8> {
        self.0@
    }
}

impl Clone for Instruction {
    fn clone(&self) -> (r: Instruction)
        ensures
            r@ == self@,
    {
        let v = self.0.clone();
        proof {
            assert(v@ =~= self.0@);
        }
        Instruction(v)
    }
}

/// The instruction set, one byte each.
#[derive(PartialEq, Eq, Debug, Clone, Copy, Structural)]
pub enum OpCode {
    OpConstant,
    OpAdd,
    OpPop,
    OpSub,
    OpMul,
    OpDiv,
    OpTrue,
    OpFalse,
    OpEqual,
    OpNotEqual,
    OpGreaterThan,
    OpMinus,
    OpBang,
    OpJumpNotTruthy,
    OpJump,
    OpNull,
    OpSetGlobal,
    OpGetGlobal,
}

/// The byte an opcode encodes to.
pub open spec fn opcode_value(op: OpCode) -> u8 {
    match op {
        OpCode::OpConstant => 0,
        OpCode::OpAdd => 1,
        OpCode::OpPop => 2,
        OpCode::OpSub => 3,
        OpCode::OpMul => 4,
        OpCode::OpDiv => 5,
        OpCode::OpTrue => 6,
        OpCode::OpFalse => 7,
        OpCode::OpEqual => 8,
        OpCode::OpNotEqual => 9,
        OpCode::OpGreaterThan => 10,
        OpCode::OpMinus => 11,
        OpCode::OpBang => 12,
        OpCode::OpJumpNotTruthy => 13,
        OpCode::OpJump => 14,
        OpCode::OpNull => 15,
        OpCode::OpSetGlobal => 16,
        OpCode::OpGetGlobal => 17,
    }
}

/// The opcode a byte decodes to, if any.
pub open spec fn opcode_of_byte(b: u8) -> Option<OpCode> {
    if b == 0 {
        Some(OpCode::OpConstant)
    } else if b == 1 {
        Some(OpCode::OpAdd)
    } else if b == 2 {
        Some(OpCode::OpPop)
    } else if b == 3 {
        Some(OpCode::OpSub)
    } else if b == 4 {
        Some(OpCode::OpMul)
    } else if b == 5 {
        Some(OpCode::OpDiv)
    } else if b == 6 {
        Some(OpCode::OpTrue)
    } else if b == 7 {
        Some(OpCode::OpFalse)
    } else if b == 8 {
        Some(OpCode::OpEqual)
    } else if b == 9 {
        Some(OpCode::OpNotEqual)
    } else if b == 10 {
        Some(OpCode::OpGreaterThan)
    } else if b == 11 {
        Some(OpCode::OpMinus)
    } else if b == 12 {
        Some(OpCode::OpBang)
    } else if b == 13 {
        Some(OpCode::OpJumpNotTruthy)
    } else if b == 14 {
        Some(OpCode::OpJump)
    } else if b == 15 {
        Some(OpCode::OpNull)
    } else if b == 16 {
        Some(OpCode::OpSetGlobal)
    } else if b == 17 {
        Some(OpCode::OpGetGlobal)
    } else {
        None
    }
}

/// Decoding inverts encoding.
pub proof fn lemma_opcode_byte_round_trip(op: OpCode)
    ensures
        opcode_of_byte(opcode_value(op)) == Some(op),
{
}

/// Encodes an opcode as its instruction byte.
pub fn opcode_to_byte(op: &OpCode) -> (b: u8)
    ensures
        b == opcode_value(*op),
{
    match op {
        OpCode::OpConstant => 0,
        OpCode::OpAdd => 1,
        OpCode::OpPop => 2,
        OpCode::OpSub => 3,
        OpCode::OpMul => 4,
        OpCode::OpDiv => 5,
        OpCode::OpTrue => 6,
        OpCode::OpFalse => 7,
        OpCode::OpEqual => 8,
        OpCode::OpNotEqual => 9,
        OpCode::OpGreaterThan => 10,
        OpCode::OpMinus => 11,
        OpCode::OpBang => 12,
        OpCode::OpJumpNotTruthy => 13,
        OpCode::OpJump => 14,
        OpCode::OpNull => 15,
        OpCode::OpSetGlobal => 16,
        OpCode::OpGetGlobal => 17,
    }
}

/// Decodes an instruction byte back to its opcode.
pub fn opcode_from_byte(b: u8) -> (r: Option<OpCode>)
    ensures
        r == opcode_of_byte(b),
{
    if b == 0 {
        Some(OpCode::OpConstant)
    } else if b == 1 {
        Some(OpCode::OpAdd)
    } else if b == 2 {
        Some(OpCode::OpPop)
    } else if b == 3 {
        Some(OpCode::OpSub)
    } else if b == 4 {
        Some(OpCode::OpMul)
    } else if b == 5 {
        Some(OpCode::OpDiv)
    } else if b == 6 {
        Some(OpCode::OpTrue)
    } else if b == 7 {
        Some(OpCode::OpFalse)
    } else if b == 8 {
        Some(OpCode::OpEqual)
    } else if b == 9 {
        Some(OpCode::OpNotEqual)
    } else if b == 10 {
        Some(OpCode::OpGreaterThan)
    } else if b == 11 {
        Some(OpCode::OpMinus)
    } else if b == 12 {
        Some(OpCode::OpBang)
    } else if b == 13 {
        Some(OpCode::OpJumpNotTruthy)
    } else if b == 14 {
        Some(OpCode::OpJump)
    } else if b == 15 {
        Some(OpCode::OpNull)
    } else if b == 16 {
        Some(OpCode::OpSetGlobal)
    } else if b == 17 {
        Some(OpCode::OpGetGlobal)
    } else {
        None
    }
}

/// The width in bytes of an opcode's operand: 2 for the five opcodes that
/// carry a big-endian `u16`, 0 for the rest.
pub open spec fn operand_width(op: OpCode) -> nat {
    match op {
        OpCode::OpConstant => 2,
        OpCode::OpJumpNotTruthy => 2,
        OpCode::OpJump => 2,
        OpCode::OpSetGlobal => 2,
        OpCode::OpGetGlobal => 2,
        _ => 0,
    }
}

/// The total encoded size of one instruction: the opcode byte plus the
/// operand bytes.
pub open spec fn instr_size(op: OpCode) -> nat {
    1 + operand_width(op)
}

/// The display name of an opcode, as the disassembler prints it.
pub open spec fn opcode_name(op: OpCode) -> Seq<char> {
    match op {
        OpCode::OpConstant => "OpConstant"@,
        OpCode::OpAdd => "OpAdd"@,
        OpCode::OpPop => "OpPop"@,
        OpCode::OpSub => "OpSub"@,
        OpCode::OpMul => "OpMul"@,
        OpCode::OpDiv => "OpDiv"@,
        OpCode::OpTrue => "OpTrue"@,
        OpCode::OpFalse => "OpFalse"@,
        OpCode::OpEqual => "OpEqual"@,
        OpCode::OpNotEqual => "OpNotEqual"@,
        OpCode::OpGreaterThan => "OpGreaterThan"@,
        OpCode::OpMinus => "OpMinus"@,
        OpCode::OpBang => "OpBang"@,
        OpCode::OpJumpNotTruthy => "OpJumpNotTruthy"@,
        OpCode::OpJump => "OpJump"@,
        OpCode::OpNull => "OpNull"@,
        OpCode::OpSetGlobal => "OpSetGlobal"@,
        OpCode::OpGetGlobal => "OpGetGlobal"@,
    }
}

/// Returns the display name of an opcode.
pub fn opcode_name_string(op: &OpCode) -> (r: String)
    ensures
        r@ == opcode_name(*op),
{
    match op {
        OpCode::OpConstant => String::from_str("OpConstant"),
        OpCode::OpAdd => String::from_str("OpAdd"),
        OpCode::OpPop => String::from_str("OpPop"),
        OpCode::OpSub => String::from_str("OpSub"),
        OpCode::OpMul => String::from_str("OpMul"),
        OpCode::OpDiv => String::from_str("OpDiv"),
        OpCode::OpTrue => String::from_str("OpTrue"),
        OpCode::OpFalse => String::from_str("OpFalse"),
        OpCode::OpEqual => String::from_str("OpEqual"),
        OpCode::OpNotEqual => String::from_str("OpNotEqual"),
        OpCode::OpGreaterThan => String::from_str("OpGreaterThan"),
        OpCode::OpMinus => String::from_str("OpMinus"),
        OpCode::OpBang => String::from_str("OpBang"),
        OpCode::OpJumpNotTruthy => String::from_str("OpJumpNotTruthy"),
        OpCode::OpJump => String::from_str("OpJump"),
        OpCode::OpNull => String::from_str("OpNull"),
        OpCode::OpSetGlobal => String::from_str("OpSetGlobal"),
        OpCode::OpGetGlobal => String::from_str("OpGetGlobal"),
    }
}

/// An entry of the definition table: an opcode's display name and the
/// widths of its operands.
#[derive(Debug)]
pub struct Definition {
    pub name: String,
    pub operands_width: Vec<u8>,
}

/// The operand widths of an opcode as the definition table lists them:
/// one 2-byte operand, or none.
pub open spec fn spec_widths(op: OpCode) -> Seq<u8> {
    if operand_width(op) == 2 {
        seq![2u8]
    } else {
        Seq::<u8>::empty()
    }
}

impl Definition {
    /// Looks an opcode up in the definition table.  Every opcode of the
    /// instruction set has an entry.
    pub fn lookup(opcode: &OpCode) -> (r: Option<Definition>)
        ensures
            r matches Some(d) && d.name@ == opcode_name(*opcode) && d.operands_width@
                == spec_widths(*opcode),
    {
        let name = opcode_name_string(opcode);
        let mut operands_width: Vec<u8> = Vec::new();
        match opcode {
            OpCode::OpConstant => operands_width.push(2),
            OpCode::OpJumpNotTruthy => operands_width.push(2),
            OpCode::OpJump => operands_width.push(2),
            OpCode::OpSetGlobal => operands_width.push(2),
            OpCode::OpGetGlobal => operands_width.push(2),
            _ => (),
        }
        proof {
            assert(operands_width@ =~= spec_widths(*opcode));
        }
        Some(Definition { name, operands_width })
    }
}

/// The high byte of a 16-bit big-endian operand.
pub open spec fn be_hi(n: int) -> u8 {
    (((n / 256) % 256) as u8)
}

/// The low byte of a 16-bit big-endian operand.
pub open spec fn be_lo(n: int) -> u8 {
    ((n % 256) as u8)
}

/// The bytes `make` produces: the opcode byte, then the operand in
/// big-endian order if the opcode carries one.  An operand wider than 16
/// bits keeps only its low 16 bits.
pub open spec fn spec_make(op: OpCode, operands: Seq<usize>) -> Seq<u8> {
    if operand_width(op) == 2 {
        seq![opcode_value(op), be_hi(operands[0] as int), be_lo(operands[0] as int)]
    } else {
        seq![opcode_value(op)]
    }
}

/// The number of operands an opcode expects.
pub open spec fn operand_count(op: OpCode) -> nat {
    if operand_width(op) == 2 {
        1
    } else {
        0
    }
}

/// Encodes one instruction: the opcode byte followed by each operand in
/// big-endian bytes of its declared width.  Returns `None` when the
/// operand count does not match the definition table.
pub fn make(opcode: &OpCode, operands: &Vec<usize>) -> (r: Option<Instruction>)
    ensures
        match r {
            Some(ins) => operands@.len() == operand_count(*opcode) && ins@ == spec_make(
                *opcode,
                operands@,
            ),
            None => operands@.len() != operand_count(*opcode),
        },
{
    let mut bytes: Vec<u8> = Vec::new();
    bytes.push(opcode_to_byte(opcode));
    let d = Definition::lookup(opcode);
    match d {
        Some(definition) => {
            if definition.operands_width.len() != operands.len() {
                return None;
            }
            if definition.operands_width.len() == 1 {
                let operand = operands[0];
                bytes.push(((operand / 256) % 256) as u8);
                bytes.push((operand % 256) as u8);
            }
            proof {
                assert(bytes@ =~= spec_make(*opcode, operands@));
            }
            Some(Instruction(bytes))
        },
        None => None,
    }
}

/// The value of a big-endian `u16` at offset `i` of a byte buffer.
pub open spec fn spec_read_u16(bytes: Seq<u8>, i: int) -> u16 {
    ((bytes[i] as u16) * 256 + bytes[i + 1] as u16) as u16
}

/// Reads a big-endian `u16` from the first two bytes of a buffer.
pub fn read_unit16(instruction: &[u8]) -> (r: u16)
    requires
        instruction@.len() >= 2,
    ensures
        r == spec_read_u16(instruction@, 0),
{
    let hi = instruction[0];
    let lo = instruction[1];
    (hi as u16) * 256 + (lo as u16)
}

/// The operand values `read_operhands` decodes for the given widths, and
/// the total number of bytes they span.
pub open spec fn spec_read_operands(widths: Seq<u8>, bytes: Seq<u8>) -> Seq<usize> {
    if widths.len() == 1 {
        seq![spec_read_u16(bytes, 0) as usize]
    } else {
        Seq::<usize>::empty()
    }
}

/// The total width in bytes of a definition's operands.
pub open spec fn spec_total_width(widths: Seq<u8>) -> nat {
    if widths.len() == 1 {
        2
    } else {
        0
    }
}

/// Decodes the operands that follow an opcode byte, per the definition's
/// width list; returns the values and the total number of bytes read.
pub fn read_operhands(definition: &Definition, instruction: &[u8]) -> (r: (Vec<usize>, usize))
    requires
        definition.operands_width@.len() <= 1,
        definition.operands_width@.len() == 1 ==> definition.operands_width@[0] == 2,
        instruction@.len() >= spec_total_width(definition.operands_width@),
    ensures
        r.0@ == spec_read_operands(definition.operands_width@, instruction@),
        r.1 == spec_total_width(definition.operands_width@),
{
    let mut operhand: Vec<usize> = Vec::new();
    let mut offset: usize = 0;
    if definition.operands_width.len() == 1 {
        let op = read_unit16(instruction) as usize;
        operhand.push(op);
        offset = 2;
    }
    proof {
        assert(operhand@ =~= spec_read_operands(definition.operands_width@, instruction@));
    }
    (operhand, offset)
}

/// Every position from `i` to the end of the buffer starts a decodable
/// instruction: a known opcode byte whose operand bytes are all present.
pub open spec fn decodable_from(code: Seq<u8>, i: nat) -> bool
    decreases code.len() - i,
{
    if i >= code.len() {
        i == code.len()
    } else {
        match opcode_of_byte(code[i as int]) {
            None => false,
            Some(op) => i + instr_size(op) <= code.len() && decodable_from(
                code,
                i + instr_size(op),
            ),
        }
    }
}

/// One line of disassembly: the four-digit byte offset, the opcode name,
/// then the operand value when the opcode carries one.
pub open spec fn spec_disasm_line(code: Seq<u8>, i: nat, op: OpCode) -> Seq<char> {
    dec_digits_pad4(i) + " "@ + opcode_name(op) + (if operand_width(op) == 2 {
        " "@ + dec_digits(spec_read_u16(code, i + 1 as int) as nat)
    } else {
        Seq::<char>::empty()
    }) + "\n"@
}

/// The disassembly text from position `i` to the end of the buffer, one
/// line per instruction.
pub open spec fn spec_disasm(code: Seq<u8>, i: nat) -> Seq<char>
    decreases code.len() - i,
{
    if i >= code.len() {
        Seq::<char>::empty()
    } else {
        match opcode_of_byte(code[i as int]) {
            None => Seq::<char>::empty(),
            Some(op) => if i + instr_size(op) <= code.len() {
                spec_disasm_line(code, i, op) + spec_disasm(code, i + instr_size(op))
            } else {
                Seq::<char>::empty()
            },
        }
    }
}

impl Instruction {
    /// Disassembles the buffer: one line per instruction, each holding the
    /// four-digit offset, the opcode name, and the operand if there is one.
    pub fn render(&self) -> (r: String)
        requires
            decodable_from(self@, 0),
        ensures
            r@ == spec_disasm(self@, 0),
    {
        let len = self.0.len();
        let mut out = String::new();
        let mut i: usize = 0;
        while i < len
            invariant
                len == self@.len(),
                i <= len,
                decodable_from(self@, i as nat),
                out@ + spec_disasm(self@, i as nat) == spec_disasm(self@, 0),
            decreases len - i,
        {
            let ghost prefix = out@;
            let b = self.0[i];
            match opcode_from_byte(b) {
                None => {
                    proof {
                        assert(false);
                    }
                },
                Some(op) => {
                    let offset_text = dec_string_pad4(i as u64);
                    out.append(offset_text.as_str());
                    out.append(" ");
                    let name = opcode_name_string(&op);
                    out.append(name.as_str());
                    let width = match op {
                        OpCode::OpConstant => 2,
                        OpCode::OpJumpNotTruthy => 2,
                        OpCode::OpJump => 2,
                        OpCode::OpSetGlobal => 2,
                        OpCode::OpGetGlobal => 2,
                        _ => 0,
                    };
                    if width == 2 {
                        let hi = self.0[i + 1];
                        let lo = self.0[i + 2];
                        let value: u16 = (hi as u16) * 256 + (lo as u16);
                        out.append(" ");
                        let value_text = dec_string(value as u64);
                        out.append(value_text.as_str());
                    }
                    out.append("\n");
                    proof {
                        assert(out@ =~= prefix + spec_disasm_line(self@, i as nat, op));
                        assert(out@ + spec_disasm(self@, i as nat + instr_size(op)) =~= prefix
                            + spec_disasm(self@, i as nat));
                    }
                    i = i + 1 + width;
                },
            }
        }
        proof {
            assert(out@ =~= spec_disasm(self@, 0));
        }
        out
    }
}

/// Reading back what `make` encoded returns the operand values bit-exactly:
/// for an opcode with a 16-bit operand, decoding the bytes after the opcode
/// byte yields the value given to `make`, and the disassembly line prints
/// it; opcodes without operands encode to their opcode byte alone.
pub proof fn lemma_codec_round_trip(op: OpCode, operands: Seq<usize>)
    requires
        operands.len() == operand_count(op),
        forall|k: int| 0 <= k < operands.len() ==> (#[trigger] operands[k]) < 0x10000,
    ensures
        spec_read_operands(spec_widths(op), spec_make(op, operands).skip(1)) == operands,
        spec_make(op, operands).len() == instr_size(op),
        operand_width(op) == 2 ==> spec_disasm(spec_make(op, operands), 0) == spec_disasm_line(
            spec_make(op, operands),
            0,
            op,
        ) && spec_read_u16(spec_make(op, operands), 1) == operands[0],
{
    let code = spec_make(op, operands);
    if operand_width(op) == 2 {
        let v = operands[0] as int;
        assert(v / 256 < 256) by {
            assert(v < 0x10000);
        };
        assert((v / 256) % 256 == v / 256);
        assert((be_hi(v) as int) * 256 + (be_lo(v) as int) == v) by {
            vstd::arithmetic::div_mod::lemma_fundamental_div_mod(v, 256);
        };
        assert(code.skip(1) =~= seq![be_hi(v), be_lo(v)]);
        assert(spec_read_u16(code, 1) == operands[0]);
        assert(spec_read_operands(spec_widths(op), code.skip(1)) =~= operands);
        lemma_opcode_byte_round_trip(op);
        assert(spec_disasm(code, instr_size(op)) =~= Seq::<char>::empty());
    } else {
        assert(spec_read_operands(spec_widths(op), code.skip(1)) =~= operands);
    }
}

} // verus!
