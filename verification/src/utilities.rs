//! Operand extraction from a 16-bit instruction word: register indices sit in
//! fixed nibbles, immediates in the low byte.

use vstd::prelude::*;

use crate::chip8::{ExecutionFault, InstructionExecutionError, REGISTERS_COUNT};

verus! {

/// First register operand: bits 8..12 of the word.
pub open spec fn spec_reg_x(word: u16) -> u16 {
    (word >> 8) & 0x000F
}

/// Second register operand: bits 4..8 of the word.
pub open spec fn spec_reg_y(word: u16) -> u16 {
    (word >> 4) & 0x000F
}

/// Immediate byte operand: the low 8 bits of the word.
pub open spec fn spec_imm_val(word: u16) -> u8 {
    (word & 0x00FF) as u8
}

/// Address operand: the low 12 bits of the word.
pub open spec fn spec_addr(word: u16) -> u16 {
    word & 0x0FFF
}

/// Height operand of a sprite draw: the low 4 bits of the word.
pub open spec fn spec_height(word: u16) -> u16 {
    word & 0x000F
}

/// Extracts the two register operands. A 4-bit field is always a valid
/// register index, so the range check never fires and the call always
/// succeeds.
pub fn get_registers(instruction_bytes: u16) -> (r: Result<
    (usize, usize),
    InstructionExecutionError,
>)
    ensures
        r == Ok::<(usize, usize), InstructionExecutionError>(
            (spec_reg_x(instruction_bytes) as usize, spec_reg_y(instruction_bytes) as usize),
        ),
        spec_reg_x(instruction_bytes) < REGISTERS_COUNT,
        spec_reg_y(instruction_bytes) < REGISTERS_COUNT,
{
    proof {
        assert((instruction_bytes >> 8) & 0x000F < 16 && (instruction_bytes >> 4) & 0x000F < 16)
            by (bit_vector);
    }
    let idx_x = ((instruction_bytes >> 8) & 0x000F) as usize;
    let idx_y = ((instruction_bytes >> 4) & 0x000F) as usize;

    if idx_x >= REGISTERS_COUNT || idx_y >= REGISTERS_COUNT {
        Err(InstructionExecutionError(ExecutionFault::RegisterIndexOutOfRange))
    } else {
        Ok((idx_x, idx_y))
    }
}

/// Extracts the first register operand together with the immediate byte. As
/// with `get_registers`, the range check can never fire.
pub fn get_register_and_value(instruction_bytes: u16) -> (r: Result<
    (usize, u8),
    InstructionExecutionError,
>)
    ensures
        r == Ok::<(usize, u8), InstructionExecutionError>(
            (spec_reg_x(instruction_bytes) as usize, spec_imm_val(instruction_bytes)),
        ),
        spec_reg_x(instruction_bytes) < REGISTERS_COUNT,
{
    proof {
        assert((instruction_bytes >> 8) & 0x000F < 16) by (bit_vector);
        assert(instruction_bytes & 0x00FF < 256) by (bit_vector);
    }
    let idx = ((instruction_bytes >> 8) & 0x000F) as usize;
    let val = (instruction_bytes & 0x00FF) as u8;

    if idx >= REGISTERS_COUNT {
        Err(InstructionExecutionError(ExecutionFault::RegisterIndexOutOfRange))
    } else {
        Ok((idx, val))
    }
}

} // verus!
