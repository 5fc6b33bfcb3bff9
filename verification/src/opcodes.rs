//! The instruction set: a closed tagged type with one variant per operation,
//! and the decoder that maps a 16-bit instruction word to a variant.

use vstd::prelude::*;

verus! {

/// Decode failure: the 16-bit word matches no entry of the opcode table.
#[derive(Debug, Clone, Copy, PartialEq, Eq, Structural)]
pub struct UnknownOpcode(pub u16);

/// One tag per operation of the instruction set. Operand fields (register
/// indices, addresses, immediates) are extracted from the raw word at
/// execution time, so the tags carry no payload.
#[derive(Debug, Clone, Copy, PartialEq, Eq, Structural)]
pub enum Opcodes {
    SysExecute,
    ClearScreen,
    Return,
    JumpTo,
    SubRoutineExecute,
    SkipIfEqualVal,
    SkipIfNotEqualVal,
    SkipIfEqualReg,
    StoreValInReg,
    AddValToReg,
    StoreRegInReg,
    ORReg,
    ANDReg,
    XORReg,
    AddRegToReg,
    SubRegFromReg,
    StoreRegInRegShiftRight,
    SetRegMinusReg,
    StoreRegInRegShiftLeft,
    SkipIfNotEqualReg,
    StoreMemoryInAddr,
    JumpToAddr,
    SetRandomNum,
    DrawSprite,
    SkipIfPressed,
    SkipIfNotPressed,
    StoreDelayTimer,
    WaitKeypress,
    SetDelayTimer,
    SetSoundTimer,
    AddValueToRegI,
    SetIReg,
    StoreBCD,
    StoreRegsInMemoryFromRegI,
    FillRegsInMemoryFromRegI,
}

/// The fixed opcode table: the top 4 bits select a family, and the families
/// `0x0`, `0x8`, `0xE` and `0xF` resolve the exact variant by a secondary
/// match on a fixed bitmask of the low bits. Words outside the table decode
/// to `UnknownOpcode`.
pub open spec fn spec_decode(word: u16) -> Result<Opcodes, UnknownOpcode> {
    let family = word & 0xF000;
    if family == 0x0000 {
        let low = word & 0x0FFF;
        if low == 0x0000 {
            Ok(Opcodes::SysExecute)
        } else if low == 0x00E0 {
            Ok(Opcodes::ClearScreen)
        } else if low == 0x00EE {
            Ok(Opcodes::Return)
        } else {
            Err(UnknownOpcode(word))
        }
    } else if family == 0x1000 {
        Ok(Opcodes::JumpTo)
    } else if family == 0x2000 {
        Ok(Opcodes::SubRoutineExecute)
    } else if family == 0x3000 {
        Ok(Opcodes::SkipIfEqualVal)
    } else if family == 0x4000 {
        Ok(Opcodes::SkipIfNotEqualVal)
    } else if family == 0x5000 {
        Ok(Opcodes::SkipIfEqualReg)
    } else if family == 0x6000 {
        Ok(Opcodes::StoreValInReg)
    } else if family == 0x7000 {
        Ok(Opcodes::AddValToReg)
    } else if family == 0x8000 {
        let sub = word & 0xF00F;
        if sub == 0x8000 {
            Ok(Opcodes::StoreRegInReg)
        } else if sub == 0x8001 {
            Ok(Opcodes::ORReg)
        } else if sub == 0x8002 {
            Ok(Opcodes::ANDReg)
        } else if sub == 0x8003 {
            Ok(Opcodes::XORReg)
        } else if sub == 0x8004 {
            Ok(Opcodes::AddRegToReg)
        } else if sub == 0x8005 {
            Ok(Opcodes::SubRegFromReg)
        } else if sub == 0x8006 {
            Ok(Opcodes::StoreRegInRegShiftRight)
        } else if sub == 0x8007 {
            Ok(Opcodes::SetRegMinusReg)
        } else if sub == 0x800E {
            Ok(Opcodes::StoreRegInRegShiftLeft)
        } else {
            Err(UnknownOpcode(word))
        }
    } else if family == 0x9000 {
        Ok(Opcodes::SkipIfNotEqualReg)
    } else if family == 0xA000 {
        Ok(Opcodes::StoreMemoryInAddr)
    } else if family == 0xB000 {
        Ok(Opcodes::JumpToAddr)
    } else if family == 0xC000 {
        Ok(Opcodes::SetRandomNum)
    } else if family == 0xD000 {
        Ok(Opcodes::DrawSprite)
    } else if family == 0xE000 {
        let sub = word & 0xF0FF;
        if sub == 0xE09E {
            Ok(Opcodes::SkipIfPressed)
        } else if sub == 0xE0A1 {
            Ok(Opcodes::SkipIfNotPressed)
        } else {
            Err(UnknownOpcode(word))
        }
    } else {
        let sub = word & 0xF0FF;
        if sub == 0xF007 {
            Ok(Opcodes::StoreDelayTimer)
        } else if sub == 0xF00A {
            Ok(Opcodes::WaitKeypress)
        } else if sub == 0xF015 {
            Ok(Opcodes::SetDelayTimer)
        } else if sub == 0xF018 {
            Ok(Opcodes::SetSoundTimer)
        } else if sub == 0xF01E {
            Ok(Opcodes::AddValueToRegI)
        } else if sub == 0xF029 {
            Ok(Opcodes::SetIReg)
        } else if sub == 0xF033 {
            Ok(Opcodes::StoreBCD)
        } else if sub == 0xF055 {
            Ok(Opcodes::StoreRegsInMemoryFromRegI)
        } else if sub == 0xF065 {
            Ok(Opcodes::FillRegsInMemoryFromRegI)
        } else {
            Err(UnknownOpcode(word))
        }
    }
}

impl Opcodes {
    /// Decodes a 16-bit instruction word into its operation, exactly as the
    /// fixed opcode table `spec_decode` lays it out.
    pub fn decode(word: u16) -> (r: Result<Opcodes, UnknownOpcode>)
        ensures
            r == spec_decode(word),
    {
        let family = word & 0xF000;
        if family == 0x0000 {
            let low = word & 0x0FFF;
            if low == 0x0000 {
                Ok(Opcodes::SysExecute)
            } else if low == 0x00E0 {
                Ok(Opcodes::ClearScreen)
            } else if low == 0x00EE {
                Ok(Opcodes::Return)
            } else {
                Err(UnknownOpcode(word))
            }
        } else if family == 0x1000 {
            Ok(Opcodes::JumpTo)
        } else if family == 0x2000 {
            Ok(Opcodes::SubRoutineExecute)
        } else if family == 0x3000 {
            Ok(Opcodes::SkipIfEqualVal)
        } else if family == 0x4000 {
            Ok(Opcodes::SkipIfNotEqualVal)
        } else if family == 0x5000 {
            Ok(Opcodes::SkipIfEqualReg)
        } else if family == 0x6000 {
            Ok(Opcodes::StoreValInReg)
        } else if family == 0x7000 {
            Ok(Opcodes::AddValToReg)
        } else if family == 0x8000 {
            let sub = word & 0xF00F;
            if sub == 0x8000 {
                Ok(Opcodes::StoreRegInReg)
            } else if sub == 0x8001 {
                Ok(Opcodes::ORReg)
            } else if sub == 0x8002 {
                Ok(Opcodes::ANDReg)
            } else if sub == 0x8003 {
                Ok(Opcodes::XORReg)
            } else if sub == 0x8004 {
                Ok(Opcodes::AddRegToReg)
            } else if sub == 0x8005 {
                Ok(Opcodes::SubRegFromReg)
            } else if sub == 0x8006 {
                Ok(Opcodes::StoreRegInRegShiftRight)
            } else if sub == 0x8007 {
                Ok(Opcodes::SetRegMinusReg)
            } else if sub == 0x800E {
                Ok(Opcodes::StoreRegInRegShiftLeft)
            } else {
                Err(UnknownOpcode(word))
            }
        } else if family == 0x9000 {
            Ok(Opcodes::SkipIfNotEqualReg)
        } else if family == 0xA000 {
            Ok(Opcodes::StoreMemoryInAddr)
        } else if family == 0xB000 {
            Ok(Opcodes::JumpToAddr)
        } else if family == 0xC000 {
            Ok(Opcodes::SetRandomNum)
        } else if family == 0xD000 {
            Ok(Opcodes::DrawSprite)
        } else if family == 0xE000 {
            let sub = word & 0xF0FF;
            if sub == 0xE09E {
                Ok(Opcodes::SkipIfPressed)
            } else if sub == 0xE0A1 {
                Ok(Opcodes::SkipIfNotPressed)
            } else {
                Err(UnknownOpcode(word))
            }
        } else {
            let sub = word & 0xF0FF;
            if sub == 0xF007 {
                Ok(Opcodes::StoreDelayTimer)
            } else if sub == 0xF00A {
                Ok(Opcodes::WaitKeypress)
            } else if sub == 0xF015 {
                Ok(Opcodes::SetDelayTimer)
            } else if sub == 0xF018 {
                Ok(Opcodes::SetSoundTimer)
            } else if sub == 0xF01E {
                Ok(Opcodes::AddValueToRegI)
            } else if sub == 0xF029 {
                Ok(Opcodes::SetIReg)
            } else if sub == 0xF033 {
                Ok(Opcodes::StoreBCD)
            } else if sub == 0xF055 {
                Ok(Opcodes::StoreRegsInMemoryFromRegI)
            } else if sub == 0xF065 {
                Ok(Opcodes::FillRegsInMemoryFromRegI)
            } else {
                Err(UnknownOpcode(word))
            }
        }
    }
}

} // verus!
