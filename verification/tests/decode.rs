use chip8_vm::opcodes::{Opcodes, UnknownOpcode};

fn ok(word: u16) -> Opcodes {
    Opcodes::decode(word).unwrap()
}

#[test]
fn decode_system_family() {
    assert_eq!(ok(0x0000), Opcodes::SysExecute);
    assert_eq!(ok(0x00E0), Opcodes::ClearScreen);
    assert_eq!(ok(0x00EE), Opcodes::Return);
}

#[test]
fn decode_direct_families() {
    assert_eq!(ok(0x1234), Opcodes::JumpTo);
    assert_eq!(ok(0x2ABC), Opcodes::SubRoutineExecute);
    assert_eq!(ok(0x3155), Opcodes::SkipIfEqualVal);
    assert_eq!(ok(0x4155), Opcodes::SkipIfNotEqualVal);
    assert_eq!(ok(0x5120), Opcodes::SkipIfEqualReg);
    assert_eq!(ok(0x6A42), Opcodes::StoreValInReg);
    assert_eq!(ok(0x7A42), Opcodes::AddValToReg);
    assert_eq!(ok(0x9120), Opcodes::SkipIfNotEqualReg);
    assert_eq!(ok(0xA123), Opcodes::StoreMemoryInAddr);
    assert_eq!(ok(0xB123), Opcodes::JumpToAddr);
    assert_eq!(ok(0xC1FF), Opcodes::SetRandomNum);
    assert_eq!(ok(0xD125), Opcodes::DrawSprite);
}

#[test]
fn decode_arithmetic_family() {
    assert_eq!(ok(0x8120), Opcodes::StoreRegInReg);
    assert_eq!(ok(0x8121), Opcodes::ORReg);
    assert_eq!(ok(0x8122), Opcodes::ANDReg);
    assert_eq!(ok(0x8123), Opcodes::XORReg);
    assert_eq!(ok(0x8124), Opcodes::AddRegToReg);
    assert_eq!(ok(0x8125), Opcodes::SubRegFromReg);
    assert_eq!(ok(0x8126), Opcodes::StoreRegInRegShiftRight);
    assert_eq!(ok(0x8127), Opcodes::SetRegMinusReg);
    assert_eq!(ok(0x812E), Opcodes::StoreRegInRegShiftLeft);
}

#[test]
fn decode_key_family() {
    assert_eq!(ok(0xE19E), Opcodes::SkipIfPressed);
    assert_eq!(ok(0xE1A1), Opcodes::SkipIfNotPressed);
}

#[test]
fn decode_timer_family() {
    assert_eq!(ok(0xF107), Opcodes::StoreDelayTimer);
    assert_eq!(ok(0xF10A), Opcodes::WaitKeypress);
    assert_eq!(ok(0xF115), Opcodes::SetDelayTimer);
    assert_eq!(ok(0xF118), Opcodes::SetSoundTimer);
    assert_eq!(ok(0xF11E), Opcodes::AddValueToRegI);
    assert_eq!(ok(0xF129), Opcodes::SetIReg);
    assert_eq!(ok(0xF133), Opcodes::StoreBCD);
    assert_eq!(ok(0xF155), Opcodes::StoreRegsInMemoryFromRegI);
    assert_eq!(ok(0xF165), Opcodes::FillRegsInMemoryFromRegI);
}

#[test]
fn decode_rejects_words_outside_the_table() {
    for word in [0x0001u16, 0x00E1, 0x0123, 0x8128, 0x812F, 0xE100, 0xE19F, 0xF100, 0xF119, 0xF1FF]
    {
        assert_eq!(Opcodes::decode(word), Err(UnknownOpcode(word)));
    }
}
