use chip8_vm::chip8::{
    Chip8, ExecutionFault, FatalError, LoadInMemoryError, PcOutOfMemoryBounds, LOADING_POINT,
    MEMORY_SIZE,
};
use chip8_vm::opcodes::{Opcodes, UnknownOpcode};

fn machine(program: Vec<u8>) -> Chip8 {
    Chip8::new(program).unwrap()
}

fn step(m: &mut Chip8, word: u16) -> isize {
    let op = Opcodes::decode(word).unwrap();
    m.execute_instruction(op, word, 0).unwrap()
}

fn step_err(m: &mut Chip8, word: u16) -> ExecutionFault {
    let op = Opcodes::decode(word).unwrap();
    m.execute_instruction(op, word, 0).unwrap_err().fault()
}

#[test]
fn load_at_capacity_succeeds_one_more_fails() {
    let fits = vec![0u8; MEMORY_SIZE - LOADING_POINT];
    assert!(Chip8::new(fits).is_ok());
    let too_large = vec![0u8; MEMORY_SIZE - LOADING_POINT + 1];
    assert_eq!(Chip8::new(too_large).unwrap_err(), LoadInMemoryError);
}

#[test]
fn construction_loads_font_and_program() {
    let m = machine(vec![0x12, 0x34, 0x56]);
    assert_eq!(m.memory_at(0), 0xF0);
    assert_eq!(m.memory_at(4), 0xF0);
    assert_eq!(m.memory_at(79), 0x80);
    assert_eq!(m.memory_at(0x200), 0x12);
    assert_eq!(m.memory_at(0x201), 0x34);
    assert_eq!(m.memory_at(0x202), 0x56);
    assert_eq!(m.memory_at(0x203), 0x00);
    assert_eq!(m.pc(), 0x200);
}

#[test]
fn store_and_add_immediate() {
    let mut m = machine(vec![]);
    step(&mut m, 0x6A42);
    assert_eq!(m.register(0xA), 0x42);
    step(&mut m, 0x7A01);
    assert_eq!(m.register(0xA), 0x43);
    step(&mut m, 0x7AFF);
    assert_eq!(m.register(0xA), 0x42);
    assert_eq!(m.pc(), 0x206);
}

#[test]
fn add_with_carry_wraps_and_sets_vf() {
    let mut m = machine(vec![]);
    step(&mut m, 0x60FF);
    step(&mut m, 0x6101);
    step(&mut m, 0x8014);
    assert_eq!(m.register(0), 0x00);
    assert_eq!(m.register(0xF), 1);
}

#[test]
fn add_without_carry_clears_vf() {
    let mut m = machine(vec![]);
    step(&mut m, 0x6001);
    step(&mut m, 0x6101);
    step(&mut m, 0x8014);
    assert_eq!(m.register(0), 0x02);
    assert_eq!(m.register(0xF), 0);
}

#[test]
fn subtract_sets_flag_when_minuend_greater() {
    let mut m = machine(vec![]);
    step(&mut m, 0x6009);
    step(&mut m, 0x6105);
    step(&mut m, 0x8015);
    assert_eq!(m.register(0), 4);
    assert_eq!(m.register(0xF), 1);
    step(&mut m, 0x6005);
    step(&mut m, 0x6109);
    step(&mut m, 0x8015);
    assert_eq!(m.register(0), 252);
    assert_eq!(m.register(0xF), 0);
}

#[test]
fn reversed_subtract_sets_flag_when_minuend_greater() {
    let mut m = machine(vec![]);
    step(&mut m, 0x6005);
    step(&mut m, 0x6109);
    step(&mut m, 0x8017);
    assert_eq!(m.register(0), 4);
    assert_eq!(m.register(0xF), 1);
}

#[test]
fn shifts_take_value_and_flag_from_source_register() {
    let mut m = machine(vec![]);
    step(&mut m, 0x6181);
    step(&mut m, 0x8016);
    assert_eq!(m.register(0), 0x40);
    assert_eq!(m.register(0xF), 1);
    step(&mut m, 0x801E);
    assert_eq!(m.register(0), 0x02);
    assert_eq!(m.register(0xF), 1);
}

#[test]
fn bitwise_register_ops() {
    let mut m = machine(vec![]);
    step(&mut m, 0x60F0);
    step(&mut m, 0x613C);
    step(&mut m, 0x8011);
    assert_eq!(m.register(0), 0xFC);
    step(&mut m, 0x60F0);
    step(&mut m, 0x8012);
    assert_eq!(m.register(0), 0x30);
    step(&mut m, 0x8013);
    assert_eq!(m.register(0), 0x0C);
}

#[test]
fn skip_instructions_advance_by_four_when_taken() {
    let mut m = machine(vec![]);
    step(&mut m, 0x6007);
    let pc = m.pc();
    step(&mut m, 0x3007);
    assert_eq!(m.pc(), pc + 4);
    let pc = m.pc();
    step(&mut m, 0x3008);
    assert_eq!(m.pc(), pc + 2);
    let pc = m.pc();
    step(&mut m, 0x4008);
    assert_eq!(m.pc(), pc + 4);
    step(&mut m, 0x6107);
    let pc = m.pc();
    step(&mut m, 0x5010);
    assert_eq!(m.pc(), pc + 4);
    let pc = m.pc();
    step(&mut m, 0x9010);
    assert_eq!(m.pc(), pc + 2);
}

#[test]
fn jumps_set_pc_directly() {
    let mut m = machine(vec![]);
    step(&mut m, 0x1234);
    assert_eq!(m.pc(), 0x234);
    step(&mut m, 0x6005);
    step(&mut m, 0xB300);
    assert_eq!(m.pc(), 0x305);
}

#[test]
fn call_then_return_restores_pc_after_call() {
    let mut m = machine(vec![]);
    step(&mut m, 0x2400);
    assert_eq!(m.pc(), 0x400);
    assert_eq!(m.stack_depth(), 1);
    step(&mut m, 0x00EE);
    assert_eq!(m.pc(), 0x202);
    assert_eq!(m.stack_depth(), 0);
}

#[test]
fn sixteen_nested_calls_succeed_seventeenth_overflows() {
    let mut m = machine(vec![]);
    for _ in 0..16 {
        step(&mut m, 0x2400);
    }
    assert_eq!(m.stack_depth(), 16);
    assert_eq!(step_err(&mut m, 0x2400), ExecutionFault::StackOverflow);
    assert_eq!(m.stack_depth(), 16);
}

#[test]
fn return_on_empty_stack_underflows() {
    let mut m = machine(vec![]);
    assert_eq!(step_err(&mut m, 0x00EE), ExecutionFault::StackUnderflow);
}

#[test]
fn random_masks_the_drawn_byte() {
    let mut m = machine(vec![]);
    let op = Opcodes::decode(0xC00F).unwrap();
    m.execute_instruction(op, 0xC00F, 0xAB).unwrap();
    assert_eq!(m.register(0), 0x0B);
    let op = Opcodes::decode(0xC100).unwrap();
    m.execute_instruction(op, 0xC100, 0xFF).unwrap();
    assert_eq!(m.register(1), 0x00);
}

#[test]
fn draw_blits_font_glyph_into_framebuffer() {
    let mut m = machine(vec![]);
    step(&mut m, 0xD015);
    let g = m.gfx();
    assert_eq!(g[0], 0xF0);
    assert_eq!(g[8], 0x90);
    assert_eq!(g[16], 0x90);
    assert_eq!(g[24], 0x90);
    assert_eq!(g[32], 0xF0);
    assert_eq!(m.register(0xF), 0);
}

#[test]
fn draw_splits_across_byte_columns_and_wraps() {
    let mut m = machine(vec![]);
    step(&mut m, 0x6099);
    step(&mut m, 0xA300);
    step(&mut m, 0xF055);
    assert_eq!(m.memory_at(0x300), 0x99);
    step(&mut m, 0x603C);
    step(&mut m, 0x6100);
    step(&mut m, 0xD011);
    let g = m.gfx();
    assert_eq!(g[7], 0x09);
    assert_eq!(g[0], 0x90);
}

#[test]
fn clear_screen_zeroes_the_bitmap() {
    let mut m = machine(vec![]);
    step(&mut m, 0xD015);
    assert!(m.gfx().iter().any(|&b| b != 0));
    step(&mut m, 0x00E0);
    assert!(m.gfx().iter().all(|&b| b == 0));
}

#[test]
fn drawing_twice_collides_and_restores_the_screen() {
    let mut m = machine(vec![]);
    step(&mut m, 0xD015);
    assert_eq!(m.register(0xF), 0);
    step(&mut m, 0xD015);
    assert_eq!(m.register(0xF), 1);
    assert!(m.gfx().iter().all(|&b| b == 0));
}

#[test]
fn skip_if_pressed_reads_the_keypad() {
    let mut m = machine(vec![]);
    m.handle_key(5, true);
    step(&mut m, 0x6005);
    let pc = m.pc();
    step(&mut m, 0xE09E);
    assert_eq!(m.pc(), pc + 4);
    let pc = m.pc();
    step(&mut m, 0xE0A1);
    assert_eq!(m.pc(), pc + 2);
    m.handle_key(5, false);
    let pc = m.pc();
    step(&mut m, 0xE09E);
    assert_eq!(m.pc(), pc + 2);
}

#[test]
fn key_code_outside_keypad_faults() {
    let mut m = machine(vec![]);
    step(&mut m, 0x6020);
    assert_eq!(step_err(&mut m, 0xE09E), ExecutionFault::KeyOutOfRange);
}

#[test]
fn timers_store_and_load() {
    let mut m = machine(vec![]);
    step(&mut m, 0x6030);
    step(&mut m, 0xF015);
    assert_eq!(m.delay(), 0x30);
    step(&mut m, 0xF018);
    assert_eq!(m.sound(), 0x30);
    step(&mut m, 0xF207);
    assert_eq!(m.register(2), 0x30);
}

#[test]
fn address_register_ops() {
    let mut m = machine(vec![]);
    step(&mut m, 0xA123);
    assert_eq!(m.i_reg(), 0x123);
    step(&mut m, 0x6003);
    step(&mut m, 0xF01E);
    assert_eq!(m.i_reg(), 0x126);
    step(&mut m, 0x610A);
    step(&mut m, 0xF129);
    assert_eq!(m.i_reg(), 50);
}

#[test]
fn bcd_decomposes_into_three_digits() {
    let mut m = machine(vec![]);
    step(&mut m, 0x63EA);
    step(&mut m, 0xA300);
    step(&mut m, 0xF333);
    assert_eq!(m.memory_at(0x300), 2);
    assert_eq!(m.memory_at(0x301), 3);
    assert_eq!(m.memory_at(0x302), 4);
}

#[test]
fn register_dump_and_load_round_trip() {
    let mut m = machine(vec![]);
    step(&mut m, 0x6011);
    step(&mut m, 0x6122);
    step(&mut m, 0x6233);
    step(&mut m, 0xA300);
    step(&mut m, 0xF255);
    assert_eq!(m.memory_at(0x300), 0x11);
    assert_eq!(m.memory_at(0x301), 0x22);
    assert_eq!(m.memory_at(0x302), 0x33);
    step(&mut m, 0x6000);
    step(&mut m, 0x6100);
    step(&mut m, 0x6200);
    step(&mut m, 0xF265);
    assert_eq!(m.register(0), 0x11);
    assert_eq!(m.register(1), 0x22);
    assert_eq!(m.register(2), 0x33);
}

#[test]
fn memory_access_past_the_end_faults() {
    let mut m = machine(vec![]);
    step(&mut m, 0xAFFF);
    assert_eq!(step_err(&mut m, 0xF333), ExecutionFault::AddressOutOfBounds);
    assert_eq!(step_err(&mut m, 0xF055), ExecutionFault::AddressOutOfBounds);
    assert_eq!(step_err(&mut m, 0xF065), ExecutionFault::AddressOutOfBounds);
    assert_eq!(step_err(&mut m, 0xD001), ExecutionFault::AddressOutOfBounds);
}

#[test]
fn cycle_runs_the_loaded_program() {
    let mut m = machine(vec![0x60, 0x05]);
    m.cycle(0).unwrap();
    assert_eq!(m.register(0), 5);
    assert_eq!(m.pc(), 0x202);
}

#[test]
fn cycle_surfaces_decode_errors() {
    let mut m = machine(vec![0x01, 0x23]);
    assert_eq!(
        m.cycle(0),
        Err(FatalError::Decode(UnknownOpcode(0x0123)))
    );
}

#[test]
fn cycle_surfaces_pc_out_of_bounds() {
    let mut m = machine(vec![0x1F, 0xFF]);
    assert_eq!(
        m.cycle(0),
        Err(FatalError::OutOfBounds(PcOutOfMemoryBounds(0xFFF)))
    );
}

#[test]
fn wait_for_key_blocks_until_a_key_appears() {
    let mut m = machine(vec![0xF1, 0x0A]);
    m.cycle(0).unwrap();
    assert_eq!(m.pc(), 0x200);
    m.cycle(0).unwrap();
    assert_eq!(m.pc(), 0x200);
    m.cycle(1 << 5).unwrap();
    assert_eq!(m.pc(), 0x202);
    assert_eq!(m.register(1), 5);
}

#[test]
fn wait_for_key_takes_the_lowest_pressed_key() {
    let mut m = machine(vec![0xF1, 0x0A]);
    m.cycle((1 << 9) | (1 << 3)).unwrap();
    assert_eq!(m.register(1), 3);
}

#[test]
fn delay_timer_decrements_once_per_cycle_to_zero() {
    let mut m = machine(vec![0x61, 0x05, 0xF1, 0x15]);
    m.cycle(0).unwrap();
    assert_eq!(m.delay(), 5);
    for expected in [4, 3, 2, 1, 0, 0, 0] {
        m.cycle(0).unwrap();
        assert_eq!(m.delay(), expected);
    }
}

#[test]
fn tone_pulses_once_when_sound_timer_passes_one() {
    let mut m = machine(vec![0x61, 0x01, 0xF1, 0x18]);
    m.cycle(0).unwrap();
    assert!(!m.tone());
    m.cycle(0).unwrap();
    assert!(m.tone());
    assert!(!m.tone());
    assert_eq!(m.sound(), 0);
    m.cycle(0).unwrap();
    assert!(!m.tone());
}

#[test]
fn identical_inputs_give_identical_frames() {
    let program = vec![
        0x60, 0x03, 0x61, 0x07, 0x80, 0x14, 0xA0, 0x00, 0xD0, 0x15, 0x30, 0x0A, 0x12, 0x00,
    ];
    let mut a = machine(program.clone());
    let mut b = machine(program);
    for _ in 0..3 {
        a.cycle(0).unwrap();
        b.cycle(0).unwrap();
    }
    assert_eq!(a.pc(), b.pc());
    assert_eq!(a.i_reg(), b.i_reg());
    assert_eq!(a.gfx(), b.gfx());
    for r in 0..16 {
        assert_eq!(a.register(r), b.register(r));
    }
}
