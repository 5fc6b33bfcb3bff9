//! Machine-wide laws: properties that relate several operations of the
//! machine, stated over the same spec functions the operations' own
//! contracts use, and proved once for all states.

use vstd::prelude::*;

use crate::chip8::{
    spec_blit_collision, spec_blit_gfx, spec_blit_mask, spec_cycle, spec_first_key,
    spec_frame_setup, spec_step, wrap16, Chip8View, ExecutionFault, GFX_SIZE, KEYS_SIZE,
};
use crate::stack::STACK_SIZE;
use crate::opcodes::Opcodes;
use crate::utilities::{spec_addr, spec_reg_x};

verus! {

/// Clearing the screen always succeeds and leaves every byte of the packed
/// framebuffer zero, whatever was drawn before.
pub proof fn lemma_clear_screen(s: Chip8View, word: u16, rnd: u8)
    ensures
        spec_step(s, Opcodes::ClearScreen, word, rnd) is Ok,
        forall|k: int|
            0 <= k < GFX_SIZE ==> spec_step(s, Opcodes::ClearScreen, word, rnd)->Ok_0.0.gfx[k]
                == 0u8,
{
}

/// A subroutine call below full depth jumps to its 12-bit target, and the
/// return that follows restores the stack and leaves the program counter at
/// the instruction immediately after the call, for any valid call target.
pub proof fn lemma_call_return(s: Chip8View, call_word: u16, ret_word: u16, ra: u8, rb: u8)
    requires
        s.stack.len() < STACK_SIZE,
    ensures
        spec_step(s, Opcodes::SubRoutineExecute, call_word, ra) is Ok,
        ({
            let s1 = spec_step(s, Opcodes::SubRoutineExecute, call_word, ra)->Ok_0.0;
            &&& s1.pc == spec_addr(call_word)
            &&& spec_step(s1, Opcodes::Return, ret_word, rb) is Ok
            &&& spec_step(s1, Opcodes::Return, ret_word, rb)->Ok_0.0.pc == wrap16(s.pc + 2)
            &&& spec_step(s1, Opcodes::Return, ret_word, rb)->Ok_0.0.stack == s.stack
        }),
{
    let s1 = spec_step(s, Opcodes::SubRoutineExecute, call_word, ra)->Ok_0.0;
    assert(s1.stack.drop_last() =~= s.stack);
}

/// A call with the stack already at full depth fails with stack overflow
/// and nothing else.
pub proof fn lemma_call_overflow(s: Chip8View, word: u16, rnd: u8)
    requires
        s.stack.len() >= STACK_SIZE,
    ensures
        spec_step(s, Opcodes::SubRoutineExecute, word, rnd) == Err::<
            (Chip8View, int),
            ExecutionFault,
        >(ExecutionFault::StackOverflow),
{
}

/// A return with an empty stack fails with stack underflow and nothing
/// else.
pub proof fn lemma_return_underflow(s: Chip8View, word: u16, rnd: u8)
    requires
        s.stack.len() == 0,
    ensures
        spec_step(s, Opcodes::Return, word, rnd) == Err::<(Chip8View, int), ExecutionFault>(
            ExecutionFault::StackUnderflow,
        ),
{
}

/// What the scan that `spec_first_key` makes guarantees: its result is the
/// lowest-indexed pressed key at or after `j`, or `KEYS_SIZE` when nothing
/// at or after `j` is pressed.
pub proof fn lemma_first_key_props(keys: Seq<bool>, j: int)
    requires
        0 <= j <= KEYS_SIZE,
        keys.len() == KEYS_SIZE,
    ensures
        j <= spec_first_key(keys, j) <= KEYS_SIZE,
        spec_first_key(keys, j) < KEYS_SIZE ==> keys[spec_first_key(keys, j)],
        forall|m: int| j <= m < spec_first_key(keys, j) ==> !keys[m],
        spec_first_key(keys, j) == KEYS_SIZE ==> forall|m: int| j <= m < KEYS_SIZE ==> !keys[m],
    decreases KEYS_SIZE - j,
{
    if j < KEYS_SIZE && !keys[j] {
        lemma_first_key_props(keys, j + 1);
    }
}

/// Wait-for-key is a poll, not a suspend: with no key pressed the machine
/// is returned unchanged — the program counter does not advance, so the
/// same instruction runs again — and once any key is pressed, the lowest
/// pressed key code lands in the operand register and the program counter
/// advances past the instruction.
pub proof fn lemma_wait_key(s: Chip8View, word: u16, rnd: u8)
    requires
        s.keys.len() == KEYS_SIZE,
    ensures
        (forall|j: int| 0 <= j < KEYS_SIZE ==> !s.keys[j]) ==> spec_step(
            s,
            Opcodes::WaitKeypress,
            word,
            rnd,
        ) == Ok::<(Chip8View, int), ExecutionFault>((s, 200)),
        (exists|j: int| 0 <= j < KEYS_SIZE && s.keys[j]) ==> ({
            let f = spec_first_key(s.keys, 0);
            let s2 = spec_step(s, Opcodes::WaitKeypress, word, rnd)->Ok_0.0;
            &&& spec_step(s, Opcodes::WaitKeypress, word, rnd) is Ok
            &&& 0 <= f < KEYS_SIZE
            &&& s.keys[f]
            &&& forall|m: int| 0 <= m < f ==> !s.keys[m]
            &&& s2.registers == s.registers.update(spec_reg_x(word) as int, f as u8)
            &&& s2.pc == wrap16(s.pc + 2)
        }),
{
    lemma_first_key_props(s.keys, 0);
    if exists|j: int| 0 <= j < KEYS_SIZE && s.keys[j] {
        let j = choose|j: int| 0 <= j < KEYS_SIZE && s.keys[j];
        assert(spec_first_key(s.keys, 0) < KEYS_SIZE);
    }
}

/// Drawing the same sprite twice at the same position restores every pixel
/// (the XOR blit is its own inverse); and when the first draw reported no
/// collision while the sprite put at least one bit on screen, the second
/// draw finds those bits lit and reports a collision.
pub proof fn lemma_draw_twice(gfx: Seq<u8>, mem: Seq<u8>, i_addr: int, px: int, py: int, h: int)
    requires
        gfx.len() == GFX_SIZE,
    ensures
        spec_blit_gfx(spec_blit_gfx(gfx, mem, i_addr, px, py, h), mem, i_addr, px, py, h) == gfx,
        (!spec_blit_collision(gfx, mem, i_addr, px, py, h) && (exists|k: int|
            0 <= k < GFX_SIZE && spec_blit_mask(mem, i_addr, px, py, h, k) != 0))
            ==> spec_blit_collision(
            spec_blit_gfx(gfx, mem, i_addr, px, py, h),
            mem,
            i_addr,
            px,
            py,
            h,
        ),
{
    let g1 = spec_blit_gfx(gfx, mem, i_addr, px, py, h);
    assert forall|k: int| 0 <= k < GFX_SIZE implies spec_blit_gfx(g1, mem, i_addr, px, py, h)[k]
        == gfx[k] by {
        let m = spec_blit_mask(mem, i_addr, px, py, h, k);
        let a = gfx[k];
        assert((a ^ m) ^ m == a) by (bit_vector);
    }
    assert(spec_blit_gfx(g1, mem, i_addr, px, py, h) =~= gfx);
    if !spec_blit_collision(gfx, mem, i_addr, px, py, h) && (exists|k: int|
        0 <= k < GFX_SIZE && spec_blit_mask(mem, i_addr, px, py, h, k) != 0) {
        let k = choose|k: int| 0 <= k < GFX_SIZE && spec_blit_mask(mem, i_addr, px, py, h, k) != 0;
        let m = spec_blit_mask(mem, i_addr, px, py, h, k);
        let a = gfx[k];
        assert(a & m == 0);
        assert((a ^ m) & m != 0) by (bit_vector)
            requires
                a & m == 0,
                m != 0,
        ;
        assert((g1[k] & spec_blit_mask(mem, i_addr, px, py, h, k)) != 0);
    }
}

/// Frame budget determinism: from equal machine states, with the same key
/// snapshot and the same drawn random bytes, a frame reaches the same end
/// state — and, through the instruction count the drain result carries,
/// executes the same number of instructions.
pub proof fn lemma_cycle_deterministic(sa: Chip8View, sb: Chip8View, keys: u16, rnds: Seq<u8>)
    requires
        sa == sb,
    ensures
        spec_cycle(sa, keys, rnds) == spec_cycle(sb, keys, rnds),
{
}

/// Each frame tick decrements the delay timer by exactly one until it
/// reaches zero, where it stays.
pub proof fn lemma_timer_decrement(s: Chip8View, keys: u16)
    ensures
        s.delay_timer > 0 ==> spec_frame_setup(s, keys).delay_timer == s.delay_timer - 1,
        s.delay_timer == 0 ==> spec_frame_setup(s, keys).delay_timer == 0,
{
}

/// No instruction changes the delay timer except the one that sets it, so
/// within a frame the only decrement is the frame tick itself.
pub proof fn lemma_step_preserves_delay(s: Chip8View, op: Opcodes, word: u16, rnd: u8)
    requires
        op != Opcodes::SetDelayTimer,
    ensures
        spec_step(s, op, word, rnd) matches Ok((s2, cost)) ==> s2.delay_timer == s.delay_timer,
{
}

} // verus!
