//! The machine itself: memory image, register file, call stack, keypad,
//! timers, framebuffer, and the fetch-decode-execute loop that drives them
//! once per displayed frame.

use vstd::prelude::*;

use crate::opcodes::{spec_decode, Opcodes, UnknownOpcode};
use crate::stack::{Stack, StackError, STACK_SIZE};
use crate::utilities::{
    get_register_and_value, get_registers, spec_addr, spec_height, spec_imm_val, spec_reg_x,
    spec_reg_y,
};

verus! {

/// Total size of the byte-addressable memory image.
pub const MEMORY_SIZE: usize = 4086;

/// Number of keypad slots: key codes 0x0 through 0xF plus one sentinel slot
/// for "no key".
pub const KEYS_SIZE: usize = 17;

/// Logical framebuffer width in pixels.
pub const SCREEN_WIDTH: usize = 64;

/// Logical framebuffer height in pixels.
pub const SCREEN_HEIGHT: usize = 32;

/// Packed framebuffer size in bytes: one bit per pixel, 8 pixels per byte.
pub const GFX_SIZE: usize = SCREEN_WIDTH * SCREEN_HEIGHT / 8;

/// Number of 8-bit general purpose registers V0..VF.
pub const REGISTERS_COUNT: usize = 16;

/// Index of VF, reserved by convention for carry, borrow and collision flags.
pub const CARRY_REGISTER_IDX: usize = 0xF;

/// Offset at which a program image is loaded and where execution starts.
pub const LOADING_POINT: usize = 0x200;

/// Base address of the font sprite region in memory.
pub const FONT_ADDR: usize = 0x0000;

/// Number of bytes the 16 five-byte font glyphs occupy.
pub const FONT_SIZE: usize = 80;

/// Emulated time budget of one displayed frame, in microseconds,
/// approximating a 60 Hz refresh.
pub const FRAME_TIME: isize = 16666;

/// Construction failure: the program image does not fit in memory past the
/// loading offset.
#[derive(Debug, Clone, Copy, PartialEq, Eq, Structural)]
pub struct LoadInMemoryError;

/// Fatal fetch failure: the program counter left the memory image.
#[derive(Debug, Clone, Copy, PartialEq, Eq, Structural)]
pub struct PcOutOfMemoryBounds(pub u16);

/// The ways a single instruction can fail to execute.
#[derive(Debug, Clone, Copy, PartialEq, Eq, Structural)]
pub enum ExecutionFault {
    /// A register operand named a register outside V0..VF. A 4-bit operand
    /// field can never produce this, but the executor checks it all the same.
    RegisterIndexOutOfRange,
    /// A subroutine call found the return stack already at full depth.
    StackOverflow,
    /// A return instruction found the return stack empty.
    StackUnderflow,
    /// An instruction would have read or written memory past its end through
    /// the address register.
    AddressOutOfBounds,
    /// A keypad test named a key code outside the keypad.
    KeyOutOfRange,
}

/// Execution failure of a single instruction, fatal to the frame.
#[derive(Debug, Clone, Copy, PartialEq, Eq, Structural)]
pub struct InstructionExecutionError(pub ExecutionFault);

impl InstructionExecutionError {
    /// The fault that aborted execution.
    pub fn fault(&self) -> (r: ExecutionFault)
        ensures
            r == self.0,
    {
        self.0
    }
}

/// Any error that aborts a frame step, surfaced to the caller of `cycle`.
#[derive(Debug, Clone, Copy, PartialEq, Eq, Structural)]
pub enum FatalError {
    /// The program counter left the memory image before a fetch.
    OutOfBounds(PcOutOfMemoryBounds),
    /// The fetched word matches no opcode pattern.
    Decode(UnknownOpcode),
    /// The decoded instruction failed to execute.
    Execution(InstructionExecutionError),
}

impl From<StackError> for InstructionExecutionError {
    fn from(_value: StackError) -> Self {
        InstructionExecutionError(ExecutionFault::StackUnderflow)
    }
}

impl vstd::std_specs::convert::FromSpecImpl<StackError> for InstructionExecutionError {
    open spec fn obeys_from_spec() -> bool {
        true
    }

    open spec fn from_spec(v: StackError) -> Self {
        InstructionExecutionError(ExecutionFault::StackUnderflow)
    }
}

/// Mathematical state of the machine: every component as a plain sequence or
/// number, so contracts and laws can speak of whole machine states.
#[verifier::ext_equal]
pub struct Chip8View {
    /// Memory image, `MEMORY_SIZE` bytes.
    pub memory: Seq<u8>,
    /// General purpose registers V0..VF.
    pub registers: Seq<u8>,
    /// Address register I.
    pub i: u16,
    /// Program counter.
    pub pc: u16,
    /// Return address stack, most recent call last.
    pub stack: Seq<u16>,
    /// Delay timer, decremented once per frame until zero.
    pub delay_timer: u8,
    /// Sound timer, decremented once per frame until zero.
    pub sound_timer: u8,
    /// One-shot tone pulse, set when the sound timer passes through 1.
    pub run_sound: bool,
    /// Packed framebuffer, `GFX_SIZE` bytes.
    pub gfx: Seq<u8>,
    /// Pressed state per keypad slot.
    pub keys: Seq<bool>,
    /// Remaining time budget of the current frame, in microseconds.
    pub time: int,
}

impl Chip8View {
    /// Every component has its fixed size and the stack is within depth.
    pub open spec fn wf(self) -> bool {
        &&& self.memory.len() == MEMORY_SIZE
        &&& self.registers.len() == REGISTERS_COUNT
        &&& self.gfx.len() == GFX_SIZE
        &&& self.keys.len() == KEYS_SIZE
        &&& self.stack.len() <= STACK_SIZE
    }
}

/// The sixteen five-byte font glyphs, one per hexadecimal digit, written to
/// the low memory region at construction.
pub open spec fn spec_font() -> Seq<u8> {
    seq![
        0xF0u8, 0x90, 0x90, 0x90, 0xF0, // 0
        0x20, 0x60, 0x20, 0x20, 0x70, // 1
        0xF0, 0x10, 0xF0, 0x80, 0xF0, // 2
        0xF0, 0x10, 0xF0, 0x10, 0xF0, // 3
        0x90, 0x90, 0xF0, 0x10, 0x10, // 4
        0xF0, 0x80, 0xF0, 0x10, 0xF0, // 5
        0xF0, 0x80, 0xF0, 0x90, 0xF0, // 6
        0xF0, 0x10, 0x20, 0x40, 0x40, // 7
        0xF0, 0x90, 0xF0, 0x90, 0xF0, // 8
        0xF0, 0x90, 0xF0, 0x10, 0xF0, // 9
        0xF0, 0x90, 0xF0, 0x90, 0x90, // A
        0xE0, 0x90, 0xE0, 0x90, 0xE0, // B
        0xF0, 0x80, 0x80, 0x80, 0xF0, // C
        0xE0, 0x90, 0x90, 0x90, 0xE0, // D
        0xF0, 0x80, 0xF0, 0x80, 0xF0, // E
        0xF0, 0x80, 0xF0, 0x80, 0x80, // F
    ]
}

/// Memory image right after construction: font glyphs in the low region, the
/// program at the loading offset, zeroes everywhere else.
pub open spec fn spec_init_memory(prog: Seq<u8>) -> Seq<u8> {
    Seq::new(
        MEMORY_SIZE as nat,
        |k: int|
            if k < FONT_SIZE {
                spec_font()[k]
            } else if LOADING_POINT <= k < LOADING_POINT + prog.len() {
                prog[k - LOADING_POINT]
            } else {
                0u8
            },
    )
}

/// Machine state right after construction: zeroed registers, timers, screen
/// and keypad, empty stack, program counter at the loading offset.
pub open spec fn spec_initial(prog: Seq<u8>) -> Chip8View {
    Chip8View {
        memory: spec_init_memory(prog),
        registers: Seq::new(REGISTERS_COUNT as nat, |k: int| 0u8),
        i: 0,
        pc: LOADING_POINT as u16,
        stack: Seq::empty(),
        delay_timer: 0,
        sound_timer: 0,
        run_sound: false,
        gfx: Seq::new(GFX_SIZE as nat, |k: int| 0u8),
        keys: Seq::new(KEYS_SIZE as nat, |k: int| false),
        time: 0,
    }
}

/// The CHIP-8 machine. All mutable state is owned by one instance and
/// mutated only through instruction execution and the frame scheduler.
#[derive(Debug)]
pub struct Chip8 {
    memory: Vec<u8>,
    registers: Vec<u8>,
    i: u16,
    pc: u16,
    stack: Stack,
    delay_timer: u8,
    sound_timer: u8,
    run_sound: bool,
    gfx: Vec<u8>,
    keys: Vec<bool>,
    time: isize,
}

impl View for Chip8 {
    type V = Chip8View;

    closed spec fn view(&self) -> Chip8View {
        Chip8View {
            memory: self.memory@,
            registers: self.registers@,
            i: self.i,
            pc: self.pc,
            stack: self.stack@,
            delay_timer: self.delay_timer,
            sound_timer: self.sound_timer,
            run_sound: self.run_sound,
            gfx: self.gfx@,
            keys: self.keys@,
            time: self.time as int,
        }
    }
}

impl Chip8 {
    /// The backing vectors hold exactly their fixed sizes and the stack keeps
    /// its own storage invariant.
    pub closed spec fn wf(&self) -> bool {
        &&& self.memory@.len() == MEMORY_SIZE
        &&& self.registers@.len() == REGISTERS_COUNT
        &&& self.gfx@.len() == GFX_SIZE
        &&& self.keys@.len() == KEYS_SIZE
        &&& self.stack.wf()
    }

    /// A well-formed machine has a well-formed mathematical state.
    pub proof fn lemma_wf_view(&self)
        requires
            self.wf(),
        ensures
            self@.wf(),
    {
        self.stack.lemma_wf_len();
    }

    /// Builds the machine and loads the program image; fails if the program
    /// does not fit in memory past the loading offset.
    pub fn new(program: Vec<u8>) -> (r: Result<Chip8, LoadInMemoryError>)
        ensures
            program@.len() <= MEMORY_SIZE - LOADING_POINT ==> (r matches Ok(m) && m.wf() && m@
                == spec_initial(program@)),
            program@.len() > MEMORY_SIZE - LOADING_POINT ==> r is Err,
    {
        if program.len() > MEMORY_SIZE - LOADING_POINT {
            return Err(LoadInMemoryError);
        }
        let mut emulation = Chip8::zeroed();
        emulation.load_font_set_in_memory();
        match emulation.load_program_in_memory(&program) {
            Ok(()) => {
                proof {
                    assert(emulation@.memory =~= spec_init_memory(program@));
                    assert(emulation@ =~= spec_initial(program@));
                }
                Ok(emulation)
            },
            Err(e) => Err(e),
        }
    }

    /// All-zero machine, before the font and the program are written.
    fn zeroed() -> (r: Chip8)
        ensures
            r.wf(),
            r@ == (Chip8View {
                memory: Seq::new(MEMORY_SIZE as nat, |k: int| 0u8),
                registers: Seq::new(REGISTERS_COUNT as nat, |k: int| 0u8),
                i: 0,
                pc: LOADING_POINT as u16,
                stack: Seq::<u16>::empty(),
                delay_timer: 0,
                sound_timer: 0,
                run_sound: false,
                gfx: Seq::new(GFX_SIZE as nat, |k: int| 0u8),
                keys: Seq::new(KEYS_SIZE as nat, |k: int| false),
                time: 0,
            }),
    {
        let r = Chip8 {
            memory: filled_bytes(MEMORY_SIZE, 0),
            registers: filled_bytes(REGISTERS_COUNT, 0),
            i: 0,
            pc: 0x200,
            stack: Stack::new(),
            delay_timer: 0,
            sound_timer: 0,
            run_sound: false,
            gfx: filled_bytes(GFX_SIZE, 0),
            keys: filled_false(KEYS_SIZE),
            time: 0,
        };
        proof {
            assert(r@ =~= (Chip8View {
                memory: Seq::new(MEMORY_SIZE as nat, |k: int| 0u8),
                registers: Seq::new(REGISTERS_COUNT as nat, |k: int| 0u8),
                i: 0,
                pc: LOADING_POINT as u16,
                stack: Seq::<u16>::empty(),
                delay_timer: 0,
                sound_timer: 0,
                run_sound: false,
                gfx: Seq::new(GFX_SIZE as nat, |k: int| 0u8),
                keys: Seq::new(KEYS_SIZE as nat, |k: int| false),
                time: 0,
            }));
        }
        r
    }

    /// Writes the sixteen font glyphs to the reserved low region; nothing
    /// else changes.
    #[verifier::loop_isolation(false)]
    fn load_font_set_in_memory(&mut self)
        requires
            old(self).wf(),
        ensures
            final(self).wf(),
            final(self)@ == (Chip8View {
                memory: Seq::new(
                    MEMORY_SIZE as nat,
                    |k: int|
                        if k < FONT_SIZE {
                            spec_font()[k]
                        } else {
                            old(self)@.memory[k]
                        },
                ),
                ..old(self)@
            }),
    {
        let font: Vec<u8> = font_bytes();
        let mut p: usize = 0;
        while p < FONT_SIZE
            invariant
                old(self).wf(),
                self.wf(),
                p <= FONT_SIZE,
                font@ == spec_font(),
                self.i == old(self).i,
                self.pc == old(self).pc,
                self.stack == old(self).stack,
                self.delay_timer == old(self).delay_timer,
                self.sound_timer == old(self).sound_timer,
                self.run_sound == old(self).run_sound,
                self.registers == old(self).registers,
                self.gfx == old(self).gfx,
                self.keys == old(self).keys,
                self.time == old(self).time,
                forall|k: int|
                    0 <= k < MEMORY_SIZE ==> self@.memory[k] == (if k < p {
                        spec_font()[k]
                    } else {
                        old(self)@.memory[k]
                    }),
            decreases FONT_SIZE - p,
        {
            let ghost prev = self@.memory;
            self.memory[p] = font[p];
            proof {
                assert forall|k: int| 0 <= k < MEMORY_SIZE implies self@.memory[k] == (if k < p
                    + 1 {
                    spec_font()[k]
                } else {
                    old(self)@.memory[k]
                }) by {
                    assert(self@.memory == prev.update(p as int, spec_font()[p as int]));
                    assert(prev[k] == (if k < p {
                        spec_font()[k]
                    } else {
                        old(self)@.memory[k]
                    }));
                }
            }
            p = p + 1;
        }
        proof {
            assert(self@ =~= (Chip8View {
                memory: Seq::new(
                    MEMORY_SIZE as nat,
                    |k: int|
                        if k < FONT_SIZE {
                            spec_font()[k]
                        } else {
                            old(self)@.memory[k]
                        },
                ),
                ..old(self)@
            }));
        }
    }

    /// Copies the program bytes to memory starting at the loading offset;
    /// fails, changing nothing, if they do not fit.
    #[verifier::loop_isolation(false)]
    fn load_program_in_memory(&mut self, program: &Vec<u8>) -> (r: Result<(), LoadInMemoryError>)
        requires
            old(self).wf(),
        ensures
            final(self).wf(),
            program@.len() <= MEMORY_SIZE - LOADING_POINT ==> r is Ok && final(self)@
                == (Chip8View {
                memory: Seq::new(
                    MEMORY_SIZE as nat,
                    |k: int|
                        if LOADING_POINT <= k < LOADING_POINT + program@.len() {
                            program@[k - LOADING_POINT]
                        } else {
                            old(self)@.memory[k]
                        },
                ),
                ..old(self)@
            }),
            program@.len() > MEMORY_SIZE - LOADING_POINT ==> r is Err && final(self)@ == old(
                self,
            )@,
    {
        if program.len() > MEMORY_SIZE - LOADING_POINT {
            return Err(LoadInMemoryError);
        }
        let mut p: usize = 0;
        while p < program.len()
            invariant
                old(self).wf(),
                self.wf(),
                p <= program@.len(),
                program@.len() <= MEMORY_SIZE - LOADING_POINT,
                self.i == old(self).i,
                self.pc == old(self).pc,
                self.stack == old(self).stack,
                self.delay_timer == old(self).delay_timer,
                self.sound_timer == old(self).sound_timer,
                self.run_sound == old(self).run_sound,
                self.registers == old(self).registers,
                self.gfx == old(self).gfx,
                self.keys == old(self).keys,
                self.time == old(self).time,
                forall|k: int|
                    0 <= k < MEMORY_SIZE ==> self@.memory[k] == (if LOADING_POINT <= k
                        < LOADING_POINT + p {
                        program@[k - LOADING_POINT]
                    } else {
                        old(self)@.memory[k]
                    }),
            decreases program@.len() - p,
        {
            let ghost prev = self@.memory;
            self.memory[LOADING_POINT + p] = program[p];
            proof {
                assert forall|k: int| 0 <= k < MEMORY_SIZE implies self@.memory[k] == (if
                    LOADING_POINT <= k < LOADING_POINT + p + 1 {
                    program@[k - LOADING_POINT]
                } else {
                    old(self)@.memory[k]
                }) by {
                    assert(self@.memory == prev.update(
                        LOADING_POINT + p as int,
                        program@[p as int],
                    ));
                    assert(prev[k] == (if LOADING_POINT <= k < LOADING_POINT + p {
                        program@[k - LOADING_POINT]
                    } else {
                        old(self)@.memory[k]
                    }));
                }
            }
            p = p + 1;
        }
        proof {
            assert(self@ =~= (Chip8View {
                memory: Seq::new(
                    MEMORY_SIZE as nat,
                    |k: int|
                        if LOADING_POINT <= k < LOADING_POINT + program@.len() {
                            program@[k - LOADING_POINT]
                        } else {
                            old(self)@.memory[k]
                        },
                ),
                ..old(self)@
            }));
        }
        Ok(())
    }

    /// Reads the big-endian instruction word at the program counter.
    pub fn get_instruction_bytes(&self) -> (r: u16)
        requires
            self.wf(),
            self@.pc as int + 1 < MEMORY_SIZE,
        ensures
            r == spec_fetch(self@),
    {
        let hi = self.memory[self.pc as usize];
        let lo = self.memory[self.pc as usize + 1];
        proof {
            assert(((hi as u16) << 8) | (lo as u16) == hi as int * 256 + lo as int) by (bit_vector);
        }
        ((hi as u16) << 8) | (lo as u16)
    }

    /// Returns the one-shot tone pulse and clears it, so each pulse is
    /// observed exactly once.
    pub fn tone(&mut self) -> (r: bool)
        requires
            old(self).wf(),
        ensures
            final(self).wf(),
            r == old(self)@.run_sound,
            final(self)@ == (Chip8View { run_sound: false, ..old(self)@ }),
    {
        let current_flag = self.run_sound;
        self.run_sound = false;
        proof {
            assert(self@ =~= (Chip8View { run_sound: false, ..old(self)@ }));
        }
        current_flag
    }

    /// Records one key going down or up. The keypad has `KEYS_SIZE` slots, so
    /// the key code must be within them.
    pub fn handle_key(&mut self, key: u8, is_pressed: bool)
        requires
            old(self).wf(),
            key < KEYS_SIZE,
        ensures
            final(self).wf(),
            final(self)@ == (Chip8View {
                keys: old(self)@.keys.update(key as int, is_pressed),
                ..old(self)@
            }),
    {
        if is_pressed {
            self.keys[key as usize] = true;
        } else {
            self.keys[key as usize] = false;
        }
        proof {
            assert(self@ =~= (Chip8View {
                keys: old(self)@.keys.update(key as int, is_pressed),
                ..old(self)@
            }));
        }
    }

    /// Copy of the packed framebuffer: 64x32 pixels, one bit each, valid
    /// until the next `cycle` call.
    pub fn gfx(&self) -> (r: Vec<u8>)
        requires
            self.wf(),
        ensures
            r@ == self@.gfx,
    {
        let mut out: Vec<u8> = Vec::new();
        let mut k: usize = 0;
        while k < GFX_SIZE
            invariant
                self.wf(),
                k <= GFX_SIZE,
                out@.len() == k,
                forall|j: int| 0 <= j < k ==> out@[j] == self@.gfx[j],
            decreases GFX_SIZE - k,
        {
            out.push(self.gfx[k]);
            k = k + 1;
        }
        proof {
            assert(out@ =~= self@.gfx);
        }
        out
    }

    /// Advances the machine by one displayed frame: applies the key
    /// snapshot (bit `k` pressed means key code `k` is down), ticks the
    /// timers, then fetches, decodes and executes instructions until the
    /// frame's time budget is spent. Any fault aborts the frame and leaves
    /// the machine exactly as the fault found it. The drawn random bytes
    /// are the one outside input; for some sequence of them the whole frame
    /// is laid out by `spec_cycle`.
    #[verifier::loop_isolation(false)]
    #[verifier::rlimit(80)]
    pub fn cycle(&mut self, keys: u16) -> (r: Result<(), FatalError>)
        requires
            old(self).wf(),
        ensures
            final(self).wf(),
            exists|rnds: Seq<u8>|
                spec_cycle_matches(old(self)@, keys, rnds, final(self)@, r),
    {
        let mut k: usize = 0;
        while k < 16
            invariant
                k <= 16,
                self.wf(),
                self.memory == old(self).memory,
                self.registers == old(self).registers,
                self.i == old(self).i,
                self.pc == old(self).pc,
                self.stack == old(self).stack,
                self.delay_timer == old(self).delay_timer,
                self.sound_timer == old(self).sound_timer,
                self.run_sound == old(self).run_sound,
                self.gfx == old(self).gfx,
                self.time == old(self).time,
                forall|j: int| 0 <= j < k ==> self.keys@[j] == ((keys >> (j as u16)) & 1 == 1),
                forall|j: int| k <= j < KEYS_SIZE ==> self.keys@[j] == old(self).keys@[j],
            decreases 16 - k,
        {
            let ghost prevk = self.keys@;
            self.keys[k] = ((keys >> (k as u16)) & 1) == 1;
            proof {
                assert(self.keys@ == prevk.update(k as int, (keys >> (k as u16)) & 1 == 1));
            }
            k = k + 1;
        }
        if self.delay_timer > 0 {
            self.delay_timer = self.delay_timer - 1;
        }
        if self.sound_timer > 0 {
            if self.sound_timer == 1 {
                self.run_sound = true;
            }
            self.sound_timer = self.sound_timer - 1;
        }
        if self.time > isize::MAX - FRAME_TIME {
            self.time = isize::MAX;
        } else {
            self.time = self.time + FRAME_TIME;
        }
        let ghost s1 = self@;
        proof {
            assert(s1.keys =~= spec_frame_setup(old(self)@, keys).keys);
            assert(s1 =~= spec_frame_setup(old(self)@, keys));
        }
        let ghost mut used: Seq<u8> = Seq::<u8>::empty();
        proof {
            assert forall|rest: Seq<u8>| #[trigger] spec_drain(s1, used + rest) == spec_add_count(
                spec_drain(self@, rest),
                used.len(),
            ) by {
                assert(used + rest =~= rest);
            }
        }
        while self.time > 0
            invariant
                self.wf(),
                forall|rest: Seq<u8>| #[trigger] spec_drain(s1, used + rest) == spec_add_count(
                    spec_drain(self@, rest),
                    used.len(),
                ),
            decreases spec_fuel(self@.time),
        {
            if self.pc as usize + 1 >= MEMORY_SIZE {
                let fatal = FatalError::OutOfBounds(PcOutOfMemoryBounds(self.pc));
                proof {
                    assert(used + Seq::<u8>::empty() =~= used);
                    assert(spec_drain(s1, used) == spec_add_count(
                        spec_drain(self@, Seq::<u8>::empty()),
                        used.len(),
                    ));
                    assert(spec_cycle_matches(
                        old(self)@,
                        keys,
                        used,
                        self@,
                        Err::<(), FatalError>(fatal),
                    ));
                }
                return Err(fatal);
            }
            let word = self.get_instruction_bytes();
            let instruction = match Opcodes::decode(word) {
                Ok(op) => op,
                Err(e) => {
                    let fatal = FatalError::Decode(e);
                    proof {
                        assert(used + Seq::<u8>::empty() =~= used);
                        assert(spec_drain(s1, used) == spec_add_count(
                            spec_drain(self@, Seq::<u8>::empty()),
                            used.len(),
                        ));
                        assert(spec_cycle_matches(
                            old(self)@,
                            keys,
                            used,
                            self@,
                            Err::<(), FatalError>(fatal),
                        ));
                    }
                    return Err(fatal);
                },
            };
            let rnd: u8 = match instruction {
                Opcodes::SetRandomNum => random_byte(),
                _ => 0u8,
            };
            let ghost pre = self@;
            let overtime = match self.execute_instruction(instruction, word, rnd) {
                Ok(t) => t,
                Err(e) => {
                    let fatal = FatalError::Execution(e);
                    proof {
                        lemma_step_err_any_rnd(pre, instruction, word, rnd, 0u8);
                        assert(used + Seq::<u8>::empty() =~= used);
                        assert(spec_drain(s1, used) == spec_add_count(
                            spec_drain(self@, Seq::<u8>::empty()),
                            used.len(),
                        ));
                        assert(spec_cycle_matches(
                            old(self)@,
                            keys,
                            used,
                            self@,
                            Err::<(), FatalError>(fatal),
                        ));
                    }
                    return Err(fatal);
                },
            };
            proof {
                lemma_step_cost(pre, instruction, word, rnd);
            }
            self.time = self.time - overtime;
            proof {
                let cur = self@;
                let stepped = spec_step(pre, instruction, word, rnd)->Ok_0;
                assert(cur =~= (Chip8View { time: stepped.0.time - stepped.1, ..stepped.0 }));
                assert forall|rest: Seq<u8>| #[trigger] spec_drain(s1, used.push(rnd) + rest)
                    == spec_add_count(spec_drain(cur, rest), used.push(rnd).len()) by {
                    assert(used + (seq![rnd] + rest) =~= used.push(rnd) + rest);
                    assert(spec_drain(s1, used + (seq![rnd] + rest)) == spec_add_count(
                        spec_drain(pre, seq![rnd] + rest),
                        used.len(),
                    ));
                    assert((seq![rnd] + rest)[0] == rnd);
                    assert((seq![rnd] + rest).skip(1) =~= rest);
                    assert(spec_drain(pre, seq![rnd] + rest) == spec_add_count(
                        spec_drain(cur, rest),
                        1,
                    ));
                }
                used = used.push(rnd);
            }
        }
        proof {
            assert(used + Seq::<u8>::empty() =~= used);
            assert(spec_drain(s1, used) == spec_add_count(
                spec_drain(self@, Seq::<u8>::empty()),
                used.len(),
            ));
            assert(spec_cycle_matches(old(self)@, keys, used, self@, Ok::<(), FatalError>(())));
        }
        Ok(())
    }

    /// Applies one decoded instruction to the machine state, returning the
    /// approximate number of microseconds the original hardware would have
    /// spent on it, exactly as `spec_step` lays the transition out. `rnd` is
    /// the externally drawn random byte that the random-number instruction
    /// masks and stores; every other instruction ignores it.
    pub fn execute_instruction(
        &mut self,
        instruction: Opcodes,
        instruction_bytes: u16,
        rnd: u8,
    ) -> (r: Result<isize, InstructionExecutionError>)
        requires
            old(self).wf(),
            old(self)@.pc as int + 4 <= u16::MAX as int,
        ensures
            final(self).wf(),
            spec_step_matches(old(self)@, instruction, instruction_bytes, rnd, final(self)@, r),
    {
        match instruction {
            Opcodes::SysExecute => Ok(100),
            Opcodes::ClearScreen => {
                self.gfx = filled_bytes(GFX_SIZE, 0);
                self.pc = self.pc + 2;
                Ok(109)
            },
            Opcodes::Return => {
                match self.stack.top() {
                    Some(saved_pc) => {
                        self.pc = saved_pc;
                        let popped = self.stack.pop();
                        proof {
                            assert(popped is Ok);
                        }
                        Ok(105)
                    },
                    None => Err(InstructionExecutionError(ExecutionFault::StackUnderflow)),
                }
            },
            Opcodes::JumpTo => {
                self.pc = instruction_bytes & 0x0FFF;
                Ok(105)
            },
            Opcodes::SubRoutineExecute => {
                proof {
                    self.stack.lemma_wf_len();
                }
                match self.stack.push(self.pc + 2) {
                    Ok(()) => {
                        self.pc = instruction_bytes & 0x0FFF;
                        Ok(105)
                    },
                    Err(_) => Err(InstructionExecutionError(ExecutionFault::StackOverflow)),
                }
            },
            Opcodes::SkipIfEqualVal => {
                let (register_idx, value) = get_register_and_value(instruction_bytes)?;
                if self.registers[register_idx] == value {
                    self.pc = self.pc + 4;
                } else {
                    self.pc = self.pc + 2;
                }
                Ok(61)
            },
            Opcodes::SkipIfNotEqualVal => {
                let (register_idx, value) = get_register_and_value(instruction_bytes)?;
                if self.registers[register_idx] != value {
                    self.pc = self.pc + 4;
                } else {
                    self.pc = self.pc + 2;
                }
                Ok(61)
            },
            Opcodes::SkipIfEqualReg => {
                let (register_x_idx, register_y_idx) = get_registers(instruction_bytes)?;
                if self.registers[register_x_idx] == self.registers[register_y_idx] {
                    self.pc = self.pc + 4;
                } else {
                    self.pc = self.pc + 2;
                }
                Ok(61)
            },
            Opcodes::StoreValInReg => {
                let (register_idx, value) = get_register_and_value(instruction_bytes)?;
                self.registers[register_idx] = value;
                self.pc = self.pc + 2;
                Ok(27)
            },
            Opcodes::AddValToReg => {
                let (register_idx, value) = get_register_and_value(instruction_bytes)?;
                self.registers[register_idx] = self.registers[register_idx].wrapping_add(value);
                self.pc = self.pc + 2;
                Ok(45)
            },
            Opcodes::StoreRegInReg => {
                let (reg_x_idx, reg_y_idx) = get_registers(instruction_bytes)?;
                self.registers[reg_x_idx] = self.registers[reg_y_idx];
                self.pc = self.pc + 2;
                Ok(27)
            },
            Opcodes::ORReg => {
                let (reg_x_idx, reg_y_idx) = get_registers(instruction_bytes)?;
                self.registers[reg_x_idx] = self.registers[reg_x_idx] | self.registers[reg_y_idx];
                self.pc = self.pc + 2;
                Ok(200)
            },
            Opcodes::ANDReg => {
                let (reg_x_idx, reg_y_idx) = get_registers(instruction_bytes)?;
                self.registers[reg_x_idx] = self.registers[reg_x_idx] & self.registers[reg_y_idx];
                self.pc = self.pc + 2;
                Ok(200)
            },
            Opcodes::XORReg => {
                let (reg_x_idx, reg_y_idx) = get_registers(instruction_bytes)?;
                self.registers[reg_x_idx] = self.registers[reg_x_idx] ^ self.registers[reg_y_idx];
                self.pc = self.pc + 2;
                Ok(200)
            },
            Opcodes::AddRegToReg => {
                let (reg_x_idx, reg_y_idx) = get_registers(instruction_bytes)?;
                let sum: u16 = self.registers[reg_x_idx] as u16 + self.registers[reg_y_idx] as u16;
                if sum > 0xFF {
                    self.registers[CARRY_REGISTER_IDX] = 1;
                } else {
                    self.registers[CARRY_REGISTER_IDX] = 0;
                }
                self.registers[reg_x_idx] = (sum % 256) as u8;
                self.pc = self.pc + 2;
                Ok(45)
            },
            Opcodes::SubRegFromReg => {
                let (reg_x_idx, reg_y_idx) = get_registers(instruction_bytes)?;
                let vx = self.registers[reg_x_idx];
                let vy = self.registers[reg_y_idx];
                if vx > vy {
                    self.registers[CARRY_REGISTER_IDX] = 1;
                } else {
                    self.registers[CARRY_REGISTER_IDX] = 0;
                }
                self.registers[reg_x_idx] = vx.wrapping_sub(vy);
                self.pc = self.pc + 2;
                Ok(200)
            },
            Opcodes::StoreRegInRegShiftRight => {
                let (reg_x_idx, reg_y_idx) = get_registers(instruction_bytes)?;
                let vy = self.registers[reg_y_idx];
                self.registers[CARRY_REGISTER_IDX] = vy & 0b00000001;
                self.registers[reg_x_idx] = vy >> 1u8;
                self.pc = self.pc + 2;
                Ok(200)
            },
            Opcodes::SetRegMinusReg => {
                let (reg_x_idx, reg_y_idx) = get_registers(instruction_bytes)?;
                let vx = self.registers[reg_x_idx];
                let vy = self.registers[reg_y_idx];
                if vy > vx {
                    self.registers[CARRY_REGISTER_IDX] = 1;
                } else {
                    self.registers[CARRY_REGISTER_IDX] = 0;
                }
                self.registers[reg_x_idx] = vy.wrapping_sub(vx);
                self.pc = self.pc + 2;
                Ok(200)
            },
            Opcodes::StoreRegInRegShiftLeft => {
                let (reg_x_idx, reg_y_idx) = get_registers(instruction_bytes)?;
                let vy = self.registers[reg_y_idx];
                self.registers[CARRY_REGISTER_IDX] = (vy >> 7u8) & 1;
                self.registers[reg_x_idx] = vy << 1u8;
                self.pc = self.pc + 2;
                Ok(200)
            },
            Opcodes::SkipIfNotEqualReg => {
                let (register_x_idx, register_y_idx) = get_registers(instruction_bytes)?;
                if self.registers[register_x_idx] != self.registers[register_y_idx] {
                    self.pc = self.pc + 4;
                } else {
                    self.pc = self.pc + 2;
                }
                Ok(61)
            },
            Opcodes::StoreMemoryInAddr => {
                self.i = instruction_bytes & 0x0FFF;
                self.pc = self.pc + 2;
                Ok(55)
            },
            Opcodes::JumpToAddr => {
                let val = instruction_bytes & 0x0FFF;
                proof {
                    assert(instruction_bytes & 0x0FFF <= 0x0FFF) by (bit_vector);
                }
                self.pc = val + self.registers[0] as u16;
                Ok(105)
            },
            Opcodes::SetRandomNum => {
                let (reg_x, value) = get_register_and_value(instruction_bytes)?;
                self.registers[reg_x] = rnd & value;
                self.pc = self.pc + 2;
                Ok(164)
            },
            Opcodes::DrawSprite => {
                let (x_reg, y_reg) = get_registers(instruction_bytes)?;
                let height = (instruction_bytes & 0x000F) as usize;
                proof {
                    assert(instruction_bytes & 0x000F <= 0x000F) by (bit_vector);
                }
                self.exec_draw(x_reg, y_reg, height)
            },
            Opcodes::SkipIfPressed => {
                let (register_idx, _) = get_register_and_value(instruction_bytes)?;
                let key_val = self.registers[register_idx];
                if key_val as usize >= KEYS_SIZE {
                    return Err(InstructionExecutionError(ExecutionFault::KeyOutOfRange));
                }
                if self.keys[key_val as usize] {
                    self.pc = self.pc + 4;
                } else {
                    self.pc = self.pc + 2;
                }
                Ok(73)
            },
            Opcodes::SkipIfNotPressed => {
                let (register_idx, _) = get_register_and_value(instruction_bytes)?;
                let key_val = self.registers[register_idx];
                if key_val as usize >= KEYS_SIZE {
                    return Err(InstructionExecutionError(ExecutionFault::KeyOutOfRange));
                }
                if !self.keys[key_val as usize] {
                    self.pc = self.pc + 4;
                } else {
                    self.pc = self.pc + 2;
                }
                Ok(73)
            },
            Opcodes::StoreDelayTimer => {
                let (reg_idx, _) = get_register_and_value(instruction_bytes)?;
                self.registers[reg_idx] = self.delay_timer;
                self.pc = self.pc + 2;
                Ok(27)
            },
            Opcodes::WaitKeypress => {
                let (reg_idx, _) = get_register_and_value(instruction_bytes)?;
                Ok(self.exec_wait_key(reg_idx))
            },
            Opcodes::SetDelayTimer => {
                let (reg_idx, _) = get_register_and_value(instruction_bytes)?;
                self.delay_timer = self.registers[reg_idx];
                self.pc = self.pc + 2;
                Ok(45)
            },
            Opcodes::SetSoundTimer => {
                let (reg_idx, _) = get_register_and_value(instruction_bytes)?;
                self.sound_timer = self.registers[reg_idx];
                self.pc = self.pc + 2;
                Ok(45)
            },
            Opcodes::AddValueToRegI => {
                let (reg_idx, _) = get_register_and_value(instruction_bytes)?;
                self.i = self.i.wrapping_add(self.registers[reg_idx] as u16);
                self.pc = self.pc + 2;
                Ok(86)
            },
            Opcodes::SetIReg => {
                let (reg_idx, _) = get_register_and_value(instruction_bytes)?;
                self.i = (FONT_ADDR as u16) + self.registers[reg_idx] as u16 * 5;
                self.pc = self.pc + 2;
                Ok(91)
            },
            Opcodes::StoreBCD => {
                let (reg_idx, _) = get_register_and_value(instruction_bytes)?;
                if self.i as usize + 2 >= MEMORY_SIZE {
                    return Err(InstructionExecutionError(ExecutionFault::AddressOutOfBounds));
                }
                let v = self.registers[reg_idx];
                let d2 = v / 100;
                let v1 = v - d2 * 100;
                let d1 = v1 / 10;
                let d0 = v1 - d1 * 10;
                proof {
                    assert(v / 100 * 100 <= v && (v - v / 100 * 100) / 10 * 10 <= v - v / 100
                        * 100) by (bit_vector);
                    assert((v - v / 100 * 100) / 10 == (v / 10) % 10 && (v - v / 100 * 100) - ((v
                        - v / 100 * 100) / 10) * 10 == v % 10) by (bit_vector);
                }
                self.memory[self.i as usize] = d2;
                self.memory[self.i as usize + 1] = d1;
                self.memory[self.i as usize + 2] = d0;
                self.pc = self.pc + 2;
                Ok(927)
            },
            Opcodes::StoreRegsInMemoryFromRegI => {
                let (reg_idx, _) = get_register_and_value(instruction_bytes)?;
                self.exec_store_regs(reg_idx)
            },
            Opcodes::FillRegsInMemoryFromRegI => {
                let (reg_idx, _) = get_register_and_value(instruction_bytes)?;
                self.exec_fill_regs(reg_idx)
            },
        }
    }

    /// XOR-blits `height` sprite rows read from memory at I onto the screen
    /// at the wrapped position held in the two registers, reporting a
    /// collision in VF.
    #[verifier::loop_isolation(false)]
    fn exec_draw(&mut self, x_reg: usize, y_reg: usize, height: usize) -> (r: Result<
        isize,
        InstructionExecutionError,
    >)
        requires
            old(self).wf(),
            x_reg < REGISTERS_COUNT,
            y_reg < REGISTERS_COUNT,
            height <= 15,
            old(self)@.pc as int + 4 <= u16::MAX as int,
        ensures
            final(self).wf(),
            old(self)@.i + height > MEMORY_SIZE ==> r == Err::<isize, InstructionExecutionError>(
                InstructionExecutionError(ExecutionFault::AddressOutOfBounds),
            ) && final(self)@ == old(self)@,
            old(self)@.i + height <= MEMORY_SIZE ==> r == Ok::<isize, InstructionExecutionError>(
                22734,
            ) && final(self)@ == (Chip8View {
                gfx: spec_blit_gfx(
                    old(self)@.gfx,
                    old(self)@.memory,
                    old(self)@.i as int,
                    (old(self)@.registers[x_reg as int] % 64) as int,
                    (old(self)@.registers[y_reg as int] % 32) as int,
                    height as int,
                ),
                registers: old(self)@.registers.update(
                    CARRY_REGISTER_IDX as int,
                    if spec_blit_collision(
                        old(self)@.gfx,
                        old(self)@.memory,
                        old(self)@.i as int,
                        (old(self)@.registers[x_reg as int] % 64) as int,
                        (old(self)@.registers[y_reg as int] % 32) as int,
                        height as int,
                    ) {
                        1u8
                    } else {
                        0u8
                    },
                ),
                pc: wrap16(old(self)@.pc + 2),
                ..old(self)@
            }),
    {
        if MEMORY_SIZE - height < self.i as usize {
            return Err(InstructionExecutionError(ExecutionFault::AddressOutOfBounds));
        }
        let pos_x = self.registers[x_reg] % 64;
        let pos_y = self.registers[y_reg] % 32;
        let shift = pos_x % 8;
        let col_a = (pos_x / 8) as usize;
        let col_b = (col_a + 1) % 8;
        let ghost g0 = self@.gfx;
        let ghost memv = self@.memory;
        let ghost iv = self@.i as int;
        let ghost pxv = pos_x as int;
        let ghost pyv = pos_y as int;
        let mut collision: u8 = 0;
        let mut row: usize = 0;
        proof {
            lemma_u8_bits();
            assert forall|k: int| 0 <= k < GFX_SIZE implies self@.gfx[k] == (g0[k]
                ^ spec_blit_mask(memv, iv, pxv, pyv, 0, k)) by {
                assert(0 <= k / 8) by (nonlinear_arith)
                    requires
                        0 <= k,
                ;
                assert(spec_blit_mask(memv, iv, pxv, pyv, 0, k) == 0);
            }
            assert(!spec_blit_collision(g0, memv, iv, pxv, pyv, 0)) by {
                if spec_blit_collision(g0, memv, iv, pxv, pyv, 0) {
                    let k = choose|k: int|
                        0 <= k < GFX_SIZE && (g0[k] & spec_blit_mask(memv, iv, pxv, pyv, 0, k))
                            != 0;
                    assert(0 <= k / 8) by (nonlinear_arith)
                        requires
                            0 <= k,
                    ;
                    assert(spec_blit_mask(memv, iv, pxv, pyv, 0, k) == 0);
                }
            }
        }
        while row < height
            invariant
                self.wf(),
                row <= height,
                self.memory == old(self).memory,
                self.registers == old(self).registers,
                self.i == old(self).i,
                self.pc == old(self).pc,
                self.stack == old(self).stack,
                self.delay_timer == old(self).delay_timer,
                self.sound_timer == old(self).sound_timer,
                self.run_sound == old(self).run_sound,
                self.keys == old(self).keys,
                self.time == old(self).time,
                forall|k: int|
                    0 <= k < GFX_SIZE ==> self@.gfx[k] == (g0[k] ^ spec_blit_mask(
                        memv,
                        iv,
                        pxv,
                        pyv,
                        row as int,
                        k,
                    )),
                (collision != 0) == spec_blit_collision(g0, memv, iv, pxv, pyv, row as int),
            decreases height - row,
        {
            let byte = self.memory[self.i as usize + row];
            let yy = (pos_y as usize + row) % 32;
            let a = byte >> shift;
            let idx_a = yy * 8 + col_a;
            let ghost r1 = row as int + 1;
            let ghost ka = yy as int * 8 + col_a as int;
            let ghost kb = yy as int * 8 + col_b as int;
            let ghost av = a;
            let ghost bv = (byte << ((8 - shift) as u8)) as u8;
            let ghost gfx_before = self@.gfx;
            let ghost coll_before = collision;
            proof {
                lemma_u8_bits();
                lemma_blit_row_split(
                    memv,
                    iv,
                    pxv,
                    pyv,
                    row as int,
                    yy as int,
                    col_a as int,
                    col_b as int,
                    byte,
                );
                assert(gfx_before[ka] == g0[ka] && gfx_before[kb] == g0[kb]);
            }
            collision = collision | (self.gfx[idx_a] & a);
            self.gfx[idx_a] = self.gfx[idx_a] ^ a;
            if shift != 0 {
                let b = byte << (8 - shift);
                let idx_b = yy * 8 + col_b;
                collision = collision | (self.gfx[idx_b] & b);
                self.gfx[idx_b] = self.gfx[idx_b] ^ b;
                proof {
                    assert(self@.gfx == gfx_before.update(ka, (g0[ka] ^ av) as u8).update(
                        kb,
                        (g0[kb] ^ bv) as u8,
                    ));
                }
            } else {
                proof {
                    assert(self@.gfx == gfx_before.update(ka, (g0[ka] ^ av) as u8));
                }
            }
            proof {
                assert forall|k: int| 0 <= k < GFX_SIZE implies self@.gfx[k] == (g0[k]
                    ^ spec_blit_mask(memv, iv, pxv, pyv, r1, k)) by {
                    if k == ka {
                        assert(spec_blit_mask(memv, iv, pxv, pyv, r1, ka) == av);
                    } else if k == kb && shift != 0 {
                        assert(spec_blit_mask(memv, iv, pxv, pyv, r1, kb) == bv);
                    } else {
                        assert(spec_blit_mask(memv, iv, pxv, pyv, r1, k) == spec_blit_mask(
                            memv,
                            iv,
                            pxv,
                            pyv,
                            row as int,
                            k,
                        ));
                        assert(self@.gfx[k] == gfx_before[k]);
                    }
                }
                assert((collision != 0) == (coll_before != 0 || (g0[ka] & av) != 0 || (shift != 0
                    && (g0[kb] & bv) != 0)));
                assert((collision != 0) == spec_blit_collision(g0, memv, iv, pxv, pyv, r1)) by {
                    if spec_blit_collision(g0, memv, iv, pxv, pyv, r1) {
                        let k = choose|k: int|
                            0 <= k < GFX_SIZE && (g0[k] & spec_blit_mask(
                                memv,
                                iv,
                                pxv,
                                pyv,
                                r1,
                                k,
                            )) != 0;
                        if k != ka && !(k == kb && shift != 0) {
                            assert((g0[k] & spec_blit_mask(memv, iv, pxv, pyv, row as int, k))
                                != 0);
                            assert(spec_blit_collision(g0, memv, iv, pxv, pyv, row as int));
                        }
                    }
                    if spec_blit_collision(g0, memv, iv, pxv, pyv, row as int) {
                        let k = choose|k: int|
                            0 <= k < GFX_SIZE && (g0[k] & spec_blit_mask(
                                memv,
                                iv,
                                pxv,
                                pyv,
                                row as int,
                                k,
                            )) != 0;
                        assert(k != ka && k != kb);
                        assert((g0[k] & spec_blit_mask(memv, iv, pxv, pyv, r1, k)) != 0);
                    }
                    if (g0[ka] & av) != 0 {
                        assert((g0[ka] & spec_blit_mask(memv, iv, pxv, pyv, r1, ka)) != 0);
                    }
                    if shift != 0 && (g0[kb] & bv) != 0 {
                        assert((g0[kb] & spec_blit_mask(memv, iv, pxv, pyv, r1, kb)) != 0);
                    }
                }
            }
            row = row + 1;
        }
        let ghost gfxf = self@.gfx;
        proof {
            assert(row == height);
        }
        let flag: u8 = if collision != 0 {
            1
        } else {
            0
        };
        self.registers[CARRY_REGISTER_IDX] = flag;
        self.pc = self.pc + 2;
        proof {
            assert(self@.gfx == gfxf);
            assert forall|k: int| 0 <= k < GFX_SIZE implies self@.gfx[k] == spec_blit_gfx(
                g0,
                memv,
                iv,
                pxv,
                pyv,
                height as int,
            )[k] by {
                assert(gfxf[k] == (g0[k] ^ spec_blit_mask(memv, iv, pxv, pyv, height as int, k)));
                assert(spec_blit_gfx(g0, memv, iv, pxv, pyv, height as int)[k] == (g0[k]
                    ^ spec_blit_mask(memv, iv, pxv, pyv, height as int, k)));
            }
            assert(self@.gfx =~= spec_blit_gfx(g0, memv, iv, pxv, pyv, height as int));
            assert(self@ =~= (Chip8View {
                gfx: spec_blit_gfx(g0, memv, iv, pxv, pyv, height as int),
                registers: old(self)@.registers.update(
                    CARRY_REGISTER_IDX as int,
                    if spec_blit_collision(g0, memv, iv, pxv, pyv, height as int) {
                        1u8
                    } else {
                        0u8
                    },
                ),
                pc: wrap16(old(self)@.pc + 2),
                ..old(self)@
            }));
        }
        Ok(22734)
    }

    /// Scans the keypad once, lowest key code first: stores the first
    /// pressed key and advances, or leaves the machine untouched so the same
    /// instruction polls again next iteration.
    #[verifier::loop_isolation(false)]
    fn exec_wait_key(&mut self, reg_idx: usize) -> (r: isize)
        requires
            old(self).wf(),
            reg_idx < REGISTERS_COUNT,
            old(self)@.pc as int + 4 <= u16::MAX as int,
        ensures
            final(self).wf(),
            r == 200,
            spec_first_key(old(self)@.keys, 0) < KEYS_SIZE ==> final(self)@ == (Chip8View {
                registers: old(self)@.registers.update(
                    reg_idx as int,
                    spec_first_key(old(self)@.keys, 0) as u8,
                ),
                pc: wrap16(old(self)@.pc + 2),
                ..old(self)@
            }),
            spec_first_key(old(self)@.keys, 0) >= KEYS_SIZE ==> final(self)@ == old(self)@,
    {
        let mut i: usize = 0;
        while i < KEYS_SIZE
            invariant
                i <= KEYS_SIZE,
                self == old(self),
                spec_first_key(self@.keys, 0) == spec_first_key(self@.keys, i as int),
            decreases KEYS_SIZE - i,
        {
            if self.keys[i] {
                self.registers[reg_idx] = i as u8;
                self.pc = self.pc + 2;
                return 200;
            }
            i = i + 1;
        }
        200
    }

    /// Copies registers V0..Vx inclusive to memory starting at I; fails,
    /// changing nothing, if the last write would fall past the end of
    /// memory.
    #[verifier::loop_isolation(false)]
    fn exec_store_regs(&mut self, reg_idx: usize) -> (r: Result<isize, InstructionExecutionError>)
        requires
            old(self).wf(),
            reg_idx < REGISTERS_COUNT,
            old(self)@.pc as int + 4 <= u16::MAX as int,
        ensures
            final(self).wf(),
            old(self)@.i + reg_idx >= MEMORY_SIZE ==> r == Err::<
                isize,
                InstructionExecutionError,
            >(InstructionExecutionError(ExecutionFault::AddressOutOfBounds)) && final(self)@ == old(
                self,
            )@,
            old(self)@.i + reg_idx < MEMORY_SIZE ==> r == Ok::<isize, InstructionExecutionError>(
                605,
            ) && final(self)@ == (Chip8View {
                memory: Seq::new(
                    MEMORY_SIZE as nat,
                    |k: int|
                        if old(self)@.i <= k <= old(self)@.i + reg_idx {
                            old(self)@.registers[k - old(self)@.i]
                        } else {
                            old(self)@.memory[k]
                        },
                ),
                pc: wrap16(old(self)@.pc + 2),
                ..old(self)@
            }),
    {
        if self.i as usize >= MEMORY_SIZE || MEMORY_SIZE - self.i as usize <= reg_idx {
            return Err(InstructionExecutionError(ExecutionFault::AddressOutOfBounds));
        }
        let base = self.i as usize;
        let mut j: usize = 0;
        while j < reg_idx + 1
            invariant
                self.wf(),
                j <= reg_idx + 1,
                base == old(self)@.i,
                base + reg_idx < MEMORY_SIZE,
                self.registers == old(self).registers,
                self.i == old(self).i,
                self.pc == old(self).pc,
                self.stack == old(self).stack,
                self.delay_timer == old(self).delay_timer,
                self.sound_timer == old(self).sound_timer,
                self.run_sound == old(self).run_sound,
                self.gfx == old(self).gfx,
                self.keys == old(self).keys,
                self.time == old(self).time,
                forall|k: int|
                    0 <= k < MEMORY_SIZE ==> self@.memory[k] == (if base <= k < base + j {
                        old(self)@.registers[k - base]
                    } else {
                        old(self)@.memory[k]
                    }),
            decreases reg_idx + 1 - j,
        {
            let ghost prev = self@.memory;
            self.memory[base + j] = self.registers[j];
            proof {
                assert forall|k: int| 0 <= k < MEMORY_SIZE implies self@.memory[k] == (if base <= k
                    < base + j + 1 {
                    old(self)@.registers[k - base]
                } else {
                    old(self)@.memory[k]
                }) by {
                    assert(self@.memory == prev.update(
                        base + j as int,
                        old(self)@.registers[j as int],
                    ));
                    assert(prev[k] == (if base <= k < base + j {
                        old(self)@.registers[k - base]
                    } else {
                        old(self)@.memory[k]
                    }));
                }
            }
            j = j + 1;
        }
        let ghost memf = self@.memory;
        proof {
            assert(j == reg_idx + 1);
        }
        self.pc = self.pc + 2;
        proof {
            let target = Seq::new(
                MEMORY_SIZE as nat,
                |k: int|
                    if old(self)@.i <= k <= old(self)@.i + reg_idx {
                        old(self)@.registers[k - old(self)@.i]
                    } else {
                        old(self)@.memory[k]
                    },
            );
            assert(self@.memory == memf);
            assert forall|k: int| 0 <= k < MEMORY_SIZE implies self@.memory[k] == target[k] by {
                assert(memf[k] == (if base <= k < base + reg_idx + 1 {
                    old(self)@.registers[k - base]
                } else {
                    old(self)@.memory[k]
                }));
            }
            assert(self@.memory =~= target);
            assert(self@ =~= (Chip8View {
                memory: Seq::new(
                    MEMORY_SIZE as nat,
                    |k: int|
                        if old(self)@.i <= k <= old(self)@.i + reg_idx {
                            old(self)@.registers[k - old(self)@.i]
                        } else {
                            old(self)@.memory[k]
                        },
                ),
                pc: wrap16(old(self)@.pc + 2),
                ..old(self)@
            }));
        }
        Ok(605)
    }

    /// Loads registers V0..Vx inclusive from memory starting at I; fails,
    /// changing nothing, if the last read would fall past the end of memory.
    #[verifier::loop_isolation(false)]
    fn exec_fill_regs(&mut self, reg_idx: usize) -> (r: Result<isize, InstructionExecutionError>)
        requires
            old(self).wf(),
            reg_idx < REGISTERS_COUNT,
            old(self)@.pc as int + 4 <= u16::MAX as int,
        ensures
            final(self).wf(),
            old(self)@.i + reg_idx >= MEMORY_SIZE ==> r == Err::<
                isize,
                InstructionExecutionError,
            >(InstructionExecutionError(ExecutionFault::AddressOutOfBounds)) && final(self)@ == old(
                self,
            )@,
            old(self)@.i + reg_idx < MEMORY_SIZE ==> r == Ok::<isize, InstructionExecutionError>(
                605,
            ) && final(self)@ == (Chip8View {
                registers: Seq::new(
                    REGISTERS_COUNT as nat,
                    |k: int|
                        if k <= reg_idx {
                            old(self)@.memory[old(self)@.i + k]
                        } else {
                            old(self)@.registers[k]
                        },
                ),
                pc: wrap16(old(self)@.pc + 2),
                ..old(self)@
            }),
    {
        if self.i as usize >= MEMORY_SIZE || MEMORY_SIZE - self.i as usize <= reg_idx {
            return Err(InstructionExecutionError(ExecutionFault::AddressOutOfBounds));
        }
        let base = self.i as usize;
        let mut j: usize = 0;
        while j < reg_idx + 1
            invariant
                self.wf(),
                j <= reg_idx + 1,
                base == old(self)@.i,
                base + reg_idx < MEMORY_SIZE,
                self.memory == old(self).memory,
                self.i == old(self).i,
                self.pc == old(self).pc,
                self.stack == old(self).stack,
                self.delay_timer == old(self).delay_timer,
                self.sound_timer == old(self).sound_timer,
                self.run_sound == old(self).run_sound,
                self.gfx == old(self).gfx,
                self.keys == old(self).keys,
                self.time == old(self).time,
                forall|k: int|
                    0 <= k < REGISTERS_COUNT ==> self@.registers[k] == (if k < j {
                        old(self)@.memory[base + k]
                    } else {
                        old(self)@.registers[k]
                    }),
            decreases reg_idx + 1 - j,
        {
            let ghost prev = self@.registers;
            self.registers[j] = self.memory[base + j];
            proof {
                assert forall|k: int| 0 <= k < REGISTERS_COUNT implies self@.registers[k] == (if k
                    < j + 1 {
                    old(self)@.memory[base + k]
                } else {
                    old(self)@.registers[k]
                }) by {
                    assert(self@.registers == prev.update(
                        j as int,
                        old(self)@.memory[base + j as int],
                    ));
                    assert(prev[k] == (if k < j {
                        old(self)@.memory[base + k]
                    } else {
                        old(self)@.registers[k]
                    }));
                }
            }
            j = j + 1;
        }
        let ghost regsf = self@.registers;
        proof {
            assert(j == reg_idx + 1);
        }
        self.pc = self.pc + 2;
        proof {
            let target = Seq::new(
                REGISTERS_COUNT as nat,
                |k: int|
                    if k <= reg_idx {
                        old(self)@.memory[old(self)@.i + k]
                    } else {
                        old(self)@.registers[k]
                    },
            );
            assert(self@.registers == regsf);
            assert forall|k: int| 0 <= k < REGISTERS_COUNT implies self@.registers[k] == target[k]
                by {
                assert(regsf[k] == (if k < reg_idx + 1 {
                    old(self)@.memory[base + k]
                } else {
                    old(self)@.registers[k]
                }));
            }
            assert(self@.registers =~= target);
            assert(self@ =~= (Chip8View {
                registers: Seq::new(
                    REGISTERS_COUNT as nat,
                    |k: int|
                        if k <= reg_idx {
                            old(self)@.memory[old(self)@.i + k]
                        } else {
                            old(self)@.registers[k]
                        },
                ),
                pc: wrap16(old(self)@.pc + 2),
                ..old(self)@
            }));
        }
        Ok(605)
    }

    /// Current program counter.
    pub fn pc(&self) -> (r: u16)
        ensures
            r == self@.pc,
    {
        self.pc
    }

    /// Current value of the address register I.
    pub fn i_reg(&self) -> (r: u16)
        ensures
            r == self@.i,
    {
        self.i
    }

    /// Current value of one general purpose register.
    pub fn register(&self, idx: usize) -> (r: u8)
        requires
            self.wf(),
            idx < REGISTERS_COUNT,
        ensures
            r == self@.registers[idx as int],
    {
        self.registers[idx]
    }

    /// One byte of the memory image.
    pub fn memory_at(&self, addr: usize) -> (r: u8)
        requires
            self.wf(),
            addr < MEMORY_SIZE,
        ensures
            r == self@.memory[addr as int],
    {
        self.memory[addr]
    }

    /// Current value of the delay timer.
    pub fn delay(&self) -> (r: u8)
        ensures
            r == self@.delay_timer,
    {
        self.delay_timer
    }

    /// Current value of the sound timer.
    pub fn sound(&self) -> (r: u8)
        ensures
            r == self@.sound_timer,
    {
        self.sound_timer
    }

    /// Current depth of the call stack.
    pub fn stack_depth(&self) -> (r: usize)
        requires
            self.wf(),
        ensures
            r == self@.stack.len(),
    {
        self.stack.depth()
    }
}

/// The big-endian instruction word at the program counter.
pub open spec fn spec_fetch(s: Chip8View) -> u16 {
    (s.memory[s.pc as int] * 256 + s.memory[s.pc as int + 1]) as u16
}

/// A 16-bit value from an unbounded one, wrapping as the hardware registers
/// do.
pub open spec fn wrap16(x: int) -> u16 {
    (x % 0x10000) as u16
}

/// Index of the lowest-numbered pressed key at or after slot `j`, or
/// `KEYS_SIZE` if none is pressed.
pub open spec fn spec_first_key(keys: Seq<bool>, j: int) -> int
    decreases KEYS_SIZE - j,
{
    if j < 0 || j >= KEYS_SIZE {
        KEYS_SIZE as int
    } else if keys[j] {
        j
    } else {
        spec_first_key(keys, j + 1)
    }
}

/// The sprite bits that a draw at `(px, py)` with `h` rows XORs into
/// framebuffer byte `k`: each sprite row lands on one screen row (wrapping
/// vertically), split across two byte columns by the horizontal bit offset.
pub open spec fn spec_blit_mask(
    mem: Seq<u8>,
    i_addr: int,
    px: int,
    py: int,
    h: int,
    k: int,
) -> u8 {
    let y = k / 8;
    let c = k % 8;
    let r = if y >= py {
        y - py
    } else {
        y + SCREEN_HEIGHT - py
    };
    let shift = px % 8;
    let col_a = px / 8;
    let col_b = if col_a == 7 {
        0int
    } else {
        col_a + 1
    };
    if r < h {
        let b = mem[i_addr + r];
        if c == col_a {
            b >> (shift as u8)
        } else if shift != 0 && c == col_b {
            b << ((8 - shift) as u8)
        } else {
            0u8
        }
    } else {
        0u8
    }
}

/// Framebuffer after the draw: every byte XORed with its sprite mask.
pub open spec fn spec_blit_gfx(
    gfx: Seq<u8>,
    mem: Seq<u8>,
    i_addr: int,
    px: int,
    py: int,
    h: int,
) -> Seq<u8> {
    Seq::new(GFX_SIZE as nat, |k: int| gfx[k] ^ spec_blit_mask(mem, i_addr, px, py, h, k))
}

/// Whether the draw toggles any pixel that was already lit.
pub open spec fn spec_blit_collision(
    gfx: Seq<u8>,
    mem: Seq<u8>,
    i_addr: int,
    px: int,
    py: int,
    h: int,
) -> bool {
    exists|k: int|
        0 <= k < GFX_SIZE && (gfx[k] & spec_blit_mask(mem, i_addr, px, py, h, k)) != 0
}

/// What one instruction does to the machine state: the next state and the
/// approximate number of microseconds the original hardware would have spent,
/// or the fault that aborts the frame (in which case the machine is left
/// unchanged). The program counter is advanced here — by 2, by 4 on a taken
/// skip, or to the jump target — and time is never touched; the frame
/// scheduler subtracts the returned cost.
///
/// Both shift instructions take value and shifted-out flag bit from the
/// source register Vy, one fixed convention for a known point of platform
/// variance.
pub open spec fn spec_step(s: Chip8View, op: Opcodes, word: u16, rnd: u8) -> Result<
    (Chip8View, int),
    ExecutionFault,
> {
    let x = spec_reg_x(word) as int;
    let y = spec_reg_y(word) as int;
    let kk = spec_imm_val(word);
    let nnn = spec_addr(word);
    match op {
        Opcodes::SysExecute => Ok((s, 100)),
        Opcodes::ClearScreen => Ok(
            (
                Chip8View {
                    gfx: Seq::new(GFX_SIZE as nat, |k: int| 0u8),
                    pc: wrap16(s.pc + 2),
                    ..s
                },
                109,
            ),
        ),
        Opcodes::Return => {
            if s.stack.len() == 0 {
                Err(ExecutionFault::StackUnderflow)
            } else {
                Ok((Chip8View { pc: s.stack.last(), stack: s.stack.drop_last(), ..s }, 105))
            }
        },
        Opcodes::JumpTo => Ok((Chip8View { pc: nnn, ..s }, 105)),
        Opcodes::SubRoutineExecute => {
            if s.stack.len() >= STACK_SIZE {
                Err(ExecutionFault::StackOverflow)
            } else {
                Ok((Chip8View { stack: s.stack.push(wrap16(s.pc + 2)), pc: nnn, ..s }, 105))
            }
        },
        Opcodes::SkipIfEqualVal => Ok(
            (
                Chip8View {
                    pc: wrap16(
                        s.pc + (if s.registers[x] == kk {
                            4int
                        } else {
                            2int
                        }),
                    ),
                    ..s
                },
                61,
            ),
        ),
        Opcodes::SkipIfNotEqualVal => Ok(
            (
                Chip8View {
                    pc: wrap16(
                        s.pc + (if s.registers[x] != kk {
                            4int
                        } else {
                            2int
                        }),
                    ),
                    ..s
                },
                61,
            ),
        ),
        Opcodes::SkipIfEqualReg => Ok(
            (
                Chip8View {
                    pc: wrap16(
                        s.pc + (if s.registers[x] == s.registers[y] {
                            4int
                        } else {
                            2int
                        }),
                    ),
                    ..s
                },
                61,
            ),
        ),
        Opcodes::StoreValInReg => Ok(
            (Chip8View { registers: s.registers.update(x, kk), pc: wrap16(s.pc + 2), ..s }, 27),
        ),
        Opcodes::AddValToReg => Ok(
            (
                Chip8View {
                    registers: s.registers.update(
                        x,
                        vstd::wrapping::u8_specs::wrapping_add(s.registers[x], kk),
                    ),
                    pc: wrap16(s.pc + 2),
                    ..s
                },
                45,
            ),
        ),
        Opcodes::StoreRegInReg => Ok(
            (
                Chip8View {
                    registers: s.registers.update(x, s.registers[y]),
                    pc: wrap16(s.pc + 2),
                    ..s
                },
                27,
            ),
        ),
        Opcodes::ORReg => Ok(
            (
                Chip8View {
                    registers: s.registers.update(x, s.registers[x] | s.registers[y]),
                    pc: wrap16(s.pc + 2),
                    ..s
                },
                200,
            ),
        ),
        Opcodes::ANDReg => Ok(
            (
                Chip8View {
                    registers: s.registers.update(x, s.registers[x] & s.registers[y]),
                    pc: wrap16(s.pc + 2),
                    ..s
                },
                200,
            ),
        ),
        Opcodes::XORReg => Ok(
            (
                Chip8View {
                    registers: s.registers.update(x, s.registers[x] ^ s.registers[y]),
                    pc: wrap16(s.pc + 2),
                    ..s
                },
                200,
            ),
        ),
        Opcodes::AddRegToReg => {
            let sum = s.registers[x] + s.registers[y];
            let flag: u8 = if sum > 0xFF {
                1
            } else {
                0
            };
            Ok(
                (
                    Chip8View {
                        registers: s.registers.update(CARRY_REGISTER_IDX as int, flag).update(
                            x,
                            (sum % 256) as u8,
                        ),
                        pc: wrap16(s.pc + 2),
                        ..s
                    },
                    45,
                ),
            )
        },
        Opcodes::SubRegFromReg => {
            let flag: u8 = if s.registers[x] > s.registers[y] {
                1
            } else {
                0
            };
            let diff = vstd::wrapping::u8_specs::wrapping_sub(s.registers[x], s.registers[y]);
            Ok(
                (
                    Chip8View {
                        registers: s.registers.update(CARRY_REGISTER_IDX as int, flag).update(
                            x,
                            diff,
                        ),
                        pc: wrap16(s.pc + 2),
                        ..s
                    },
                    200,
                ),
            )
        },
        Opcodes::StoreRegInRegShiftRight => {
            let flag: u8 = s.registers[y] & 1;
            let value: u8 = s.registers[y] >> 1;
            Ok(
                (
                    Chip8View {
                        registers: s.registers.update(CARRY_REGISTER_IDX as int, flag).update(
                            x,
                            value,
                        ),
                        pc: wrap16(s.pc + 2),
                        ..s
                    },
                    200,
                ),
            )
        },
        Opcodes::SetRegMinusReg => {
            let flag: u8 = if s.registers[y] > s.registers[x] {
                1
            } else {
                0
            };
            let diff = vstd::wrapping::u8_specs::wrapping_sub(s.registers[y], s.registers[x]);
            Ok(
                (
                    Chip8View {
                        registers: s.registers.update(CARRY_REGISTER_IDX as int, flag).update(
                            x,
                            diff,
                        ),
                        pc: wrap16(s.pc + 2),
                        ..s
                    },
                    200,
                ),
            )
        },
        Opcodes::StoreRegInRegShiftLeft => {
            let flag: u8 = (s.registers[y] >> 7) & 1;
            let value: u8 = s.registers[y] << 1;
            Ok(
                (
                    Chip8View {
                        registers: s.registers.update(CARRY_REGISTER_IDX as int, flag).update(
                            x,
                            value,
                        ),
                        pc: wrap16(s.pc + 2),
                        ..s
                    },
                    200,
                ),
            )
        },
        Opcodes::SkipIfNotEqualReg => Ok(
            (
                Chip8View {
                    pc: wrap16(
                        s.pc + (if s.registers[x] != s.registers[y] {
                            4int
                        } else {
                            2int
                        }),
                    ),
                    ..s
                },
                61,
            ),
        ),
        Opcodes::StoreMemoryInAddr => Ok((Chip8View { i: nnn, pc: wrap16(s.pc + 2), ..s }, 55)),
        Opcodes::JumpToAddr => Ok(
            (Chip8View { pc: (nnn + s.registers[0]) as u16, ..s }, 105),
        ),
        Opcodes::SetRandomNum => Ok(
            (
                Chip8View {
                    registers: s.registers.update(x, rnd & kk),
                    pc: wrap16(s.pc + 2),
                    ..s
                },
                164,
            ),
        ),
        Opcodes::DrawSprite => {
            let h = spec_height(word) as int;
            if s.i + h > MEMORY_SIZE {
                Err(ExecutionFault::AddressOutOfBounds)
            } else {
                let px = (s.registers[x] % 64) as int;
                let py = (s.registers[y] % 32) as int;
                let coll = spec_blit_collision(s.gfx, s.memory, s.i as int, px, py, h);
                Ok(
                    (
                        Chip8View {
                            gfx: spec_blit_gfx(s.gfx, s.memory, s.i as int, px, py, h),
                            registers: s.registers.update(
                                CARRY_REGISTER_IDX as int,
                                if coll {
                                    1u8
                                } else {
                                    0u8
                                },
                            ),
                            pc: wrap16(s.pc + 2),
                            ..s
                        },
                        22734,
                    ),
                )
            }
        },
        Opcodes::SkipIfPressed => {
            let key = s.registers[x];
            if key >= KEYS_SIZE {
                Err(ExecutionFault::KeyOutOfRange)
            } else {
                Ok(
                    (
                        Chip8View {
                            pc: wrap16(
                                s.pc + (if s.keys[key as int] {
                                    4int
                                } else {
                                    2int
                                }),
                            ),
                            ..s
                        },
                        73,
                    ),
                )
            }
        },
        Opcodes::SkipIfNotPressed => {
            let key = s.registers[x];
            if key >= KEYS_SIZE {
                Err(ExecutionFault::KeyOutOfRange)
            } else {
                Ok(
                    (
                        Chip8View {
                            pc: wrap16(
                                s.pc + (if !s.keys[key as int] {
                                    4int
                                } else {
                                    2int
                                }),
                            ),
                            ..s
                        },
                        73,
                    ),
                )
            }
        },
        Opcodes::StoreDelayTimer => Ok(
            (
                Chip8View {
                    registers: s.registers.update(x, s.delay_timer),
                    pc: wrap16(s.pc + 2),
                    ..s
                },
                27,
            ),
        ),
        Opcodes::WaitKeypress => {
            let f = spec_first_key(s.keys, 0);
            if f < KEYS_SIZE {
                Ok(
                    (
                        Chip8View {
                            registers: s.registers.update(x, f as u8),
                            pc: wrap16(s.pc + 2),
                            ..s
                        },
                        200,
                    ),
                )
            } else {
                Ok((s, 200))
            }
        },
        Opcodes::SetDelayTimer => Ok(
            (Chip8View { delay_timer: s.registers[x], pc: wrap16(s.pc + 2), ..s }, 45),
        ),
        Opcodes::SetSoundTimer => Ok(
            (Chip8View { sound_timer: s.registers[x], pc: wrap16(s.pc + 2), ..s }, 45),
        ),
        Opcodes::AddValueToRegI => Ok(
            (
                Chip8View {
                    i: vstd::wrapping::u16_specs::wrapping_add(s.i, s.registers[x] as u16),
                    pc: wrap16(s.pc + 2),
                    ..s
                },
                86,
            ),
        ),
        Opcodes::SetIReg => Ok(
            (
                Chip8View {
                    i: (FONT_ADDR + s.registers[x] * 5) as u16,
                    pc: wrap16(s.pc + 2),
                    ..s
                },
                91,
            ),
        ),
        Opcodes::StoreBCD => {
            if s.i + 2 >= MEMORY_SIZE {
                Err(ExecutionFault::AddressOutOfBounds)
            } else {
                let v = s.registers[x];
                Ok(
                    (
                        Chip8View {
                            memory: s.memory.update(s.i as int, v / 100).update(
                                s.i + 1,
                                (v / 10) % 10,
                            ).update(s.i + 2, v % 10),
                            pc: wrap16(s.pc + 2),
                            ..s
                        },
                        927,
                    ),
                )
            }
        },
        Opcodes::StoreRegsInMemoryFromRegI => {
            if s.i + x >= MEMORY_SIZE {
                Err(ExecutionFault::AddressOutOfBounds)
            } else {
                Ok(
                    (
                        Chip8View {
                            memory: Seq::new(
                                MEMORY_SIZE as nat,
                                |k: int|
                                    if s.i <= k <= s.i + x {
                                        s.registers[k - s.i]
                                    } else {
                                        s.memory[k]
                                    },
                            ),
                            pc: wrap16(s.pc + 2),
                            ..s
                        },
                        605,
                    ),
                )
            }
        },
        Opcodes::FillRegsInMemoryFromRegI => {
            if s.i + x >= MEMORY_SIZE {
                Err(ExecutionFault::AddressOutOfBounds)
            } else {
                Ok(
                    (
                        Chip8View {
                            registers: Seq::new(
                                REGISTERS_COUNT as nat,
                                |k: int|
                                    if k <= x {
                                        s.memory[s.i + k]
                                    } else {
                                        s.registers[k]
                                    },
                            ),
                            pc: wrap16(s.pc + 2),
                            ..s
                        },
                        605,
                    ),
                )
            }
        },
    }
}

/// How the result and final state of one executed instruction relate to
/// `spec_step`: on success the machine becomes the stepped state and the
/// reported cost is the step's; on a fault the machine is unchanged and the
/// fault is surfaced.
pub open spec fn spec_step_matches(
    s0: Chip8View,
    op: Opcodes,
    word: u16,
    rnd: u8,
    s1: Chip8View,
    r: Result<isize, InstructionExecutionError>,
) -> bool {
    match spec_step(s0, op, word, rnd) {
        Ok((s2, cost)) => r == Ok::<isize, InstructionExecutionError>(cost as isize) && s1 == s2,
        Err(f) => r == Err::<isize, InstructionExecutionError>(InstructionExecutionError(f)) && s1
            == s0,
    }
}

/// A vector of `n` copies of `value`.
fn filled_bytes(n: usize, value: u8) -> (r: Vec<u8>)
    ensures
        r@ == Seq::new(n as nat, |k: int| value),
{
    let mut out: Vec<u8> = Vec::new();
    let mut k: usize = 0;
    while k < n
        invariant
            k <= n,
            out@.len() == k,
            forall|j: int| 0 <= j < k ==> out@[j] == value,
        decreases n - k,
    {
        out.push(value);
        k = k + 1;
    }
    proof {
        assert(out@ =~= Seq::new(n as nat, |kk: int| value));
    }
    out
}

/// A vector of `n` copies of `false`.
fn filled_false(n: usize) -> (r: Vec<bool>)
    ensures
        r@ == Seq::new(n as nat, |k: int| false),
{
    let mut out: Vec<bool> = Vec::new();
    let mut k: usize = 0;
    while k < n
        invariant
            k <= n,
            out@.len() == k,
            forall|j: int| 0 <= j < k ==> out@[j] == false,
        decreases n - k,
    {
        out.push(false);
        k = k + 1;
    }
    proof {
        assert(out@ =~= Seq::new(n as nat, |kk: int| false));
    }
    out
}

/// Time budget still standing between a frame scheduler and the end of its
/// frame; never negative, so it can bound the number of instructions left.
pub open spec fn spec_fuel(t: int) -> int {
    if t > 0 {
        t
    } else {
        0
    }
}

/// Frame entry work before any instruction runs: the key snapshot replaces
/// the pressed state of key codes 0x0..0xF, both timers tick down towards
/// zero — the sound timer passing through 1 arms the tone pulse — and one
/// frame's time budget is added (saturating at the numeric limit, which no
/// real workload reaches).
pub open spec fn spec_frame_setup(s: Chip8View, keys: u16) -> Chip8View {
    Chip8View {
        keys: Seq::new(
            KEYS_SIZE as nat,
            |k: int|
                if k < 16 {
                    (keys >> (k as u16)) & 1 == 1
                } else {
                    s.keys[k]
                },
        ),
        delay_timer: if s.delay_timer > 0 {
            (s.delay_timer - 1) as u8
        } else {
            0u8
        },
        run_sound: s.run_sound || s.sound_timer == 1,
        sound_timer: if s.sound_timer > 0 {
            (s.sound_timer - 1) as u8
        } else {
            0u8
        },
        time: if s.time > isize::MAX - FRAME_TIME {
            isize::MAX as int
        } else {
            s.time + FRAME_TIME
        },
        ..s
    }
}

/// Every instruction reports a positive, bounded time cost and leaves the
/// frame budget itself untouched.
pub proof fn lemma_step_cost(s: Chip8View, op: Opcodes, word: u16, rnd: u8)
    ensures
        spec_step(s, op, word, rnd) matches Ok((s2, cost)) ==> 27 <= cost <= 22734 && s2.time
            == s.time,
{
}

/// Which fault an instruction raises does not depend on the drawn random
/// byte: the one instruction that reads it never faults.
pub proof fn lemma_step_err_any_rnd(s: Chip8View, op: Opcodes, word: u16, r1: u8, r2: u8)
    requires
        spec_step(s, op, word, r1) is Err,
    ensures
        spec_step(s, op, word, r2) == spec_step(s, op, word, r1),
{
}

/// Draining one frame's time budget: while budget remains, fetch, decode
/// and execute one instruction and subtract its cost. Yields the machine
/// after the last instruction together with how many instructions ran, or
/// the machine at the moment of a fault together with that fault. A fetch
/// reads two bytes, so a program counter resting on the last memory byte is
/// already out of bounds. `rnds` supplies one byte per instruction; only
/// the random-number instruction reads its byte, and a missing byte reads
/// as zero.
pub open spec fn spec_drain(s: Chip8View, rnds: Seq<u8>) -> Result<
    (Chip8View, nat),
    (Chip8View, FatalError),
>
    decreases spec_fuel(s.time),
{
    if s.time <= 0 {
        Ok((s, 0))
    } else if s.pc as int + 1 >= MEMORY_SIZE {
        Err((s, FatalError::OutOfBounds(PcOutOfMemoryBounds(s.pc))))
    } else {
        let word = spec_fetch(s);
        match spec_decode(word) {
            Err(e) => Err((s, FatalError::Decode(e))),
            Ok(op) => {
                let rnd = if rnds.len() > 0 {
                    rnds[0]
                } else {
                    0u8
                };
                match spec_step(s, op, word, rnd) {
                    Err(f) => Err((s, FatalError::Execution(InstructionExecutionError(f)))),
                    Ok((s2, cost)) => {
                        proof {
                            lemma_step_cost(s, op, word, rnd);
                        }
                        match spec_drain(Chip8View { time: s2.time - cost, ..s2 }, rnds.skip(1)) {
                            Ok((sf, n)) => Ok((sf, n + 1)),
                            Err(e) => Err(e),
                        }
                    },
                }
            },
        }
    }
}

/// The same drain outcome with `n` more instructions counted.
pub open spec fn spec_add_count(
    r: Result<(Chip8View, nat), (Chip8View, FatalError)>,
    n: nat,
) -> Result<(Chip8View, nat), (Chip8View, FatalError)> {
    match r {
        Ok((s, m)) => Ok((s, (m + n) as nat)),
        Err(e) => Err(e),
    }
}

/// One whole frame: apply the key snapshot, tick the timers, add the frame
/// budget, then drain it.
pub open spec fn spec_cycle(s: Chip8View, keys: u16, rnds: Seq<u8>) -> Result<
    (Chip8View, nat),
    (Chip8View, FatalError),
> {
    spec_drain(spec_frame_setup(s, keys), rnds)
}

/// How one `cycle` call relates start state, key snapshot, drawn random
/// bytes, end state and result: success leaves the drained machine, a fault
/// leaves the machine exactly as the fault found it.
pub open spec fn spec_cycle_matches(
    s0: Chip8View,
    keys: u16,
    rnds: Seq<u8>,
    s_end: Chip8View,
    r: Result<(), FatalError>,
) -> bool {
    match spec_cycle(s0, keys, rnds) {
        Ok((s2, n)) => r is Ok && s_end == s2,
        Err((s2, e)) => r == Err::<(), FatalError>(e) && s_end == s2,
    }
}

/// Relies on rand::random: draws one byte from the thread-local generator.
/// Nothing is promised of the value; every caller's contract holds for
/// whatever byte comes back.
#[verifier::external_body]
fn random_byte() -> u8 {
    rand::random::<u8>()
}

/// Small facts about byte-level bit operations that the draw proof leans on.
proof fn lemma_u8_bits()
    by (bit_vector)
    ensures
        forall|v: u8| #![trigger v ^ 0] (v ^ 0) == v,
        forall|v: u8| #![trigger v & 0] (v & 0) == 0,
        forall|x: u8, y: u8| #![trigger x | y] (((x | y) == 0) == (x == 0 && y == 0)),
{
}

/// How adding one sprite row changes the blit mask: only the two byte
/// columns of the freshly drawn screen row pick up sprite bits; every other
/// framebuffer byte keeps the mask it had.
proof fn lemma_blit_row_split(
    mem: Seq<u8>,
    i_addr: int,
    px: int,
    py: int,
    row: int,
    yy: int,
    ca: int,
    cb: int,
    b: u8,
)
    requires
        0 <= px < 64,
        0 <= py < 32,
        0 <= row < 16,
        yy == (py + row) % 32,
        ca == px / 8,
        cb == (ca + 1) % 8,
        b == mem[i_addr + row],
    ensures
        0 <= yy < 32,
        0 <= ca < 8,
        0 <= cb < 8,
        ca != cb,
        forall|k: int|
            0 <= k < GFX_SIZE && k != yy * 8 + ca && k != yy * 8 + cb ==> spec_blit_mask(
                mem,
                i_addr,
                px,
                py,
                row + 1,
                k,
            ) == spec_blit_mask(mem, i_addr, px, py, row, k),
        spec_blit_mask(mem, i_addr, px, py, row, yy * 8 + ca) == 0,
        spec_blit_mask(mem, i_addr, px, py, row, yy * 8 + cb) == 0,
        spec_blit_mask(mem, i_addr, px, py, row + 1, yy * 8 + ca) == b >> ((px % 8) as u8),
        px % 8 != 0 ==> spec_blit_mask(mem, i_addr, px, py, row + 1, yy * 8 + cb) == b << ((8 - px
            % 8) as u8),
        px % 8 == 0 ==> spec_blit_mask(mem, i_addr, px, py, row + 1, yy * 8 + cb) == 0,
{
    assert(0 <= (py + row) % 32 < 32) by (nonlinear_arith);
    assert(0 <= px / 8 < 8) by (nonlinear_arith)
        requires
            0 <= px < 64,
    ;
    assert(0 <= px % 8 < 8) by (nonlinear_arith);
    assert(cb == (if ca == 7 {
        0int
    } else {
        ca + 1
    })) by (nonlinear_arith)
        requires
            0 <= ca < 8,
            cb == (ca + 1) % 8,
    ;
    if py + row < 32 {
        assert(yy == py + row) by (nonlinear_arith)
            requires
                yy == (py + row) % 32,
                0 <= py + row < 32,
        ;
    } else {
        assert(yy == py + row - 32) by (nonlinear_arith)
            requires
                yy == (py + row) % 32,
                32 <= py + row < 64,
        ;
    }
    assert((if yy >= py {
        yy - py
    } else {
        yy + SCREEN_HEIGHT - py
    }) == row);
    assert(yy * 8 + ca < 256 && yy * 8 + cb < 256) by (nonlinear_arith)
        requires
            0 <= yy < 32,
            0 <= ca < 8,
            0 <= cb < 8,
    ;
    assert((yy * 8 + ca) / 8 == yy && (yy * 8 + ca) % 8 == ca && (yy * 8 + cb) / 8 == yy && (yy * 8
        + cb) % 8 == cb) by (nonlinear_arith)
        requires
            0 <= yy,
            0 <= ca < 8,
            0 <= cb < 8,
    ;
    assert forall|k: int|
        0 <= k < GFX_SIZE && k != yy * 8 + ca && k != yy * 8 + cb implies spec_blit_mask(
        mem,
        i_addr,
        px,
        py,
        row + 1,
        k,
    ) == spec_blit_mask(mem, i_addr, px, py, row, k) by {
        let y = k / 8;
        let c = k % 8;
        assert(y * 8 + c == k && 0 <= c < 8 && 0 <= y < 32) by (nonlinear_arith)
            requires
                y == k / 8,
                c == k % 8,
                0 <= k < 256,
        ;
        if y == yy {
            assert(c != ca && c != cb);
        } else {
            assert((if y >= py {
                y - py
            } else {
                y + SCREEN_HEIGHT - py
            }) != row);
        }
    }
}

/// The sixteen font glyphs as bytes, matching `spec_font`.
fn font_bytes() -> (r: Vec<u8>)
    ensures
        r@ == spec_font(),
{
    let out: Vec<u8> = vec![
        0xF0u8, 0x90, 0x90, 0x90, 0xF0, 0x20, 0x60, 0x20, 0x20, 0x70, 0xF0, 0x10, 0xF0, 0x80,
        0xF0, 0xF0, 0x10, 0xF0, 0x10, 0xF0, 0x90, 0x90, 0xF0, 0x10, 0x10, 0xF0, 0x80, 0xF0, 0x10,
        0xF0, 0xF0, 0x80, 0xF0, 0x90, 0xF0, 0xF0, 0x10, 0x20, 0x40, 0x40, 0xF0, 0x90, 0xF0, 0x90,
        0xF0, 0xF0, 0x90, 0xF0, 0x10, 0xF0, 0xF0, 0x90, 0xF0, 0x90, 0x90, 0xE0, 0x90, 0xE0, 0x90,
        0xE0, 0xF0, 0x80, 0x80, 0x80, 0xF0, 0xE0, 0x90, 0x90, 0x90, 0xE0, 0xF0, 0x80, 0xF0, 0x80,
        0xF0, 0xF0, 0x80, 0xF0, 0x80, 0x80,
    ];
    proof {
        assert(out@ =~= spec_font());
    }
    out
}

} // verus!
