//! The machine state and executor: memory, registers, program counter,
//! stack and framebuffer, and the fetch-decode-execute step.
//!
//! Every instruction's effect is specified by [`step_result`], a pure
//! function from a machine model and an instruction to the next model; the
//! executable [`execute`] and [`tick`] are proved to agree with it. The
//! machine has two steady states, running and halted: halted is reached
//! only through a fatal error (an unrecognized instruction, a stack
//! underflow) or the host's decision to stop, and only a fresh [`State`]
//! restarts it.
use crate::display::{draw_sprite_spec, ScaledFramebuffer};
use crate::error::Chip8Error;
use crate::instruction::{be_word, spec_decode, Instruction, Register};
use vstd::prelude::*;

verus! {

/// rand's standard generator, declared so a value of it can live inside a
/// library type. Verus sees nothing of its internals.
#[verifier::external_type_specification]
#[verifier::external_body]
pub struct ExStdRng(rand::rngs::StdRng);

/// An explicit source of random bytes handed to execution, in place of a
/// process-wide generator, so runs can be made deterministic by seeding.
pub struct RandomSource {
    rng: rand::rngs::StdRng,
}

impl RandomSource {
    /// Relies on rand's `SeedableRng::seed_from_u64` for `StdRng`: builds
    /// a generator whose output is determined by the seed.
    #[verifier::external_body]
    pub fn from_seed(seed: u64) -> (r: RandomSource) {
        RandomSource { rng: rand::SeedableRng::seed_from_u64(seed) }
    }

    /// Relies on rand's `SeedableRng::from_entropy` for `StdRng`: builds a
    /// generator seeded from the operating system. Panics if the system
    /// cannot provide entropy.
    #[verifier::external_body]
    pub fn from_entropy() -> (r: RandomSource) {
        RandomSource { rng: rand::SeedableRng::from_entropy() }
    }

    /// Relies on rand's `Rng::gen::<u8>`: returns a uniformly random
    /// byte. Nothing is promised of the value.
    #[verifier::external_body]
    pub fn next_byte(&mut self) -> (r: u8) {
        rand::Rng::gen(&mut self.rng)
    }
}

/// The mathematical model of a machine state: what every contract of the
/// executor speaks about.
#[verifier::ext_equal]
pub ghost struct MachineModel {
    /// The 4-KB address space, 0x000 up to at most 0xFFF; bytes from
    /// 0x200 hold the loaded program.
    pub memory: Seq<u8>,
    /// The 16 general-purpose 8-bit registers V0-VF.
    pub registers: Seq<u8>,
    /// The 16-bit index register I.
    pub i: u16,
    /// The program counter.
    pub pc: u16,
    /// The stack pointer: how many return addresses are on the stack.
    pub sp: u8,
    /// The 16 stack slots for return addresses.
    pub stack: Seq<u16>,
    /// The 64x32 logical screen, row-major.
    pub screen: Seq<bool>,
}

impl MachineModel {
    /// The value of a general-purpose register.
    pub open spec fn reg(self, r: Register) -> u8 {
        self.registers[r.0 as int]
    }

    /// The model with one register changed.
    pub open spec fn with_register(self, r: Register, v: u8) -> MachineModel {
        MachineModel { registers: self.registers.update(r.0 as int, v), ..self }
    }

    /// The model with the program counter changed.
    pub open spec fn with_pc(self, pc: u16) -> MachineModel {
        MachineModel { pc, ..self }
    }

    /// The model with the index register changed.
    pub open spec fn with_i(self, i: u16) -> MachineModel {
        MachineModel { i, ..self }
    }

    /// The model after skipping the next instruction.
    pub open spec fn skipped(self) -> MachineModel {
        self.with_pc(vstd::wrapping::u16_specs::wrapping_add(self.pc, 2))
    }

    /// The model after a call: the current program counter is pushed and
    /// control moves to the address.
    pub open spec fn called(self, addr: u16) -> MachineModel {
        MachineModel {
            stack: self.stack.update(self.sp as int, self.pc),
            sp: (self.sp + 1) as u8,
            pc: addr,
            ..self
        }
    }

    /// The model after a return: the program counter is popped.
    pub open spec fn returned(self) -> MachineModel {
        MachineModel { sp: (self.sp - 1) as u8, pc: self.stack[self.sp - 1], ..self }
    }

    /// The model after drawing the n-byte sprite at memory[I] at the
    /// position named by registers x and y: the screen takes the XOR-blit
    /// and register 0xF records whether any pixel flipped from set to
    /// unset.
    pub open spec fn drawn(self, x: Register, y: Register, n: u8) -> MachineModel {
        let sprite = self.memory.subrange(self.i as int, self.i as int + n as int);
        let result = draw_sprite_spec(
            self.screen,
            64,
            32,
            self.reg(x) as int,
            self.reg(y) as int,
            sprite,
            n as int,
        );
        MachineModel {
            screen: result.0,
            registers: self.registers.update(
                0xF,
                if result.1 {
                    1u8
                } else {
                    0u8
                },
            ),
            ..self
        }
    }

    /// Whether the program counter can fetch a full two-byte instruction
    /// word from populated memory.
    pub open spec fn can_fetch(self) -> bool {
        self.pc as int + 1 < self.memory.len()
    }

    /// The big-endian instruction word at the program counter.
    pub open spec fn fetched(self) -> u16 {
        be_word(self.memory[self.pc as int], self.memory[self.pc as int + 1])
    }
}

/// What one instruction does to the machine, as a pure function: the next
/// model and the outcome. The program counter has already been advanced
/// past the instruction when its effect is applied, so a jump or call
/// overwrites that advanced value and a call pushes it. `random_byte` is
/// the byte a random source handed out; only the random instruction reads
/// it.
pub open spec fn step_result(pre: MachineModel, instruction: Instruction, random_byte: u8) -> (
    MachineModel,
    Result<(), Chip8Error>,
) {
    match instruction {
        Instruction::SYS() => (pre, Ok(())),
        Instruction::RET() => if pre.sp == 0 {
            (pre, Err(Chip8Error::StackUnderflow))
        } else {
            (pre.returned(), Ok(()))
        },
        Instruction::JP(a) => (pre.with_pc(a@), Ok(())),
        Instruction::CALL(a) => if pre.sp >= 16 {
            (pre, Err(Chip8Error::StackOverflow))
        } else {
            (pre.called(a@), Ok(()))
        },
        Instruction::SEByte(r, b) => (
            if pre.reg(r) == b {
                pre.skipped()
            } else {
                pre
            },
            Ok(()),
        ),
        Instruction::SNEByte(r, b) => (
            if pre.reg(r) != b {
                pre.skipped()
            } else {
                pre
            },
            Ok(()),
        ),
        Instruction::SERegister(x, y) => (
            if pre.reg(x) == pre.reg(y) {
                pre.skipped()
            } else {
                pre
            },
            Ok(()),
        ),
        Instruction::SNERegister(x, y) => (
            if pre.reg(x) != pre.reg(y) {
                pre.skipped()
            } else {
                pre
            },
            Ok(()),
        ),
        Instruction::LDByte(r, b) => (pre.with_register(r, b), Ok(())),
        Instruction::ADDByte(r, b) => (
            pre.with_register(r, vstd::wrapping::u8_specs::wrapping_add(pre.reg(r), b)),
            Ok(()),
        ),
        Instruction::ADDRegister(x, y) => {
            let sum = vstd::wrapping::u8_specs::wrapping_add(pre.reg(x), pre.reg(y));
            let carry: u8 = if pre.reg(x) + pre.reg(y) > 0xFF {
                1
            } else {
                0
            };
            (pre.with_register(x, sum).with_register(Register(0xF), carry), Ok(()))
        },
        Instruction::LDI(a) => (pre.with_i(a@), Ok(())),
        Instruction::RND(r, b) => (pre.with_register(r, random_byte & b), Ok(())),
        Instruction::DRW(x, y, n) => if pre.i as int + n as int <= pre.memory.len() {
            (pre.drawn(x, y, n), Ok(()))
        } else {
            (pre, Err(Chip8Error::SpriteOutOfBounds))
        },
        Instruction::ADDI(r) => (
            pre.with_i(vstd::wrapping::u16_specs::wrapping_add(pre.i, pre.reg(r) as u16)),
            Ok(()),
        ),
        Instruction::UNKNOWN(w) => (pre, Err(Chip8Error::UnrecognizedInstruction(w))),
    }
}

/// All the machine's mutable simulation state. Created by loading a
/// program; mutated only by executing instructions.
#[derive(Debug)]
pub struct State {
    /// 4 KB of RAM; the first 0x200 bytes are reserved for the
    /// interpreter and a loaded program starts at 0x200.
    pub memory: Vec<u8>,
    /// The 16 general-purpose 8-bit registers V0-VF.
    pub registers: Vec<u8>,
    /// The 16-bit index register I, used to locate sprite data.
    pub i: u16,
    /// The program counter.
    pub pc: u16,
    /// The stack pointer.
    pub sp: u8,
    /// The 16-slot stack of 16-bit return addresses.
    pub stack: Vec<u16>,
    /// The framebuffer.
    pub buffer: ScaledFramebuffer,
}

impl View for State {
    type V = MachineModel;

    open spec fn view(&self) -> MachineModel {
        MachineModel {
            memory: self.memory@,
            registers: self.registers@,
            i: self.i,
            pc: self.pc,
            sp: self.sp,
            stack: self.stack@,
            screen: self.buffer@,
        }
    }
}

impl State {
    /// The state is shaped as the machine demands: memory holds the
    /// reserved area plus at most the program space, there are 16
    /// registers and 16 stack slots, and the screen is the 64x32 grid.
    pub open spec fn wf(self) -> bool {
        &&& 0x200 <= self.memory@.len() <= 0xFFF
        &&& self.registers@.len() == 16
        &&& self.stack@.len() == 16
        &&& self.sp <= 16
        &&& self.buffer.wf()
        &&& self.buffer.width == 64
        &&& self.buffer.height == 32
    }

    /// Create a state with the program copied in starting at 0x200, all
    /// registers and the screen cleared, and the program counter at
    /// 0x200. Fails iff the program exceeds the space from 0x200 to
    /// 0xFFF.
    pub fn with_program(program: &[u8]) -> (r: Result<State, Chip8Error>)
        ensures
            program@.len() <= 0xFFF - 0x200 ==> (r matches Ok(s) && {
                &&& s.wf()
                &&& s@.memory == Seq::new(0x200, |j: int| 0u8) + program@
                &&& s@.registers == Seq::new(16, |j: int| 0u8)
                &&& s@.i == 0
                &&& s@.pc == 0x200
                &&& s@.sp == 0
                &&& s@.stack == Seq::new(16, |j: int| 0u16)
                &&& s@.screen == Seq::new(64 * 32, |j: int| false)
            }),
            program@.len() > 0xFFF - 0x200 ==> r == Err::<State, Chip8Error>(
                Chip8Error::ProgramTooLarge,
            ),
    {
        if program.len() > 0xFFF - 0x200 {
            return Err(Chip8Error::ProgramTooLarge);
        }
        let mut memory: Vec<u8> = Vec::new();
        while memory.len() < 0x200
            invariant
                memory@.len() <= 0x200,
                forall|j: int| 0 <= j < memory@.len() ==> memory@[j] == 0u8,
            decreases 0x200 - memory@.len(),
        {
            memory.push(0);
        }
        let mut k: usize = 0;
        while k < program.len()
            invariant
                k <= program@.len(),
                program@.len() <= 0xFFF - 0x200,
                memory@.len() == 0x200 + k,
                forall|j: int| 0 <= j < 0x200 ==> memory@[j] == 0u8,
                forall|j: int| 0x200 <= j < memory@.len() ==> memory@[j] == program@[j - 0x200],
            decreases program@.len() - k,
        {
            memory.push(program[k]);
            k = k + 1;
        }
        let mut registers: Vec<u8> = Vec::new();
        while registers.len() < 16
            invariant
                registers@.len() <= 16,
                forall|j: int| 0 <= j < registers@.len() ==> registers@[j] == 0u8,
            decreases 16 - registers@.len(),
        {
            registers.push(0);
        }
        let mut stack: Vec<u16> = Vec::new();
        while stack.len() < 16
            invariant
                stack@.len() <= 16,
                forall|j: int| 0 <= j < stack@.len() ==> stack@[j] == 0u16,
            decreases 16 - stack@.len(),
        {
            stack.push(0);
        }
        let state = State {
            memory,
            registers,
            i: 0,
            pc: 0x200,
            sp: 0,
            stack,
            buffer: ScaledFramebuffer::new(),
        };
        proof {
            assert(state@.memory =~= Seq::new(0x200, |j: int| 0u8) + program@);
            assert(state@.registers =~= Seq::new(16, |j: int| 0u8));
            assert(state@.stack =~= Seq::new(16, |j: int| 0u16));
            assert(state@.screen =~= Seq::new(64 * 32, |j: int| false));
        }
        Ok(state)
    }

    /// Set the given register to the given value.
    pub fn set_register(&mut self, register: Register, value: u8)
        requires
            old(self).wf(),
            register.wf(),
        ensures
            final(self).wf(),
            final(self)@ == old(self)@.with_register(register, value),
    {
        self.registers.set(register.0 as usize, value);
        proof {
            assert(final(self)@ =~= old(self)@.with_register(register, value));
        }
    }

    /// Get the value in the given register.
    pub fn get_register(&self, register: Register) -> (r: u8)
        requires
            self.wf(),
            register.wf(),
        ensures
            r == self@.reg(register),
    {
        self.registers[register.0 as usize]
    }

    /// Increase I by the value in the given register, wrapping on 16-bit
    /// overflow.
    pub fn increase_i(&mut self, register: &Register)
        requires
            old(self).wf(),
            register.wf(),
        ensures
            final(self).wf(),
            final(self)@ == old(self)@.with_i(
                vstd::wrapping::u16_specs::wrapping_add(
                    old(self)@.i,
                    old(self)@.reg(*register) as u16,
                ),
            ),
    {
        let v = self.get_register(*register) as u16;
        self.i = self.i.wrapping_add(v);
        proof {
            assert(final(self)@ =~= old(self)@.with_i(
                vstd::wrapping::u16_specs::wrapping_add(
                    old(self)@.i,
                    old(self)@.reg(*register) as u16,
                ),
            ));
        }
    }

    /// Set the program counter to the given address.
    pub fn set_pc(&mut self, address: u16)
        requires
            old(self).wf(),
        ensures
            final(self).wf(),
            final(self)@ == old(self)@.with_pc(address),
    {
        self.pc = address;
        proof {
            assert(final(self)@ =~= old(self)@.with_pc(address));
        }
    }

    /// Push a value onto the top of the stack and increment the stack
    /// pointer. All 16 slots full is a stack overflow; callers check.
    pub fn push_onto_stack(&mut self, value: u16)
        requires
            old(self).wf(),
            old(self).sp < 16,
        ensures
            final(self).wf(),
            final(self)@ == (MachineModel {
                stack: old(self)@.stack.update(old(self)@.sp as int, value),
                sp: (old(self)@.sp + 1) as u8,
                ..old(self)@
            }),
    {
        self.stack.set(self.sp as usize, value);
        self.sp = self.sp + 1;
        proof {
            assert(final(self)@ =~= MachineModel {
                stack: old(self)@.stack.update(old(self)@.sp as int, value),
                sp: (old(self)@.sp + 1) as u8,
                ..old(self)@
            });
        }
    }

    /// Decrement the stack pointer and return the value it pointed to.
    /// An empty stack is an underflow; callers check.
    pub fn pop_off_stack(&mut self) -> (r: u16)
        requires
            old(self).wf(),
            old(self).sp > 0,
        ensures
            final(self).wf(),
            final(self)@ == (MachineModel { sp: (old(self)@.sp - 1) as u8, ..old(self)@ }),
            r == old(self)@.stack[old(self)@.sp - 1],
    {
        self.sp = self.sp - 1;
        let r = self.stack[self.sp as usize];
        proof {
            assert(final(self)@ =~= MachineModel { sp: (old(self)@.sp - 1) as u8, ..old(self)@ });
        }
        r
    }

    /// The big-endian 16-bit word at the program counter, or None if the
    /// counter points past the end of populated memory.
    pub fn next_chunk(&self) -> (r: Option<u16>)
        requires
            self.wf(),
        ensures
            self@.can_fetch() ==> r == Some(self@.fetched()),
            !self@.can_fetch() ==> r is None,
    {
        if (self.pc as usize) < self.memory.len() && (self.pc as usize) + 1 < self.memory.len() {
            let one = self.memory[self.pc as usize];
            let two = self.memory[self.pc as usize + 1];
            Some((one as u16) * 0x100 + (two as u16))
        } else {
            None
        }
    }
}

/// Set a register to a random byte masked with `mask`. This is the whole
/// effect of the random instruction once the random source has handed out
/// its byte; it is verified for every value the source can hand back.
pub fn apply_random(state: &mut State, register: Register, mask: u8, random_byte: u8)
    requires
        old(state).wf(),
        register.wf(),
    ensures
        final(state).wf(),
        final(state)@ == old(state)@.with_register(register, random_byte & mask),
{
    state.set_register(register, random_byte & mask);
}

/// Execute a single instruction against the state, drawing from the
/// random source only for the random instruction. The result and the new
/// state agree exactly with [`step_result`]; for the random instruction
/// they agree with it for the byte the source handed out.
pub fn execute(state: &mut State, instruction: &Instruction, rng: &mut RandomSource) -> (r: Result<
    (),
    Chip8Error,
>)
    requires
        old(state).wf(),
        instruction.wf(),
    ensures
        final(state).wf(),
        !(instruction is RND) ==> ({
            let (post, res) = step_result(old(state)@, *instruction, 0);
            final(state)@ == post && r == res
        }),
        instruction is RND ==> exists|b: u8|
            ({
                let (post, res) = #[trigger] step_result(old(state)@, *instruction, b);
                final(state)@ == post && r == res
            }),
{
    match instruction {
        Instruction::SYS() => Ok(()),
        Instruction::RET() => {
            if state.sp == 0 {
                return Err(Chip8Error::StackUnderflow);
            }
            let addr = state.pop_off_stack();
            state.set_pc(addr);
            proof {
                assert(state@ =~= old(state)@.returned());
            }
            Ok(())
        },
        Instruction::JP(address) => {
            state.set_pc(address.value());
            Ok(())
        },
        Instruction::CALL(address) => {
            if state.sp >= 16 {
                return Err(Chip8Error::StackOverflow);
            }
            let pc = state.pc;
            state.push_onto_stack(pc);
            state.set_pc(address.value());
            proof {
                assert(state@ =~= old(state)@.called(address@));
            }
            Ok(())
        },
        Instruction::SEByte(register, byte) => {
            if state.get_register(*register) == *byte {
                let pc = state.pc.wrapping_add(2);
                state.set_pc(pc);
            }
            Ok(())
        },
        Instruction::SNEByte(register, byte) => {
            if state.get_register(*register) != *byte {
                let pc = state.pc.wrapping_add(2);
                state.set_pc(pc);
            }
            Ok(())
        },
        Instruction::SERegister(register_x, register_y) => {
            if state.get_register(*register_x) == state.get_register(*register_y) {
                let pc = state.pc.wrapping_add(2);
                state.set_pc(pc);
            }
            Ok(())
        },
        Instruction::SNERegister(register_x, register_y) => {
            if state.get_register(*register_x) != state.get_register(*register_y) {
                let pc = state.pc.wrapping_add(2);
                state.set_pc(pc);
            }
            Ok(())
        },
        Instruction::LDByte(register, value) => {
            state.set_register(*register, *value);
            Ok(())
        },
        Instruction::ADDByte(register, addend) => {
            let old_value = state.get_register(*register);
            let new_value = addend.wrapping_add(old_value);
            state.set_register(*register, new_value);
            Ok(())
        },
        Instruction::ADDRegister(register_x, register_y) => {
            let value_x = state.get_register(*register_x);
            let value_y = state.get_register(*register_y);
            let result = value_x.wrapping_add(value_y);
            let carry: u8 = if value_x as u16 + value_y as u16 > 0xFF {
                1
            } else {
                0
            };
            state.set_register(*register_x, result);
            state.set_register(Register(0xF), carry);
            proof {
                assert(state@ =~= step_result(old(state)@, *instruction, 0).0);
            }
            Ok(())
        },
        Instruction::LDI(address) => {
            let value = address.value();
            state.i = value;
            proof {
                assert(state@ =~= old(state)@.with_i(address@));
            }
            Ok(())
        },
        Instruction::RND(register, byte) => {
            let random_value = rng.next_byte();
            apply_random(state, *register, *byte, random_value);
            proof {
                let (post, res) = step_result(old(state)@, *instruction, random_value);
                assert(state@ =~= post);
            }
            Ok(())
        },
        Instruction::DRW(register_x, register_y, n) => {
            let x = state.get_register(*register_x);
            let y = state.get_register(*register_y);
            let slice_start = state.i as usize;
            let count = *n as usize;
            if slice_start > state.memory.len() || count > state.memory.len() - slice_start {
                return Err(Chip8Error::SpriteOutOfBounds);
            }
            let sprite: &[u8] = vstd::slice::slice_subrange(
                state.memory.as_slice(),
                slice_start,
                slice_start + count,
            );
            let flipped = state.buffer.draw_sprite_at(x as usize, y as usize, sprite);
            let flag: u8 = if flipped {
                1
            } else {
                0
            };
            state.set_register(Register(0xF), flag);
            proof {
                assert(state@ =~= old(state)@.drawn(*register_x, *register_y, *n));
            }
            Ok(())
        },
        Instruction::ADDI(register) => {
            state.increase_i(register);
            Ok(())
        },
        Instruction::UNKNOWN(bytes) => Err(Chip8Error::UnrecognizedInstruction(*bytes)),
    }
}

/// Do one step: fetch the word at the program counter, advance the
/// counter by 2, decode, and apply the instruction's effect. Returns the
/// instruction applied, for tracing; `Ok(None)` when the counter points
/// past the end of populated memory; or the fatal error execution hit.
pub fn tick(state: &mut State, rng: &mut RandomSource) -> (r: Result<
    Option<Instruction>,
    Chip8Error,
>)
    requires
        old(state).wf(),
    ensures
        final(state).wf(),
        !old(state)@.can_fetch() ==> r == Ok::<Option<Instruction>, Chip8Error>(None)
            && final(state)@ == old(state)@,
        old(state)@.can_fetch() ==> ({
            let instr = spec_decode(old(state)@.fetched());
            let advanced = old(state)@.with_pc((old(state)@.pc + 2) as u16);
            &&& !(instr is RND) ==> ({
                let (post, res) = step_result(advanced, instr, 0);
                final(state)@ == post && r == (match res {
                    Ok(_) => Ok(Some(instr)),
                    Err(e) => Err(e),
                })
            })
            &&& instr is RND ==> exists|b: u8|
                ({
                    let (post, res) = #[trigger] step_result(advanced, instr, b);
                    final(state)@ == post && r == (match res {
                        Ok(_) => Ok(Some(instr)),
                        Err(e) => Err(e),
                    })
                })
        }),
{
    match state.next_chunk() {
        Some(chunk) => {
            let pc = state.pc + 2;
            state.set_pc(pc);
            let instruction = match Instruction::decode(chunk) {
                Ok(instruction) => instruction,
                Err(e) => {
                    return Err(e);
                },
            };
            match execute(state, &instruction, rng) {
                Ok(()) => Ok(Some(instruction)),
                Err(e) => Err(e),
            }
        },
        None => Ok(None),
    }
}

/// Call-return symmetry: whatever a called subroutine does short of
/// touching the stack, the return restores the program counter to the
/// call site's post-increment address and the stack pointer to its
/// pre-call value.
pub proof fn lemma_call_return_symmetry(
    pre: MachineModel,
    target: crate::instruction::Address,
    mid: MachineModel,
)
    requires
        pre.sp < 16,
        pre.stack.len() == 16,
        mid.stack == step_result(pre, Instruction::CALL(target), 0).0.stack,
        mid.sp == step_result(pre, Instruction::CALL(target), 0).0.sp,
    ensures
        step_result(mid, Instruction::RET(), 0).1 is Ok,
        step_result(mid, Instruction::RET(), 0).0.pc == pre.pc,
        step_result(mid, Instruction::RET(), 0).0.sp == pre.sp,
{
}

} // verus!
