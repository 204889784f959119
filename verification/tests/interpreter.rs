use chip8::display;
use chip8::instruction::Instruction::{
    ADDByte, ADDRegister, ADDI, CALL, DRW, JP, LDByte, LDI, RET, RND, SEByte, SERegister, SNEByte,
    SNERegister, SYS,
};
use chip8::instruction::{Address, Register};
use chip8::{tick, Chip8Error, RandomSource, State};

// Build a program by inserting u16s (as u8s) at the given address and
// address+1, with everything else filled with zeroes.
// Note that the program space starts at 0x200, so instructions will be
// inserted at 0x200 + your address. This is especially important when
// testing JP/RET.
fn build_program(addresses_and_chunks: &[(usize, u16)]) -> Vec<u8> {
    let mut program = vec![0; 0xFFF - 0x200];
    addresses_and_chunks
        .iter()
        .copied()
        .for_each(|(address, instruction)| {
            let [b1, b2] = u16::to_be_bytes(instruction);
            program[address] = b1;
            program[address + 1] = b2;
        });
    program
}

fn run(chunks: &[u16]) -> State {
    let mut state = build_state_with_program(chunks);
    for _ in chunks {
        tick(&mut state, &mut testing_rng()).unwrap();
    }
    state
}

fn build_state_with_program(chunks: &[u16]) -> State {
    // Every instruction is 2 bytes, so generate 0, 2, 4, etc
    let addresses = (0..).filter(|x| x % 2 == 0).take(chunks.len());
    let result = addresses.zip(chunks.iter().copied()).collect::<Vec<_>>();

    State::with_program(&build_program(result.as_slice())).unwrap()
}

fn build_state_with_program_with_custom_offsets(addresses_and_chunks: &[(usize, u16)]) -> State {
    State::with_program(&build_program(addresses_and_chunks)).unwrap()
}

// A random-number generator with a pre-determined seed.
fn testing_rng() -> RandomSource {
    RandomSource::from_seed(0)
}

fn a(value: u16) -> Address {
    Address::new(value).unwrap()
}

fn r(n: u8) -> Register {
    Register(n)
}

#[test]
fn sys_ignored_advances_pc() {
    let state = run(&[SYS().encode()]);
    assert_eq!(state.pc, 0x202);
}

#[test]
fn call_subroutine_and_return() {
    let program = &[
        // CALL: Increment SP, put current PC (0x200 + 2 = 0x202) on top of
        // stack, set PC to 0x300
        (0, CALL(a(0x300)).encode()),
        // At 0x100 (+ 0x200 = 0x300 in the total program memory), do LD 1, 20
        (0x100, LDByte(r(0x1), 0x20).encode()),
        // Now RET(urn): Set PC to top of stack (0x202), subtract 1 from SP
        (0x102, RET().encode()),
    ];
    let mut state = build_state_with_program_with_custom_offsets(program);

    for _ in 0..program.len() {
        tick(&mut state, &mut testing_rng()).unwrap();
    }

    assert_eq!(state.pc, 0x202);
    assert_eq!(state.sp, 0);
    assert_eq!(state.get_register(r(0x1)), 0x20);
}

#[test]
fn jp_addr() {
    let state = run(&[JP(a(0xBCD)).encode()]);
    assert_eq!(state.pc, 0xBCD);
}

#[test]
fn ld_vx() {
    let state = run(&[LDByte(r(0xD), 0x12).encode()]);
    assert_eq!(state.get_register(r(0xD)), 0x12);
}

#[test]
fn ld_i() {
    let state = run(&[LDI(a(0x400)).encode()]);
    assert_eq!(state.i, 0x400);
}

#[test]
fn add_byte() {
    let state = run(&[LDByte(r(0xD), 0x12).encode(), ADDByte(r(0xD), 0x12).encode()]);
    assert_eq!(state.get_register(r(0xD)), 0x24);
}

#[test]
fn add_byte_with_overflow() {
    let state = run(&[LDByte(r(0xD), 0x12).encode(), ADDByte(r(0xD), 0xFF).encode()]);
    // Expect it to wrap around
    assert_eq!(state.get_register(r(0xD)), 0x11);
}

#[test]
fn sne_byte() {
    let state = run(&[
        LDByte(r(0xD), 0x12).encode(),
        SNEByte(r(0xD), 0x00).encode(),
        // This should be skipped
        LDByte(r(0x1), 0x00).encode(),
        // This one should run
        LDByte(r(0x1), 0xFF).encode(),
    ]);
    assert_eq!(state.get_register(r(0x1)), 0xFF);
}

#[test]
fn se_byte() {
    let state = run(&[
        LDByte(r(0xD), 0x12).encode(),
        SEByte(r(0xD), 0x12).encode(),
        // This should be skipped
        LDByte(r(0x1), 0x00).encode(),
        // This one should run
        LDByte(r(0x1), 0xFF).encode(),
    ]);
    assert_eq!(state.get_register(r(0x1)), 0xFF);
}

#[test]
fn se_register() {
    let state = run(&[
        LDByte(r(0xA), 0x12).encode(),
        LDByte(r(0xB), 0x12).encode(),
        SERegister(r(0xA), r(0xB)).encode(),
        // This should be skipped
        LDByte(r(0x1), 0x00).encode(),
        // This one should run
        LDByte(r(0x1), 0xFF).encode(),
    ]);
    assert_eq!(state.get_register(r(0x1)), 0xFF);
}

#[test]
fn sne_register() {
    let state = run(&[
        LDByte(r(0xA), 0x12).encode(),
        LDByte(r(0xB), 0x12).encode(),
        SNERegister(r(0xA), r(0xC)).encode(),
        // This should be skipped
        LDByte(r(0x1), 0x12).encode(),
        // This should run
        LDByte(r(0x1), 0xFF).encode(),
    ]);
    assert_eq!(state.get_register(r(0x1)), 0xFF);
}

#[test]
fn rnd() {
    let state = run(&[LDByte(r(0x1), 0x00).encode(), RND(r(0x1), 0xFF).encode()]);
    // The testing RNG will always generate 0xB2 as its first u8. 0xB2 &
    // 0xFF == 0xB2
    assert_eq!(state.get_register(r(0x1)), 0xB2);
}

#[test]
fn drw_with_vf_flip_to_1() {
    let sprite1: u8 = 0b11110000;
    // Sprite 2 intentionally has exactly 1 bit that's the same as sprite 1,
    // so that when we draw sprite1 then sprite2, it draws a pixel as set,
    // then unset, causing VF to be set to 1.
    let sprite2: u8 = 0b00010000;
    let sprites_combined = u16::from_be_bytes([sprite1, sprite2]);

    let state = run(&[
        // Jump past the sprites
        JP(a(0x200 + 4)).encode(),
        // Sprite1 is at 0x200 + 2 and sprite2 is at 0x200 + 3
        sprites_combined,
        LDByte(r(0x1), 0x00).encode(), // x coordinate to draw at
        LDByte(r(0x2), 0x00).encode(), // y coordinate to draw at
        // Point I at sprite 1
        LDI(a(0x200 + 2)).encode(),
        // Draw sprite1 at (V1, V2)
        DRW(r(0x1), r(0x2), 0x01).encode(),
        // Point I at sprite 2
        LDI(a(0x200 + 3)).encode(),
        // Draw sprite2 at (V1, V2)
        DRW(r(0x1), r(0x2), 0x01).encode(),
    ]);

    // VF flips to 1 because a set pixel was changed to unset
    assert_eq!(state.get_register(r(0xF)), 0x1);
    // These pixels stay ON
    assert_eq!(state.buffer.get_pixel(0, 0), display::ON);
    assert_eq!(state.buffer.get_pixel(1, 0), display::ON);
    assert_eq!(state.buffer.get_pixel(2, 0), display::ON);
    // This is the pixel that flipped from ON to OFF
    assert_eq!(state.buffer.get_pixel(3, 0), display::OFF);
    // These pixels stay OFF
    assert_eq!(state.buffer.get_pixel(4, 0), display::OFF);
    assert_eq!(state.buffer.get_pixel(5, 0), display::OFF);
    assert_eq!(state.buffer.get_pixel(6, 0), display::OFF);
    assert_eq!(state.buffer.get_pixel(7, 0), display::OFF);
}

#[test]
fn drw_with_vf_flip_back_to_0() {
    // Draw this sprite 3 times so that VF goes from 0 -> 1 -> 0 again
    let sprite: u8 = 0b10000000;
    let sprites_combined = u16::from_be_bytes([sprite, sprite]);

    let state = run(&[
        // Jump past the sprites
        JP(a(0x200 + 4)).encode(),
        // Sprite1 is at 0x200 + 2 and sprite2 is at 0x200 + 3
        sprites_combined,
        LDByte(r(0x1), 0x00).encode(), // x coordinate to draw at
        LDByte(r(0x2), 0x00).encode(), // y coordinate to draw at
        // Point I at sprite 1
        LDI(a(0x200 + 2)).encode(),
        // Draw sprite (VF stays at 0, pixel changed from unset to set)
        DRW(r(0x1), r(0x2), 0x01).encode(),
        // Draw sprite (VF flips to 1, pixel changed from set to unset)
        DRW(r(0x1), r(0x2), 0x01).encode(),
        // Draw sprite (VF flips to 0, no pixel changed from set to unset)
        DRW(r(0x1), r(0x2), 0x01).encode(),
    ]);

    assert_eq!(state.get_register(r(0xF)), 0x0);
    assert_eq!(state.buffer.get_pixel(0, 0), display::ON);
    for x in 1..8 {
        assert_eq!(state.buffer.get_pixel(x, 0), display::OFF);
    }
}

#[test]
fn add_registers_without_overflow() {
    let state = run(&[
        LDByte(r(0xD), 0x12).encode(),
        LDByte(r(0xE), 0x20).encode(),
        ADDRegister(r(0xD), r(0xE)).encode(),
    ]);
    assert_eq!(state.get_register(r(0xD)), 0x12 + 0x20);
    assert_eq!(state.get_register(r(0xF)), 0);
}

#[test]
fn add_registers_with_overflow() {
    let state = run(&[
        LDByte(r(0xD), 0x12).encode(),
        LDByte(r(0xE), 0xFF).encode(),
        ADDRegister(r(0xD), r(0xE)).encode(),
    ]);
    assert_eq!(state.get_register(r(0xD)), 0x11);
    assert_eq!(state.get_register(r(0xF)), 1);
}

// The random byte is masked: with the fixed seed the first byte is 0xB2,
// so masking keeps exactly the bits the mask allows.
#[test]
fn rnd_applies_the_mask() {
    for (mask, expected) in [(0x0Fu8, 0xB2u8 & 0x0F), (0xF0, 0xB2 & 0xF0), (0x00, 0x00)] {
        let state = run(&[RND(r(0x1), mask).encode()]);
        assert_eq!(state.get_register(r(0x1)), expected);
    }
}

// Loading a program of exactly 0xFFF - 0x200 bytes succeeds; one byte
// larger fails.
#[test]
fn program_size_boundary() {
    let largest = vec![0u8; 0xFFF - 0x200];
    assert!(State::with_program(&largest).is_ok());

    let too_large = vec![0u8; 0xFFF - 0x200 + 1];
    let result = State::with_program(&too_large);
    assert!(matches!(result, Err(Chip8Error::ProgramTooLarge)));
}

// A fresh state starts at 0x200 with everything cleared.
#[test]
fn with_program_initial_state() {
    let state = State::with_program(&[0x12, 0x34]).unwrap();
    assert_eq!(state.pc, 0x200);
    assert_eq!(state.sp, 0);
    assert_eq!(state.i, 0);
    assert_eq!(state.memory.len(), 0x202);
    assert_eq!(state.memory[0x200], 0x12);
    assert_eq!(state.memory[0x201], 0x34);
    for n in 0..16 {
        assert_eq!(state.get_register(r(n)), 0);
    }
}

// Returning with an empty stack is a fatal underflow.
#[test]
fn ret_with_empty_stack_underflows() {
    let mut state = build_state_with_program(&[RET().encode()]);
    let result = tick(&mut state, &mut testing_rng());
    assert_eq!(result, Err(Chip8Error::StackUnderflow));
}

// A seventeenth nested call does not fit the 16-slot stack.
#[test]
fn call_past_sixteen_levels_overflows() {
    // Each CALL jumps to the next instruction slot, nesting one level
    // deeper every time.
    let chunks = (0..17)
        .map(|k| (2 * k, CALL(a(0x200 + 2 * (k as u16) + 2)).encode()))
        .collect::<Vec<_>>();
    let mut state = build_state_with_program_with_custom_offsets(&chunks);
    for _ in 0..16 {
        tick(&mut state, &mut testing_rng()).unwrap();
    }
    let result = tick(&mut state, &mut testing_rng());
    assert_eq!(result, Err(Chip8Error::StackOverflow));
}

// Executing an instruction the machine does not model is fatal, with the
// raw word reported.
#[test]
fn unknown_instruction_is_fatal() {
    let mut state = build_state_with_program(&[0xE09E]);
    let result = tick(&mut state, &mut testing_rng());
    assert_eq!(result, Err(Chip8Error::UnrecognizedInstruction(0xE09E)));
}

// A sprite read that would run past the end of memory is fatal.
#[test]
fn drw_past_memory_end_is_fatal() {
    let mut state = build_state_with_program(&[
        LDI(a(0xFFE)).encode(),
        DRW(r(0x0), r(0x0), 0x5).encode(),
    ]);
    tick(&mut state, &mut testing_rng()).unwrap();
    let result = tick(&mut state, &mut testing_rng());
    assert_eq!(result, Err(Chip8Error::SpriteOutOfBounds));
}

// When the program counter walks past the end of populated memory, the
// step reports that there are no more instructions.
#[test]
fn tick_past_the_end_returns_none() {
    // Memory holds exactly 0x200 bytes; nothing can be fetched at 0x200.
    let mut state = State::with_program(&[]).unwrap();
    let result = tick(&mut state, &mut testing_rng());
    assert_eq!(result, Ok(None));
}

// ADDI adds a register into I.
#[test]
fn addi_increases_i() {
    let state = run(&[
        LDI(a(0x300)).encode(),
        LDByte(r(0x4), 0x25).encode(),
        ADDI(r(0x4)).encode(),
    ]);
    assert_eq!(state.i, 0x325);
}

// The call/return scenario: program [call 0x300 @0x200, load V1,0x20
// @0x300, return @0x302] ends with PC = 0x202, SP = 0, V1 = 0x20.
#[test]
fn call_return_scenario() {
    let mut state = build_state_with_program_with_custom_offsets(&[
        (0, CALL(a(0x300)).encode()),
        (0x100, LDByte(r(0x1), 0x20).encode()),
        (0x102, RET().encode()),
    ]);
    for _ in 0..3 {
        tick(&mut state, &mut testing_rng()).unwrap();
    }
    assert_eq!(state.pc, 0x202);
    assert_eq!(state.sp, 0);
    assert_eq!(state.get_register(r(0x1)), 0x20);
}

// The add-with-carry scenario: V[0xD]=0x12, V[0xE]=0xFF, add ⇒ V[0xD] =
// 0x11 with the carry flag set.
#[test]
fn add_with_carry_scenario() {
    let state = run(&[
        LDByte(r(0xD), 0x12).encode(),
        LDByte(r(0xE), 0xFF).encode(),
        ADDRegister(r(0xD), r(0xE)).encode(),
    ]);
    assert_eq!(state.get_register(r(0xD)), 0x11);
    assert_eq!(state.get_register(r(0xF)), 1);
}

// tick reports the decoded instruction it applied, for tracing.
#[test]
fn tick_reports_the_instruction() {
    let mut state = build_state_with_program(&[LDByte(r(0x2), 0x7F).encode()]);
    let applied = tick(&mut state, &mut testing_rng()).unwrap();
    assert_eq!(applied, Some(LDByte(r(0x2), 0x7F)));
}
