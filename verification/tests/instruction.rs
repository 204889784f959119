use chip8::instruction::Instruction::{
    ADDByte, ADDRegister, ADDI, CALL, DRW, JP, LDByte, LDI, RET, RND, SEByte, SERegister, SNEByte,
    SNERegister, SYS, UNKNOWN,
};
use chip8::instruction::{Address, Instruction, Register};
use chip8::Chip8Error;
use std::collections::HashMap;

// This helper function exists so that we don't have to inline an ugly
// `instruction.encode()` into all the other tests.
fn into_u16(i: Instruction) -> u16 {
    i.encode()
}

fn a(value: u16) -> Address {
    Address::new(value).unwrap()
}

fn r(n: u8) -> Register {
    Register::new(n)
}

#[test]
fn as_u16_ret() {
    assert_eq!(into_u16(RET()), 0x00EE)
}

#[test]
fn as_u16_sys() {
    assert_eq!(into_u16(SYS()), 0x0123)
}

#[test]
fn as_u16_jp() {
    assert_eq!(into_u16(JP(a(0x234))), 0x1234)
}

#[test]
fn as_u16_call() {
    assert_eq!(into_u16(CALL(a(0x345))), 0x2345)
}

#[test]
fn as_u16_se_byte() {
    assert_eq!(into_u16(SEByte(r(0x4), 0x56)), 0x3456)
}

#[test]
fn as_u16_sne_byte() {
    assert_eq!(into_u16(SNEByte(r(0x5), 0x67)), 0x4567)
}

#[test]
fn as_u16_se_register() {
    assert_eq!(into_u16(SERegister(r(0xA), r(0xB))), 0x5AB0)
}

#[test]
fn as_u16_sne_register() {
    assert_eq!(into_u16(SNERegister(r(0xA), r(0xB))), 0x9AB0)
}

#[test]
fn as_u16_ld_byte() {
    assert_eq!(into_u16(LDByte(r(0x7), 0x89)), 0x6789);
}

#[test]
fn as_u16_add_byte() {
    assert_eq!(into_u16(ADDByte(r(0x8), 0x9A)), 0x789A)
}

#[test]
fn as_u16_ldi() {
    assert_eq!(into_u16(LDI(a(0xBCD))), 0xABCD)
}

#[test]
fn as_u16_drw() {
    assert_eq!(into_u16(DRW(r(0xA), r(0xB), 0xC)), 0xDABC)
}

#[test]
fn as_u16_addi() {
    assert_eq!(into_u16(ADDI(r(0xB))), 0xFB1E)
}

#[test]
fn as_u16_rnd() {
    assert_eq!(into_u16(RND(r(0xA), 0xBC)), 0xCABC)
}

#[test]
fn as_u16_add_registers() {
    assert_eq!(into_u16(ADDRegister(r(0xA), r(0xB))), 0x8AB4)
}

#[test]
fn from_u16() {
    let instructions: HashMap<u16, Instruction> = [
        (0x00EE, RET()),
        (0x0ABC, SYS()),
        (0x1A12, JP(a(0xA12))),
        (0x221A, CALL(a(0x21A))),
        (0x3934, SEByte(r(0x9), 0x34)),
        (0x4A56, SNEByte(r(0xA), 0x56)),
        (0x5730, SERegister(r(0x7), r(0x3))),
        (0x6003, LDByte(r(0x0), 0x03)),
        (0x7123, ADDByte(r(0x1), 0x23)),
        (0x8124, ADDRegister(r(0x1), r(0x2))),
        (0x9AB0, SNERegister(r(0xA), r(0xB))),
        (0xA278, LDI(a(0x278))),
        (0xC123, RND(r(0x1), 0x23)),
        (0xD123, DRW(r(0x1), r(0x2), 0x3)),
        (0xF51E, ADDI(r(0x5))),
    ]
    .iter()
    .cloned()
    .collect();

    for (chunk, instruction) in instructions.into_iter() {
        let actual = Instruction::decode(chunk).unwrap();
        assert_eq!(actual, instruction);
    }
}

// The known decode vectors.
#[test]
fn known_vectors() {
    assert_eq!(Instruction::decode(0x00EE).unwrap(), RET());
    assert_eq!(Instruction::decode(0x1234).unwrap(), JP(a(0x234)));
    assert_eq!(Instruction::decode(0x6D12).unwrap(), LDByte(r(0xD), 0x12));
    assert_eq!(Instruction::decode(0xD123).unwrap(), DRW(r(0x1), r(0x2), 0x3));
}

// Decoding the word an instruction encodes to yields the instruction
// again, for a sample of every variant.
#[test]
fn round_trip_each_variant() {
    let samples = vec![
        SYS(),
        RET(),
        JP(a(0xABC)),
        CALL(a(0x300)),
        SEByte(r(0x0), 0x00),
        SNEByte(r(0xF), 0xFF),
        SERegister(r(0x1), r(0x2)),
        SNERegister(r(0xE), r(0x0)),
        LDByte(r(0x3), 0x42),
        ADDByte(r(0x4), 0x99),
        ADDRegister(r(0x5), r(0x6)),
        LDI(a(0xFFF)),
        RND(r(0x7), 0x55),
        DRW(r(0x8), r(0x9), 0xF),
        ADDI(r(0xA)),
        UNKNOWN(0xE123),
    ];
    for instruction in samples {
        assert_eq!(Instruction::decode(instruction.encode()).unwrap(), instruction);
    }
}

// A register-compare word whose low nibble breaks the expected layout
// decodes to UNKNOWN rather than being misread.
#[test]
fn broken_register_compare_layouts_are_unknown() {
    assert_eq!(Instruction::decode(0x5AB1).unwrap(), UNKNOWN(0x5AB1));
    assert_eq!(Instruction::decode(0x9AB7).unwrap(), UNKNOWN(0x9AB7));
    assert_eq!(Instruction::decode(0xB123).unwrap(), UNKNOWN(0xB123));
    assert_eq!(Instruction::decode(0xE09E).unwrap(), UNKNOWN(0xE09E));
}

// An address is 12 bits; a larger value is rejected, not truncated.
#[test]
fn address_construction_is_fail_fast() {
    assert_eq!(Address::new(0xFFF).unwrap().value(), 0xFFF);
    assert_eq!(Address::new(0x1000), Err(Chip8Error::AddressTooLarge(0x1000)));
}

#[test]
fn mnemonics_render() {
    assert_eq!(JP(a(0xABC)).mnemonic(), "JP ABC");
    assert_eq!(JP(a(0x00A)).mnemonic(), "JP 0A");
    assert_eq!(DRW(r(0x1), r(0x2), 0x3).mnemonic(), "DRW V1, V2, 03");
    assert_eq!(SYS().mnemonic(), "SYS (ignored)");
    assert_eq!(RET().mnemonic(), "RET");
    assert_eq!(SEByte(r(0xA), 0x1).mnemonic(), "SE VA, 01");
    assert_eq!(ADDRegister(r(0x1), r(0x2)).mnemonic(), "ADD V1 += V2");
    assert_eq!(LDI(a(0x278)).mnemonic(), "LD I, 278");
    assert_eq!(ADDI(r(0x5)).mnemonic(), "ADD I, V5");
    assert_eq!(UNKNOWN(0xE09E).mnemonic(), "Unknown: E09E");
}

#[test]
fn read_be_u16_combines_two_bytes() {
    assert_eq!(chip8::read_be_u16(&[0x12, 0x34]), 0x1234);
    assert_eq!(chip8::read_be_u16(&[0x00, 0xEE]), 0x00EE);
}

#[test]
fn nibbles_split_a_byte() {
    assert_eq!(chip8::nibbles(0xAB), [0xA, 0xB]);
    assert_eq!(chip8::nibbles(0x07), [0x0, 0x7]);
}
