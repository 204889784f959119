use chip8::instruction::Instruction::{
    ADDByte, ADDI, CALL, DRW, JP, LDByte, LDI, RET, SNEByte, SYS,
};
use chip8::instruction::{Address, Register};
use chip8::parse;

fn a(value: u16) -> Address {
    Address::new(value).unwrap()
}

fn r(n: u8) -> Register {
    Register(n)
}

#[test]
fn parse_everything() {
    let input = vec![
        0x00EE, 0x0ABC, 0x1A12, 0x221A, 0x4A56, 0x6003, 0x7123, 0xA278, 0xD123, 0xF51E,
    ];
    let expected = vec![
        RET(),
        SYS(),
        JP(a(0xA12)),
        CALL(a(0x21A)),
        SNEByte(r(0xA), 0x56),
        LDByte(r(0x0), 0x03),
        ADDByte(r(0x1), 0x23),
        LDI(a(0x278)),
        DRW(r(0x1), r(0x2), 0x3),
        ADDI(r(0x5)),
    ];
    assert_eq!(parse(&input).unwrap(), expected);
}
