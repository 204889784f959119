//! The instruction codec: a bidirectional mapping between a 16-bit
//! big-endian instruction word and a structured [`Instruction`] value.
//!
//! Decoding dispatches on the word's highest nibble and never fails on an
//! unknown opcode: anything the machine does not model becomes the explicit
//! [`Instruction::UNKNOWN`] variant carrying the original word, so a trace
//! can report it without aborting.
use crate::error::Chip8Error;
use vstd::prelude::*;

verus! {

/// A 12-bit memory address (0x000-0xFFF) stored in a u16.
///
/// Construction is fail-fast: a value above 0xFFF is rejected with
/// [`Chip8Error::AddressTooLarge`] rather than silently truncated, so a
/// malformed or mis-parsed instruction is caught early.
#[derive(Debug, Clone, Copy, PartialEq, Eq, Structural)]
pub struct Address(pub u16);

impl View for Address {
    type V = u16;

    open spec fn view(&self) -> u16 {
        self.0
    }
}

impl Address {
    /// Whether this address value fits in 12 bits. Every address built by
    /// [`Address::new`] satisfies this.
    pub open spec fn wf(self) -> bool {
        self@ <= 0xFFF
    }

    /// Build an address, rejecting any value that does not fit in 12 bits.
    pub fn new(value: u16) -> (r: Result<Address, Chip8Error>)
        ensures
            value <= 0xFFF ==> (r matches Ok(a) && a@ == value),
            value > 0xFFF ==> r == Err::<Address, Chip8Error>(Chip8Error::AddressTooLarge(value)),
    {
        if value <= 0xFFF {
            Ok(Address(value))
        } else {
            Err(Chip8Error::AddressTooLarge(value))
        }
    }

    /// The address as a plain 16-bit value.
    pub fn value(self) -> (r: u16)
        ensures
            r == self@,
    {
        self.0
    }
}

/// A 4-bit value naming one of the 16 general-purpose registers, 0x0-0xF.
#[derive(Debug, Clone, Copy, PartialEq, Eq, Structural)]
pub struct Register(pub u8);

impl Register {
    /// Whether the register index is one of the 16 that exist.
    pub open spec fn wf(self) -> bool {
        self.0 <= 0xF
    }

    /// Build a register name; indices above 0xF name no register.
    pub fn new(n: u8) -> (r: Register)
        requires
            n <= 0xF,
        ensures
            r == Register(n),
    {
        Register(n)
    }
}

/// The closed set of instruction variants this machine models, each
/// carrying only the operands its variant needs. A decoded instruction is
/// immutable: it is only consumed by the executor.
#[derive(Debug, Clone, Copy, PartialEq, Eq, Structural)]
pub enum Instruction {
    /// A system call, ignored by this machine.
    SYS(),
    /// Return from a subroutine: the program counter is popped off the
    /// stack.
    RET(),
    /// Jump: the program counter is set to the address.
    JP(Address),
    /// Call a subroutine: the current program counter is pushed onto the
    /// stack, then set to the address.
    CALL(Address),
    /// Skip the next instruction if the register equals the byte.
    SEByte(Register, u8),
    /// Skip the next instruction if the register differs from the byte.
    SNEByte(Register, u8),
    /// Skip the next instruction if the two registers are equal.
    SERegister(Register, Register),
    /// Skip the next instruction if the two registers differ.
    SNERegister(Register, Register),
    /// Load the byte into the register.
    LDByte(Register, u8),
    /// Add the byte to the register, wrapping on 8-bit overflow; no flag
    /// is set.
    ADDByte(Register, u8),
    /// Add the second register into the first with 8-bit wraparound;
    /// register 0xF is set to 1 on carry and 0 otherwise.
    ADDRegister(Register, Register),
    /// Load the address into the index register I.
    LDI(Address),
    /// Set the register to a uniformly random byte masked with the byte.
    RND(Register, u8),
    /// Draw the n-byte sprite at memory[I] at the position named by the
    /// two registers; register 0xF records whether any pixel flipped from
    /// set to unset.
    DRW(Register, Register, u8),
    /// Add the register into the index register I.
    ADDI(Register),
    /// An instruction word the machine does not model, kept verbatim so it
    /// can be reported.
    UNKNOWN(u16),
}

/// The high nibble of a byte: 0xAB becomes 0xA.
pub open spec fn nib_hi(byte: u8) -> u8 {
    byte >> 4
}

/// The low nibble of a byte: 0xAB becomes 0xB.
pub open spec fn nib_lo(byte: u8) -> u8 {
    byte & 0xF
}

/// The high byte of a big-endian word: 0xABCD becomes 0xAB.
pub open spec fn word_hi(w: u16) -> u8 {
    (w >> 8) as u8
}

/// The low byte of a big-endian word: 0xABCD becomes 0xCD.
pub open spec fn word_lo(w: u16) -> u8 {
    (w & 0xFF) as u8
}

/// The 12-bit address field of a word: 0xABCD becomes 0xBCD.
pub open spec fn addr_field(w: u16) -> u16 {
    w & 0xFFF
}

/// What decoding a 16-bit word yields. Dispatch is on the highest nibble;
/// within the register-compare groups a non-zero low nibble breaks the
/// expected layout and decodes to UNKNOWN rather than being misread.
pub open spec fn spec_decode(w: u16) -> Instruction {
    let a = nib_hi(word_hi(w));
    let b = nib_lo(word_hi(w));
    let c = nib_hi(word_lo(w));
    let d = nib_lo(word_lo(w));
    if a == 0x0 {
        if w == 0x00EE {
            Instruction::RET()
        } else {
            Instruction::SYS()
        }
    } else if a == 0x1 {
        Instruction::JP(Address(addr_field(w)))
    } else if a == 0x2 {
        Instruction::CALL(Address(addr_field(w)))
    } else if a == 0x3 {
        Instruction::SEByte(Register(b), word_lo(w))
    } else if a == 0x4 {
        Instruction::SNEByte(Register(b), word_lo(w))
    } else if a == 0x5 {
        if d == 0 {
            Instruction::SERegister(Register(b), Register(c))
        } else {
            Instruction::UNKNOWN(w)
        }
    } else if a == 0x6 {
        Instruction::LDByte(Register(b), word_lo(w))
    } else if a == 0x7 {
        Instruction::ADDByte(Register(b), word_lo(w))
    } else if a == 0x8 {
        Instruction::ADDRegister(Register(b), Register(c))
    } else if a == 0x9 {
        if d == 0 {
            Instruction::SNERegister(Register(b), Register(c))
        } else {
            Instruction::UNKNOWN(w)
        }
    } else if a == 0xA {
        Instruction::LDI(Address(addr_field(w)))
    } else if a == 0xC {
        Instruction::RND(Register(b), word_lo(w))
    } else if a == 0xD {
        Instruction::DRW(Register(b), Register(c), d)
    } else if a == 0xF {
        Instruction::ADDI(Register(b))
    } else {
        Instruction::UNKNOWN(w)
    }
}

/// The word an instruction encodes to: the exact inverse of decoding for
/// every representable variant.
pub open spec fn spec_encode(i: Instruction) -> u16 {
    match i {
        // SYS stands for any 0nnn word that is not 00EE; this one is as
        // good as any.
        Instruction::SYS() => 0x0123,
        Instruction::RET() => 0x00EE,
        Instruction::JP(a) => (0x1000 + a@) as u16,
        Instruction::CALL(a) => (0x2000 + a@) as u16,
        Instruction::SEByte(r, b) => (0x3000 + r.0 * 0x100 + b) as u16,
        Instruction::SNEByte(r, b) => (0x4000 + r.0 * 0x100 + b) as u16,
        Instruction::SERegister(x, y) => (0x5000 + x.0 * 0x100 + y.0 * 0x10) as u16,
        Instruction::SNERegister(x, y) => (0x9000 + x.0 * 0x100 + y.0 * 0x10) as u16,
        Instruction::LDByte(r, b) => (0x6000 + r.0 * 0x100 + b) as u16,
        Instruction::ADDByte(r, b) => (0x7000 + r.0 * 0x100 + b) as u16,
        Instruction::ADDRegister(x, y) => (0x8000 + x.0 * 0x100 + y.0 * 0x10 + 0x4) as u16,
        Instruction::LDI(a) => (0xA000 + a@) as u16,
        Instruction::RND(r, b) => (0xC000 + r.0 * 0x100 + b) as u16,
        Instruction::DRW(x, y, n) => (0xD000 + x.0 * 0x100 + y.0 * 0x10 + n) as u16,
        Instruction::ADDI(r) => (0xF000 + r.0 * 0x100 + 0x1E) as u16,
        Instruction::UNKNOWN(w) => w,
    }
}

impl Instruction {
    /// Every operand is in range: register indices fit in 4 bits,
    /// addresses in 12 bits, a sprite length in 4 bits. Decoding always
    /// yields a well-formed instruction.
    pub open spec fn wf(self) -> bool {
        match self {
            Instruction::SYS() => true,
            Instruction::RET() => true,
            Instruction::JP(a) => a.wf(),
            Instruction::CALL(a) => a.wf(),
            Instruction::SEByte(r, _) => r.wf(),
            Instruction::SNEByte(r, _) => r.wf(),
            Instruction::SERegister(x, y) => x.wf() && y.wf(),
            Instruction::SNERegister(x, y) => x.wf() && y.wf(),
            Instruction::LDByte(r, _) => r.wf(),
            Instruction::ADDByte(r, _) => r.wf(),
            Instruction::ADDRegister(x, y) => x.wf() && y.wf(),
            Instruction::LDI(a) => a.wf(),
            Instruction::RND(r, _) => r.wf(),
            Instruction::DRW(x, y, n) => x.wf() && y.wf() && n <= 0xF,
            Instruction::ADDI(r) => r.wf(),
            Instruction::UNKNOWN(_) => true,
        }
    }

    /// A variant the codec can carry through a word and back. Every
    /// well-formed variant qualifies except an UNKNOWN wrapping a word
    /// that in fact decodes to a modelled instruction.
    pub open spec fn representable(self) -> bool {
        self.wf() && match self {
            Instruction::UNKNOWN(w) => spec_decode(w) == self,
            _ => true,
        }
    }
}

/// The 16-bit big-endian word formed from a high and a low byte.
pub open spec fn be_word(hi: u8, lo: u8) -> u16 {
    (hi * 0x100 + lo) as u16
}

/// Read a big-endian 16-bit word from the first two bytes of the input.
pub fn read_be_u16(input: &[u8]) -> (r: u16)
    requires
        input@.len() >= 2,
    ensures
        r == be_word(input@[0], input@[1]),
{
    (input[0] as u16) * 0x100 + (input[1] as u16)
}

/// Decode every word of a program listing. Decoding never fails, so the
/// result is always the full list of decoded instructions.
pub fn parse(program: &[u16]) -> (r: Result<Vec<Instruction>, Chip8Error>)
    ensures
        r matches Ok(v) && v@.len() == program@.len(),
        r matches Ok(v) && forall|j: int|
            0 <= j < v@.len() ==> v@[j] == spec_decode(program@[j]),
{
    let mut out: Vec<Instruction> = Vec::new();
    let mut k: usize = 0;
    while k < program.len()
        invariant
            k <= program@.len(),
            out@.len() == k,
            forall|j: int| 0 <= j < k ==> out@[j] == spec_decode(program@[j]),
        decreases program@.len() - k,
    {
        let instruction = match Instruction::decode(program[k]) {
            Ok(instruction) => instruction,
            Err(e) => {
                return Err(e);
            },
        };
        out.push(instruction);
        k = k + 1;
    }
    Ok(out)
}

/// Round trip: decoding the word an instruction encodes to yields the
/// instruction again, for every representable variant.
pub proof fn lemma_decode_encode(i: Instruction)
    requires
        i.representable(),
    ensures
        spec_decode(spec_encode(i)) == i,
{
    match i {
        Instruction::SYS() => {
            assert(nib_hi(word_hi(0x0123u16)) == 0x0) by (bit_vector);
        },
        Instruction::RET() => {
            assert(nib_hi(word_hi(0x00EEu16)) == 0x0) by (bit_vector);
        },
        Instruction::JP(a) => {
            let v = a.0;
            assert(nib_hi(word_hi((0x1000 + v) as u16)) == 0x1 && addr_field(
                (0x1000 + v) as u16,
            ) == v) by (bit_vector)
                requires
                    v <= 0xFFF,
            ;
        },
        Instruction::CALL(a) => {
            let v = a.0;
            assert(nib_hi(word_hi((0x2000 + v) as u16)) == 0x2 && addr_field(
                (0x2000 + v) as u16,
            ) == v) by (bit_vector)
                requires
                    v <= 0xFFF,
            ;
        },
        Instruction::SEByte(r, b) => {
            let x = r.0;
            assert(nib_hi(word_hi((0x3000 + x * 0x100 + b) as u16)) == 0x3 && nib_lo(
                word_hi((0x3000 + x * 0x100 + b) as u16),
            ) == x && word_lo((0x3000 + x * 0x100 + b) as u16) == b) by (bit_vector)
                requires
                    x <= 0xF,
            ;
        },
        Instruction::SNEByte(r, b) => {
            let x = r.0;
            assert(nib_hi(word_hi((0x4000 + x * 0x100 + b) as u16)) == 0x4 && nib_lo(
                word_hi((0x4000 + x * 0x100 + b) as u16),
            ) == x && word_lo((0x4000 + x * 0x100 + b) as u16) == b) by (bit_vector)
                requires
                    x <= 0xF,
            ;
        },
        Instruction::SERegister(rx, ry) => {
            let x = rx.0;
            let y = ry.0;
            assert(nib_hi(word_hi((0x5000 + x * 0x100 + y * 0x10) as u16)) == 0x5 && nib_lo(
                word_hi((0x5000 + x * 0x100 + y * 0x10) as u16),
            ) == x && nib_hi(word_lo((0x5000 + x * 0x100 + y * 0x10) as u16)) == y && nib_lo(
                word_lo((0x5000 + x * 0x100 + y * 0x10) as u16),
            ) == 0) by (bit_vector)
                requires
                    x <= 0xF && y <= 0xF,
            ;
        },
        Instruction::SNERegister(rx, ry) => {
            let x = rx.0;
            let y = ry.0;
            assert(nib_hi(word_hi((0x9000 + x * 0x100 + y * 0x10) as u16)) == 0x9 && nib_lo(
                word_hi((0x9000 + x * 0x100 + y * 0x10) as u16),
            ) == x && nib_hi(word_lo((0x9000 + x * 0x100 + y * 0x10) as u16)) == y && nib_lo(
                word_lo((0x9000 + x * 0x100 + y * 0x10) as u16),
            ) == 0) by (bit_vector)
                requires
                    x <= 0xF && y <= 0xF,
            ;
        },
        Instruction::LDByte(r, b) => {
            let x = r.0;
            assert(nib_hi(word_hi((0x6000 + x * 0x100 + b) as u16)) == 0x6 && nib_lo(
                word_hi((0x6000 + x * 0x100 + b) as u16),
            ) == x && word_lo((0x6000 + x * 0x100 + b) as u16) == b) by (bit_vector)
                requires
                    x <= 0xF,
            ;
        },
        Instruction::ADDByte(r, b) => {
            let x = r.0;
            assert(nib_hi(word_hi((0x7000 + x * 0x100 + b) as u16)) == 0x7 && nib_lo(
                word_hi((0x7000 + x * 0x100 + b) as u16),
            ) == x && word_lo((0x7000 + x * 0x100 + b) as u16) == b) by (bit_vector)
                requires
                    x <= 0xF,
            ;
        },
        Instruction::ADDRegister(rx, ry) => {
            let x = rx.0;
            let y = ry.0;
            assert(nib_hi(word_hi((0x8000 + x * 0x100 + y * 0x10 + 0x4) as u16)) == 0x8 && nib_lo(
                word_hi((0x8000 + x * 0x100 + y * 0x10 + 0x4) as u16),
            ) == x && nib_hi(word_lo((0x8000 + x * 0x100 + y * 0x10 + 0x4) as u16)) == y) by (bit_vector)
                requires
                    x <= 0xF && y <= 0xF,
            ;
        },
        Instruction::LDI(a) => {
            let v = a.0;
            assert(nib_hi(word_hi((0xA000 + v) as u16)) == 0xA && addr_field(
                (0xA000 + v) as u16,
            ) == v) by (bit_vector)
                requires
                    v <= 0xFFF,
            ;
        },
        Instruction::RND(r, b) => {
            let x = r.0;
            assert(nib_hi(word_hi((0xC000 + x * 0x100 + b) as u16)) == 0xC && nib_lo(
                word_hi((0xC000 + x * 0x100 + b) as u16),
            ) == x && word_lo((0xC000 + x * 0x100 + b) as u16) == b) by (bit_vector)
                requires
                    x <= 0xF,
            ;
        },
        Instruction::DRW(rx, ry, n) => {
            let x = rx.0;
            let y = ry.0;
            assert(nib_hi(word_hi((0xD000 + x * 0x100 + y * 0x10 + n) as u16)) == 0xD && nib_lo(
                word_hi((0xD000 + x * 0x100 + y * 0x10 + n) as u16),
            ) == x && nib_hi(word_lo((0xD000 + x * 0x100 + y * 0x10 + n) as u16)) == y && nib_lo(
                word_lo((0xD000 + x * 0x100 + y * 0x10 + n) as u16),
            ) == n) by (bit_vector)
                requires
                    x <= 0xF && y <= 0xF && n <= 0xF,
            ;
        },
        Instruction::ADDI(r) => {
            let x = r.0;
            assert(nib_hi(word_hi((0xF000 + x * 0x100 + 0x1E) as u16)) == 0xF && nib_lo(
                word_hi((0xF000 + x * 0x100 + 0x1E) as u16),
            ) == x) by (bit_vector)
                requires
                    x <= 0xF,
            ;
        },
        Instruction::UNKNOWN(_) => {},
    }
}

/// The uppercase hexadecimal digit for a value below 16.
pub open spec fn hex_digit(d: nat) -> char {
    if d == 0 {
        '0'
    } else if d == 1 {
        '1'
    } else if d == 2 {
        '2'
    } else if d == 3 {
        '3'
    } else if d == 4 {
        '4'
    } else if d == 5 {
        '5'
    } else if d == 6 {
        '6'
    } else if d == 7 {
        '7'
    } else if d == 8 {
        '8'
    } else if d == 9 {
        '9'
    } else if d == 10 {
        'A'
    } else if d == 11 {
        'B'
    } else if d == 12 {
        'C'
    } else if d == 13 {
        'D'
    } else if d == 14 {
        'E'
    } else {
        'F'
    }
}

/// The uppercase hexadecimal digits of n, most significant first.
pub open spec fn hex_seq(n: nat) -> Seq<char>
    decreases n,
{
    if n < 16 {
        seq![hex_digit(n)]
    } else {
        hex_seq(n / 16).push(hex_digit(n % 16))
    }
}

/// n in uppercase hexadecimal, zero-padded to at least two digits.
pub open spec fn hex2(n: nat) -> Seq<char> {
    if n < 16 {
        seq!['0'] + hex_seq(n)
    } else {
        hex_seq(n)
    }
}

/// The short human-readable mnemonic an instruction renders to.
pub open spec fn mnemonic_spec(i: Instruction) -> Seq<char> {
    match i {
        Instruction::SYS() => ("SYS (ignored)")@,
        Instruction::RET() => ("RET")@,
        Instruction::JP(a) => ("JP ")@ + hex2(a@ as nat),
        Instruction::CALL(a) => ("CALL ")@ + hex2(a@ as nat),
        Instruction::SEByte(r, b) => ("SE V")@ + seq![hex_digit(r.0 as nat)] + (", ")@ + hex2(
            b as nat,
        ),
        Instruction::SNEByte(r, b) => ("SNE V")@ + seq![hex_digit(r.0 as nat)] + (", ")@ + hex2(
            b as nat,
        ),
        Instruction::SERegister(x, y) => ("SE V")@ + seq![hex_digit(x.0 as nat)] + (", V")@ + seq![
            hex_digit(y.0 as nat),
        ],
        Instruction::SNERegister(x, y) => ("SNE V")@ + seq![hex_digit(x.0 as nat)] + (", V")@
            + seq![hex_digit(y.0 as nat)],
        Instruction::LDByte(r, b) => ("LD V")@ + seq![hex_digit(r.0 as nat)] + (", ")@ + hex2(
            b as nat,
        ),
        Instruction::ADDByte(r, b) => ("ADD V")@ + seq![hex_digit(r.0 as nat)] + (", ")@ + hex2(
            b as nat,
        ),
        Instruction::ADDRegister(x, y) => ("ADD V")@ + seq![hex_digit(x.0 as nat)] + (" += V")@
            + seq![hex_digit(y.0 as nat)],
        Instruction::LDI(a) => ("LD I, ")@ + hex2(a@ as nat),
        Instruction::RND(r, b) => ("RND V")@ + seq![hex_digit(r.0 as nat)] + (", ")@ + hex2(
            b as nat,
        ),
        Instruction::DRW(x, y, n) => ("DRW V")@ + seq![hex_digit(x.0 as nat)] + (", V")@ + seq![
            hex_digit(y.0 as nat),
        ] + (", ")@ + hex2(n as nat),
        Instruction::ADDI(r) => ("ADD I, V")@ + seq![hex_digit(r.0 as nat)],
        Instruction::UNKNOWN(w) => ("Unknown: ")@ + hex2(w as nat),
    }
}

/// The single uppercase hexadecimal digit of a value below 16, as text.
fn hex_digit_str(d: u8) -> (r: &'static str)
    requires
        d < 16,
    ensures
        r@ == seq![hex_digit(d as nat)],
{
    proof {
        reveal_strlit("0");
        reveal_strlit("1");
        reveal_strlit("2");
        reveal_strlit("3");
        reveal_strlit("4");
        reveal_strlit("5");
        reveal_strlit("6");
        reveal_strlit("7");
        reveal_strlit("8");
        reveal_strlit("9");
        reveal_strlit("A");
        reveal_strlit("B");
        reveal_strlit("C");
        reveal_strlit("D");
        reveal_strlit("E");
        reveal_strlit("F");
    }
    let r: &'static str = match d {
        0 => "0",
        1 => "1",
        2 => "2",
        3 => "3",
        4 => "4",
        5 => "5",
        6 => "6",
        7 => "7",
        8 => "8",
        9 => "9",
        10 => "A",
        11 => "B",
        12 => "C",
        13 => "D",
        14 => "E",
        _ => "F",
    };
    proof {
        assert(r@ =~= seq![hex_digit(d as nat)]);
    }
    r
}

/// Append the uppercase hexadecimal digits of n, most significant first.
fn append_hex(s: &mut String, n: u16)
    ensures
        final(s)@ == old(s)@ + hex_seq(n as nat),
    decreases n,
{
    if n < 16 {
        let d = hex_digit_str(n as u8);
        s.append(d);
        proof {
            assert(s@ =~= old(s)@ + hex_seq(n as nat));
        }
    } else {
        append_hex(s, n / 16);
        let d = hex_digit_str((n % 16) as u8);
        s.append(d);
        proof {
            assert(s@ =~= old(s)@ + hex_seq(n as nat));
        }
    }
}

/// Append n in uppercase hexadecimal, zero-padded to at least two digits.
fn append_hex2(s: &mut String, n: u16)
    ensures
        final(s)@ == old(s)@ + hex2(n as nat),
{
    if n < 16 {
        proof {
            reveal_strlit("0");
        }
        s.append("0");
        let d = hex_digit_str(n as u8);
        s.append(d);
        proof {
            assert(("0")@ =~= seq!['0']);
            assert(s@ =~= old(s)@ + hex2(n as nat));
        }
    } else {
        append_hex(s, n);
    }
}

/// Break a byte like 0xAB into 0xA and 0xB.
pub fn nibbles(byte: u8) -> (r: [u8; 2])
    ensures
        r[0] == nib_hi(byte),
        r[1] == nib_lo(byte),
        r[0] <= 0xF,
        r[1] <= 0xF,
{
    let a: u8 = byte >> 4;
    let b: u8 = byte & 0x0F;
    proof {
        assert(byte >> 4 <= 0xF && byte & 0x0F <= 0xF) by (bit_vector);
    }
    [a, b]
}

impl Instruction {
    /// Decode a 16-bit big-endian instruction word.
    ///
    /// Decoding never fails: an unrecognized word becomes UNKNOWN. The
    /// error channel exists because the address fields go through the
    /// fail-fast [`Address::new`]; a 12-bit extraction is always in range,
    /// so the result is always `Ok`, as the contract states.
    pub fn decode(chunk: u16) -> (r: Result<Instruction, Chip8Error>)
        ensures
            r matches Ok(i) && i == spec_decode(chunk),
            r matches Ok(i) && i.wf(),
    {
        let byte1: u8 = (chunk >> 8) as u8;
        let byte2: u8 = (chunk & 0xFF) as u8;
        let ab = nibbles(byte1);
        let cd = nibbles(byte2);
        let a = ab[0];
        let b = ab[1];
        let c = cd[0];
        let d = cd[1];
        proof {
            assert(chunk & 0xFFF <= 0xFFF) by (bit_vector);
            assert((chunk & 0xFF) as u8 == word_lo(chunk));
        }
        let instruction = match a {
            0x0 => if chunk == 0x00EE {
                Instruction::RET()
            } else {
                Instruction::SYS()
            },
            0x1 => Instruction::JP(Address::new(chunk & 0x0FFF)?),
            0x2 => Instruction::CALL(Address::new(chunk & 0x0FFF)?),
            0x3 => Instruction::SEByte(Register(b), byte2),
            0x4 => Instruction::SNEByte(Register(b), byte2),
            0x5 => if d == 0 {
                Instruction::SERegister(Register(b), Register(c))
            } else {
                Instruction::UNKNOWN(chunk)
            },
            0x6 => Instruction::LDByte(Register(b), byte2),
            0x7 => Instruction::ADDByte(Register(b), byte2),
            0x8 => Instruction::ADDRegister(Register(b), Register(c)),
            0x9 => if d == 0 {
                Instruction::SNERegister(Register(b), Register(c))
            } else {
                Instruction::UNKNOWN(chunk)
            },
            0xA => Instruction::LDI(Address::new(chunk & 0x0FFF)?),
            0xC => Instruction::RND(Register(b), byte2),
            0xD => Instruction::DRW(Register(b), Register(c), d),
            0xF => Instruction::ADDI(Register(b)),
            _ => Instruction::UNKNOWN(chunk),
        };
        Ok(instruction)
    }

    /// Render the short human-readable mnemonic, e.g. `JP 0ABC` or
    /// `DRW V1, V2, 03`; required for the trace and print views, not for
    /// execution.
    pub fn mnemonic(&self) -> (r: String)
        requires
            self.wf(),
        ensures
            r@ == mnemonic_spec(*self),
    {
        let mut s = String::new();
        match self {
            Instruction::SYS() => {
                s.append("SYS (ignored)");
            },
            Instruction::RET() => {
                s.append("RET");
            },
            Instruction::JP(address) => {
                s.append("JP ");
                append_hex2(&mut s, address.value());
            },
            Instruction::CALL(address) => {
                s.append("CALL ");
                append_hex2(&mut s, address.value());
            },
            Instruction::SEByte(register, byte) => {
                s.append("SE V");
                s.append(hex_digit_str(register.0));
                s.append(", ");
                append_hex2(&mut s, *byte as u16);
            },
            Instruction::SNEByte(register, byte) => {
                s.append("SNE V");
                s.append(hex_digit_str(register.0));
                s.append(", ");
                append_hex2(&mut s, *byte as u16);
            },
            Instruction::SERegister(register_x, register_y) => {
                s.append("SE V");
                s.append(hex_digit_str(register_x.0));
                s.append(", V");
                s.append(hex_digit_str(register_y.0));
            },
            Instruction::SNERegister(register_x, register_y) => {
                s.append("SNE V");
                s.append(hex_digit_str(register_x.0));
                s.append(", V");
                s.append(hex_digit_str(register_y.0));
            },
            Instruction::LDByte(register, byte) => {
                s.append("LD V");
                s.append(hex_digit_str(register.0));
                s.append(", ");
                append_hex2(&mut s, *byte as u16);
            },
            Instruction::ADDByte(register, byte) => {
                s.append("ADD V");
                s.append(hex_digit_str(register.0));
                s.append(", ");
                append_hex2(&mut s, *byte as u16);
            },
            Instruction::ADDRegister(register_x, register_y) => {
                s.append("ADD V");
                s.append(hex_digit_str(register_x.0));
                s.append(" += V");
                s.append(hex_digit_str(register_y.0));
            },
            Instruction::LDI(address) => {
                s.append("LD I, ");
                append_hex2(&mut s, address.value());
            },
            Instruction::RND(register, byte) => {
                s.append("RND V");
                s.append(hex_digit_str(register.0));
                s.append(", ");
                append_hex2(&mut s, *byte as u16);
            },
            Instruction::DRW(register_x, register_y, count) => {
                s.append("DRW V");
                s.append(hex_digit_str(register_x.0));
                s.append(", V");
                s.append(hex_digit_str(register_y.0));
                s.append(", ");
                append_hex2(&mut s, *count as u16);
            },
            Instruction::ADDI(register) => {
                s.append("ADD I, V");
                s.append(hex_digit_str(register.0));
            },
            Instruction::UNKNOWN(word) => {
                s.append("Unknown: ");
                append_hex2(&mut s, *word);
            },
        }
        proof {
            assert(s@ =~= mnemonic_spec(*self));
        }
        s
    }

    /// Encode the instruction into the 16-bit word it decodes from.
    pub fn encode(self) -> (r: u16)
        requires
            self.wf(),
        ensures
            r == spec_encode(self),
    {
        match self {
            Instruction::SYS() => 0x0123,
            Instruction::RET() => 0x00EE,
            Instruction::JP(a) => 0x1000 + a.value(),
            Instruction::CALL(a) => 0x2000 + a.value(),
            Instruction::SEByte(r, b) => 0x3000 + (r.0 as u16) * 0x100 + (b as u16),
            Instruction::SNEByte(r, b) => 0x4000 + (r.0 as u16) * 0x100 + (b as u16),
            Instruction::SERegister(x, y) => 0x5000 + (x.0 as u16) * 0x100 + (y.0 as u16) * 0x10,
            Instruction::SNERegister(x, y) => 0x9000 + (x.0 as u16) * 0x100 + (y.0 as u16) * 0x10,
            Instruction::LDByte(r, b) => 0x6000 + (r.0 as u16) * 0x100 + (b as u16),
            Instruction::ADDByte(r, b) => 0x7000 + (r.0 as u16) * 0x100 + (b as u16),
            Instruction::ADDRegister(x, y) => {
                0x8000 + (x.0 as u16) * 0x100 + (y.0 as u16) * 0x10 + 0x4
            },
            Instruction::LDI(a) => 0xA000 + a.value(),
            Instruction::RND(r, b) => 0xC000 + (r.0 as u16) * 0x100 + (b as u16),
            Instruction::DRW(x, y, n) => {
                0xD000 + (x.0 as u16) * 0x100 + (y.0 as u16) * 0x10 + (n as u16)
            },
            Instruction::ADDI(r) => 0xF000 + (r.0 as u16) * 0x100 + 0x1E,
            Instruction::UNKNOWN(w) => w,
        }
    }
}

} // verus!
