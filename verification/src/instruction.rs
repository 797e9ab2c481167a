use vstd::prelude::*;

verus! {

/// The fields of one 16-bit instruction word.
#[derive(Clone, Copy, Debug, PartialEq, Eq, Structural)]
pub struct Instruction {
    /// The whole word.
    pub opcode: u16,
    /// The top nibble: the operation family.
    pub class: u8,
    /// The second nibble: a register selector.
    pub x: u8,
    /// The third nibble: a register selector.
    pub y: u8,
    /// The fourth nibble.
    pub n: u8,
    /// The low byte.
    pub nn: u8,
    /// The low twelve bits: an address.
    pub nnn: u16,
}

/// What one instruction asks of the machine. Register selectors are below 16,
/// addresses below `0x1000`, and a sprite has at most 15 rows.
#[derive(Clone, Copy, Debug, PartialEq, Eq, Structural)]
pub enum Operation {
    /// `00E0`: turn every pixel off.
    ClearScreen,
    /// `00EE`: return from a subroutine.
    Return,
    /// `1nnn`: continue at `addr`.
    Jump { addr: u16 },
    /// `2nnn`: call the subroutine at `addr`.
    Call { addr: u16 },
    /// `3xnn`: skip the next instruction if register `x` holds `value`.
    SkipIfEqual { x: u8, value: u8 },
    /// `4xnn`: skip the next instruction unless register `x` holds `value`.
    SkipIfNotEqual { x: u8, value: u8 },
    /// `5xy_`: skip the next instruction if registers `x` and `y` are equal.
    SkipIfRegistersEqual { x: u8, y: u8 },
    /// `6xnn`: put `value` into register `x`.
    Load { x: u8, value: u8 },
    /// `7xnn`: add `value` to register `x`, wrapping, flag untouched.
    AddImmediate { x: u8, value: u8 },
    /// `8xy0`: copy register `y` into register `x`.
    Copy { x: u8, y: u8 },
    /// `8xy1`: bitwise or of registers `x` and `y` into `x`.
    Or { x: u8, y: u8 },
    /// `8xy2`: bitwise and of registers `x` and `y` into `x`.
    And { x: u8, y: u8 },
    /// `8xy3`: bitwise exclusive or of registers `x` and `y` into `x`.
    Xor { x: u8, y: u8 },
    /// `8xy4`: add register `y` to register `x`; the flag reports the carry.
    Add { x: u8, y: u8 },
    /// `8xy5`: subtract register `y` from register `x`; the flag is 1 when
    /// nothing was borrowed.
    Sub { x: u8, y: u8 },
    /// `8xy6`: shift register `x` right by one; the flag gets the bit that left.
    ShiftRight { x: u8 },
    /// `8xy7`: put register `y` minus register `x` into `x`; the flag is 1
    /// when nothing was borrowed.
    ReverseSub { x: u8, y: u8 },
    /// `8xyE`: shift register `x` left by one; the flag gets the bit that left.
    ShiftLeft { x: u8 },
    /// `9xy_`: skip the next instruction if registers `x` and `y` differ.
    SkipIfRegistersNotEqual { x: u8, y: u8 },
    /// `Annn`: put `addr` into the address register.
    LoadIndex { addr: u16 },
    /// `Bnnn`: continue at `addr` plus register 0.
    JumpOffset { addr: u16 },
    /// `Cxnn`: put a random byte masked by `mask` into register `x`.
    Random { x: u8, mask: u8 },
    /// `Dxyn`: draw the sprite of `rows` bytes at the address register, at the
    /// coordinates held in registers `x` and `y`.
    Draw { x: u8, y: u8, rows: u8 },
    /// `Ex9E`: skip the next instruction if the key named by register `x` is down.
    SkipIfKey { x: u8 },
    /// `ExA1`: skip the next instruction unless the key named by register `x` is down.
    SkipIfNotKey { x: u8 },
    /// `Fx07`: read the delay timer into register `x`.
    ReadDelay { x: u8 },
    /// `Fx0A`: wait for a key and put its index into register `x`.
    WaitKey { x: u8 },
    /// `Fx15`: set the delay timer from register `x`.
    SetDelay { x: u8 },
    /// `Fx18`: set the sound timer from register `x`.
    SetSound { x: u8 },
    /// `Fx1E`: add register `x` to the address register.
    AddIndex { x: u8 },
    /// `Fx29`: point the address register at the glyph for the low nibble of
    /// register `x`.
    Glyph { x: u8 },
    /// `Fx33`: store the three decimal digits of register `x` at the address
    /// register.
    StoreBcd { x: u8 },
    /// `Fx55`: copy registers 0 to `x` into memory at the address register.
    DumpRegisters { x: u8 },
    /// `Fx65`: copy memory at the address register into registers 0 to `x`.
    LoadRegisters { x: u8 },
}

impl Operation {
    /// Every selector, address and row count is in range.
    pub open spec fn wf(self) -> bool {
        match self {
            Operation::ClearScreen | Operation::Return => true,
            Operation::Jump { addr }
            | Operation::Call { addr }
            | Operation::LoadIndex { addr }
            | Operation::JumpOffset { addr } => addr < 0x1000,
            Operation::SkipIfEqual { x, .. }
            | Operation::SkipIfNotEqual { x, .. }
            | Operation::Load { x, .. }
            | Operation::AddImmediate { x, .. }
            | Operation::Random { x, .. }
            | Operation::ShiftRight { x }
            | Operation::ShiftLeft { x }
            | Operation::SkipIfKey { x }
            | Operation::SkipIfNotKey { x }
            | Operation::ReadDelay { x }
            | Operation::WaitKey { x }
            | Operation::SetDelay { x }
            | Operation::SetSound { x }
            | Operation::AddIndex { x }
            | Operation::Glyph { x }
            | Operation::StoreBcd { x }
            | Operation::DumpRegisters { x }
            | Operation::LoadRegisters { x } => x < 16,
            Operation::SkipIfRegistersEqual { x, y }
            | Operation::Copy { x, y }
            | Operation::Or { x, y }
            | Operation::And { x, y }
            | Operation::Xor { x, y }
            | Operation::Add { x, y }
            | Operation::Sub { x, y }
            | Operation::ReverseSub { x, y }
            | Operation::SkipIfRegistersNotEqual { x, y } => x < 16 && y < 16,
            Operation::Draw { x, y, rows } => x < 16 && y < 16 && rows < 16,
        }
    }
}

/// The big-endian word made of two consecutive bytes.
pub open spec fn word_of(w1: u8, w2: u8) -> u16 {
    (w1 as int * 256 + w2 as int) as u16
}

impl Instruction {
    /// The fields of `word`, written with division and remainder.
    pub open spec fn of_word(word: u16) -> Instruction {
        Instruction {
            opcode: word,
            class: (word as int / 0x1000) as u8,
            x: ((word as int / 0x100) % 0x10) as u8,
            y: ((word as int / 0x10) % 0x10) as u8,
            n: (word as int % 0x10) as u8,
            nn: (word as int % 0x100) as u8,
            nnn: (word as int % 0x1000) as u16,
        }
    }

    /// The fields are those of the word in `opcode`.
    pub open spec fn wf(self) -> bool {
        self == Instruction::of_word(self.opcode)
    }

    /// The operation that the fields name, if they name one. The family is
    /// chosen by `class`; within the families 0, E and F by `nn`, within
    /// family 8 by `n`.
    #[verifier::opaque]
    pub open spec fn spec_operation(&self) -> Option<Operation> {
        let Instruction { class, x, y, n, nn, nnn, .. } = *self;
        if class == 0x0 {
            if nn == 0xE0 {
                Some(Operation::ClearScreen)
            } else if nn == 0xEE {
                Some(Operation::Return)
            } else {
                None
            }
        } else if class == 0x1 {
            Some(Operation::Jump { addr: nnn })
        } else if class == 0x2 {
            Some(Operation::Call { addr: nnn })
        } else if class == 0x3 {
            Some(Operation::SkipIfEqual { x, value: nn })
        } else if class == 0x4 {
            Some(Operation::SkipIfNotEqual { x, value: nn })
        } else if class == 0x5 {
            Some(Operation::SkipIfRegistersEqual { x, y })
        } else if class == 0x6 {
            Some(Operation::Load { x, value: nn })
        } else if class == 0x7 {
            Some(Operation::AddImmediate { x, value: nn })
        } else if class == 0x8 {
            if n == 0x0 {
                Some(Operation::Copy { x, y })
            } else if n == 0x1 {
                Some(Operation::Or { x, y })
            } else if n == 0x2 {
                Some(Operation::And { x, y })
            } else if n == 0x3 {
                Some(Operation::Xor { x, y })
            } else if n == 0x4 {
                Some(Operation::Add { x, y })
            } else if n == 0x5 {
                Some(Operation::Sub { x, y })
            } else if n == 0x6 {
                Some(Operation::ShiftRight { x })
            } else if n == 0x7 {
                Some(Operation::ReverseSub { x, y })
            } else if n == 0xE {
                Some(Operation::ShiftLeft { x })
            } else {
                None
            }
        } else if class == 0x9 {
            Some(Operation::SkipIfRegistersNotEqual { x, y })
        } else if class == 0xA {
            Some(Operation::LoadIndex { addr: nnn })
        } else if class == 0xB {
            Some(Operation::JumpOffset { addr: nnn })
        } else if class == 0xC {
            Some(Operation::Random { x, mask: nn })
        } else if class == 0xD {
            Some(Operation::Draw { x, y, rows: n })
        } else if class == 0xE {
            if nn == 0x9E {
                Some(Operation::SkipIfKey { x })
            } else if nn == 0xA1 {
                Some(Operation::SkipIfNotKey { x })
            } else {
                None
            }
        } else if class == 0xF {
            if nn == 0x07 {
                Some(Operation::ReadDelay { x })
            } else if nn == 0x0A {
                Some(Operation::WaitKey { x })
            } else if nn == 0x15 {
                Some(Operation::SetDelay { x })
            } else if nn == 0x18 {
                Some(Operation::SetSound { x })
            } else if nn == 0x1E {
                Some(Operation::AddIndex { x })
            } else if nn == 0x29 {
                Some(Operation::Glyph { x })
            } else if nn == 0x33 {
                Some(Operation::StoreBcd { x })
            } else if nn == 0x55 {
                Some(Operation::DumpRegisters { x })
            } else if nn == 0x65 {
                Some(Operation::LoadRegisters { x })
            } else {
                None
            }
        } else {
            None
        }
    }

    /// The operation that this instruction names; `None` when no operation is
    /// defined for it.
    #[verifier::when_used_as_spec(spec_operation)]
    pub fn operation(&self) -> (op: Option<Operation>)
        ensures
            op == self.spec_operation(),
    {
        proof {
            reveal(Instruction::spec_operation);
        }
        let x = self.x;
        let y = self.y;
        match self.class {
            0x0 => match self.nn {
                0xE0 => Some(Operation::ClearScreen),
                0xEE => Some(Operation::Return),
                _ => None,
            },
            0x1 => Some(Operation::Jump { addr: self.nnn }),
            0x2 => Some(Operation::Call { addr: self.nnn }),
            0x3 => Some(Operation::SkipIfEqual { x, value: self.nn }),
            0x4 => Some(Operation::SkipIfNotEqual { x, value: self.nn }),
            0x5 => Some(Operation::SkipIfRegistersEqual { x, y }),
            0x6 => Some(Operation::Load { x, value: self.nn }),
            0x7 => Some(Operation::AddImmediate { x, value: self.nn }),
            0x8 => match self.n {
                0x0 => Some(Operation::Copy { x, y }),
                0x1 => Some(Operation::Or { x, y }),
                0x2 => Some(Operation::And { x, y }),
                0x3 => Some(Operation::Xor { x, y }),
                0x4 => Some(Operation::Add { x, y }),
                0x5 => Some(Operation::Sub { x, y }),
                0x6 => Some(Operation::ShiftRight { x }),
                0x7 => Some(Operation::ReverseSub { x, y }),
                0xE => Some(Operation::ShiftLeft { x }),
                _ => None,
            },
            0x9 => Some(Operation::SkipIfRegistersNotEqual { x, y }),
            0xA => Some(Operation::LoadIndex { addr: self.nnn }),
            0xB => Some(Operation::JumpOffset { addr: self.nnn }),
            0xC => Some(Operation::Random { x, mask: self.nn }),
            0xD => Some(Operation::Draw { x, y, rows: self.n }),
            0xE => match self.nn {
                0x9E => Some(Operation::SkipIfKey { x }),
                0xA1 => Some(Operation::SkipIfNotKey { x }),
                _ => None,
            },
            0xF => match self.nn {
                0x07 => Some(Operation::ReadDelay { x }),
                0x0A => Some(Operation::WaitKey { x }),
                0x15 => Some(Operation::SetDelay { x }),
                0x18 => Some(Operation::SetSound { x }),
                0x1E => Some(Operation::AddIndex { x }),
                0x29 => Some(Operation::Glyph { x }),
                0x33 => Some(Operation::StoreBcd { x }),
                0x55 => Some(Operation::DumpRegisters { x }),
                0x65 => Some(Operation::LoadRegisters { x }),
                _ => None,
            },
            _ => None,
        }
    }

    /// Decodes the instruction word whose high byte is `w1` and whose low byte
    /// is `w2`. Every pair of bytes decodes.
    pub fn read(w1: u8, w2: u8) -> (inst: Instruction)
        ensures
            inst == Instruction::of_word(word_of(w1, w2)),
            inst.wf(),
    {
        let opcode: u16 = ((w1 as u16) << 8) | (w2 as u16);
        let nnn: u16 = (((w1 & 0x0f) as u16) << 8) | (w2 as u16);
        proof {
            lemma_fields_of_bytes(w1, w2);
        }
        Instruction {
            opcode,
            class: w1 >> 4,
            x: w1 & 0x0f,
            y: w2 >> 4,
            n: w2 & 0x0f,
            nn: w2,
            nnn,
        }
    }
}

/// An instruction that was decoded from a word names only operations whose
/// selectors, addresses and row counts are in range.
pub proof fn lemma_decoded_operation_wf(inst: Instruction)
    requires
        inst.wf(),
    ensures
        inst.class < 16,
        inst.x < 16,
        inst.y < 16,
        inst.n < 16,
        inst.nnn < 0x1000,
        inst.spec_operation() matches Some(op) ==> op.wf(),
{
    reveal(Instruction::spec_operation);
}

/// The shifts and masks that take a word apart agree with division and
/// remainder on the word.
proof fn lemma_fields_of_bytes(w1: u8, w2: u8)
    by (bit_vector)
    ensures
        ((w1 as u16) << 8) | (w2 as u16) == (w1 as u16) * 256 + (w2 as u16),
        (w1 >> 4) as u16 == ((w1 as u16) * 256 + (w2 as u16)) / 0x1000,
        (w1 & 0x0f) as u16 == (((w1 as u16) * 256 + (w2 as u16)) / 0x100) % 0x10,
        (w2 >> 4) as u16 == (((w1 as u16) * 256 + (w2 as u16)) / 0x10) % 0x10,
        (w2 & 0x0f) as u16 == ((w1 as u16) * 256 + (w2 as u16)) % 0x10,
        w2 as u16 == ((w1 as u16) * 256 + (w2 as u16)) % 0x100,
        (((w1 & 0x0f) as u16) << 8) | (w2 as u16) == ((w1 as u16) * 256 + (w2 as u16)) % 0x1000,
{
}

} // verus!
