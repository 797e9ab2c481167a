use crate::display::sprite_covers;
use crate::error::Chip8Error;
use crate::instruction::{word_of, Instruction, Operation};
use vstd::prelude::*;

verus! {

/// The number of memory cells.
pub const MEMORY_SIZE: usize = 4096;

/// The address at which a program image starts.
pub const PROGRAM_START: u16 = 0x200;

/// The largest program image that fits between `PROGRAM_START` and the end of
/// memory.
pub const MAX_ROM_SIZE: usize = 3584;

/// The number of return addresses that the call stack holds.
pub const STACK_DEPTH: usize = 16;

/// The sprites of the sixteen hexadecimal digits, five bytes each, which sit
/// at the bottom of memory.
pub const GLYPHS: [u8; 80] = [
    0xF0, 0x90, 0x90, 0x90, 0xF0, 0x20, 0x60, 0x20, 0x20, 0x70, 0xF0, 0x10, 0xF0, 0x80, 0xF0, 0xF0,
    0x10, 0xF0, 0x10, 0xF0, 0x90, 0x90, 0xF0, 0x10, 0x10, 0xF0, 0x80, 0xF0, 0x10, 0xF0, 0xF0, 0x80,
    0xF0, 0x90, 0xF0, 0xF0, 0x10, 0x20, 0x40, 0x40, 0xF0, 0x90, 0xF0, 0x90, 0xF0, 0xF0, 0x90, 0xF0,
    0x10, 0xF0, 0xF0, 0x90, 0xF0, 0x90, 0x90, 0xE0, 0x90, 0xE0, 0x90, 0xE0, 0xF0, 0x80, 0x80, 0x80,
    0xF0, 0xE0, 0x90, 0x90, 0x90, 0xE0, 0xF0, 0x80, 0xF0, 0x80, 0xF0, 0xF0, 0x80, 0xF0, 0x80, 0x80,
];

/// The machine as a mathematical value: what a program can observe and change.
#[verifier::ext_equal]
pub struct Machine {
    /// The 4096 memory cells.
    pub memory: Seq<u8>,
    /// The sixteen general registers; register `0xF` doubles as the flag.
    pub registers: Seq<u8>,
    /// The address register.
    pub index: u16,
    /// The address of the next instruction.
    pub pc: u16,
    /// The return addresses of the calls in progress, the oldest first.
    pub stack: Seq<u16>,
    /// The delay timer.
    pub delay: u8,
    /// The sound timer.
    pub sound: u8,
    /// Which of the sixteen keys are down.
    pub keys: Seq<bool>,
    /// The 64 by 32 pixels, row by row.
    pub pixels: Seq<bool>,
}

/// The lowest index of a key that is down, if any is.
pub open spec fn lowest_pressed(keys: Seq<bool>) -> Option<int> {
    if exists|k: int| 0 <= k < keys.len() && keys[k] {
        Some(
            choose|k: int|
                0 <= k < keys.len() && keys[k] && forall|j: int| 0 <= j < k ==> !keys[j],
        )
    } else {
        None
    }
}

impl Machine {
    /// Every part has its size, and every return address is one at which an
    /// instruction was fetched.
    pub open spec fn wf(self) -> bool {
        &&& self.memory.len() == 4096
        &&& self.registers.len() == 16
        &&& self.stack.len() <= 16
        &&& forall|i: int| 0 <= i < self.stack.len() ==> #[trigger] self.stack[i] < 4095
        &&& self.keys.len() == 16
        &&& self.pixels.len() == 2048
    }

    /// The machine before anything was loaded or run: the glyphs at the bottom
    /// of memory, the program counter at `0x200`, all else zero.
    pub open spec fn initial() -> Machine {
        Machine {
            memory: Seq::new(4096, |a: int| if a < 80 { GLYPHS[a] } else { 0u8 }),
            registers: Seq::new(16, |i: int| 0u8),
            index: 0,
            pc: 0x200,
            stack: Seq::empty(),
            delay: 0,
            sound: 0,
            keys: Seq::new(16, |i: int| false),
            pixels: Seq::new(2048, |i: int| false),
        }
    }

    /// The machine with `image` copied into memory from address `0x200` on.
    pub open spec fn load(self, image: Seq<u8>) -> Machine
        recommends
            image.len() <= 3584,
    {
        Machine {
            memory: Seq::new(
                4096,
                |a: int|
                    if 0x200 <= a < 0x200 + image.len() {
                        image[a - 0x200]
                    } else {
                        self.memory[a]
                    },
            ),
            ..self
        }
    }

    /// The machine with key `key` down or up.
    pub open spec fn set_key(self, key: int, pressed: bool) -> Machine
        recommends
            0 <= key < 16,
    {
        Machine { keys: self.keys.update(key, pressed), ..self }
    }

    /// The machine after one tick of the timers: each goes down by one unless
    /// it is zero.
    pub open spec fn tick(self) -> Machine {
        Machine {
            delay: if self.delay > 0 { (self.delay - 1) as u8 } else { 0 },
            sound: if self.sound > 0 { (self.sound - 1) as u8 } else { 0 },
            ..self
        }
    }

    /// What register `x` holds.
    pub open spec fn v(self, x: u8) -> u8 {
        self.registers[x as int]
    }

    /// The machine with `value` in register `x`.
    pub open spec fn set_v(self, x: u8, value: u8) -> Machine {
        Machine { registers: self.registers.update(x as int, value), ..self }
    }

    /// The machine with the flag register set to 1 if `on`, else to 0.
    pub open spec fn set_flag(self, on: bool) -> Machine {
        self.set_v(0xF, if on { 1u8 } else { 0u8 })
    }

    /// The machine with the program counter on the next instruction.
    pub open spec fn next(self) -> Machine {
        Machine { pc: (self.pc + 2) as u16, ..self }
    }

    /// The machine with the program counter past the next instruction if
    /// `skip`, else on it.
    pub open spec fn skip_if(self, skip: bool) -> Machine {
        Machine { pc: (self.pc + if skip { 4int } else { 2int }) as u16, ..self }
    }

    /// Whether the key with index `key` is down. No key has an index above 15.
    pub open spec fn key_is_down(self, key: u8) -> bool {
        key < 16 && self.keys[key as int]
    }

    /// Whether drawing the sprite of `rows` bytes at the address register, at
    /// the coordinates in registers `x` and `y` taken modulo 64 and 32, flips
    /// the pixel with index `p`.
    pub open spec fn draw_flips(self, x: u8, y: u8, rows: u8, p: int) -> bool {
        sprite_covers(
            self.memory,
            self.index as int,
            rows as int,
            self.v(x) as int % 64,
            self.v(y) as int % 32,
            p % 64,
            p / 64,
        )
    }

    /// The pixels after the draw: each pixel that the sprite covers is flipped.
    pub open spec fn drawn_pixels(self, x: u8, y: u8, rows: u8) -> Seq<bool> {
        Seq::new(2048, |p: int| self.pixels[p] != self.draw_flips(x, y, rows, p))
    }

    /// Whether the draw turns off a pixel that was on.
    pub open spec fn draw_collides(self, x: u8, y: u8, rows: u8) -> bool {
        exists|p: int| 0 <= p < 2048 && self.pixels[p] && #[trigger] self.draw_flips(x, y, rows, p)
    }

    /// The memory with registers 0 to `x` copied to the address register and
    /// the cells after it.
    pub open spec fn dumped_memory(self, x: u8) -> Seq<u8> {
        Seq::new(
            4096,
            |a: int|
                if self.index <= a <= self.index + x {
                    self.registers[a - self.index]
                } else {
                    self.memory[a]
                },
        )
    }

    /// The registers with 0 to `x` read from the address register and the
    /// cells after it.
    pub open spec fn loaded_registers(self, x: u8) -> Seq<u8> {
        Seq::new(
            16,
            |i: int|
                if i <= x {
                    self.memory[self.index + i]
                } else {
                    self.registers[i]
                },
        )
    }

    /// The machine after `op`, or why `op` cannot be done. `random` is the
    /// byte that the random operation draws; no other operation looks at it.
    pub open spec fn apply(self, op: Operation, random: u8) -> Result<Machine, Chip8Error> {
        match op {
            Operation::ClearScreen => Ok(
                Machine { pixels: Seq::new(2048, |p: int| false), ..self }.next(),
            ),
            Operation::Return => if self.stack.len() == 0 {
                Err(Chip8Error::StackUnderflow)
            } else {
                Ok(
                    Machine {
                        pc: (self.stack.last() + 2) as u16,
                        stack: self.stack.drop_last(),
                        ..self
                    },
                )
            },
            Operation::Jump { addr } => Ok(Machine { pc: addr, ..self }),
            Operation::Call { addr } => if self.stack.len() >= 16 {
                Err(Chip8Error::StackOverflow)
            } else {
                Ok(Machine { pc: addr, stack: self.stack.push(self.pc), ..self })
            },
            Operation::SkipIfEqual { x, value } => Ok(self.skip_if(self.v(x) == value)),
            Operation::SkipIfNotEqual { x, value } => Ok(self.skip_if(self.v(x) != value)),
            Operation::SkipIfRegistersEqual { x, y } => Ok(self.skip_if(self.v(x) == self.v(y))),
            Operation::Load { x, value } => Ok(self.set_v(x, value).next()),
            Operation::AddImmediate { x, value } => Ok(
                self.set_v(x, ((self.v(x) + value) % 256) as u8).next(),
            ),
            Operation::Copy { x, y } => Ok(self.set_v(x, self.v(y)).next()),
            Operation::Or { x, y } => Ok(self.set_v(x, self.v(x) | self.v(y)).next()),
            Operation::And { x, y } => Ok(self.set_v(x, self.v(x) & self.v(y)).next()),
            Operation::Xor { x, y } => Ok(self.set_v(x, self.v(x) ^ self.v(y)).next()),
            Operation::Add { x, y } => {
                let sum = self.v(x) + self.v(y);
                Ok(self.set_v(x, (sum % 256) as u8).set_flag(sum > 255).next())
            },
            Operation::Sub { x, y } => {
                let difference = self.v(x) - self.v(y);
                Ok(self.set_v(x, (difference % 256) as u8).set_flag(difference >= 0).next())
            },
            Operation::ShiftRight { x } => Ok(
                self.set_v(x, self.v(x) / 2).set_flag(self.v(x) % 2 == 1).next(),
            ),
            Operation::ReverseSub { x, y } => {
                let difference = self.v(y) - self.v(x);
                Ok(self.set_v(x, (difference % 256) as u8).set_flag(difference >= 0).next())
            },
            Operation::ShiftLeft { x } => Ok(
                self.set_v(x, ((self.v(x) * 2) % 256) as u8).set_flag(self.v(x) >= 128).next(),
            ),
            Operation::SkipIfRegistersNotEqual { x, y } => Ok(
                self.skip_if(self.v(x) != self.v(y)),
            ),
            Operation::LoadIndex { addr } => Ok(Machine { index: addr, ..self }.next()),
            Operation::JumpOffset { addr } => Ok(
                Machine { pc: (addr + self.v(0)) as u16, ..self },
            ),
            Operation::Random { x, mask } => Ok(self.set_v(x, random & mask).next()),
            Operation::Draw { x, y, rows } => if rows > 0 && self.index + rows > 4096 {
                Err(Chip8Error::AddressOutOfBounds)
            } else {
                Ok(
                    Machine { pixels: self.drawn_pixels(x, y, rows), ..self }.set_flag(
                        self.draw_collides(x, y, rows),
                    ).next(),
                )
            },
            Operation::SkipIfKey { x } => Ok(self.skip_if(self.key_is_down(self.v(x)))),
            Operation::SkipIfNotKey { x } => Ok(self.skip_if(!self.key_is_down(self.v(x)))),
            Operation::ReadDelay { x } => Ok(self.set_v(x, self.delay).next()),
            Operation::WaitKey { x } => match lowest_pressed(self.keys) {
                None => Ok(self),
                Some(key) => Ok(
                    Machine { keys: self.keys.update(key, false), ..self }.set_v(
                        x,
                        key as u8,
                    ).next(),
                ),
            },
            Operation::SetDelay { x } => Ok(Machine { delay: self.v(x), ..self }.next()),
            Operation::SetSound { x } => Ok(Machine { sound: self.v(x), ..self }.next()),
            Operation::AddIndex { x } => {
                let sum = self.index + self.v(x);
                Ok(Machine { index: (sum % 0x10000) as u16, ..self }.set_flag(sum > 0xFFFF).next())
            },
            Operation::Glyph { x } => Ok(
                Machine { index: ((self.v(x) % 16) * 5) as u16, ..self }.next(),
            ),
            Operation::StoreBcd { x } => if self.index + 2 >= 4096 {
                Err(Chip8Error::AddressOutOfBounds)
            } else {
                let value = self.v(x);
                Ok(
                    Machine {
                        memory: self.memory.update(self.index as int, value / 100).update(
                            self.index + 1,
                            (value / 10) % 10,
                        ).update(self.index + 2, value % 10),
                        ..self
                    }.next(),
                )
            },
            Operation::DumpRegisters { x } => if self.index + x >= 4096 {
                Err(Chip8Error::AddressOutOfBounds)
            } else {
                Ok(Machine { memory: self.dumped_memory(x), ..self }.next())
            },
            Operation::LoadRegisters { x } => if self.index + x >= 4096 {
                Err(Chip8Error::AddressOutOfBounds)
            } else {
                Ok(Machine { registers: self.loaded_registers(x), ..self }.next())
            },
        }
    }

    /// The operation at the program counter: the two bytes there, decoded.
    /// An error when the two bytes are not both in memory, or name no operation.
    pub open spec fn fetch(self) -> Result<Operation, Chip8Error> {
        if self.pc + 1 >= 4096 {
            Err(Chip8Error::AddressOutOfBounds)
        } else {
            match Instruction::of_word(
                word_of(self.memory[self.pc as int], self.memory[self.pc + 1]),
            ).spec_operation() {
                Some(op) => Ok(op),
                None => Err(Chip8Error::UnknownOpcode),
            }
        }
    }

    /// How a call relates to what the model says of it: where the model gives
    /// a machine, the call succeeded and left that machine; where it gives an
    /// error, the call returned that error and left the machine as it was.
    pub open spec fn transition(
        self,
        outcome: Result<Machine, Chip8Error>,
        result: Result<(), Chip8Error>,
        after: Machine,
    ) -> bool {
        match outcome {
            Ok(machine) => result is Ok && after == machine,
            Err(e) => result == Err::<(), Chip8Error>(e) && after == self,
        }
    }

    /// The machine after one cycle: fetch, decode, execute.
    pub open spec fn step(self, random: u8) -> Result<Machine, Chip8Error> {
        match self.fetch() {
            Ok(op) => self.apply(op, random),
            Err(e) => Err(e),
        }
    }

    /// The machine after one cycle for each byte of `randoms`, the bytes being
    /// what the random operation draws in each cycle; the first error ends
    /// the run.
    pub open spec fn run(self, randoms: Seq<u8>) -> Result<Machine, Chip8Error>
        decreases randoms.len(),
    {
        if randoms.len() == 0 {
            Ok(self)
        } else {
            match self.run(randoms.drop_last()) {
                Ok(machine) => machine.step(randoms.last()),
                Err(e) => Err(e),
            }
        }
    }
}

} // verus!
