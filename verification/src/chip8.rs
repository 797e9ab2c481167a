use crate::display::sprite_bit;
use crate::draw_progress::{
    collided_before, flipped_before, lemma_collided_ends, lemma_collided_next_column,
    lemma_collided_next_row, lemma_flipped_ends, lemma_flipped_next_column,
    lemma_flipped_next_row,
};
use crate::error::Chip8Error;
use crate::instruction::{lemma_decoded_operation_wf, Instruction, Operation};
use crate::machine::{lowest_pressed, Machine, GLYPHS, MAX_ROM_SIZE};
use crate::random::random_byte;
use vstd::prelude::*;

verus! {

/// A CHIP-8 machine. Its state is private; `view` gives it as a [`Machine`],
/// and every method says over that value what it does.
pub struct Chip8 {
    delay_timer: u8,
    sound_timer: u8,
    i: u16,
    reg: [u8; 16],
    memory: [u8; 4096],
    graphics: [bool; 2048],
    stack: [u16; 16],
    sp: u16,
    pc: u16,
    keys: [bool; 16],
}

impl View for Chip8 {
    type V = Machine;

    closed spec fn view(&self) -> Machine {
        Machine {
            memory: self.memory@,
            registers: self.reg@,
            index: self.i,
            pc: self.pc,
            stack: self.stack@.take(self.sp as int),
            delay: self.delay_timer,
            sound: self.sound_timer,
            keys: self.keys@,
            pixels: self.graphics@,
        }
    }
}

impl Chip8 {
    #[verifier::type_invariant]
    spec fn inv(self) -> bool {
        &&& self.sp <= 16
        &&& forall|k: int| 0 <= k < self.sp ==> #[trigger] self.stack[k] < 4095
    }

    /// A machine with the glyphs installed, the program counter at `0x200`,
    /// and all else zero.
    pub fn new() -> (c: Chip8)
        ensures
            c@ == Machine::initial(),
            c@.wf(),
    {
        let mut memory = [0u8;4096];
        let mut a: usize = 0;
        while a < 80
            invariant
                a <= 80,
                forall|k: int| 0 <= k < a ==> memory[k] == GLYPHS[k],
                forall|k: int| a <= k < 4096 ==> memory[k] == 0,
            decreases 80 - a,
        {
            memory[a] = GLYPHS[a];
            a += 1;
        }
        let c = Chip8 {
            delay_timer: 0,
            sound_timer: 0,
            i: 0,
            reg: [0u8;16],
            memory,
            graphics: [false;2048],
            stack: [0u16;16],
            sp: 0,
            pc: 0x200,
            keys: [false;16],
        };
        assert(c@ =~= Machine::initial());
        c
    }

    /// Copies the program image `rom` into memory from address `0x200` on. An
    /// image of more than 3584 bytes does not fit: it is refused and nothing
    /// is copied.
    pub fn load_rom(&mut self, rom: &[u8]) -> (result: Result<(), Chip8Error>)
        ensures
            rom@.len() <= 3584 ==> result is Ok && final(self)@ == old(self)@.load(rom@),
            rom@.len() > 3584 ==> result == Err::<(), Chip8Error>(Chip8Error::RomTooLarge)
                && final(self)@ == old(self)@,
            final(self)@.wf(),
    {
        proof {
            use_type_invariant(&*self);
        }
        let len = rom.len();
        if len > MAX_ROM_SIZE {
            return Err(Chip8Error::RomTooLarge);
        }
        let mut k: usize = 0;
        while k < len
            invariant
                len == rom@.len(),
                len <= 3584,
                k <= len,
                self.inv(),
                *self == (Chip8 { memory: self.memory, ..*old(self) }),
                forall|a: int|
                    0 <= a < 4096 ==> self.memory[a] == if 0x200 <= a < 0x200 + k {
                        rom@[a - 0x200]
                    } else {
                        old(self).memory[a]
                    },
            decreases len - k,
        {
            self.memory[0x200 + k] = rom[k];
            k += 1;
        }
        assert(self@ =~= old(self)@.load(rom@));
        Ok(())
    }

    /// Marks key `key` as down (`pressed`) or up.
    pub fn set_key(&mut self, key: u8, pressed: bool)
        requires
            key < 16,
        ensures
            final(self)@ == old(self)@.set_key(key as int, pressed),
            final(self)@.wf(),
    {
        proof {
            use_type_invariant(&*self);
            self.lemma_view_wf();
        }
        self.keys[key as usize] = pressed;
        assert(self@ =~= old(self)@.set_key(key as int, pressed));
    }

    /// Marks key `key` as down.
    pub fn key_down(&mut self, key: u8)
        requires
            key < 16,
        ensures
            final(self)@ == old(self)@.set_key(key as int, true),
            final(self)@.wf(),
    {
        self.set_key(key, true);
    }

    /// Marks key `key` as up.
    pub fn key_up(&mut self, key: u8)
        requires
            key < 16,
        ensures
            final(self)@ == old(self)@.set_key(key as int, false),
            final(self)@.wf(),
    {
        self.set_key(key, false);
    }

    /// The pixels, row by row: the pixel at column `x`, row `y` is at index
    /// `y * 64 + x`.
    pub fn frame_buffer(&self) -> (pixels: &[bool; 2048])
        ensures
            pixels@ == self@.pixels,
            self@.wf(),
    {
        proof {
            use_type_invariant(self);
            self.lemma_view_wf();
        }
        &self.graphics
    }

    /// What register `x` holds.
    pub fn register(&self, x: u8) -> (value: u8)
        requires
            x < 16,
        ensures
            value == self@.v(x),
    {
        self.reg[x as usize]
    }

    /// What the memory cell at `address` holds.
    pub fn memory_at(&self, address: u16) -> (value: u8)
        requires
            address < 4096,
        ensures
            value == self@.memory[address as int],
    {
        self.memory[address as usize]
    }

    /// The address register.
    pub fn index(&self) -> (index: u16)
        ensures
            index == self@.index,
    {
        self.i
    }

    /// The address of the next instruction.
    pub fn program_counter(&self) -> (pc: u16)
        ensures
            pc == self@.pc,
    {
        self.pc
    }

    /// How many calls are in progress.
    pub fn stack_depth(&self) -> (depth: usize)
        ensures
            depth == self@.stack.len(),
            depth <= 16,
    {
        proof {
            use_type_invariant(self);
        }
        self.sp as usize
    }

    /// The delay timer.
    pub fn delay_timer(&self) -> (value: u8)
        ensures
            value == self@.delay,
    {
        self.delay_timer
    }

    /// The sound timer.
    pub fn sound_timer(&self) -> (value: u8)
        ensures
            value == self@.sound,
    {
        self.sound_timer
    }

    /// Whether key `key` is down.
    pub fn key_is_down(&self, key: u8) -> (down: bool)
        ensures
            down == self@.key_is_down(key),
    {
        key < 16 && self.keys[key as usize]
    }

    /// Counts both timers down by one, each stopping at zero.
    pub fn tick_timers(&mut self)
        ensures
            final(self)@ == old(self)@.tick(),
            final(self)@.wf(),
    {
        proof {
            use_type_invariant(&*self);
            self.lemma_view_wf();
        }
        if self.delay_timer > 0 {
            self.delay_timer -= 1;
        }
        if self.sound_timer > 0 {
            self.sound_timer -= 1;
        }
        assert(self@ =~= old(self)@.tick());
    }
}

impl Chip8 {
    /// Moves the program counter to the next instruction, or past it.
    fn advance(&mut self, skip: bool)
        requires
            old(self).pc < 4095,
        ensures
            final(self)@ == old(self)@.skip_if(skip),
            !skip ==> final(self)@ == old(self)@.next(),
    {
        proof {
            use_type_invariant(&*self);
        }
        if skip {
            self.pc += 4;
        } else {
            self.pc += 2;
        }
        assert(self@ =~= old(self)@.skip_if(skip));
    }

    /// Puts `value` into register `x`.
    fn write_register(&mut self, x: u8, value: u8)
        requires
            x < 16,
        ensures
            final(self)@ == old(self)@.set_v(x, value),
            final(self).pc == old(self).pc,
    {
        proof {
            use_type_invariant(&*self);
        }
        self.reg[x as usize] = value;
        assert(self@ =~= old(self)@.set_v(x, value));
    }

    /// Sets the flag register to 1 or 0.
    fn write_flag(&mut self, on: bool)
        ensures
            final(self)@ == old(self)@.set_flag(on),
            final(self).pc == old(self).pc,
    {
        self.write_register(0xF, if on { 1 } else { 0 });
    }

    /// The operation at the program counter.
    fn fetch(&self) -> (r: Result<Operation, Chip8Error>)
        ensures
            r == self@.fetch(),
            r matches Ok(op) ==> op.wf() && self.pc < 4095,
    {
        if self.pc >= 4095 {
            return Err(Chip8Error::AddressOutOfBounds);
        }
        let w1 = self.memory[self.pc as usize];
        let w2 = self.memory[self.pc as usize + 1];
        let inst = Instruction::read(w1, w2);
        proof {
            lemma_decoded_operation_wf(inst);
        }
        match inst.operation() {
            Some(op) => Ok(op),
            None => Err(Chip8Error::UnknownOpcode),
        }
    }
}

impl Chip8 {
    /// Pushes the program counter and continues at `addr`.
    fn call(&mut self, addr: u16) -> (r: Result<(), Chip8Error>)
        requires
            old(self).pc < 4095,
        ensures
            old(self)@.transition(
                old(self)@.apply(Operation::Call { addr }, 0),
                r,
                final(self)@,
            ),
    {
        proof {
            use_type_invariant(&*self);
        }
        if self.sp >= 16 {
            return Err(Chip8Error::StackOverflow);
        }
        self.stack[self.sp as usize] = self.pc;
        self.sp += 1;
        self.pc = addr;
        assert(self@.stack =~= old(self)@.stack.push(old(self).pc));
        Ok(())
    }

    /// Pops a return address and continues after the call that pushed it.
    fn ret(&mut self) -> (r: Result<(), Chip8Error>)
        ensures
            old(self)@.transition(old(self)@.apply(Operation::Return, 0), r, final(self)@),
    {
        proof {
            use_type_invariant(&*self);
        }
        if self.sp == 0 {
            return Err(Chip8Error::StackUnderflow);
        }
        self.sp -= 1;
        self.pc = self.stack[self.sp as usize] + 2;
        assert(self@.stack =~= old(self)@.stack.drop_last());
        Ok(())
    }

    /// Stores the hundreds, tens and ones of register `x` at the address
    /// register and the two cells after it.
    fn store_bcd(&mut self, x: u8) -> (r: Result<(), Chip8Error>)
        requires
            x < 16,
            old(self).pc < 4095,
        ensures
            old(self)@.transition(
                old(self)@.apply(Operation::StoreBcd { x }, 0),
                r,
                final(self)@,
            ),
    {
        proof {
            use_type_invariant(&*self);
        }
        let at = self.i as usize;
        if at + 2 >= 4096 {
            return Err(Chip8Error::AddressOutOfBounds);
        }
        let value = self.reg[x as usize];
        self.memory[at] = value / 100;
        self.memory[at + 1] = (value / 10) % 10;
        self.memory[at + 2] = value % 10;
        self.pc += 2;
        assert(self@ =~= old(self)@.apply(Operation::StoreBcd { x }, 0)->Ok_0);
        Ok(())
    }

    /// Copies registers 0 to `x` into memory at the address register.
    fn dump_registers(&mut self, x: u8) -> (r: Result<(), Chip8Error>)
        requires
            x < 16,
            old(self).pc < 4095,
        ensures
            old(self)@.transition(
                old(self)@.apply(Operation::DumpRegisters { x }, 0),
                r,
                final(self)@,
            ),
    {
        proof {
            use_type_invariant(&*self);
        }
        let at = self.i as usize;
        if at + x as usize >= 4096 {
            return Err(Chip8Error::AddressOutOfBounds);
        }
        let mut k: usize = 0;
        while k <= x as usize
            invariant
                x < 16,
                at == self.i,
                at + x < 4096,
                k <= x + 1,
                self.inv(),
                *self == (Chip8 { memory: self.memory, ..*old(self) }),
                forall|a: int|
                    0 <= a < 4096 ==> self.memory[a] == if at <= a < at + k {
                        self.reg[a - at]
                    } else {
                        old(self).memory[a]
                    },
            decreases x + 1 - k,
        {
            self.memory[at + k] = self.reg[k];
            k += 1;
        }
        self.pc += 2;
        assert(self@ =~= old(self)@.apply(Operation::DumpRegisters { x }, 0)->Ok_0);
        Ok(())
    }

    /// Copies memory at the address register into registers 0 to `x`.
    fn load_registers(&mut self, x: u8) -> (r: Result<(), Chip8Error>)
        requires
            x < 16,
            old(self).pc < 4095,
        ensures
            old(self)@.transition(
                old(self)@.apply(Operation::LoadRegisters { x }, 0),
                r,
                final(self)@,
            ),
    {
        proof {
            use_type_invariant(&*self);
        }
        let at = self.i as usize;
        if at + x as usize >= 4096 {
            return Err(Chip8Error::AddressOutOfBounds);
        }
        let mut k: usize = 0;
        while k <= x as usize
            invariant
                x < 16,
                at == self.i,
                at + x < 4096,
                k <= x + 1,
                self.inv(),
                *self == (Chip8 { reg: self.reg, ..*old(self) }),
                forall|j: int|
                    0 <= j < 16 ==> self.reg[j] == if j < k {
                        self.memory[at + j]
                    } else {
                        old(self).reg[j]
                    },
            decreases x + 1 - k,
        {
            self.reg[k] = self.memory[at + k];
            k += 1;
        }
        self.pc += 2;
        assert(self@ =~= old(self)@.apply(Operation::LoadRegisters { x }, 0)->Ok_0);
        Ok(())
    }

    /// The lowest key that is down, if any is.
    fn first_key_down(&self) -> (key: Option<u8>)
        ensures
            match key {
                Some(k) => lowest_pressed(self@.keys) == Some(k as int) && k < 16,
                None => lowest_pressed(self@.keys) is None,
            },
    {
        let mut k: u8 = 0;
        while k < 16
            invariant
                k <= 16,
                forall|j: int| 0 <= j < k ==> !self.keys[j],
            decreases 16 - k,
        {
            if self.keys[k as usize] {
                return Some(k);
            }
            k += 1;
        }
        None
    }

    /// Waits for a key: with a key down, takes the lowest into register `x`,
    /// releases it and goes on; with none down, changes nothing.
    fn wait_key(&mut self, x: u8)
        requires
            x < 16,
            old(self).pc < 4095,
        ensures
            Ok::<Machine, Chip8Error>(final(self)@) == old(self)@.apply(
                Operation::WaitKey { x },
                0,
            ),
    {
        proof {
            use_type_invariant(&*self);
        }
        match self.first_key_down() {
            Some(k) => {
                self.keys[k as usize] = false;
                self.reg[x as usize] = k;
                self.pc += 2;
                assert(self@ =~= old(self)@.apply(Operation::WaitKey { x }, 0)->Ok_0);
            },
            None => {},
        }
    }
}

impl Chip8 {
    /// Draws the sprite of `rows` bytes at the address register, with its top
    /// left corner at the coordinates in registers `x` and `y`, and reports in
    /// the flag register whether a pixel went off.
    fn draw(&mut self, x: u8, y: u8, rows: u8) -> (r: Result<(), Chip8Error>)
        requires
            x < 16,
            y < 16,
            rows < 16,
            old(self).pc < 4095,
        ensures
            old(self)@.transition(
                old(self)@.apply(Operation::Draw { x, y, rows }, 0),
                r,
                final(self)@,
            ),
    {
        proof {
            use_type_invariant(&*self);
        }
        let at = self.i as usize;
        if rows > 0 && at + rows as usize > 4096 {
            return Err(Chip8Error::AddressOutOfBounds);
        }
        let ox = self.reg[x as usize] % 64;
        let oy = self.reg[y as usize] % 32;
        let ghost before = self@;
        let mut collided = false;
        let mut row: u8 = 0;
        proof {
            lemma_collided_ends(before, x, y, rows);
            assert forall|p: int| 0 <= p < 2048 implies !#[trigger] flipped_before(
                before,
                x,
                y,
                rows,
                0,
                0,
                p,
            ) by {
                lemma_flipped_ends(before, x, y, rows, p);
            }
        }
        while row < rows
            invariant
                x < 16,
                y < 16,
                rows < 16,
                row <= rows,
                at == self.i,
                rows > 0 ==> at + rows <= 4096,
                ox == before.v(x) % 64,
                oy == before.v(y) % 32,
                before == old(self)@,
                self.inv(),
                *self == (Chip8 { graphics: self.graphics, ..*old(self) }),
                forall|p: int|
                    0 <= p < 2048 ==> self.graphics[p] == (before.pixels[p]
                        != #[trigger] flipped_before(before, x, y, rows, row as int, 0, p)),
                collided == collided_before(before, x, y, rows, row as int, 0),
            decreases rows - row,
        {
            let sprite = self.memory[at + row as usize];
            let mut col: u8 = 0;
            while col < 8
                invariant
                    x < 16,
                    y < 16,
                    row < rows < 16,
                    col <= 8,
                    at == self.i,
                    at + rows <= 4096,
                    ox == before.v(x) % 64,
                    oy == before.v(y) % 32,
                    before == old(self)@,
                    sprite == before.memory[at + row],
                    self.inv(),
                    *self == (Chip8 { graphics: self.graphics, ..*old(self) }),
                    forall|p: int|
                        0 <= p < 2048 ==> self.graphics[p] == (before.pixels[p]
                            != #[trigger] flipped_before(
                            before,
                            x,
                            y,
                            rows,
                            row as int,
                            col as int,
                            p,
                        )),
                    collided == collided_before(before, x, y, rows, row as int, col as int),
                decreases 8 - col,
            {
                let px = (ox as usize + col as usize) % 64;
                let py = (oy as usize + row as usize) % 32;
                let at_pixel = py * 64 + px;
                proof {
                    lemma_collided_next_column(before, x, y, rows, row as int, col as int);
                    assert forall|p: int| 0 <= p < 2048 implies #[trigger] flipped_before(
                        before,
                        x,
                        y,
                        rows,
                        row as int,
                        col + 1,
                        p,
                    ) == (flipped_before(before, x, y, rows, row as int, col as int, p) || (p
                        == at_pixel && sprite_bit(sprite, col as int))) by {
                        lemma_flipped_next_column(before, x, y, rows, row as int, col as int, p);
                    }
                    lemma_flipped_next_column(
                        before,
                        x,
                        y,
                        rows,
                        row as int,
                        col as int,
                        at_pixel as int,
                    );
                }
                if sprite & (0x80u8 >> col) != 0 {
                    if self.graphics[at_pixel] {
                        collided = true;
                    }
                    self.graphics[at_pixel] = !self.graphics[at_pixel];
                }
                col += 1;
            }
            proof {
                lemma_collided_next_row(before, x, y, rows, row as int);
                assert forall|p: int| 0 <= p < 2048 implies #[trigger] flipped_before(
                    before,
                    x,
                    y,
                    rows,
                    row + 1,
                    0,
                    p,
                ) == flipped_before(before, x, y, rows, row as int, 8, p) by {
                    lemma_flipped_next_row(before, x, y, rows, row as int, p);
                }
            }
            row += 1;
        }
        proof {
            lemma_collided_ends(before, x, y, rows);
            assert forall|p: int| 0 <= p < 2048 implies self.graphics@[p]
                == #[trigger] before.drawn_pixels(x, y, rows)[p] by {
                lemma_flipped_ends(before, x, y, rows, p);
                assert(self.graphics[p] == (before.pixels[p] != flipped_before(
                    before,
                    x,
                    y,
                    rows,
                    rows as int,
                    0,
                    p,
                )));
            }
            assert(self.graphics@ =~= before.drawn_pixels(x, y, rows));
        }
        self.reg[0xF] = if collided {
            1
        } else {
            0
        };
        self.pc += 2;
        assert(self@ =~= old(self)@.apply(Operation::Draw { x, y, rows }, 0)->Ok_0);
        Ok(())
    }
}

/// How the shifts and masks of the shift operations read as arithmetic.
proof fn lemma_shift_bits(a: u8)
    ensures
        a >> 1 == a / 2,
        (a & 1 == 1) <==> (a % 2 == 1),
        a << 1 == (a * 2) % 256,
        (a & 0x80 != 0) <==> (a >= 128),
{
    assert(a >> 1 == a / 2) by (bit_vector);
    assert(a & 1 == a % 2) by (bit_vector);
    assert(a << 1 == (a * 2) % 256) by (bit_vector);
    assert((a & 0x80 != 0) <==> (a >= 128)) by (bit_vector);
}

impl Chip8 {
    /// Does an operation that only moves the program counter: a jump or a
    /// conditional skip.
    fn branch(&mut self, op: Operation)
        requires
            op.wf(),
            old(self).pc < 4095,
            op is Jump || op is JumpOffset || op is SkipIfEqual || op is SkipIfNotEqual
                || op is SkipIfRegistersEqual || op is SkipIfRegistersNotEqual || op is SkipIfKey
                || op is SkipIfNotKey,
        ensures
            forall|random: u8|
                Ok::<Machine, Chip8Error>(final(self)@) == #[trigger] old(self)@.apply(op, random),
    {
        proof {
            use_type_invariant(&*self);
        }
        match op {
            Operation::Jump { addr } => {
                self.pc = addr;
                assert(self@ =~= (Machine { pc: addr, ..old(self)@ }));
            },
            Operation::JumpOffset { addr } => {
                self.pc = addr + self.reg[0] as u16;
                assert(self@ =~= (Machine { pc: self.pc, ..old(self)@ }));
            },
            Operation::SkipIfEqual { x, value } => {
                self.advance(self.reg[x as usize] == value);
            },
            Operation::SkipIfNotEqual { x, value } => {
                self.advance(self.reg[x as usize] != value);
            },
            Operation::SkipIfRegistersEqual { x, y } => {
                self.advance(self.reg[x as usize] == self.reg[y as usize]);
            },
            Operation::SkipIfRegistersNotEqual { x, y } => {
                self.advance(self.reg[x as usize] != self.reg[y as usize]);
            },
            Operation::SkipIfKey { x } => {
                let key = self.reg[x as usize];
                self.advance(key < 16 && self.keys[key as usize]);
            },
            Operation::SkipIfNotKey { x } => {
                let key = self.reg[x as usize];
                self.advance(!(key < 16 && self.keys[key as usize]));
            },
            _ => {},
        }
    }

    /// Does an operation that puts a value into one register and leaves the
    /// flag alone.
    fn assign(&mut self, op: Operation, random: u8)
        requires
            op.wf(),
            old(self).pc < 4095,
            op is Load || op is AddImmediate || op is Copy || op is Or || op is And || op is Xor
                || op is Random || op is ReadDelay,
        ensures
            Ok::<Machine, Chip8Error>(final(self)@) == old(self)@.apply(op, random),
    {
        proof {
            use_type_invariant(&*self);
        }
        match op {
            Operation::Load { x, value } => {
                self.write_register(x, value);
            },
            Operation::AddImmediate { x, value } => {
                self.write_register(x, self.reg[x as usize].wrapping_add(value));
            },
            Operation::Copy { x, y } => {
                self.write_register(x, self.reg[y as usize]);
            },
            Operation::Or { x, y } => {
                self.write_register(x, self.reg[x as usize] | self.reg[y as usize]);
            },
            Operation::And { x, y } => {
                self.write_register(x, self.reg[x as usize] & self.reg[y as usize]);
            },
            Operation::Xor { x, y } => {
                self.write_register(x, self.reg[x as usize] ^ self.reg[y as usize]);
            },
            Operation::Random { x, mask } => {
                self.write_register(x, random & mask);
            },
            Operation::ReadDelay { x } => {
                self.write_register(x, self.delay_timer);
            },
            _ => {},
        }
        self.advance(false);
    }

    /// Does an operation that puts a result into register `x` and then a
    /// carry, a borrow or a shifted-out bit into the flag register.
    fn arithmetic(&mut self, op: Operation)
        requires
            op.wf(),
            old(self).pc < 4095,
            op is Add || op is Sub || op is ReverseSub || op is ShiftRight || op is ShiftLeft,
        ensures
            forall|random: u8|
                Ok::<Machine, Chip8Error>(final(self)@) == #[trigger] old(self)@.apply(op, random),
    {
        proof {
            use_type_invariant(&*self);
        }
        match op {
            Operation::Add { x, y } => {
                let a = self.reg[x as usize];
                let b = self.reg[y as usize];
                self.write_register(x, a.wrapping_add(b));
                self.write_flag(b > 255 - a);
            },
            Operation::Sub { x, y } => {
                let a = self.reg[x as usize];
                let b = self.reg[y as usize];
                self.write_register(x, a.wrapping_sub(b));
                self.write_flag(a >= b);
            },
            Operation::ReverseSub { x, y } => {
                let a = self.reg[x as usize];
                let b = self.reg[y as usize];
                self.write_register(x, b.wrapping_sub(a));
                self.write_flag(b >= a);
            },
            Operation::ShiftRight { x } => {
                let a = self.reg[x as usize];
                proof {
                    lemma_shift_bits(a);
                }
                self.write_register(x, a >> 1);
                self.write_flag(a & 1 == 1);
            },
            Operation::ShiftLeft { x } => {
                let a = self.reg[x as usize];
                proof {
                    lemma_shift_bits(a);
                }
                self.write_register(x, a << 1);
                self.write_flag(a & 0x80 != 0);
            },
            _ => {},
        }
        self.advance(false);
    }

    /// Does an operation on the screen as a whole, the timers or the address
    /// register.
    fn configure(&mut self, op: Operation)
        requires
            op.wf(),
            old(self).pc < 4095,
            op is ClearScreen || op is LoadIndex || op is SetDelay || op is SetSound
                || op is AddIndex || op is Glyph,
        ensures
            forall|random: u8|
                Ok::<Machine, Chip8Error>(final(self)@) == #[trigger] old(self)@.apply(op, random),
    {
        proof {
            use_type_invariant(&*self);
        }
        match op {
            Operation::ClearScreen => {
                self.graphics = [false;2048];
                assert(self@ =~= (Machine {
                    pixels: Seq::new(2048, |p: int| false),
                    ..old(self)@
                }));
            },
            Operation::LoadIndex { addr } => {
                self.i = addr;
                assert(self@ =~= (Machine { index: addr, ..old(self)@ }));
            },
            Operation::SetDelay { x } => {
                self.delay_timer = self.reg[x as usize];
                assert(self@ =~= (Machine { delay: old(self)@.v(x), ..old(self)@ }));
            },
            Operation::SetSound { x } => {
                self.sound_timer = self.reg[x as usize];
                assert(self@ =~= (Machine { sound: old(self)@.v(x), ..old(self)@ }));
            },
            Operation::AddIndex { x } => {
                let a = self.reg[x as usize] as u16;
                let carried = a > 0xFFFF - self.i;
                self.i = self.i.wrapping_add(a);
                assert(self@ =~= (Machine {
                    index: ((old(self).i + a) % 0x10000) as u16,
                    ..old(self)@
                }));
                self.write_flag(carried);
            },
            Operation::Glyph { x } => {
                self.i = (self.reg[x as usize] % 16) as u16 * 5;
                assert(self@ =~= (Machine {
                    index: ((old(self)@.v(x) % 16) * 5) as u16,
                    ..old(self)@
                }));
            },
            _ => {},
        }
        self.advance(false);
    }

    /// Does `op`, with `random` as the byte that the random operation draws.
    fn apply(&mut self, op: Operation, random: u8) -> (r: Result<(), Chip8Error>)
        requires
            op.wf(),
            old(self).pc < 4095,
        ensures
            old(self)@.transition(old(self)@.apply(op, random), r, final(self)@),
    {
        match op {
            Operation::Return => self.ret(),
            Operation::Call { addr } => self.call(addr),
            Operation::Draw { x, y, rows } => self.draw(x, y, rows),
            Operation::StoreBcd { x } => self.store_bcd(x),
            Operation::DumpRegisters { x } => self.dump_registers(x),
            Operation::LoadRegisters { x } => self.load_registers(x),
            Operation::WaitKey { x } => {
                self.wait_key(x);
                Ok(())
            },
            Operation::Jump { .. }
            | Operation::JumpOffset { .. }
            | Operation::SkipIfEqual { .. }
            | Operation::SkipIfNotEqual { .. }
            | Operation::SkipIfRegistersEqual { .. }
            | Operation::SkipIfRegistersNotEqual { .. }
            | Operation::SkipIfKey { .. }
            | Operation::SkipIfNotKey { .. } => {
                self.branch(op);
                Ok(())
            },
            Operation::Load { .. }
            | Operation::AddImmediate { .. }
            | Operation::Copy { .. }
            | Operation::Or { .. }
            | Operation::And { .. }
            | Operation::Xor { .. }
            | Operation::Random { .. }
            | Operation::ReadDelay { .. } => {
                self.assign(op, random);
                Ok(())
            },
            Operation::Add { .. }
            | Operation::Sub { .. }
            | Operation::ReverseSub { .. }
            | Operation::ShiftRight { .. }
            | Operation::ShiftLeft { .. } => {
                self.arithmetic(op);
                Ok(())
            },
            Operation::ClearScreen
            | Operation::LoadIndex { .. }
            | Operation::SetDelay { .. }
            | Operation::SetSound { .. }
            | Operation::AddIndex { .. }
            | Operation::Glyph { .. } => {
                self.configure(op);
                Ok(())
            },
        }
    }

    /// Runs one cycle with `random` standing for the byte that the random
    /// operation draws: fetches the two bytes at the program counter, decodes
    /// them and does what they say. The program counter then stands on the
    /// next instruction to run. On an error nothing has changed.
    pub fn execute_with(&mut self, random: u8) -> (result: Result<(), Chip8Error>)
        ensures
            old(self)@.wf(),
            final(self)@.wf(),
            old(self)@.transition(old(self)@.step(random), result, final(self)@),
    {
        proof {
            use_type_invariant(&*self);
            self.lemma_view_wf();
        }
        let result = match self.fetch() {
            Ok(op) => self.apply(op, random),
            Err(e) => Err(e),
        };
        proof {
            use_type_invariant(&*self);
            self.lemma_view_wf();
        }
        result
    }

    /// Runs one cycle: fetches the two bytes at the program counter, decodes
    /// them and does what they say, drawing a fresh random byte where they
    /// ask for one. On an error nothing has changed. The cycle is that of
    /// `execute_with` for some byte; for which one matters only where the
    /// instruction is the random operation.
    pub fn execute(&mut self) -> (result: Result<(), Chip8Error>)
        ensures
            old(self)@.wf(),
            final(self)@.wf(),
            exists|random: u8|
                old(self)@.transition(
                    #[trigger] old(self)@.step(random),
                    result,
                    final(self)@,
                ),
            !(old(self)@.fetch() matches Ok(op) && op is Random) ==> forall|random: u8|
                old(self)@.transition(
                    #[trigger] old(self)@.step(random),
                    result,
                    final(self)@,
                ),
    {
        proof {
            use_type_invariant(&*self);
            self.lemma_view_wf();
        }
        let ghost drawn: u8 = 0;
        let result = match self.fetch() {
            Ok(op) => {
                let random = match op {
                    Operation::Random { .. } => random_byte(),
                    _ => 0,
                };
                proof {
                    drawn = random;
                }
                self.apply(op, random)
            },
            Err(e) => Err(e),
        };
        proof {
            use_type_invariant(&*self);
            self.lemma_view_wf();
            assert(old(self)@.transition(old(self)@.step(drawn), result, self@));
            if !(old(self)@.fetch() matches Ok(op) && op is Random) {
                assert forall|random: u8|
                    old(self)@.transition(
                        #[trigger] old(self)@.step(random),
                        result,
                        self@,
                    ) by {
                    assert(old(self)@.step(random) == old(self)@.step(drawn));
                }
            }
        }
        result
    }

    /// A machine that meets the type's invariant is a well-formed machine.
    proof fn lemma_view_wf(&self)
        requires
            self.inv(),
        ensures
            self@.wf(),
    {
    }
}

} // verus!
