use crate::display::{lemma_sprite_covers_iff_some_bit_lands, sprite_bit};
use crate::error::Chip8Error;
use crate::instruction::{lemma_decoded_operation_wf, word_of, Instruction, Operation};
use crate::machine::{lowest_pressed, Machine, GLYPHS};
use vstd::prelude::*;

verus! {

/// The machine before anything was loaded or run is well formed.
pub proof fn law_initial_wf()
    ensures
        Machine::initial().wf(),
{
}

/// Loading an image, setting a key and ticking the timers keep a machine well
/// formed.
pub proof fn law_host_calls_keep_wf(m: Machine, image: Seq<u8>, key: int, pressed: bool)
    requires
        m.wf(),
        0 <= key < 16,
    ensures
        m.load(image).wf(),
        m.set_key(key, pressed).wf(),
        m.tick().wf(),
{
}

/// What a fetch gives is an operation whose selectors, addresses and row
/// count are in range, and the program counter then has room to advance.
pub proof fn law_fetched_operation_wf(m: Machine)
    requires
        m.fetch() is Ok,
    ensures
        m.fetch()->Ok_0.wf(),
        m.pc < 4095,
{
    lemma_decoded_operation_wf(
        Instruction::of_word(word_of(m.memory[m.pc as int], m.memory[m.pc + 1])),
    );
}

/// An operation keeps a machine well formed.
pub proof fn law_apply_keeps_wf(m: Machine, op: Operation, random: u8)
    requires
        m.wf(),
        op.wf(),
        m.pc < 4095,
        m.apply(op, random) is Ok,
    ensures
        m.apply(op, random)->Ok_0.wf(),
{
    let after = m.apply(op, random)->Ok_0;
    match op {
        Operation::Return => {
            assert forall|i: int| 0 <= i < after.stack.len() implies #[trigger] after.stack[i]
                < 4095 by {
                assert(after.stack[i] == m.stack[i]);
            }
        },
        Operation::Call { addr } => {
            assert forall|i: int| 0 <= i < after.stack.len() implies #[trigger] after.stack[i]
                < 4095 by {
                if i < m.stack.len() {
                    assert(after.stack[i] == m.stack[i]);
                }
            }
        },
        _ => {},
    }
}

/// A cycle keeps a machine well formed.
pub proof fn law_step_keeps_wf(m: Machine, random: u8)
    requires
        m.wf(),
        m.step(random) is Ok,
    ensures
        m.step(random)->Ok_0.wf(),
{
    law_fetched_operation_wf(m);
    law_apply_keeps_wf(m, m.fetch()->Ok_0, random);
}

/// Only the random operation looks at the random byte.
pub proof fn law_only_random_reads_the_byte(m: Machine, op: Operation, a: u8, b: u8)
    requires
        !(op is Random),
    ensures
        m.apply(op, a) == m.apply(op, b),
{
}

/// A cycle on any instruction but the random operation is the same whatever
/// the random byte.
pub proof fn law_only_random_cycle_reads_the_byte(m: Machine, a: u8, b: u8)
    requires
        !(m.fetch() matches Ok(op) && op is Random),
    ensures
        m.step(a) == m.step(b),
{
}

/// Whether `op` is a jump, a call, a return, a conditional skip or the wait
/// for a key: the operations that set the program counter themselves.
pub open spec fn sets_program_counter(op: Operation) -> bool {
    op is Jump || op is JumpOffset || op is Call || op is Return || op is SkipIfEqual
        || op is SkipIfNotEqual || op is SkipIfRegistersEqual || op is SkipIfRegistersNotEqual
        || op is SkipIfKey || op is SkipIfNotKey || op is WaitKey
}

/// After every operation that does not set the program counter itself, the
/// program counter is exactly 2 further.
pub proof fn law_program_counter_advances(m: Machine, op: Operation, random: u8)
    requires
        m.pc < 4095,
        !sets_program_counter(op),
        m.apply(op, random) is Ok,
    ensures
        m.apply(op, random)->Ok_0.pc == m.pc + 2,
{
}

/// A conditional skip moves the program counter by 4 or by 2 and changes
/// nothing else.
pub proof fn law_skip_moves_by_two_or_four(m: Machine, op: Operation, random: u8)
    requires
        m.pc < 4095,
        op is SkipIfEqual || op is SkipIfNotEqual || op is SkipIfRegistersEqual
            || op is SkipIfRegistersNotEqual || op is SkipIfKey || op is SkipIfNotKey,
    ensures
        ({
            &&& m.apply(op, random) matches Ok(after)
            &&& after.pc == m.pc + 2 || after.pc == m.pc + 4
            &&& after == (Machine { pc: after.pc, ..m })
        }),
{
}

/// What an operation leaves alone: the keys unless it is the wait for a key,
/// the pixels unless it clears the screen or draws, the memory unless it
/// stores digits or dumps registers, the stack unless it calls or returns,
/// and the timers unless it sets one.
pub proof fn law_operation_frame(m: Machine, op: Operation, random: u8)
    requires
        m.apply(op, random) is Ok,
    ensures
        !(op is WaitKey) ==> m.apply(op, random)->Ok_0.keys == m.keys,
        !(op is ClearScreen || op is Draw) ==> m.apply(op, random)->Ok_0.pixels == m.pixels,
        !(op is StoreBcd || op is DumpRegisters) ==> m.apply(op, random)->Ok_0.memory == m.memory,
        !(op is Call || op is Return) ==> m.apply(op, random)->Ok_0.stack == m.stack,
        !(op is SetDelay) ==> m.apply(op, random)->Ok_0.delay == m.delay,
        !(op is SetSound) ==> m.apply(op, random)->Ok_0.sound == m.sound,
{
}

/// The glyphs stay at the bottom of memory through every operation but a
/// store of digits or a dump of registers that reaches below address 80.
pub proof fn law_glyphs_stay(m: Machine, op: Operation, random: u8)
    requires
        m.wf(),
        op.wf(),
        m.memory.subrange(0, 80) == GLYPHS@,
        m.apply(op, random) is Ok,
        (op is StoreBcd || op is DumpRegisters) ==> m.index >= 80,
    ensures
        m.apply(op, random)->Ok_0.memory.subrange(0, 80) == GLYPHS@,
{
    let after = m.apply(op, random)->Ok_0;
    assert(after.memory.subrange(0, 80) =~= m.memory.subrange(0, 80)) by {
        assert forall|a: int| 0 <= a < 80 implies after.memory[a] == m.memory[a] by {}
    }
}

/// A fresh machine into which `image` was loaded holds the glyphs below
/// address 80, the image from `0x200` on, and zero everywhere else.
pub proof fn law_loaded_memory(image: Seq<u8>, a: int)
    requires
        image.len() <= 3584,
        0 <= a < 4096,
    ensures
        Machine::initial().load(image).memory[a] == if a < 80 {
            GLYPHS[a]
        } else if 0x200 <= a < 0x200 + image.len() {
            image[a - 0x200]
        } else {
            0u8
        },
        Machine::initial().load(image).memory.len() == 4096,
{
}

/// Whether `op` loads a byte into a register or adds a byte to one.
pub open spec fn is_immediate(op: Operation) -> bool {
    op is Load || op is AddImmediate
}

/// The registers after a run of loads and additions of bytes: a load
/// replaces what the register holds, an addition adds to it modulo 256.
pub open spec fn immediates_result(registers: Seq<u8>, ops: Seq<Operation>) -> Seq<u8>
    decreases ops.len(),
{
    if ops.len() == 0 {
        registers
    } else {
        immediate_result(immediates_result(registers, ops.drop_last()), ops.last())
    }
}

/// The operation that stands `k` instructions ahead of the program counter.
pub open spec fn operation_ahead(m: Machine, k: int) -> Result<Operation, Chip8Error> {
    if m.pc + 2 * k > 0xFFFF {
        Err(Chip8Error::AddressOutOfBounds)
    } else {
        (Machine { pc: (m.pc + 2 * k) as u16, ..m }).fetch()
    }
}

/// Whether the instructions that `m` is about to run, one after the other
/// from the program counter on, are `ops`.
pub open spec fn program_ahead(m: Machine, ops: Seq<Operation>) -> bool {
    forall|k: int|
        0 <= k < ops.len() ==> #[trigger] operation_ahead(m, k) == Ok::<Operation, Chip8Error>(
            ops[k],
        )
}

/// The registers after one load or addition of a byte.
pub open spec fn immediate_result(registers: Seq<u8>, op: Operation) -> Seq<u8> {
    match op {
        Operation::Load { x, value } => registers.update(x as int, value),
        Operation::AddImmediate { x, value } => registers.update(
            x as int,
            ((registers[x as int] + value) % 256) as u8,
        ),
        _ => registers,
    }
}

/// A cycle on a load or an addition of a byte that stands `n` instructions
/// ahead of where `m` is, run on `m` moved there with `registers`, changes
/// the one register, moves the program counter by 2 and changes nothing else.
proof fn lemma_immediate_step(m: Machine, registers: Seq<u8>, n: int, op: Operation, random: u8)
    requires
        m.wf(),
        registers.len() == 16,
        0 <= n,
        operation_ahead(m, n) == Ok::<Operation, Chip8Error>(op),
        is_immediate(op),
    ensures
        m.pc + 2 * (n + 1) <= 4096,
        immediate_result(registers, op).len() == 16,
        (Machine { registers, pc: (m.pc + 2 * n) as u16, ..m }).step(random) == Ok::<
            Machine,
            Chip8Error,
        >(
            Machine {
                registers: immediate_result(registers, op),
                pc: (m.pc + 2 * (n + 1)) as u16,
                ..m
            },
        ),
{
    let before = Machine { registers, pc: (m.pc + 2 * n) as u16, ..m };
    assert(before.fetch() == operation_ahead(m, n));
    law_fetched_operation_wf(before);
    assert(before.step(random) == before.apply(op, random));
    assert(before.apply(op, random)->Ok_0 =~= (Machine {
        registers: immediate_result(registers, op),
        pc: (m.pc + 2 * (n + 1)) as u16,
        ..m
    }));
}

/// All but the last of the instructions ahead are ahead too.
proof fn lemma_program_ahead_prefix(m: Machine, ops: Seq<Operation>)
    requires
        program_ahead(m, ops),
        forall|k: int| 0 <= k < ops.len() ==> is_immediate(#[trigger] ops[k]),
        ops.len() > 0,
    ensures
        program_ahead(m, ops.drop_last()),
        forall|k: int| 0 <= k < ops.len() - 1 ==> is_immediate(#[trigger] ops.drop_last()[k]),
        operation_ahead(m, ops.len() - 1) == Ok::<Operation, Chip8Error>(ops.last()),
        is_immediate(ops.last()),
{
    let head = ops.drop_last();
    assert forall|k: int| 0 <= k < head.len() implies #[trigger] operation_ahead(m, k) == Ok::<
        Operation,
        Chip8Error,
    >(head[k]) by {
        assert(head[k] == ops[k]);
    }
    assert forall|k: int| 0 <= k < head.len() implies is_immediate(#[trigger] head[k]) by {
        assert(head[k] == ops[k]);
    }
    assert(ops.last() == ops[ops.len() - 1]);
}

/// A program made of loads and additions of bytes alone leaves in the
/// registers the sums modulo 256 of what it loaded and added, moves the
/// program counter past itself, and changes nothing else.
pub proof fn law_immediates_sum(m: Machine, ops: Seq<Operation>, randoms: Seq<u8>)
    requires
        m.wf(),
        program_ahead(m, ops),
        forall|k: int| 0 <= k < ops.len() ==> is_immediate(#[trigger] ops[k]),
        randoms.len() == ops.len(),
    ensures
        m.pc + 2 * ops.len() <= 0xFFFF,
        m.run(randoms) == Ok::<Machine, Chip8Error>(
            Machine {
                registers: immediates_result(m.registers, ops),
                pc: (m.pc + 2 * ops.len()) as u16,
                ..m
            },
        ),
        immediates_result(m.registers, ops).len() == 16,
    decreases ops.len(),
{
    if ops.len() == 0 {
        assert(m =~= (Machine { registers: m.registers, pc: m.pc, ..m }));
    } else {
        let n = ops.len() - 1;
        lemma_program_ahead_prefix(m, ops);
        law_immediates_sum(m, ops.drop_last(), randoms.drop_last());
        lemma_immediate_step(
            m,
            immediates_result(m.registers, ops.drop_last()),
            n,
            ops.last(),
            randoms.last(),
        );
    }
}

/// A program made of loads and additions of bytes alone, none of which names
/// the flag register, leaves the flag register as it was.
pub proof fn law_immediates_keep_flag(registers: Seq<u8>, ops: Seq<Operation>)
    requires
        registers.len() == 16,
        forall|k: int|
            0 <= k < ops.len() ==> match #[trigger] ops[k] {
                Operation::Load { x, .. } => x < 15,
                Operation::AddImmediate { x, .. } => x < 15,
                _ => false,
            },
    ensures
        immediates_result(registers, ops).len() == 16,
        immediates_result(registers, ops)[0xF] == registers[0xF],
    decreases ops.len(),
{
    if ops.len() > 0 {
        let head = ops.drop_last();
        assert forall|k: int| 0 <= k < head.len() implies match #[trigger] head[k] {
            Operation::Load { x, .. } => x < 15,
            Operation::AddImmediate { x, .. } => x < 15,
            _ => false,
        } by {
            assert(head[k] == ops[k]);
        }
        law_immediates_keep_flag(registers, head);
        assert(ops.last() == ops[ops.len() - 1]);
    }
}

/// Clearing the screen and then drawing a sprite leaves lit exactly the
/// pixels on which a set bit of the sprite lands, and the flag register at 0.
pub proof fn law_draw_on_cleared_screen(m: Machine, x: u8, y: u8, rows: u8, random: u8)
    requires
        m.wf(),
        m.pc < 4093,
        x < 16,
        y < 16,
        rows < 16,
        rows > 0 ==> m.index + rows <= 4096,
    ensures
        ({
            &&& m.apply(Operation::ClearScreen, random) matches Ok(cleared)
            &&& cleared.apply(Operation::Draw { x, y, rows }, random) matches Ok(drawn)
            &&& drawn.v(0xF) == 0
            &&& drawn.pixels.len() == 2048
            &&& forall|p: int| 0 <= p < 2048 ==> drawn.pixels[p] == m.draw_flips(x, y, rows, p)
        }),
{
    let cleared = m.apply(Operation::ClearScreen, random)->Ok_0;
    assert forall|p: int| 0 <= p < 2048 implies cleared.draw_flips(x, y, rows, p) == m.draw_flips(
        x,
        y,
        rows,
        p,
    ) by {}
    assert(!cleared.draw_collides(x, y, rows));
}

/// Whether the sprite of `rows` bytes at the address register has a set bit.
pub open spec fn sprite_has_bit(m: Machine, rows: u8) -> bool {
    exists|row: int, col: int|
        0 <= row < rows && 0 <= col < 8 && #[trigger] sprite_bit(m.memory[m.index + row], col)
}

/// Two machines with the same sprite at the same coordinates flip the same
/// pixels.
proof fn lemma_same_sprite_same_flips(a: Machine, b: Machine, x: u8, y: u8, rows: u8)
    requires
        a.memory == b.memory,
        a.index == b.index,
        a.v(x) == b.v(x),
        a.v(y) == b.v(y),
    ensures
        forall|p: int| #[trigger] a.draw_flips(x, y, rows, p) == b.draw_flips(x, y, rows, p),
{
}

/// A sprite with a set bit flips a pixel.
proof fn lemma_set_bit_lands(m: Machine, x: u8, y: u8, rows: u8)
    requires
        rows < 16,
        sprite_has_bit(m, rows),
    ensures
        exists|p: int| 0 <= p < 2048 && #[trigger] m.draw_flips(x, y, rows, p),
{
    let (row, col) = choose|row: int, col: int|
        0 <= row < rows && 0 <= col < 8 && #[trigger] sprite_bit(m.memory[m.index + row], col);
    let ox = m.v(x) as int % 64;
    let oy = m.v(y) as int % 32;
    let px = (ox + col) % 64;
    let py = (oy + row) % 32;
    let w = py * 64 + px;
    lemma_sprite_covers_iff_some_bit_lands(m.memory, m.index as int, rows as int, ox, oy, px, py);
    assert(w % 64 == px && w / 64 == py);
    assert(m.draw_flips(x, y, rows, w));
}

/// Drawing the same sprite twice at the same place gives back the pixels
/// that were there before the first draw, and the second draw sets the flag
/// register exactly if the first lit a pixel. The two coordinate registers
/// must not be the flag register, which the first draw overwrites.
pub proof fn law_draw_twice_restores(m: Machine, x: u8, y: u8, rows: u8, random: u8)
    requires
        m.wf(),
        m.pc < 4093,
        x < 15,
        y < 15,
        rows < 16,
        rows > 0 ==> m.index + rows <= 4096,
    ensures
        ({
            &&& m.apply(Operation::Draw { x, y, rows }, random) matches Ok(once)
            &&& once.apply(Operation::Draw { x, y, rows }, random) matches Ok(twice)
            &&& twice.pixels == m.pixels
            &&& twice.v(0xF) == 1 <==> exists|p: int|
                0 <= p < 2048 && !m.pixels[p] && #[trigger] m.draw_flips(x, y, rows, p)
        }),
{
    let op = Operation::Draw { x, y, rows };
    let once = m.apply(op, random)->Ok_0;
    let twice = once.apply(op, random)->Ok_0;
    lemma_same_sprite_same_flips(once, m, x, y, rows);
    assert(twice.pixels =~= m.pixels);
    if once.draw_collides(x, y, rows) {
        let w = choose|p: int|
            0 <= p < 2048 && once.pixels[p] && #[trigger] once.draw_flips(x, y, rows, p);
        assert(m.draw_flips(x, y, rows, w) && !m.pixels[w]);
    }
    if exists|p: int| 0 <= p < 2048 && !m.pixels[p] && #[trigger] m.draw_flips(x, y, rows, p) {
        let w = choose|p: int| 0 <= p < 2048 && !m.pixels[p] && #[trigger] m.draw_flips(x, y, rows, p);
        assert(once.draw_flips(x, y, rows, w) && once.pixels[w]);
    }
}

/// On a dark screen, drawing a sprite that has a set bit twice at the same
/// place leaves the screen dark again and the flag register at 1.
pub proof fn law_draw_twice_on_dark_screen(m: Machine, x: u8, y: u8, rows: u8, random: u8)
    requires
        m.wf(),
        m.pc < 4093,
        x < 15,
        y < 15,
        rows < 16,
        rows > 0 ==> m.index + rows <= 4096,
        forall|p: int| 0 <= p < 2048 ==> !m.pixels[p],
        sprite_has_bit(m, rows),
    ensures
        ({
            &&& m.apply(Operation::Draw { x, y, rows }, random) matches Ok(once)
            &&& once.v(0xF) == 0
            &&& once.apply(Operation::Draw { x, y, rows }, random) matches Ok(twice)
            &&& twice.v(0xF) == 1
            &&& twice.pixels == m.pixels
        }),
{
    law_draw_twice_restores(m, x, y, rows, random);
    lemma_set_bit_lands(m, x, y, rows);
    let w = choose|p: int| 0 <= p < 2048 && #[trigger] m.draw_flips(x, y, rows, p);
    assert(!m.pixels[w]);
    assert(!m.draw_collides(x, y, rows));
}

/// A call followed by a return goes on at the instruction after the call,
/// with the stack as it was before the call.
pub proof fn law_call_then_return(m: Machine, addr: u16, random: u8)
    requires
        m.wf(),
        m.pc < 4095,
        m.stack.len() < 16,
    ensures
        ({
            &&& m.apply(Operation::Call { addr }, random) matches Ok(called)
            &&& called.pc == addr
            &&& called.apply(Operation::Return, random) == Ok::<Machine, Chip8Error>(m.next())
        }),
{
    let called = m.apply(Operation::Call { addr }, random)->Ok_0;
    let returned = called.apply(Operation::Return, random)->Ok_0;
    assert(returned.stack =~= m.stack);
    assert(returned =~= m.next());
}

/// Dumping registers 0 to `x` and loading them back through the same address
/// gives the registers that were dumped.
pub proof fn law_dump_then_load(m: Machine, x: u8, random: u8)
    requires
        m.wf(),
        x < 16,
        m.pc < 4093,
        m.apply(Operation::DumpRegisters { x }, random) is Ok,
    ensures
        ({
            &&& m.apply(Operation::DumpRegisters { x }, random) matches Ok(dumped)
            &&& dumped.apply(Operation::LoadRegisters { x }, random) matches Ok(loaded)
            &&& loaded.registers == m.registers
        }),
{
    let dumped = m.apply(Operation::DumpRegisters { x }, random)->Ok_0;
    let loaded = dumped.apply(Operation::LoadRegisters { x }, random)->Ok_0;
    assert(loaded.registers =~= m.registers);
}

/// Counting the timers down `n` times takes `n` off each, stopping at zero.
pub open spec fn ticked(m: Machine, n: nat) -> Machine
    decreases n,
{
    if n == 0 {
        m
    } else {
        ticked(m, (n - 1) as nat).tick()
    }
}

/// After `n` ticks each timer is `n` lower, or zero where it held less than
/// `n`; nothing else has changed.
pub proof fn law_ticks_count_down(m: Machine, n: nat)
    ensures
        ticked(m, n) == (Machine {
            delay: if m.delay >= n { (m.delay - n) as u8 } else { 0 },
            sound: if m.sound >= n { (m.sound - n) as u8 } else { 0 },
            ..m
        }),
    decreases n,
{
    if n > 0 {
        law_ticks_count_down(m, (n - 1) as nat);
    }
}

/// While no key is down, cycles on a wait for a key change nothing at all,
/// however many are run.
pub proof fn law_wait_key_stalls(m: Machine, x: u8, randoms: Seq<u8>)
    requires
        m.fetch() == Ok::<Operation, Chip8Error>(Operation::WaitKey { x }),
        forall|k: int| 0 <= k < m.keys.len() ==> !m.keys[k],
    ensures
        m.run(randoms) == Ok::<Machine, Chip8Error>(m),
    decreases randoms.len(),
{
    if randoms.len() > 0 {
        law_wait_key_stalls(m, x, randoms.drop_last());
        assert(lowest_pressed(m.keys) is None);
    }
}

/// Once a key goes down, the next cycle on a wait for a key puts the key's
/// index into the target register, releases the key and moves the program
/// counter by 2.
pub proof fn law_wait_key_resumes(m: Machine, x: u8, key: u8, random: u8)
    requires
        m.wf(),
        m.fetch() == Ok::<Operation, Chip8Error>(Operation::WaitKey { x }),
        forall|k: int| 0 <= k < 16 ==> !m.keys[k],
        key < 16,
    ensures
        m.set_key(key as int, true).step(random) == Ok::<Machine, Chip8Error>(
            m.set_v(x, key).next(),
        ),
        m.set_v(x, key).next().pc == m.pc + 2,
        m.set_v(x, key).next().v(x) == key,
{
    law_fetched_operation_wf(m);
    let pressed = m.set_key(key as int, true);
    assert(pressed.fetch() == m.fetch());
    assert(pressed.keys[key as int]);
    let found = lowest_pressed(pressed.keys)->Some_0;
    assert(0 <= found < 16 && pressed.keys[found]);
    assert(found == key);
    assert(pressed.keys.update(key as int, false) =~= m.keys);
    assert(pressed.step(random)->Ok_0 =~= m.set_v(x, key).next());
}

} // verus!
