//! The abstract machine: its state as mathematical values, and what one
//! instruction, one cycle and one run of cycles do to it.
use vstd::prelude::*;

use crate::display::{
    collides, lemma_draw_twice, sprite_mask, xor_pixels, CHIP8_HEIGHT, CHIP8_WIDTH, SCREEN_SIZE,
};
use crate::error::ChipError;
use crate::instruction::{decode_spec, Instruction};
use crate::keyboard::KEYBOARD_SIZE;
use crate::runtime::Mode;
use crate::storage::{glyph_address, word_at, FLAG, MEM_SIZE, NUM_VARS, STACK_HEIGHT};

verus! {

/// The whole state of the interpreter.
#[verifier::ext_equal]
pub struct Machine {
    pub mode: Mode,
    pub memory: Seq<u8>,
    pub pc: int,
    pub index: int,
    pub stack: Seq<usize>,
    pub vars: Seq<u8>,
    pub pixels: Seq<bool>,
    pub delay: int,
    pub sound: int,
    /// The logical keys held at the last poll.
    pub keys: Seq<bool>,
    /// The key that a waiting key-read has seen go down, if any.
    pub latch: Option<u8>,
}

impl Machine {
    /// Every part has its fixed size and every counter its range.
    pub open spec fn wf(self) -> bool {
        &&& self.memory.len() == MEM_SIZE
        &&& self.vars.len() == NUM_VARS
        &&& self.pixels.len() == SCREEN_SIZE
        &&& self.keys.len() == KEYBOARD_SIZE
        &&& self.stack.len() <= STACK_HEIGHT
        &&& 0 <= self.pc <= usize::MAX
        &&& 0 <= self.index < 0x10000
        &&& 0 <= self.delay < 256
        &&& 0 <= self.sound < 256
        &&& self.latch matches Some(k) ==> k < KEYBOARD_SIZE
    }
}

/// `result` and the state left behind are those that `expected` gives: on
/// success the new state, on failure its error with the state unchanged.
pub open spec fn committed(
    before: Machine,
    after: Machine,
    result: Result<(), ChipError>,
    expected: Result<Machine, ChipError>,
) -> bool {
    match result {
        Ok(_) => expected == Ok::<Machine, ChipError>(after),
        Err(e) => expected == Err::<Machine, ChipError>(e) && after == before,
    }
}

/// Steps over the next instruction when `cond` holds.
pub open spec fn skip_if(m: Machine, cond: bool) -> Machine {
    if cond {
        Machine { pc: m.pc + 2, ..m }
    } else {
        m
    }
}

/// Writes `v` to register `x`.
pub open spec fn set_var(m: Machine, x: int, v: u8) -> Machine {
    Machine { vars: m.vars.update(x, v), ..m }
}

/// Writes `v` to register `x`, then `flag` to VF.
pub open spec fn set_var_flag(m: Machine, x: int, v: u8, flag: bool) -> Machine {
    Machine { vars: m.vars.update(x, v).update(FLAG as int, if flag { 1u8 } else { 0u8 }), ..m }
}

/// `00E0` clears the screen, `00EE` returns from a subroutine; any other
/// `0NNN` is unsupported.
pub open spec fn op_system(m: Machine, ins: Instruction) -> Result<Machine, ChipError> {
    if ins.nnn == 0x0E0 {
        Ok(Machine { pixels: Seq::new(SCREEN_SIZE as nat, |i: int| false), ..m })
    } else if ins.nnn == 0x0EE {
        if m.stack.len() == 0 {
            Err(ChipError::StackUnderflow)
        } else {
            Ok(Machine { pc: m.stack.last() as int, stack: m.stack.drop_last(), ..m })
        }
    } else {
        Err(ChipError::UnsupportedOpcode(ins.word() as u16))
    }
}

/// `2NNN`: pushes the program counter and jumps.
pub open spec fn op_call(m: Machine, ins: Instruction) -> Result<Machine, ChipError> {
    if m.stack.len() >= STACK_HEIGHT {
        Err(ChipError::StackOverflow)
    } else {
        Ok(Machine { stack: m.stack.push(m.pc as usize), pc: ins.nnn as int, ..m })
    }
}

/// The operand that a shift reads: VX in place on the extended machine, VY
/// on the others.
pub open spec fn shift_source(m: Machine, ins: Instruction) -> u8 {
    if m.mode == Mode::SCHIP {
        m.vars[ins.x as int]
    } else {
        m.vars[ins.y as int]
    }
}

/// `8XYN`: the register-to-register arithmetic and logic family. Results
/// wrap modulo 256; for the subtractions VF = 1 means that no borrow
/// occurred. The flag is written after the result.
pub open spec fn op_alu(m: Machine, ins: Instruction) -> Result<Machine, ChipError> {
    let x = ins.x as int;
    let vx = m.vars[x];
    let vy = m.vars[ins.y as int];
    let src = shift_source(m, ins);
    if ins.n == 0x0 {
        Ok(set_var(m, x, vy))
    } else if ins.n == 0x1 {
        Ok(set_var(m, x, vx | vy))
    } else if ins.n == 0x2 {
        Ok(set_var(m, x, vx & vy))
    } else if ins.n == 0x3 {
        Ok(set_var(m, x, vx ^ vy))
    } else if ins.n == 0x4 {
        Ok(set_var_flag(m, x, ((vx + vy) % 256) as u8, vx + vy > 255))
    } else if ins.n == 0x5 {
        Ok(set_var_flag(m, x, ((vx - vy + 256) % 256) as u8, vx >= vy))
    } else if ins.n == 0x6 {
        Ok(set_var_flag(m, x, (src / 2) as u8, src % 2 == 1))
    } else if ins.n == 0x7 {
        Ok(set_var_flag(m, x, ((vy - vx + 256) % 256) as u8, vy >= vx))
    } else if ins.n == 0xE {
        Ok(set_var_flag(m, x, ((src * 2) % 256) as u8, src >= 128))
    } else {
        Err(ChipError::UnsupportedOpcode(ins.word() as u16))
    }
}

/// How many rows of an `n`-row sprite drawn at row `vy` stay on the screen.
pub open spec fn visible_rows(vy: int, n: int) -> int {
    if vy + n > CHIP8_HEIGHT {
        CHIP8_HEIGHT - vy
    } else {
        n
    }
}

/// The `len` memory cells from address `start` on.
pub open spec fn memory_block(memory: Seq<u8>, start: int, len: int) -> Seq<u8> {
    Seq::new(len as nat, |i: int| memory[start + i])
}

/// `DXYN`: XOR-draws the `n`-row sprite read from the index register at
/// (VX mod 64, VY mod 32); VF tells whether a lit pixel went dark. Only
/// the rows that reach the screen are read, and they must lie in memory.
pub open spec fn op_draw(m: Machine, ins: Instruction) -> Result<Machine, ChipError> {
    let vx = (m.vars[ins.x as int] as int) % (CHIP8_WIDTH as int);
    let vy = (m.vars[ins.y as int] as int) % (CHIP8_HEIGHT as int);
    let rows = visible_rows(vy, ins.n as int);
    if rows > 0 && m.index + rows > MEM_SIZE {
        Err(ChipError::AddressOutOfRange)
    } else {
        let flips = sprite_mask(vx, vy, memory_block(m.memory, m.index, rows));
        Ok(
            Machine {
                pixels: xor_pixels(m.pixels, flips),
                vars: m.vars.update(
                    FLAG as int,
                    if collides(m.pixels, flips) {
                        1u8
                    } else {
                        0u8
                    },
                ),
                ..m
            },
        )
    }
}

/// `EX9E` / `EXA1`: skips when the key named by the low nibble of VX is /
/// is not held.
pub open spec fn op_key_skip(m: Machine, ins: Instruction) -> Result<Machine, ChipError> {
    let held = m.keys[(m.vars[ins.x as int] as int) % 16];
    if ins.nn == 0x9E {
        Ok(skip_if(m, held))
    } else if ins.nn == 0xA1 {
        Ok(skip_if(m, !held))
    } else {
        Err(ChipError::UnsupportedOpcode(ins.word() as u16))
    }
}

/// The lowest logical key at or above `from` that is held.
pub open spec fn lowest_held(keys: Seq<bool>, from: int) -> Option<u8>
    decreases KEYBOARD_SIZE - from,
{
    if from < 0 || from >= KEYBOARD_SIZE {
        None
    } else if keys[from] {
        Some(from as u8)
    } else {
        lowest_held(keys, from + 1)
    }
}

/// `FX0A`: waits for a key to be pressed and released, without blocking.
/// While no key has been seen going down, or the seen key is still held,
/// the program counter is rewound so that the instruction runs again; the
/// first time, the lowest held key is latched. Once the latched key is up,
/// its number goes to VX, the latch is cleared and execution moves on.
pub open spec fn op_key_wait(m: Machine, x: int) -> Machine {
    match m.latch {
        Some(k) => if !m.keys[k as int] {
            Machine { vars: m.vars.update(x, k), latch: None, ..m }
        } else {
            Machine { pc: m.pc - 2, ..m }
        },
        None => Machine { pc: m.pc - 2, latch: lowest_held(m.keys, 0), ..m },
    }
}

/// The index register after a bulk load or store of V0..VX: it moves past
/// the block except on the extended machine.
pub open spec fn index_after_block(m: Machine, x: int) -> int {
    if m.mode == Mode::SCHIP {
        m.index
    } else {
        m.index + x + 1
    }
}

/// `FXNN`: timers, key wait, index arithmetic, font lookup, decimal digits
/// and bulk register stores and loads.
pub open spec fn op_misc(m: Machine, ins: Instruction) -> Result<Machine, ChipError> {
    let x = ins.x as int;
    let vx = m.vars[x];
    if ins.nn == 0x07 {
        Ok(set_var(m, x, m.delay as u8))
    } else if ins.nn == 0x0A {
        Ok(op_key_wait(m, x))
    } else if ins.nn == 0x15 {
        Ok(Machine { delay: vx as int, ..m })
    } else if ins.nn == 0x18 {
        Ok(Machine { sound: vx as int, ..m })
    } else if ins.nn == 0x1E {
        let sum = m.index + vx;
        Ok(
            Machine {
                index: sum % 0x10000,
                vars: if sum > 0xFFF {
                    m.vars.update(FLAG as int, 1u8)
                } else {
                    m.vars
                },
                ..m
            },
        )
    } else if ins.nn == 0x29 {
        Ok(Machine { index: glyph_address(vx), ..m })
    } else if ins.nn == 0x33 {
        if m.index + 3 > MEM_SIZE {
            Err(ChipError::AddressOutOfRange)
        } else {
            Ok(
                Machine {
                    memory: m.memory.update(m.index, (vx / 100) as u8).update(
                        m.index + 1,
                        (vx / 10 % 10) as u8,
                    ).update(m.index + 2, (vx % 10) as u8),
                    ..m
                },
            )
        }
    } else if ins.nn == 0x55 {
        if m.index + x + 1 > MEM_SIZE {
            Err(ChipError::AddressOutOfRange)
        } else {
            Ok(
                Machine {
                    memory: Seq::new(
                        m.memory.len(),
                        |a: int|
                            if m.index <= a <= m.index + x {
                                m.vars[a - m.index]
                            } else {
                                m.memory[a]
                            },
                    ),
                    index: index_after_block(m, x),
                    ..m
                },
            )
        }
    } else if ins.nn == 0x65 {
        if m.index + x + 1 > MEM_SIZE {
            Err(ChipError::AddressOutOfRange)
        } else {
            Ok(
                Machine {
                    vars: Seq::new(
                        m.vars.len(),
                        |i: int|
                            if i <= x {
                                m.memory[m.index + i]
                            } else {
                                m.vars[i]
                            },
                    ),
                    index: index_after_block(m, x),
                    ..m
                },
            )
        }
    } else {
        Err(ChipError::UnsupportedOpcode(ins.word() as u16))
    }
}

/// What executing `ins` does, the program counter already past it;
/// `random` is the byte drawn for `CXNN`.
#[verifier::opaque]
pub open spec fn execute(m: Machine, ins: Instruction, random: u8) -> Result<Machine, ChipError> {
    let x = ins.x as int;
    let vx = m.vars[x];
    let vy = m.vars[ins.y as int];
    let nn = ins.nn as u8;
    if ins.identifier == 0x0 {
        op_system(m, ins)
    } else if ins.identifier == 0x1 {
        Ok(Machine { pc: ins.nnn as int, ..m })
    } else if ins.identifier == 0x2 {
        op_call(m, ins)
    } else if ins.identifier == 0x3 {
        Ok(skip_if(m, vx == nn))
    } else if ins.identifier == 0x4 {
        Ok(skip_if(m, vx != nn))
    } else if ins.identifier == 0x5 {
        Ok(skip_if(m, vx == vy))
    } else if ins.identifier == 0x6 {
        Ok(set_var(m, x, nn))
    } else if ins.identifier == 0x7 {
        Ok(set_var(m, x, ((vx + nn) % 256) as u8))
    } else if ins.identifier == 0x8 {
        op_alu(m, ins)
    } else if ins.identifier == 0x9 {
        Ok(skip_if(m, vx != vy))
    } else if ins.identifier == 0xA {
        Ok(Machine { index: ins.nnn as int, ..m })
    } else if ins.identifier == 0xB {
        Ok(Machine { pc: ins.nnn + m.vars[0], ..m })
    } else if ins.identifier == 0xC {
        Ok(set_var(m, x, random & nn))
    } else if ins.identifier == 0xD {
        op_draw(m, ins)
    } else if ins.identifier == 0xE {
        op_key_skip(m, ins)
    } else {
        op_misc(m, ins)
    }
}

/// One instruction cycle: fetch the word at the program counter, step past
/// it, decode and execute it. The word must lie within memory.
#[verifier::opaque]
pub open spec fn cycle(m: Machine, random: u8) -> Result<Machine, ChipError> {
    if m.pc + 1 >= MEM_SIZE {
        Err(ChipError::AddressOutOfRange)
    } else {
        execute(Machine { pc: m.pc + 2, ..m }, decode_spec(word_at(m.memory, m.pc)), random)
    }
}

/// Runs one cycle per byte of `randoms` and stops at the first fault: the
/// state reached, and the fault if one stopped the run.
pub open spec fn run(m: Machine, randoms: Seq<u8>) -> (Machine, Option<ChipError>)
    decreases randoms.len(),
{
    if randoms.len() == 0 {
        (m, None)
    } else {
        match cycle(m, randoms[0]) {
            Ok(next) => run(next, randoms.drop_first()),
            Err(e) => (m, Some(e)),
        }
    }
}

/// The state with the held keys replaced by those of a new poll.
pub open spec fn with_keys(m: Machine, keys: Seq<bool>) -> Machine {
    Machine { keys, ..m }
}

/// The end-of-frame timer update: each timer that is not zero counts down
/// by one.
pub open spec fn tick(m: Machine) -> Machine {
    Machine {
        delay: if m.delay > 0 {
            m.delay - 1
        } else {
            0
        },
        sound: if m.sound > 0 {
            m.sound - 1
        } else {
            0
        },
        ..m
    }
}

/// `8XY4` leaves (VX + VY) mod 256 in VX and sets VF to 1 exactly when
/// VX + VY > 255; `8XY5` leaves VX - VY in VX, wrapped by +256 when VY is
/// the larger, and sets VF to 1 exactly when VX >= VY, that is when no
/// borrow occurred. When X is F the flag overwrites the result.
pub proof fn lemma_add_sub_flags(m: Machine, add: Instruction, sub: Instruction, b: u8)
    requires
        m.wf(),
        add.wf(),
        sub.wf(),
        add.identifier == 8,
        add.n == 4,
        sub.identifier == 8,
        sub.n == 5,
    ensures
        ({
            let vx = m.vars[add.x as int] as int;
            let vy = m.vars[add.y as int] as int;
            let after = execute(m, add, b)->Ok_0;
            &&& execute(m, add, b) is Ok
            &&& after.vars[FLAG as int] == (if vx + vy > 255 { 1u8 } else { 0u8 })
            &&& add.x != FLAG ==> after.vars[add.x as int] == (vx + vy) % 256
        }),
        ({
            let vx = m.vars[sub.x as int] as int;
            let vy = m.vars[sub.y as int] as int;
            let after = execute(m, sub, b)->Ok_0;
            &&& execute(m, sub, b) is Ok
            &&& after.vars[FLAG as int] == (if vx >= vy { 1u8 } else { 0u8 })
            &&& sub.x != FLAG ==> after.vars[sub.x as int] == (if vx >= vy {
                vx - vy
            } else {
                vx - vy + 256
            })
        }),
{
    reveal(execute);
    let vx = m.vars[add.x as int];
    let vy = m.vars[add.y as int];
    assert(execute(m, add, b) == op_alu(m, add));
    assert(op_alu(m, add) == Ok::<Machine, ChipError>(
        set_var_flag(m, add.x as int, ((vx + vy) % 256) as u8, vx + vy > 255),
    ));
    let sx = m.vars[sub.x as int];
    let sy = m.vars[sub.y as int];
    assert(execute(m, sub, b) == op_alu(m, sub));
    assert(op_alu(m, sub) == Ok::<Machine, ChipError>(
        set_var_flag(m, sub.x as int, ((sx - sy + 256) % 256) as u8, sx >= sy),
    ));
    if sx >= sy {
        assert((sx - sy + 256) % 256 == sx - sy);
    } else {
        assert((sx - sy + 256) % 256 == sx - sy + 256);
    }
}

/// Drawing the same sprite at the same place twice in a row gives back the
/// screen as it was. The first draw flags a collision when the sprite
/// covers a lit pixel, the second when it covers a pixel that was dark
/// before the first. Neither coordinate register may be VF, which the
/// first draw overwrites.
pub proof fn lemma_draw_sprite_twice(m: Machine, ins: Instruction, b: u8)
    requires
        m.wf(),
        ins.wf(),
        ins.identifier == 0xD,
        ins.x != FLAG,
        ins.y != FLAG,
        execute(m, ins, b) is Ok,
    ensures
        ({
            let once = execute(m, ins, b)->Ok_0;
            let twice = execute(once, ins, b)->Ok_0;
            let vx = (m.vars[ins.x as int] as int) % (CHIP8_WIDTH as int);
            let vy = (m.vars[ins.y as int] as int) % (CHIP8_HEIGHT as int);
            let flips = sprite_mask(
                vx,
                vy,
                memory_block(m.memory, m.index, visible_rows(vy, ins.n as int)),
            );
            &&& execute(once, ins, b) is Ok
            &&& twice.pixels == m.pixels
            &&& once.vars[FLAG as int] == (if collides(m.pixels, flips) { 1u8 } else { 0u8 })
            &&& twice.vars[FLAG as int] == (if exists|i: int|
                0 <= i < SCREEN_SIZE && #[trigger] flips[i] && !m.pixels[i] {
                1u8
            } else {
                0u8
            })
        }),
{
    let vx = (m.vars[ins.x as int] as int) % (CHIP8_WIDTH as int);
    let vy = (m.vars[ins.y as int] as int) % (CHIP8_HEIGHT as int);
    let rows = memory_block(m.memory, m.index, visible_rows(vy, ins.n as int));
    let flips = sprite_mask(vx, vy, rows);
    reveal(execute);
    let once = execute(m, ins, b)->Ok_0;
    assert(once.vars[ins.x as int] == m.vars[ins.x as int]);
    assert(once.vars[ins.y as int] == m.vars[ins.y as int]);
    lemma_draw_twice(m.pixels, flips);
}

/// `n` subroutine calls in a row with `2NNN`, stopping at the first fault.
pub open spec fn call_times(m: Machine, ins: Instruction, n: nat) -> Result<Machine, ChipError>
    decreases n,
{
    if n == 0 {
        Ok(m)
    } else {
        match call_times(m, ins, (n - 1) as nat) {
            Ok(p) => op_call(p, ins),
            Err(e) => Err(e),
        }
    }
}

/// From an empty stack, each of up to `STACK_HEIGHT` calls in a row
/// succeeds and leaves one more return address.
pub proof fn lemma_calls_fill_stack(m: Machine, ins: Instruction, n: nat)
    requires
        m.stack.len() == 0,
        n <= STACK_HEIGHT,
    ensures
        call_times(m, ins, n) is Ok,
        call_times(m, ins, n)->Ok_0.stack.len() == n,
    decreases n,
{
    if n > 0 {
        lemma_calls_fill_stack(m, ins, (n - 1) as nat);
    }
}

/// From an empty stack, `STACK_HEIGHT` subroutine calls in a row succeed
/// and the next one fails with `StackOverflow`; a return on the empty
/// stack fails with `StackUnderflow`.
pub proof fn lemma_stack_depth(m: Machine, call: Instruction, ret: Instruction)
    requires
        m.wf(),
        m.stack.len() == 0,
        call.identifier == 2,
        ret.identifier == 0,
        ret.nnn == 0x0EE,
    ensures
        call_times(m, call, STACK_HEIGHT as nat) is Ok,
        op_call(call_times(m, call, STACK_HEIGHT as nat)->Ok_0, call) == Err::<Machine, ChipError>(
            ChipError::StackOverflow,
        ),
        call_times(m, call, (STACK_HEIGHT + 1) as nat) == Err::<Machine, ChipError>(
            ChipError::StackOverflow,
        ),
        execute(m, ret, 0) == Err::<Machine, ChipError>(ChipError::StackUnderflow),
{
    reveal(execute);
    lemma_calls_fill_stack(m, call, STACK_HEIGHT as nat);
}

/// Only `CXNN` reads the random byte: every other instruction, and so every
/// cycle that does not fetch one, has a single outcome.
pub proof fn lemma_execute_ignores_random(m: Machine, ins: Instruction, b1: u8, b2: u8)
    requires
        ins.identifier != 0xC,
    ensures
        execute(m, ins, b1) == execute(m, ins, b2),
        m.pc + 1 < MEM_SIZE && decode_spec(word_at(m.memory, m.pc)).identifier != 0xC ==> cycle(
            m,
            b1,
        ) == cycle(m, b2),
        m.pc + 1 >= MEM_SIZE ==> cycle(m, b1) == Err::<Machine, ChipError>(
            ChipError::AddressOutOfRange,
        ),
{
    reveal(execute);
    reveal(cycle);
    let fetched = Machine { pc: m.pc + 2, ..m };
    let next = decode_spec(word_at(m.memory, m.pc));
    if next.identifier != 0xC {
        assert(execute(fetched, next, b1) == execute(fetched, next, b2));
    }
}

} // verus!
