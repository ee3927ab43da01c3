//! One handler per opcode family, with the sub-handlers of the arithmetic
//! and grab-bag families.
#![allow(non_snake_case)]
use vstd::prelude::*;

use vstd::arithmetic::div_mod::lemma_fundamental_div_mod_converse;

use crate::display::{
    sprite_covers, sprite_mask, CHIP8_HEIGHT, CHIP8_WIDTH, SCREEN_SIZE, SPRITE_WIDTH,
};
use crate::error::ChipError;
use crate::keyboard::KEYBOARD_SIZE;
use crate::instruction::Instruction;
use crate::machine::{
    committed, lowest_held, memory_block, op_alu, op_call, op_draw, op_key_skip, op_key_wait,
    op_misc, op_system, set_var,
    set_var_flag, skip_if, Machine,
};
use crate::runtime::{Mode, Runtime};
use crate::storage::{FLAG, MEM_SIZE};

verus! {

/// `0NNN`: `00E0` clears the screen, `00EE` returns from a subroutine; any
/// other word of the family is unsupported.
pub fn handle0(runtime: &mut Runtime, instruction: Instruction) -> (r: Result<(), ChipError>)
    requires
        old(runtime).wf(),
        instruction.wf(),
    ensures
        final(runtime).wf(),
        committed(old(runtime)@, final(runtime)@, r, op_system(old(runtime)@, instruction)),
{
    if instruction.nnn == 0x0E0 {
        runtime.display.clear();
        proof {
            assert(runtime@ =~= op_system(old(runtime)@, instruction)->Ok_0);
        }
        return Ok(());
    }
    if instruction.nnn == 0x0EE {
        let r = runtime.storage.pop_pc_from_stack();
        proof {
            if r is Ok {
                assert(runtime@ =~= op_system(old(runtime)@, instruction)->Ok_0);
            } else {
                assert(runtime@ =~= old(runtime)@);
            }
        }
        return r;
    }
    Err(ChipError::UnsupportedOpcode(instruction.raw()))
}

/// `1NNN`: jumps to NNN.
pub fn handle1(runtime: &mut Runtime, instruction: Instruction)
    requires
        old(runtime).wf(),
        instruction.wf(),
    ensures
        final(runtime).wf(),
        final(runtime)@ == (Machine { pc: instruction.nnn as int, ..old(runtime)@ }),
{
    runtime.storage.program_counter = instruction.nnn;
}

/// `2NNN`: calls the subroutine at NNN, pushing the program counter.
pub fn handle2(runtime: &mut Runtime, instruction: Instruction) -> (r: Result<(), ChipError>)
    requires
        old(runtime).wf(),
        instruction.wf(),
    ensures
        final(runtime).wf(),
        committed(old(runtime)@, final(runtime)@, r, op_call(old(runtime)@, instruction)),
{
    let pc = runtime.storage.program_counter;
    let r = runtime.storage.push_return(pc);
    if r.is_ok() {
        runtime.storage.program_counter = instruction.nnn;
        proof {
            assert(runtime@ =~= op_call(old(runtime)@, instruction)->Ok_0);
        }
    } else {
        proof {
            assert(runtime@ =~= old(runtime)@);
        }
    }
    r
}

/// `3XNN`: skips the next instruction when VX equals NN.
pub fn handle3(runtime: &mut Runtime, instruction: Instruction)
    requires
        old(runtime).wf(),
        instruction.wf(),
        old(runtime).storage.program_counter <= MEM_SIZE,
    ensures
        final(runtime).wf(),
        final(runtime)@ == skip_if(
            old(runtime)@,
            old(runtime)@.vars[instruction.x as int] == instruction.nn as u8,
        ),
{
    if runtime.storage.variables[instruction.x] as usize == instruction.nn {
        runtime.storage.program_counter += 2;
    }
}

/// `4XNN`: skips the next instruction when VX differs from NN.
pub fn handle4(runtime: &mut Runtime, instruction: Instruction)
    requires
        old(runtime).wf(),
        instruction.wf(),
        old(runtime).storage.program_counter <= MEM_SIZE,
    ensures
        final(runtime).wf(),
        final(runtime)@ == skip_if(
            old(runtime)@,
            old(runtime)@.vars[instruction.x as int] != instruction.nn as u8,
        ),
{
    if runtime.storage.variables[instruction.x] as usize != instruction.nn {
        runtime.storage.program_counter += 2;
    }
}

/// `5XY0`: skips the next instruction when VX equals VY.
pub fn handle5(runtime: &mut Runtime, instruction: Instruction)
    requires
        old(runtime).wf(),
        instruction.wf(),
        old(runtime).storage.program_counter <= MEM_SIZE,
    ensures
        final(runtime).wf(),
        final(runtime)@ == skip_if(
            old(runtime)@,
            old(runtime)@.vars[instruction.x as int] == old(runtime)@.vars[instruction.y as int],
        ),
{
    if runtime.storage.variables[instruction.x] == runtime.storage.variables[instruction.y] {
        runtime.storage.program_counter += 2;
    }
}

/// `6XNN`: sets VX to NN.
pub fn handle6(runtime: &mut Runtime, instruction: Instruction)
    requires
        old(runtime).wf(),
        instruction.wf(),
    ensures
        final(runtime).wf(),
        final(runtime)@ == set_var(old(runtime)@, instruction.x as int, instruction.nn as u8),
{
    runtime.storage.variables[instruction.x] = instruction.nn as u8;
    proof {
        assert(runtime@ =~= set_var(old(runtime)@, instruction.x as int, instruction.nn as u8));
    }
}

/// `7XNN`: adds NN to VX modulo 256; VF is not touched.
pub fn handle7(runtime: &mut Runtime, instruction: Instruction)
    requires
        old(runtime).wf(),
        instruction.wf(),
    ensures
        final(runtime).wf(),
        final(runtime)@ == set_var(
            old(runtime)@,
            instruction.x as int,
            ((old(runtime)@.vars[instruction.x as int] + instruction.nn as u8) % 256) as u8,
        ),
{
    let sum = runtime.storage.variables[instruction.x] as usize + instruction.nn;
    runtime.storage.variables[instruction.x] = (sum % 256) as u8;
    proof {
        assert(runtime@ =~= set_var(
            old(runtime)@,
            instruction.x as int,
            ((old(runtime)@.vars[instruction.x as int] + instruction.nn as u8) % 256) as u8,
        ));
    }
}

/// `8XY0`: sets VX to VY.
fn handle8XY0(runtime: &mut Runtime, instruction: Instruction)
    requires
        old(runtime).wf(),
        instruction.wf(),
        instruction.n == 0,
    ensures
        final(runtime).wf(),
        op_alu(old(runtime)@, instruction) == Ok::<Machine, ChipError>(final(runtime)@),
{
    runtime.storage.variables[instruction.x] = runtime.storage.variables[instruction.y];
    proof {
        assert(runtime@ =~= op_alu(old(runtime)@, instruction)->Ok_0);
    }
}

/// `8XY1`: sets VX to VX or VY.
fn handle8XY1(runtime: &mut Runtime, instruction: Instruction)
    requires
        old(runtime).wf(),
        instruction.wf(),
        instruction.n == 1,
    ensures
        final(runtime).wf(),
        op_alu(old(runtime)@, instruction) == Ok::<Machine, ChipError>(final(runtime)@),
{
    runtime.storage.variables[instruction.x] = runtime.storage.variables[instruction.x]
        | runtime.storage.variables[instruction.y];
    proof {
        assert(runtime@ =~= op_alu(old(runtime)@, instruction)->Ok_0);
    }
}

/// `8XY2`: sets VX to VX and VY.
fn handle8XY2(runtime: &mut Runtime, instruction: Instruction)
    requires
        old(runtime).wf(),
        instruction.wf(),
        instruction.n == 2,
    ensures
        final(runtime).wf(),
        op_alu(old(runtime)@, instruction) == Ok::<Machine, ChipError>(final(runtime)@),
{
    runtime.storage.variables[instruction.x] = runtime.storage.variables[instruction.x]
        & runtime.storage.variables[instruction.y];
    proof {
        assert(runtime@ =~= op_alu(old(runtime)@, instruction)->Ok_0);
    }
}

/// `8XY3`: sets VX to VX xor VY.
fn handle8XY3(runtime: &mut Runtime, instruction: Instruction)
    requires
        old(runtime).wf(),
        instruction.wf(),
        instruction.n == 3,
    ensures
        final(runtime).wf(),
        op_alu(old(runtime)@, instruction) == Ok::<Machine, ChipError>(final(runtime)@),
{
    runtime.storage.variables[instruction.x] = runtime.storage.variables[instruction.x]
        ^ runtime.storage.variables[instruction.y];
    proof {
        assert(runtime@ =~= op_alu(old(runtime)@, instruction)->Ok_0);
    }
}

/// `8XY4`: adds VY to VX modulo 256, VF = 1 when the sum exceeds 255.
fn handle8XY4(runtime: &mut Runtime, instruction: Instruction)
    requires
        old(runtime).wf(),
        instruction.wf(),
        instruction.n == 4,
    ensures
        final(runtime).wf(),
        op_alu(old(runtime)@, instruction) == Ok::<Machine, ChipError>(final(runtime)@),
{
    let sum = runtime.storage.variables[instruction.x] as u16
        + runtime.storage.variables[instruction.y] as u16;
    runtime.storage.variables[instruction.x] = (sum % 256) as u8;
    runtime.storage.variables[FLAG] = if sum > 255 {
        1
    } else {
        0
    };
    proof {
        assert(runtime@ =~= op_alu(old(runtime)@, instruction)->Ok_0);
    }
}

/// `8XY5`: sets VX to VX - VY modulo 256, VF = 1 when VX >= VY (no borrow).
fn handle8XY5(runtime: &mut Runtime, instruction: Instruction)
    requires
        old(runtime).wf(),
        instruction.wf(),
        instruction.n == 5,
    ensures
        final(runtime).wf(),
        op_alu(old(runtime)@, instruction) == Ok::<Machine, ChipError>(final(runtime)@),
{
    let vx = runtime.storage.variables[instruction.x];
    let vy = runtime.storage.variables[instruction.y];
    let carry: u8 = if vx >= vy {
        1
    } else {
        0
    };
    runtime.storage.variables[instruction.x] = if carry == 1 {
        vx - vy
    } else {
        ((vx as u16 + 256) - vy as u16) as u8
    };
    runtime.storage.variables[FLAG] = carry;
    proof {
        let result = ((vx - vy + 256) % 256) as u8;
        let expected = set_var_flag(old(runtime)@, instruction.x as int, result, vx >= vy);
        assert(runtime.storage.variables@ =~= expected.vars);
        assert(runtime@ =~= expected);
    }
}

/// `8XY6`: shifts right by one, VF = the bit shifted out. The extended
/// machine shifts VX in place; the others shift VY into VX.
fn handle8XY6(runtime: &mut Runtime, instruction: Instruction)
    requires
        old(runtime).wf(),
        instruction.wf(),
        instruction.n == 6,
    ensures
        final(runtime).wf(),
        op_alu(old(runtime)@, instruction) == Ok::<Machine, ChipError>(final(runtime)@),
{
    let src = if runtime.mode == Mode::SCHIP {
        runtime.storage.variables[instruction.x]
    } else {
        runtime.storage.variables[instruction.y]
    };
    let carry = src & 1;
    assert(src & 1 == src % 2) by (bit_vector);
    assert(src >> 1 == src / 2) by (bit_vector);
    runtime.storage.variables[instruction.x] = src >> 1;
    runtime.storage.variables[FLAG] = carry;
    proof {
        assert(runtime@ =~= op_alu(old(runtime)@, instruction)->Ok_0);
    }
}

/// `8XY7`: sets VX to VY - VX modulo 256, VF = 1 when VY >= VX (no borrow).
fn handle8XY7(runtime: &mut Runtime, instruction: Instruction)
    requires
        old(runtime).wf(),
        instruction.wf(),
        instruction.n == 7,
    ensures
        final(runtime).wf(),
        op_alu(old(runtime)@, instruction) == Ok::<Machine, ChipError>(final(runtime)@),
{
    let vx = runtime.storage.variables[instruction.x];
    let vy = runtime.storage.variables[instruction.y];
    let carry: u8 = if vy >= vx {
        1
    } else {
        0
    };
    runtime.storage.variables[instruction.x] = if carry == 1 {
        vy - vx
    } else {
        ((vy as u16 + 256) - vx as u16) as u8
    };
    runtime.storage.variables[FLAG] = carry;
    proof {
        let result = ((vy - vx + 256) % 256) as u8;
        let expected = set_var_flag(old(runtime)@, instruction.x as int, result, vy >= vx);
        assert(runtime.storage.variables@ =~= expected.vars);
        assert(runtime@ =~= expected);
    }
}

/// `8XYE`: shifts left by one modulo 256, VF = the bit shifted out. The
/// extended machine shifts VX in place; the others shift VY into VX.
fn handle8XYE(runtime: &mut Runtime, instruction: Instruction)
    requires
        old(runtime).wf(),
        instruction.wf(),
        instruction.n == 0xE,
    ensures
        final(runtime).wf(),
        op_alu(old(runtime)@, instruction) == Ok::<Machine, ChipError>(final(runtime)@),
{
    let src = if runtime.mode == Mode::SCHIP {
        runtime.storage.variables[instruction.x]
    } else {
        runtime.storage.variables[instruction.y]
    };
    let carry = (src >> 7) & 1;
    assert((src >> 7) & 1 == (if src >= 128 { 1u8 } else { 0u8 })) by (bit_vector);
    runtime.storage.variables[instruction.x] = ((src as u16 * 2) % 256) as u8;
    runtime.storage.variables[FLAG] = carry;
    proof {
        assert(runtime@ =~= op_alu(old(runtime)@, instruction)->Ok_0);
    }
}

/// `8XYN`: the register-to-register arithmetic and logic family; a
/// sub-opcode outside 0-7 and E is unsupported.
pub fn handle8(runtime: &mut Runtime, instruction: Instruction) -> (r: Result<(), ChipError>)
    requires
        old(runtime).wf(),
        instruction.wf(),
    ensures
        final(runtime).wf(),
        committed(old(runtime)@, final(runtime)@, r, op_alu(old(runtime)@, instruction)),
{
    match instruction.n {
        0x0 => handle8XY0(runtime, instruction),
        0x1 => handle8XY1(runtime, instruction),
        0x2 => handle8XY2(runtime, instruction),
        0x3 => handle8XY3(runtime, instruction),
        0x4 => handle8XY4(runtime, instruction),
        0x5 => handle8XY5(runtime, instruction),
        0x6 => handle8XY6(runtime, instruction),
        0x7 => handle8XY7(runtime, instruction),
        0xE => handle8XYE(runtime, instruction),
        _ => {
            return Err(ChipError::UnsupportedOpcode(instruction.raw()));
        },
    }
    Ok(())
}

/// `9XY0`: skips the next instruction when VX differs from VY.
pub fn handle9(runtime: &mut Runtime, instruction: Instruction)
    requires
        old(runtime).wf(),
        instruction.wf(),
        old(runtime).storage.program_counter <= MEM_SIZE,
    ensures
        final(runtime).wf(),
        final(runtime)@ == skip_if(
            old(runtime)@,
            old(runtime)@.vars[instruction.x as int] != old(runtime)@.vars[instruction.y as int],
        ),
{
    if runtime.storage.variables[instruction.x] != runtime.storage.variables[instruction.y] {
        runtime.storage.program_counter += 2;
    }
}

/// `ANNN`: sets the index register to NNN.
pub fn handleA(runtime: &mut Runtime, instruction: Instruction)
    requires
        old(runtime).wf(),
        instruction.wf(),
    ensures
        final(runtime).wf(),
        final(runtime)@ == (Machine { index: instruction.nnn as int, ..old(runtime)@ }),
{
    runtime.storage.index_register = instruction.nnn as u16;
}

/// `BNNN`: jumps to NNN + V0.
pub fn handleB(runtime: &mut Runtime, instruction: Instruction)
    requires
        old(runtime).wf(),
        instruction.wf(),
    ensures
        final(runtime).wf(),
        final(runtime)@ == (Machine {
            pc: instruction.nnn + old(runtime)@.vars[0],
            ..old(runtime)@
        }),
{
    runtime.storage.program_counter = instruction.nnn + runtime.storage.variables[0] as usize;
}

/// Relies on rand's `thread_rng().gen::<u16>()`: some 16-bit value drawn
/// from the thread-local generator. Nothing is promised of which.
#[verifier::external_body]
fn random_word() -> (r: u16) {
    rand::Rng::gen::<u16>(&mut rand::thread_rng())
}

/// `CXNN` with the random word already drawn: sets VX to NN and the low byte
/// of `random`.
pub fn handle_random(runtime: &mut Runtime, instruction: Instruction, random: u16)
    requires
        old(runtime).wf(),
        instruction.wf(),
    ensures
        final(runtime).wf(),
        final(runtime)@ == set_var(
            old(runtime)@,
            instruction.x as int,
            (random % 256) as u8 & instruction.nn as u8,
        ),
{
    let low = (random % 256) as u8;
    runtime.storage.variables[instruction.x] = low & (instruction.nn as u8);
    proof {
        assert(runtime@ =~= set_var(
            old(runtime)@,
            instruction.x as int,
            (random % 256) as u8 & instruction.nn as u8,
        ));
    }
}

/// `CXNN`: sets VX to NN and a uniformly drawn random byte; the bits that
/// NN clears stay clear whatever is drawn.
pub fn handleC(runtime: &mut Runtime, instruction: Instruction)
    requires
        old(runtime).wf(),
        instruction.wf(),
    ensures
        final(runtime).wf(),
        exists|b: u8|
            final(runtime)@ == set_var(
                old(runtime)@,
                instruction.x as int,
                #[trigger] (b & instruction.nn as u8),
            ),
        final(runtime)@.vars[instruction.x as int] & !(instruction.nn as u8) == 0,
{
    let random = random_word();
    handle_random(runtime, instruction, random);
    proof {
        let b = (random % 256) as u8;
        let nn = instruction.nn as u8;
        assert((b & nn) & !nn == 0) by (bit_vector);
    }
}

/// Pixel (px, py) sits at `py * 64 + px`, and that index gives back its
/// column and row.
proof fn lemma_pixel_index(px: int, py: int)
    requires
        0 <= px < CHIP8_WIDTH,
        0 <= py < CHIP8_HEIGHT,
    ensures
        (py * 64 + px) / 64 == py,
        (py * 64 + px) % 64 == px,
        0 <= py * 64 + px < SCREEN_SIZE,
{
    lemma_fundamental_div_mod_converse(py * 64 + px, 64, py, px);
}

/// `DXYN`: XOR-draws the N-row sprite stored at the index register at
/// (VX mod 64, VY mod 32), clipped at the right and bottom edges; VF = 1
/// when a lit pixel went dark, else 0. Fails with `AddressOutOfRange` when
/// the rows to be drawn reach past the end of memory.
pub fn handleD(runtime: &mut Runtime, instruction: Instruction) -> (r: Result<(), ChipError>)
    requires
        old(runtime).wf(),
        instruction.wf(),
    ensures
        final(runtime).wf(),
        committed(old(runtime)@, final(runtime)@, r, op_draw(old(runtime)@, instruction)),
{
    let vx = (runtime.storage.variables[instruction.x] % 64) as usize;
    let vy = (runtime.storage.variables[instruction.y] % 32) as usize;
    let index = runtime.storage.index_register as usize;
    // only the rows that stay on the screen
    let imax: usize = if vy + instruction.n > CHIP8_HEIGHT {
        CHIP8_HEIGHT - vy
    } else {
        instruction.n
    };
    if imax > 0 && index + imax > MEM_SIZE {
        return Err(ChipError::AddressOutOfRange);
    }
    // only the part of each row that stays on the screen
    let jmax: usize = if vx + SPRITE_WIDTH > CHIP8_WIDTH {
        CHIP8_WIDTH - vx
    } else {
        SPRITE_WIDTH
    };
    let ghost rows = memory_block(runtime.storage.memory@, index as int, imax as int);
    let ghost mask = sprite_mask(vx as int, vy as int, rows);
    let mut flips = [false; SCREEN_SIZE];
    let mut i: usize = 0;
    while i < imax
        invariant
            i <= imax,
            vx < CHIP8_WIDTH,
            vy < CHIP8_HEIGHT,
            vy + imax <= CHIP8_HEIGHT,
            jmax <= SPRITE_WIDTH,
            vx + jmax <= CHIP8_WIDTH,
            jmax == SPRITE_WIDTH || vx + jmax == CHIP8_WIDTH,
            imax > 0 ==> index + imax <= MEM_SIZE,
            rows == memory_block(runtime.storage.memory@, index as int, imax as int),
            mask == sprite_mask(vx as int, vy as int, rows),
            forall|k: int|
                0 <= k < SCREEN_SIZE ==> #[trigger] flips@[k] == (k / 64 < vy + i && mask[k]),
        decreases imax - i,
    {
        let sprite = runtime.storage.memory[index + i];
        let mut j: usize = 0;
        while j < jmax
            invariant
                i < imax,
                j <= jmax,
                vx < CHIP8_WIDTH,
                vy < CHIP8_HEIGHT,
                vy + imax <= CHIP8_HEIGHT,
                jmax <= SPRITE_WIDTH,
                vx + jmax <= CHIP8_WIDTH,
                jmax == SPRITE_WIDTH || vx + jmax == CHIP8_WIDTH,
                imax > 0 ==> index + imax <= MEM_SIZE,
                sprite == rows[i as int],
                rows.len() == imax,
                mask == sprite_mask(vx as int, vy as int, rows),
                forall|k: int|
                    0 <= k < SCREEN_SIZE ==> #[trigger] flips@[k] == ((k / 64 < vy + i || (k / 64
                        == vy + i && k % 64 < vx + j)) && mask[k]),
            decreases jmax - j,
        {
            let p = (vy + i) * CHIP8_WIDTH + vx + j;
            proof {
                lemma_pixel_index((vx + j) as int, (vy + i) as int);
            }
            flips[p] = sprite & (0x80u8 >> (j as u8)) != 0;
            proof {
                assert forall|k: int| 0 <= k < SCREEN_SIZE implies #[trigger] flips@[k] == ((k
                    / 64 < vy + i || (k / 64 == vy + i && k % 64 < vx + j + 1)) && mask[k]) by {
                    if k == p {
                        assert(mask[k] == sprite_covers(
                            vx as int,
                            vy as int,
                            rows,
                            k % 64,
                            k / 64,
                        ));
                    }
                }
            }
            j += 1;
        }
        proof {
            assert forall|k: int| 0 <= k < SCREEN_SIZE implies #[trigger] flips@[k] == (k / 64 < vy
                + i + 1 && mask[k]) by {
                if k / 64 == vy + i && k % 64 >= vx + jmax {
                    assert(0 <= k % 64 < 64);
                    assert(mask[k] == sprite_covers(vx as int, vy as int, rows, k % 64, k / 64));
                }
            }
        }
        i += 1;
    }
    proof {
        assert forall|k: int| 0 <= k < SCREEN_SIZE implies #[trigger] flips@[k] == mask[k] by {
            if k / 64 >= vy + imax {
                assert(mask[k] == sprite_covers(vx as int, vy as int, rows, k % 64, k / 64));
            }
        }
        assert(flips@ =~= mask);
    }
    let collision = runtime.display.draw(&flips);
    runtime.storage.variables[FLAG] = if collision {
        1
    } else {
        0
    };
    proof {
        assert(runtime@ =~= op_draw(old(runtime)@, instruction)->Ok_0);
    }
    Ok(())
}

/// `EX9E` / `EXA1`: skips the next instruction when the key named by the
/// low nibble of VX is / is not held; any other word of the family is
/// unsupported.
pub fn handleE(runtime: &mut Runtime, instruction: Instruction) -> (r: Result<(), ChipError>)
    requires
        old(runtime).wf(),
        instruction.wf(),
        old(runtime).storage.program_counter <= MEM_SIZE,
    ensures
        final(runtime).wf(),
        committed(old(runtime)@, final(runtime)@, r, op_key_skip(old(runtime)@, instruction)),
{
    let target_key = (runtime.storage.variables[instruction.x] % 16) as usize;
    let held = runtime.held_keys[target_key];
    if instruction.nn == 0x9E {
        if held {
            runtime.storage.program_counter += 2;
        }
        return Ok(());
    }
    if instruction.nn == 0xA1 {
        if !held {
            runtime.storage.program_counter += 2;
        }
        return Ok(());
    }
    Err(ChipError::UnsupportedOpcode(instruction.raw()))
}

/// `FX07`: sets VX to the delay timer.
fn handleFX07(runtime: &mut Runtime, instruction: Instruction)
    requires
        old(runtime).wf(),
        instruction.wf(),
        instruction.nn == 0x07,
    ensures
        final(runtime).wf(),
        op_misc(old(runtime)@, instruction) == Ok::<Machine, ChipError>(final(runtime)@),
{
    runtime.storage.variables[instruction.x] = runtime.delay_timer;
    proof {
        assert(runtime@ =~= op_misc(old(runtime)@, instruction)->Ok_0);
    }
}

/// The lowest logical key that is held, if any.
pub fn first_held(keys: &[bool; KEYBOARD_SIZE]) -> (r: Option<u8>)
    ensures
        r == lowest_held(keys@, 0),
{
    let mut k: usize = 0;
    while k < KEYBOARD_SIZE
        invariant
            k <= KEYBOARD_SIZE,
            lowest_held(keys@, 0) == lowest_held(keys@, k as int),
        decreases KEYBOARD_SIZE - k,
    {
        if keys[k] {
            return Some(k as u8);
        }
        k += 1;
    }
    None
}

/// `FX0A`: waits for a key press and release without blocking; see
/// `op_key_wait`.
fn handleFX0A(runtime: &mut Runtime, instruction: Instruction)
    requires
        old(runtime).wf(),
        instruction.wf(),
        instruction.nn == 0x0A,
        2 <= old(runtime).storage.program_counter,
    ensures
        final(runtime).wf(),
        op_misc(old(runtime)@, instruction) == Ok::<Machine, ChipError>(final(runtime)@),
{
    match runtime.current_key_press {
        Some(key) => {
            if !runtime.held_keys[key as usize] {
                runtime.storage.variables[instruction.x] = key;
                runtime.current_key_press = None;
            } else {
                runtime.storage.program_counter -= 2;
            }
        },
        None => {
            runtime.storage.program_counter -= 2;
            runtime.current_key_press = first_held(&runtime.held_keys);
            proof {
                lemma_lowest_held_is_key(runtime.held_keys@, 0);
            }
        },
    }
    proof {
        assert(runtime@ =~= op_misc(old(runtime)@, instruction)->Ok_0);
    }
}

/// A key found by `lowest_held` is a logical key.
proof fn lemma_lowest_held_is_key(keys: Seq<bool>, from: int)
    ensures
        lowest_held(keys, from) matches Some(k) ==> k < KEYBOARD_SIZE,
    decreases KEYBOARD_SIZE - from,
{
    if 0 <= from < KEYBOARD_SIZE && !keys[from] {
        lemma_lowest_held_is_key(keys, from + 1);
    }
}

/// `FX15`: sets the delay timer to VX.
fn handleFX15(runtime: &mut Runtime, instruction: Instruction)
    requires
        old(runtime).wf(),
        instruction.wf(),
        instruction.nn == 0x15,
    ensures
        final(runtime).wf(),
        op_misc(old(runtime)@, instruction) == Ok::<Machine, ChipError>(final(runtime)@),
{
    runtime.delay_timer = runtime.storage.variables[instruction.x];
}

/// `FX18`: sets the sound timer to VX.
fn handleFX18(runtime: &mut Runtime, instruction: Instruction)
    requires
        old(runtime).wf(),
        instruction.wf(),
        instruction.nn == 0x18,
    ensures
        final(runtime).wf(),
        op_misc(old(runtime)@, instruction) == Ok::<Machine, ChipError>(final(runtime)@),
{
    runtime.sound_timer = runtime.storage.variables[instruction.x];
}

/// `FX1E`: adds VX to the index register modulo 2^16; VF = 1 when the sum
/// passes 0xFFF, else VF is kept.
fn handleFX1E(runtime: &mut Runtime, instruction: Instruction)
    requires
        old(runtime).wf(),
        instruction.wf(),
        instruction.nn == 0x1E,
    ensures
        final(runtime).wf(),
        op_misc(old(runtime)@, instruction) == Ok::<Machine, ChipError>(final(runtime)@),
{
    let sum = runtime.storage.index_register as usize
        + runtime.storage.variables[instruction.x] as usize;
    runtime.storage.index_register = (sum % 0x10000) as u16;
    if sum > 0x0FFF {
        runtime.storage.variables[FLAG] = 1;
    }
    proof {
        assert(runtime@ =~= op_misc(old(runtime)@, instruction)->Ok_0);
    }
}

/// `FX29`: points the index register at the glyph of the digit in VX.
fn handleFX29(runtime: &mut Runtime, instruction: Instruction)
    requires
        old(runtime).wf(),
        instruction.wf(),
        instruction.nn == 0x29,
    ensures
        final(runtime).wf(),
        op_misc(old(runtime)@, instruction) == Ok::<Machine, ChipError>(final(runtime)@),
{
    let digit = runtime.storage.variables[instruction.x];
    runtime.storage.index_register = runtime.storage.get_font_item_location(digit);
}

/// `FX33`: writes the hundreds, tens and ones digits of VX to the three
/// cells from the index register on; fails with `AddressOutOfRange` when
/// they reach past the end of memory.
fn handleFX33(runtime: &mut Runtime, instruction: Instruction) -> (r: Result<(), ChipError>)
    requires
        old(runtime).wf(),
        instruction.wf(),
        instruction.nn == 0x33,
    ensures
        final(runtime).wf(),
        committed(old(runtime)@, final(runtime)@, r, op_misc(old(runtime)@, instruction)),
{
    let vx = runtime.storage.variables[instruction.x];
    let start_address = runtime.storage.index_register as usize;
    if start_address + 3 > MEM_SIZE {
        return Err(ChipError::AddressOutOfRange);
    }
    runtime.storage.memory[start_address] = vx / 100;
    runtime.storage.memory[start_address + 1] = (vx / 10) % 10;
    runtime.storage.memory[start_address + 2] = vx % 10;
    proof {
        assert(runtime@ =~= op_misc(old(runtime)@, instruction)->Ok_0);
    }
    Ok(())
}

/// The index register after a bulk store or load of V0..VX: moved past the
/// block except on the extended machine.
fn index_after_block_exec(mode: Mode, index: usize, x: usize) -> (r: u16)
    requires
        index + x + 1 <= MEM_SIZE,
    ensures
        r as int == (if mode == Mode::SCHIP {
            index as int
        } else {
            index + x + 1
        }),
{
    if mode == Mode::SCHIP {
        index as u16
    } else {
        (index + x + 1) as u16
    }
}

/// `FX55`: stores V0..VX in memory from the index register on; fails with
/// `AddressOutOfRange` when the block reaches past the end of memory.
fn handleFX55(runtime: &mut Runtime, instruction: Instruction) -> (r: Result<(), ChipError>)
    requires
        old(runtime).wf(),
        instruction.wf(),
        instruction.nn == 0x55,
    ensures
        final(runtime).wf(),
        committed(old(runtime)@, final(runtime)@, r, op_misc(old(runtime)@, instruction)),
{
    let start_address = runtime.storage.index_register as usize;
    let x = instruction.x;
    if start_address + x + 1 > MEM_SIZE {
        return Err(ChipError::AddressOutOfRange);
    }
    let mut i: usize = 0;
    while i <= x
        invariant
            i <= x + 1,
            x < 16,
            start_address + x + 1 <= MEM_SIZE,
            start_address == old(runtime).storage.index_register,
            runtime.wf(),
            runtime@ == (Machine {
                memory: Seq::new(
                    MEM_SIZE as nat,
                    |a: int|
                        if start_address <= a < start_address + i {
                            old(runtime)@.vars[a - start_address]
                        } else {
                            old(runtime)@.memory[a]
                        },
                ),
                ..old(runtime)@
            }),
        decreases x + 1 - i,
    {
        let v = runtime.storage.variables[i];
        runtime.storage.memory[start_address + i] = v;
        proof {
            assert(runtime.storage.memory@ =~= Seq::new(
                MEM_SIZE as nat,
                |a: int|
                    if start_address <= a < start_address + i + 1 {
                        old(runtime)@.vars[a - start_address]
                    } else {
                        old(runtime)@.memory[a]
                    },
            ));
        }
        i += 1;
    }
    runtime.storage.index_register = index_after_block_exec(runtime.mode, start_address, x);
    proof {
        assert(runtime@ =~= op_misc(old(runtime)@, instruction)->Ok_0);
    }
    Ok(())
}

/// `FX65`: loads V0..VX from memory from the index register on; fails with
/// `AddressOutOfRange` when the block reaches past the end of memory.
fn handleFX65(runtime: &mut Runtime, instruction: Instruction) -> (r: Result<(), ChipError>)
    requires
        old(runtime).wf(),
        instruction.wf(),
        instruction.nn == 0x65,
    ensures
        final(runtime).wf(),
        committed(old(runtime)@, final(runtime)@, r, op_misc(old(runtime)@, instruction)),
{
    let start_address = runtime.storage.index_register as usize;
    let x = instruction.x;
    if start_address + x + 1 > MEM_SIZE {
        return Err(ChipError::AddressOutOfRange);
    }
    let mut i: usize = 0;
    while i <= x
        invariant
            i <= x + 1,
            x < 16,
            start_address + x + 1 <= MEM_SIZE,
            start_address == old(runtime).storage.index_register,
            runtime.wf(),
            runtime@ == (Machine {
                vars: Seq::new(
                    16,
                    |k: int|
                        if k < i {
                            old(runtime)@.memory[start_address + k]
                        } else {
                            old(runtime)@.vars[k]
                        },
                ),
                ..old(runtime)@
            }),
        decreases x + 1 - i,
    {
        let v = runtime.storage.memory[start_address + i];
        runtime.storage.variables[i] = v;
        proof {
            assert(runtime.storage.variables@ =~= Seq::new(
                16,
                |k: int|
                    if k < i + 1 {
                        old(runtime)@.memory[start_address + k]
                    } else {
                        old(runtime)@.vars[k]
                    },
            ));
        }
        i += 1;
    }
    runtime.storage.index_register = index_after_block_exec(runtime.mode, start_address, x);
    proof {
        assert(runtime@ =~= op_misc(old(runtime)@, instruction)->Ok_0);
    }
    Ok(())
}

/// `FXNN`: the grab-bag family; a sub-opcode outside 07, 0A, 15, 18, 1E,
/// 29, 33, 55 and 65 is unsupported.
pub fn handleF(runtime: &mut Runtime, instruction: Instruction) -> (r: Result<(), ChipError>)
    requires
        old(runtime).wf(),
        instruction.wf(),
        2 <= old(runtime).storage.program_counter,
    ensures
        final(runtime).wf(),
        committed(old(runtime)@, final(runtime)@, r, op_misc(old(runtime)@, instruction)),
{
    match instruction.nn {
        0x07 => handleFX07(runtime, instruction),
        0x0A => handleFX0A(runtime, instruction),
        0x15 => handleFX15(runtime, instruction),
        0x18 => handleFX18(runtime, instruction),
        0x1E => handleFX1E(runtime, instruction),
        0x29 => handleFX29(runtime, instruction),
        0x33 => {
            return handleFX33(runtime, instruction);
        },
        0x55 => {
            return handleFX55(runtime, instruction);
        },
        0x65 => {
            return handleFX65(runtime, instruction);
        },
        _ => {
            return Err(ChipError::UnsupportedOpcode(instruction.raw()));
        },
    }
    Ok(())
}

} // verus!
