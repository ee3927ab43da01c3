//! The interpreter: the machine state, instruction cycles and frames.
use vstd::prelude::*;

use crate::display::{Display, SCREEN_SIZE};
use crate::error::ChipError;
use crate::keyboard::KEYBOARD_SIZE;
use crate::instruction::{decode_spec, Instruction};
use crate::machine::{
    committed, cycle, execute, lowest_held, op_key_wait, op_misc, run, set_var, tick, with_keys,
    Machine,
};
use crate::operators::{
    handle0, handle1, handle2, handle3, handle4, handle5, handle6, handle7, handle8, handle9,
    handleA, handleB, handleC, handleD, handleE, handleF,
};
use crate::storage::{initial_memory, word_at, Storage, MEM_SIZE, NUM_VARS, START_SLOT};

verus! {

/// Instruction cycles per frame.
pub const CALC_PER_FRAME: usize = 12;

/// The compatibility mode, fixed for the life of the machine.
#[derive(Clone, Copy, Debug, PartialEq, Eq, Structural)]
pub enum Mode {
    /// The baseline machine.
    CHIP8,
    /// The extended interpreter.
    SCHIP,
    /// The extended interpreter with colour and memory extensions.
    X0CHIP,
}

/// The whole interpreter state.
pub struct Runtime {
    pub mode: Mode,
    pub storage: Storage,
    pub display: Display,
    pub delay_timer: u8,
    pub sound_timer: u8,
    /// The logical keys held at the last poll of the keyboard.
    pub held_keys: [bool; KEYBOARD_SIZE],
    /// The key that a waiting key-read has seen go down, if any.
    pub current_key_press: Option<u8>,
}

impl View for Runtime {
    type V = Machine;

    open spec fn view(&self) -> Machine {
        Machine {
            mode: self.mode,
            memory: self.storage.memory@,
            pc: self.storage.program_counter as int,
            index: self.storage.index_register as int,
            stack: self.storage.stack@,
            vars: self.storage.variables@,
            pixels: self.display.representation@,
            delay: self.delay_timer as int,
            sound: self.sound_timer as int,
            keys: self.held_keys@,
            latch: self.current_key_press,
        }
    }
}

/// The state of a machine that has just loaded `program` in `mode`.
pub open spec fn initial_machine(program: Seq<u8>, mode: Mode) -> Machine {
    Machine {
        mode,
        memory: initial_memory(program),
        pc: START_SLOT as int,
        index: 0,
        stack: Seq::empty(),
        vars: Seq::new(NUM_VARS as nat, |i: int| 0u8),
        pixels: Seq::new(SCREEN_SIZE as nat, |i: int| false),
        delay: 0,
        sound: 0,
        keys: Seq::new(KEYBOARD_SIZE as nat, |i: int| false),
        latch: None,
    }
}

impl Runtime {
    /// The call stack is within its capacity and a latched key is a
    /// logical key.
    pub open spec fn wf(&self) -> bool {
        &&& self.storage.wf()
        &&& self.current_key_press matches Some(k) ==> k < KEYBOARD_SIZE
    }

    /// A machine in `mode` with `program` loaded, the screen dark, the
    /// timers stopped and no key held; fails with `LoadError` exactly when
    /// the image does not fit in memory.
    pub fn initialize(program: &Vec<u8>, mode: Mode) -> (r: Result<Runtime, ChipError>)
        ensures
            START_SLOT + program@.len() <= MEM_SIZE <==> r is Ok,
            r is Err ==> r == Err::<Runtime, ChipError>(ChipError::LoadError),
            r matches Ok(rt) ==> rt.wf() && rt@ == initial_machine(program@, mode),
    {
        let storage = match Storage::initialize(program) {
            Ok(s) => s,
            Err(e) => {
                return Err(e);
            },
        };
        let rt = Runtime {
            mode,
            storage,
            display: Display::initialize(),
            delay_timer: 0,
            sound_timer: 0,
            held_keys: [false; KEYBOARD_SIZE],
            current_key_press: None,
        };
        proof {
            assert(rt@.vars =~= initial_machine(program@, mode).vars);
            assert(rt@.pixels =~= initial_machine(program@, mode).pixels);
            assert(rt@.keys =~= initial_machine(program@, mode).keys);
            assert(rt@.stack =~= initial_machine(program@, mode).stack);
            assert(rt@ =~= initial_machine(program@, mode));
        }
        Ok(rt)
    }

    /// Executes `instruction`, the program counter already past it, through
    /// the handler of its family. `CXNN` draws its random byte here, so the
    /// outcome is the one `execute` gives for some byte; on a fault the
    /// state is unchanged.
    pub fn dispatch(&mut self, instruction: Instruction) -> (r: Result<(), ChipError>)
        requires
            old(self).wf(),
            instruction.wf(),
            2 <= old(self).storage.program_counter <= MEM_SIZE,
        ensures
            final(self).wf(),
            exists|b: u8|
                committed(
                    old(self)@,
                    final(self)@,
                    r,
                    #[trigger] execute(old(self)@, instruction, b),
                ),
    {
        let r = match instruction.identifier {
            0x0 => handle0(self, instruction),
            0x1 => {
                handle1(self, instruction);
                Ok(())
            },
            0x2 => handle2(self, instruction),
            0x3 => {
                handle3(self, instruction);
                Ok(())
            },
            0x4 => {
                handle4(self, instruction);
                Ok(())
            },
            0x5 => {
                handle5(self, instruction);
                Ok(())
            },
            0x6 => {
                handle6(self, instruction);
                Ok(())
            },
            0x7 => {
                handle7(self, instruction);
                Ok(())
            },
            0x8 => handle8(self, instruction),
            0x9 => {
                handle9(self, instruction);
                Ok(())
            },
            0xA => {
                handleA(self, instruction);
                Ok(())
            },
            0xB => {
                handleB(self, instruction);
                Ok(())
            },
            0xC => {
                handleC(self, instruction);
                Ok(())
            },
            0xD => handleD(self, instruction),
            0xE => handleE(self, instruction),
            _ => handleF(self, instruction),
        };
        proof {
            reveal(execute);
            if instruction.identifier == 0xC {
                let b = choose|b: u8|
                    self@ == set_var(old(self)@, instruction.x as int, #[trigger] (b
                        & instruction.nn as u8));
                assert(committed(old(self)@, self@, r, execute(old(self)@, instruction, b)));
            } else {
                assert(committed(old(self)@, self@, r, execute(old(self)@, instruction, 0u8)));
            }
        }
        r
    }

    /// One instruction cycle: fetch, decode and execute the instruction at
    /// the program counter. The outcome is `cycle` for some random byte; on
    /// a fault the state is left as it was before the cycle.
    pub fn step(&mut self) -> (r: Result<(), ChipError>)
        requires
            old(self).wf(),
        ensures
            final(self).wf(),
            exists|b: u8| committed(old(self)@, final(self)@, r, #[trigger] cycle(old(self)@, b)),
    {
        let instruction = match self.storage.get_instruction() {
            Ok(i) => i,
            Err(e) => {
                proof {
                    reveal(cycle);
                    assert(self@ =~= old(self)@);
                    assert(committed(old(self)@, self@, Err(e), cycle(old(self)@, 0u8)));
                }
                return Err(e);
            },
        };
        let ghost fetched = self@;
        proof {
            assert(fetched =~= (Machine { pc: old(self)@.pc + 2, ..old(self)@ }));
        }
        let r = self.dispatch(instruction);
        let ghost b = choose|b: u8|
            committed(fetched, self@, r, #[trigger] execute(fetched, instruction, b));
        if r.is_err() {
            self.storage.program_counter -= 2;
            proof {
                assert(self@ =~= old(self)@);
            }
        }
        proof {
            reveal(cycle);
            assert(cycle(old(self)@, b) == execute(fetched, instruction, b));
            assert(committed(old(self)@, self@, r, cycle(old(self)@, b)));
        }
        r
    }

    /// The end-of-frame timer update: each timer that is not zero counts
    /// down by one. Returns whether the tone sounds this frame, which is
    /// whether the sound timer was running.
    pub fn update_timers(&mut self) -> (r: bool)
        requires
            old(self).wf(),
        ensures
            final(self).wf(),
            final(self)@ == tick(old(self)@),
            r == (old(self)@.sound > 0),
    {
        let beep = self.sound_timer > 0;
        if beep {
            self.sound_timer -= 1;
        }
        if self.delay_timer > 0 {
            self.delay_timer -= 1;
        }
        beep
    }

    /// One frame: record the held keys, run `CALC_PER_FRAME` instruction
    /// cycles, then update the timers once. Returns whether the tone sounds
    /// this frame. The outcome is `frame_outcome` for some random bytes;
    /// a fault stops the frame where it occurred, before the timer update.
    pub fn frame(&mut self, keys: &[bool; KEYBOARD_SIZE]) -> (r: Result<bool, ChipError>)
        requires
            old(self).wf(),
        ensures
            final(self).wf(),
            exists|randoms: Seq<u8>|
                randoms.len() == CALC_PER_FRAME && #[trigger] frame_outcome(
                    with_keys(old(self)@, keys@),
                    randoms,
                    final(self)@,
                    r,
                ),
    {
        self.held_keys = *keys;
        let ghost start = self@;
        assert(start =~= with_keys(old(self)@, keys@));
        let ghost mut randoms: Seq<u8> = Seq::empty();
        let mut i: usize = 0;
        while i < CALC_PER_FRAME
            invariant
                i <= CALC_PER_FRAME,
                randoms.len() == i,
                start == with_keys(old(self)@, keys@),
                self.wf(),
                run(start, randoms) == (self@, Option::<ChipError>::None),
            decreases CALC_PER_FRAME - i,
        {
            let ghost before = self@;
            let r = self.step();
            let ghost b = choose|b: u8| committed(before, self@, r, #[trigger] cycle(before, b));
            proof {
                lemma_run_push(start, randoms, b);
            }
            match r {
                Ok(()) => {
                    proof {
                        randoms = randoms.push(b);
                    }
                },
                Err(e) => {
                    proof {
                        let pad = Seq::new((CALC_PER_FRAME - i - 1) as nat, |k: int| 0u8);
                        lemma_run_after_fault(start, randoms.push(b), pad);
                        assert(frame_outcome(start, randoms.push(b) + pad, self@, Err(e)));
                        assert((randoms.push(b) + pad).len() == CALC_PER_FRAME);
                    }
                    return Err(e);
                },
            }
            i += 1;
        }
        let beep = self.update_timers();
        proof {
            assert(frame_outcome(start, randoms, self@, Ok(beep)));
        }
        Ok(beep)
    }
}

/// What a frame started in `start` with the random bytes `randoms` leaves:
/// when every cycle succeeds, the timers updated after the last one and
/// the beep state of that moment; otherwise the first fault, with the state
/// reached before it.
pub open spec fn frame_outcome(
    start: Machine,
    randoms: Seq<u8>,
    after: Machine,
    r: Result<bool, ChipError>,
) -> bool {
    let (reached, fault) = run(start, randoms);
    match r {
        Ok(beep) => fault is None && after == tick(reached) && beep == (reached.sound > 0),
        Err(e) => fault == Some(e) && after == reached,
    }
}

/// Running one more cycle after a run without fault continues from where
/// the run stopped.
pub proof fn lemma_run_push(m: Machine, randoms: Seq<u8>, b: u8)
    requires
        run(m, randoms).1 is None,
    ensures
        run(m, randoms.push(b)) == (match cycle(run(m, randoms).0, b) {
            Ok(next) => (next, Option::<ChipError>::None),
            Err(e) => (run(m, randoms).0, Some(e)),
        }),
    decreases randoms.len(),
{
    assert(randoms.push(b)[0] == if randoms.len() > 0 {
        randoms[0]
    } else {
        b
    });
    if randoms.len() > 0 {
        assert(randoms.push(b).drop_first() =~= randoms.drop_first().push(b));
        if let Ok(next) = cycle(m, randoms[0]) {
            lemma_run_push(next, randoms.drop_first(), b);
        }
    } else {
        assert(randoms.push(b).drop_first() =~= Seq::<u8>::empty());
        if let Ok(next) = cycle(m, b) {
            assert(run(next, Seq::<u8>::empty()) == (next, Option::<ChipError>::None));
        }
    }
}

/// Once a run has faulted, further random bytes change nothing.
pub proof fn lemma_run_after_fault(m: Machine, randoms: Seq<u8>, more: Seq<u8>)
    requires
        run(m, randoms).1 is Some,
    ensures
        run(m, randoms + more) == run(m, randoms),
    decreases randoms.len(),
{
    assert(randoms.len() > 0);
    assert((randoms + more)[0] == randoms[0]);
    if let Ok(next) = cycle(m, randoms[0]) {
        assert((randoms + more).drop_first() =~= randoms.drop_first() + more);
        lemma_run_after_fault(next, randoms.drop_first(), more);
    }
}

/// The instruction at the program counter lies within memory and is a key
/// wait, `FX0A`.
pub open spec fn waits_for_key(m: Machine) -> bool {
    &&& 0 <= m.pc
    &&& m.pc + 1 < MEM_SIZE
    &&& decode_spec(word_at(m.memory, m.pc)).identifier == 0xF
    &&& decode_spec(word_at(m.memory, m.pc)).nn == 0x0A
}

/// No key at or above `from` is held, so none is found.
proof fn lemma_lowest_held_none(keys: Seq<bool>, from: int)
    requires
        0 <= from,
        forall|k: int| from <= k < KEYBOARD_SIZE ==> !#[trigger] keys[k],
    ensures
        lowest_held(keys, from) is None,
    decreases KEYBOARD_SIZE - from,
{
    if from < KEYBOARD_SIZE {
        lemma_lowest_held_none(keys, from + 1);
    }
}

/// The first held key at or above `from` is the one found.
proof fn lemma_lowest_held_first(keys: Seq<bool>, from: int, k: int)
    requires
        0 <= from <= k < KEYBOARD_SIZE,
        keys[k],
        forall|j: int| from <= j < k ==> !#[trigger] keys[j],
    ensures
        lowest_held(keys, from) == Some(k as u8),
    decreases k - from,
{
    if from < k {
        lemma_lowest_held_first(keys, from + 1, k);
    }
}

/// While no key is held, a key wait with nothing latched leaves the machine
/// exactly as it was, program counter included, whatever random bytes the
/// cycles draw; so every frame ends on the same instruction, with only the
/// timers counting down.
pub proof fn lemma_key_wait_idle(m: Machine, randoms: Seq<u8>)
    requires
        m.wf(),
        waits_for_key(m),
        m.latch is None,
        forall|k: int| 0 <= k < KEYBOARD_SIZE ==> !#[trigger] m.keys[k],
    ensures
        run(m, randoms) == (m, Option::<ChipError>::None),
        frame_outcome(m, randoms, tick(m), Ok(m.sound > 0)),
        tick(m).pc == m.pc,
    decreases randoms.len(),
{
    reveal(cycle);
    reveal(execute);
    lemma_lowest_held_none(m.keys, 0);
    if randoms.len() > 0 {
        assert(cycle(m, randoms[0]) == Ok::<Machine, ChipError>(m)) by {
            let fetched = Machine { pc: m.pc + 2, ..m };
            let ins = decode_spec(word_at(m.memory, m.pc));
            assert(execute(fetched, ins, randoms[0]) == op_misc(fetched, ins));
            assert(op_key_wait(fetched, ins.x as int) =~= m);
        }
        lemma_key_wait_idle(m, randoms.drop_first());
    }
}

/// A key wait that sees key `k` go down at one poll, as the lowest held
/// key, stays on the same instruction with `k` latched; when `k` is up at
/// the next poll, the next cycle writes `k` to VX, clears the latch and
/// moves the program counter on by exactly one instruction.
pub proof fn lemma_key_wait_press_release(
    m: Machine,
    down: Seq<bool>,
    up: Seq<bool>,
    k: int,
    b1: u8,
    b2: u8,
)
    requires
        m.wf(),
        waits_for_key(m),
        m.latch is None,
        down.len() == KEYBOARD_SIZE,
        up.len() == KEYBOARD_SIZE,
        0 <= k < KEYBOARD_SIZE,
        down[k],
        forall|j: int| 0 <= j < k ==> !#[trigger] down[j],
        !up[k],
    ensures
        ({
            let x = decode_spec(word_at(m.memory, m.pc)).x as int;
            let pressed = Machine { keys: down, latch: Some(k as u8), ..m };
            let released = Machine { keys: up, latch: Some(k as u8), ..m };
            &&& cycle(with_keys(m, down), b1) == Ok::<Machine, ChipError>(pressed)
            &&& cycle(released, b2) == Ok::<Machine, ChipError>(
                Machine {
                    keys: up,
                    latch: None,
                    pc: m.pc + 2,
                    vars: m.vars.update(x, k as u8),
                    ..m
                },
            )
        }),
{
    reveal(cycle);
    reveal(execute);
    lemma_lowest_held_first(down, 0, k);
    let ins = decode_spec(word_at(m.memory, m.pc));
    let first = Machine { pc: m.pc + 2, ..with_keys(m, down) };
    assert(execute(first, ins, b1) == op_misc(first, ins));
    assert(op_key_wait(first, ins.x as int) =~= Machine { keys: down, latch: Some(k as u8), ..m });
    let released = Machine { keys: up, latch: Some(k as u8), ..m };
    let second = Machine { pc: m.pc + 2, ..released };
    assert(execute(second, ins, b2) == op_misc(second, ins));
    assert(op_key_wait(second, ins.x as int) =~= Machine {
        keys: up,
        latch: None,
        pc: m.pc + 2,
        vars: m.vars.update(ins.x as int, k as u8),
        ..m
    });
}

} // verus!
