//! Memory, registers and the call stack.
use vstd::prelude::*;

use crate::error::ChipError;
use crate::instruction::{decode, decode_spec, Instruction};

verus! {

/// Number of addressable memory cells.
pub const MEM_SIZE: usize = 4096;
/// Depth of the call stack.
pub const STACK_HEIGHT: usize = 16;
/// Number of general registers, V0 to VF.
pub const NUM_VARS: usize = 16;
/// Address at which a program image is loaded and execution starts.
pub const START_SLOT: usize = 0x200;
/// Address of the first font glyph.
pub const FONT_START: usize = 0x50;
/// Size of the font table: sixteen glyphs of five bytes.
pub const FONT_SIZE: usize = 80;
/// Bytes per font glyph.
pub const GLYPH_SIZE: usize = 5;
/// The register that doubles as carry, borrow and collision flag.
pub const FLAG: usize = 0xF;

/// The hexadecimal digit glyphs, five rows of four pixels each.
pub open spec fn font_spec() -> Seq<u8> {
    seq![
        0xF0u8, 0x90, 0x90, 0x90, 0xF0, // 0
        0x20, 0x60, 0x20, 0x20, 0x70, // 1
        0xF0, 0x10, 0xF0, 0x80, 0xF0, // 2
        0xF0, 0x10, 0xF0, 0x10, 0xF0, // 3
        0x90, 0x90, 0xF0, 0x10, 0x10, // 4
        0xF0, 0x80, 0xF0, 0x10, 0xF0, // 5
        0xF0, 0x80, 0xF0, 0x90, 0xF0, // 6
        0xF0, 0x10, 0x20, 0x40, 0x40, // 7
        0xF0, 0x90, 0xF0, 0x90, 0xF0, // 8
        0xF0, 0x90, 0xF0, 0x10, 0xF0, // 9
        0xF0, 0x90, 0xF0, 0x90, 0x90, // A
        0xE0, 0x90, 0xE0, 0x90, 0xE0, // B
        0xF0, 0x80, 0x80, 0x80, 0xF0, // C
        0xE0, 0x90, 0x90, 0x90, 0xE0, // D
        0xF0, 0x80, 0xF0, 0x80, 0xF0, // E
        0xF0, 0x80, 0xF0, 0x80, 0x80, // F
    ]
}

/// The font table as an array.
pub fn font() -> (r: [u8; FONT_SIZE])
    ensures
        r@ == font_spec(),
{
    let r: [u8; FONT_SIZE] = [
        0xF0, 0x90, 0x90, 0x90, 0xF0, 0x20, 0x60, 0x20, 0x20, 0x70,
        0xF0, 0x10, 0xF0, 0x80, 0xF0, 0xF0, 0x10, 0xF0, 0x10, 0xF0,
        0x90, 0x90, 0xF0, 0x10, 0x10, 0xF0, 0x80, 0xF0, 0x10, 0xF0,
        0xF0, 0x80, 0xF0, 0x90, 0xF0, 0xF0, 0x10, 0x20, 0x40, 0x40,
        0xF0, 0x90, 0xF0, 0x90, 0xF0, 0xF0, 0x90, 0xF0, 0x10, 0xF0,
        0xF0, 0x90, 0xF0, 0x90, 0x90, 0xE0, 0x90, 0xE0, 0x90, 0xE0,
        0xF0, 0x80, 0x80, 0x80, 0xF0, 0xE0, 0x90, 0x90, 0x90, 0xE0,
        0xF0, 0x80, 0xF0, 0x80, 0xF0, 0xF0, 0x80, 0xF0, 0x80, 0x80,
    ];
    assert(r@ =~= font_spec());
    r
}

/// The contents of memory right after a program image is loaded: the font
/// table at its reserved address, the image at the load address, zero
/// everywhere else.
pub open spec fn initial_memory(program: Seq<u8>) -> Seq<u8> {
    Seq::new(
        MEM_SIZE as nat,
        |a: int|
            if FONT_START <= a < FONT_START + FONT_SIZE {
                font_spec()[a - FONT_START]
            } else if START_SLOT <= a < START_SLOT + program.len() {
                program[a - START_SLOT]
            } else {
                0u8
            },
    )
}

/// The big-endian instruction word held by the two cells at `pc` and `pc + 1`.
pub open spec fn word_at(memory: Seq<u8>, pc: int) -> u16 {
    (memory[pc] * 256 + memory[pc + 1]) as u16
}

/// The address of the glyph of a hexadecimal digit; only the low nibble of
/// `digit` counts.
pub open spec fn glyph_address(digit: u8) -> int {
    FONT_START + GLYPH_SIZE * (digit % 16)
}

/// The memory store: memory cells, program counter, index register, call
/// stack and general registers.
pub struct Storage {
    pub memory: [u8; MEM_SIZE],
    /// Address of the next instruction to fetch.
    pub program_counter: usize,
    /// The address register used by memory-indexed operations.
    pub index_register: u16,
    /// Return addresses, the most recent last.
    pub stack: Vec<usize>,
    /// V0 to VF.
    pub variables: [u8; NUM_VARS],
}

impl Storage {
    /// The call stack is within its capacity.
    pub open spec fn wf(&self) -> bool {
        self.stack@.len() <= STACK_HEIGHT
    }

    /// A fresh store holding `program` at the load address, with the
    /// program counter there; fails with `LoadError` exactly when the image
    /// does not fit below the end of memory.
    pub fn initialize(program: &Vec<u8>) -> (r: Result<Storage, ChipError>)
        ensures
            START_SLOT + program@.len() <= MEM_SIZE <==> r is Ok,
            r is Err ==> r == Err::<Storage, ChipError>(ChipError::LoadError),
            r matches Ok(s) ==> {
                &&& s.wf()
                &&& s.memory@ == initial_memory(program@)
                &&& s.program_counter == START_SLOT
                &&& s.index_register == 0
                &&& s.stack@.len() == 0
                &&& forall|i: int| 0 <= i < NUM_VARS ==> s.variables@[i] == 0
            },
    {
        if program.len() > MEM_SIZE - START_SLOT {
            return Err(ChipError::LoadError);
        }
        let mut storage = Storage {
            memory: [0u8; MEM_SIZE],
            program_counter: START_SLOT,
            index_register: 0,
            stack: Vec::new(),
            variables: [0u8; NUM_VARS],
        };
        storage.load_font();
        storage.load_program(program);
        proof {
            assert(storage.memory@ =~= initial_memory(program@));
        }
        Ok(storage)
    }

    /// Writes the font table at its reserved address; the rest of memory
    /// is kept.
    pub fn load_font(&mut self)
        ensures
            forall|a: int|
                0 <= a < MEM_SIZE ==> #[trigger] final(self).memory@[a] == if FONT_START <= a
                    < FONT_START + FONT_SIZE {
                    font_spec()[a - FONT_START]
                } else {
                    old(self).memory@[a]
                },
            final(self).program_counter == old(self).program_counter,
            final(self).index_register == old(self).index_register,
            final(self).stack@ == old(self).stack@,
            final(self).variables@ == old(self).variables@,
    {
        let glyphs = font();
        let mut i: usize = 0;
        while i < FONT_SIZE
            invariant
                i <= FONT_SIZE,
                glyphs@ == font_spec(),
                forall|a: int|
                    0 <= a < MEM_SIZE ==> #[trigger] self.memory@[a] == if FONT_START <= a
                        < FONT_START + i {
                        font_spec()[a - FONT_START]
                    } else {
                        old(self).memory@[a]
                    },
                self.program_counter == old(self).program_counter,
                self.index_register == old(self).index_register,
                self.stack@ == old(self).stack@,
                self.variables@ == old(self).variables@,
            decreases FONT_SIZE - i,
        {
            self.memory[FONT_START + i] = glyphs[i];
            i += 1;
        }
    }

    /// Copies `program` into memory from the load address on; the rest of
    /// memory is kept.
    pub fn load_program(&mut self, program: &Vec<u8>)
        requires
            START_SLOT + program@.len() <= MEM_SIZE,
        ensures
            forall|a: int|
                0 <= a < MEM_SIZE ==> #[trigger] final(self).memory@[a] == if START_SLOT <= a
                    < START_SLOT + program@.len() {
                    program@[a - START_SLOT]
                } else {
                    old(self).memory@[a]
                },
            final(self).program_counter == old(self).program_counter,
            final(self).index_register == old(self).index_register,
            final(self).stack@ == old(self).stack@,
            final(self).variables@ == old(self).variables@,
    {
        let mut i: usize = 0;
        while i < program.len()
            invariant
                i <= program@.len(),
                START_SLOT + program@.len() <= MEM_SIZE,
                forall|a: int|
                    0 <= a < MEM_SIZE ==> #[trigger] self.memory@[a] == if START_SLOT <= a
                        < START_SLOT + i {
                        program@[a - START_SLOT]
                    } else {
                        old(self).memory@[a]
                    },
                self.program_counter == old(self).program_counter,
                self.index_register == old(self).index_register,
                self.stack@ == old(self).stack@,
                self.variables@ == old(self).variables@,
            decreases program@.len() - i,
        {
            self.memory[START_SLOT + i] = program[i];
            i += 1;
        }
    }

    /// The instruction word at `pc`; the program counter does not move.
    pub fn fetch_word(&self, pc: usize) -> (r: u16)
        requires
            pc + 1 < MEM_SIZE,
        ensures
            r == word_at(self.memory@, pc as int),
    {
        (self.memory[pc] as u16) * 256 + (self.memory[pc + 1] as u16)
    }

    /// Fetches and decodes the instruction at the program counter and steps
    /// the counter past it; fails with `AddressOutOfRange`, and changes
    /// nothing, when the word would reach past the end of memory.
    pub fn get_instruction(&mut self) -> (r: Result<Instruction, ChipError>)
        ensures
            old(self).program_counter + 1 < MEM_SIZE ==> r == Ok::<Instruction, ChipError>(
                decode_spec(word_at(old(self).memory@, old(self).program_counter as int)),
            ) && final(self).program_counter == old(self).program_counter + 2,
            old(self).program_counter + 1 >= MEM_SIZE ==> r == Err::<Instruction, ChipError>(
                ChipError::AddressOutOfRange,
            ) && final(self).program_counter == old(self).program_counter,
            final(self).memory@ == old(self).memory@,
            final(self).index_register == old(self).index_register,
            final(self).stack@ == old(self).stack@,
            final(self).variables@ == old(self).variables@,
    {
        if self.program_counter >= MEM_SIZE - 1 {
            return Err(ChipError::AddressOutOfRange);
        }
        let word = self.fetch_word(self.program_counter);
        self.program_counter += 2;
        Ok(decode(word))
    }

    /// Pushes a return address; fails with `StackOverflow`, and changes
    /// nothing, when the stack already holds `STACK_HEIGHT` addresses.
    pub fn push_return(&mut self, addr: usize) -> (r: Result<(), ChipError>)
        requires
            old(self).wf(),
        ensures
            final(self).wf(),
            old(self).stack@.len() < STACK_HEIGHT ==> r is Ok && final(self).stack@ == old(
                self,
            ).stack@.push(addr),
            old(self).stack@.len() >= STACK_HEIGHT ==> r == Err::<(), ChipError>(
                ChipError::StackOverflow,
            ) && final(self).stack@ == old(self).stack@,
            final(self).memory@ == old(self).memory@,
            final(self).program_counter == old(self).program_counter,
            final(self).index_register == old(self).index_register,
            final(self).variables@ == old(self).variables@,
    {
        if self.stack.len() >= STACK_HEIGHT {
            return Err(ChipError::StackOverflow);
        }
        self.stack.push(addr);
        Ok(())
    }

    /// Pops the most recent return address into the program counter; fails
    /// with `StackUnderflow`, and changes nothing, when the stack is empty.
    pub fn pop_pc_from_stack(&mut self) -> (r: Result<(), ChipError>)
        requires
            old(self).wf(),
        ensures
            final(self).wf(),
            old(self).stack@.len() > 0 ==> r is Ok && final(self).stack@ == old(
                self,
            ).stack@.drop_last() && final(self).program_counter == old(self).stack@.last(),
            old(self).stack@.len() == 0 ==> r == Err::<(), ChipError>(ChipError::StackUnderflow)
                && final(self).stack@ == old(self).stack@ && final(self).program_counter == old(
                self,
            ).program_counter,
            final(self).memory@ == old(self).memory@,
            final(self).index_register == old(self).index_register,
            final(self).variables@ == old(self).variables@,
    {
        match self.stack.pop() {
            Some(addr) => {
                self.program_counter = addr;
                Ok(())
            },
            None => Err(ChipError::StackUnderflow),
        }
    }

    /// The address of the glyph for the hexadecimal digit in the low nibble
    /// of `digit`.
    pub fn get_font_item_location(&self, digit: u8) -> (r: u16)
        ensures
            r as int == glyph_address(digit),
    {
        (FONT_START + GLYPH_SIZE * ((digit % 16) as usize)) as u16
    }
}

/// Decoding the word fetched at `pc` reads the two cells at `pc` and
/// `pc + 1` and nothing else: the family and X are the high and low nibble
/// of the first, Y and N those of the second, NN is the second and NNN the
/// low nibble of the first followed by the second. So two memories that
/// agree on those two cells give the same instruction.
pub proof fn lemma_decode_reads_two_cells(memory: Seq<u8>, other: Seq<u8>, pc: int)
    requires
        0 <= pc,
        pc + 1 < memory.len(),
        pc + 1 < other.len(),
        other[pc] == memory[pc],
        other[pc + 1] == memory[pc + 1],
    ensures
        ({
            let ins = decode_spec(word_at(memory, pc));
            &&& ins.identifier == memory[pc] / 16
            &&& ins.x == memory[pc] % 16
            &&& ins.y == memory[pc + 1] / 16
            &&& ins.n == memory[pc + 1] % 16
            &&& ins.nn == memory[pc + 1]
            &&& ins.nnn == (memory[pc] % 16) * 256 + memory[pc + 1]
        }),
        decode_spec(word_at(other, pc)) == decode_spec(word_at(memory, pc)),
{
    let hi = memory[pc] as int;
    let lo = memory[pc + 1] as int;
    let w = hi * 256 + lo;
    assert(w / 4096 == hi / 16 && w / 256 % 16 == hi % 16 && w / 16 % 16 == lo / 16 && w % 16
        == lo % 16 && w % 256 == lo && w % 4096 == (hi % 16) * 256 + lo) by (nonlinear_arith)
        requires
            0 <= hi < 256,
            0 <= lo < 256,
            w == hi * 256 + lo,
    ;
}

/// Loading a program of length L puts its bytes unchanged at
/// `START_SLOT .. START_SLOT + L`, the font table at its reserved address,
/// and zero in every other cell.
pub proof fn lemma_load_round_trip(program: Seq<u8>)
    requires
        START_SLOT + program.len() <= MEM_SIZE,
    ensures
        initial_memory(program).len() == MEM_SIZE,
        forall|i: int|
            0 <= i < program.len() ==> #[trigger] initial_memory(program)[START_SLOT + i]
                == program[i],
        forall|i: int|
            0 <= i < FONT_SIZE ==> #[trigger] initial_memory(program)[FONT_START + i]
                == font_spec()[i],
        forall|a: int|
            0 <= a < MEM_SIZE && !(FONT_START <= a < FONT_START + FONT_SIZE) && !(START_SLOT <= a
                < START_SLOT + program.len()) ==> #[trigger] initial_memory(program)[a] == 0,
{
    assert forall|i: int| 0 <= i < program.len() implies #[trigger] initial_memory(
        program,
    )[START_SLOT + i] == program[i] by {
        assert(START_SLOT + i - START_SLOT == i);
    }
}

} // verus!
