//! Splitting a 16-bit instruction word into its fields.
use vstd::prelude::*;

verus! {

/// One decoded instruction: the opcode family and its operand fields.
#[derive(Clone, Copy, Debug, PartialEq, Eq, Structural)]
pub struct Instruction {
    /// The top four bits: the opcode family.
    pub identifier: usize,
    /// The second nibble: usually a register index.
    pub x: usize,
    /// The third nibble: usually a register index.
    pub y: usize,
    /// The lowest nibble.
    pub n: usize,
    /// The low byte.
    pub nn: usize,
    /// The low twelve bits: an address.
    pub nnn: usize,
}

/// The instruction that a 16-bit word decodes to.
pub open spec fn decode_spec(word: u16) -> Instruction {
    Instruction {
        identifier: (word / 4096) as usize,
        x: (word / 256 % 16) as usize,
        y: (word / 16 % 16) as usize,
        n: (word % 16) as usize,
        nn: (word % 256) as usize,
        nnn: (word % 4096) as usize,
    }
}

impl Instruction {
    /// The instruction word that these fields came from.
    pub open spec fn word(self) -> int {
        self.identifier * 4096 + self.nnn
    }

    /// The fields are those of some 16-bit word: four nibbles, with NN and
    /// NNN made of the low two and three.
    pub open spec fn wf(self) -> bool {
        &&& self.identifier < 16
        &&& self.x < 16
        &&& self.y < 16
        &&& self.n < 16
        &&& self.nn == self.y * 16 + self.n
        &&& self.nnn == self.x * 256 + self.nn
    }

    /// The instruction word that these fields came from.
    pub fn raw(&self) -> (r: u16)
        requires
            self.wf(),
        ensures
            r as int == self.word(),
            decode_spec(r) == *self,
    {
        proof {
            lemma_decode_fields(
                self.identifier as int,
                self.x as int,
                self.y as int,
                self.n as int,
            );
        }
        (self.identifier * 4096 + self.nnn) as u16
    }
}

/// The word made of four nibbles decodes to those nibbles.
proof fn lemma_decode_fields(i: int, x: int, y: int, n: int)
    requires
        0 <= i < 16,
        0 <= x < 16,
        0 <= y < 16,
        0 <= n < 16,
    ensures
        ({
            let w = i * 4096 + x * 256 + y * 16 + n;
            &&& w / 4096 == i
            &&& w / 256 % 16 == x
            &&& w / 16 % 16 == y
            &&& w % 16 == n
            &&& w % 256 == y * 16 + n
            &&& w % 4096 == x * 256 + y * 16 + n
            &&& w < 65536
        }),
{
    let w = i * 4096 + x * 256 + y * 16 + n;
    assert(w / 4096 == i && w / 256 % 16 == x && w / 16 % 16 == y && w % 16 == n && w % 256 == y
        * 16 + n && w % 4096 == x * 256 + y * 16 + n && w < 65536) by (nonlinear_arith)
        requires
            0 <= i < 16,
            0 <= x < 16,
            0 <= y < 16,
            0 <= n < 16,
            w == i * 4096 + x * 256 + y * 16 + n,
    ;
}

/// Splits an instruction word into its fields. Every word decodes.
pub fn decode(word: u16) -> (r: Instruction)
    ensures
        r == decode_spec(word),
        r.wf(),
        r.word() == word as int,
{
    let w = word as usize;
    let r = Instruction {
        identifier: (w & 0xF000) >> 12,
        x: (w & 0x0F00) >> 8,
        y: (w & 0x00F0) >> 4,
        n: w & 0x000F,
        nn: w & 0x00FF,
        nnn: w & 0x0FFF,
    };
    assert(
        (w & 0xF000) >> 12 == w / 4096
        && (w & 0x0F00) >> 8 == w / 256 % 16
        && (w & 0x00F0) >> 4 == w / 16 % 16
        && w & 0x000F == w % 16
        && w & 0x00FF == w % 256
        && w & 0x0FFF == w % 4096
    ) by (bit_vector)
        requires
            w < 65536,
    ;
    assert(w / 16 % 16 * 16 + w % 16 == w % 256 && w / 256 % 16 * 256 + w % 256 == w % 4096
        && w / 4096 * 4096 + w % 4096 == w) by (nonlinear_arith)
        requires
            w < 65536,
    ;
    r
}

} // verus!
