use vstd::prelude::*;

verus! {

/// The fields of a 16-bit instruction.
#[derive(Debug, Clone, Copy, PartialEq, Eq, Structural)]
pub struct Decoded {
    /// The top four bits, selecting the instruction group.
    pub family: u8,
    /// The low twelve bits: an address or a constant.
    pub nnn: u16,
    /// The low four bits.
    pub n: u8,
    /// Bits 8 to 11: a register index.
    pub x: u8,
    /// Bits 4 to 7: a register index.
    pub y: u8,
    /// The low eight bits: an immediate byte.
    pub kk: u8,
}

pub open spec fn decode_spec(w: u16) -> Decoded {
    Decoded {
        family: (w / 4096) as u8,
        nnn: (w % 4096) as u16,
        n: (w % 16) as u8,
        x: ((w / 256) % 16) as u8,
        y: ((w / 16) % 16) as u8,
        kk: (w % 256) as u8,
    }
}

/// Splits an instruction into its fields.
pub fn decode(instruction: u16) -> (d: Decoded)
    ensures
        d == decode_spec(instruction),
{
    let w = instruction;
    assert(w >> 12u16 == w / 4096) by (bit_vector);
    assert(w & 0x0FFFu16 == w % 4096) by (bit_vector);
    assert(w & 0x000Fu16 == w % 16) by (bit_vector);
    assert((w >> 8u16) & 0x000Fu16 == (w / 256) % 16) by (bit_vector);
    assert((w >> 4u16) & 0x000Fu16 == (w / 16) % 16) by (bit_vector);
    assert(w & 0x00FFu16 == w % 256) by (bit_vector);
    Decoded {
        family: (w >> 12) as u8,
        nnn: w & 0x0FFF,
        n: (w & 0x000F) as u8,
        x: ((w >> 8) & 0x000F) as u8,
        y: ((w >> 4) & 0x000F) as u8,
        kk: (w & 0x00FF) as u8,
    }
}

/// Every instruction decodes, and its fields put back together give the
/// instruction again: `nnn` is `x`, `y`, `n` side by side, and `kk` is `y`
/// and `n`.
pub proof fn lemma_decode_total(w: u16)
    ensures
        decode_spec(w).family < 16,
        decode_spec(w).x < 16,
        decode_spec(w).y < 16,
        decode_spec(w).n < 16,
        w == decode_spec(w).family as int * 4096 + decode_spec(w).nnn as int,
        decode_spec(w).nnn == decode_spec(w).x as int * 256 + decode_spec(w).y as int * 16
            + decode_spec(w).n as int,
        decode_spec(w).kk == decode_spec(w).y as int * 16 + decode_spec(w).n as int,
{
    assert(w == (w / 4096) * 4096 + w % 4096) by (bit_vector);
    assert(w % 4096 == ((w / 256) % 16) * 256 + ((w / 16) % 16) * 16 + w % 16) by (bit_vector);
    assert(w % 256 == ((w / 16) % 16) * 16 + w % 16) by (bit_vector);
    assert(w / 4096 < 16) by (bit_vector);
}

} // verus!
