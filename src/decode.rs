//! Field extraction for the RISC-V base instruction formats.
//!
//! The immediates are stated as the ISA's decode tables give them: each one
//! is a weighted sum of instruction bits, with the top bit (bit 31) carrying
//! a negative weight, and the executable extractors return that value as a
//! two's-complement word.
use vstd::prelude::*;

verus! {

/// The 32-bit word whose two's-complement value is congruent to `x`.
pub open spec fn word(x: int) -> u32 {
    (x % 0x1_0000_0000) as u32
}

/// Two's-complement value of a word.
pub open spec fn sval(w: u32) -> int {
    if w < 0x8000_0000 {
        w as int
    } else {
        w as int - 0x1_0000_0000
    }
}

pub open spec fn opcode_of(ir: u32) -> u32 {
    ir & 0x7f
}

pub open spec fn rd_of(ir: u32) -> u32 {
    (ir >> 7) & 0x1f
}

pub open spec fn funct3_of(ir: u32) -> u32 {
    (ir >> 12) & 0x7
}

pub open spec fn rs1_of(ir: u32) -> u32 {
    (ir >> 15) & 0x1f
}

pub open spec fn rs2_of(ir: u32) -> u32 {
    (ir >> 20) & 0x1f
}

pub open spec fn funct7_of(ir: u32) -> u32 {
    ir >> 25
}

/// I-type: imm[11:0] = inst[31:20].
pub open spec fn imm_i_value(ir: u32) -> int {
    ((ir >> 20) & 0x7ff) as int - (ir >> 31) as int * 0x800
}

/// S-type: imm[11:5] = inst[31:25], imm[4:0] = inst[11:7].
pub open spec fn imm_s_value(ir: u32) -> int {
    ((ir >> 25) & 0x3f) as int * 0x20 + ((ir >> 7) & 0x1f) as int - (ir >> 31) as int * 0x800
}

/// B-type: imm[12] = inst[31], imm[11] = inst[7], imm[10:5] = inst[30:25],
/// imm[4:1] = inst[11:8], imm[0] = 0.
pub open spec fn imm_b_value(ir: u32) -> int {
    ((ir >> 8) & 0xf) as int * 2 + ((ir >> 25) & 0x3f) as int * 0x20 + ((ir >> 7) & 1) as int
        * 0x800 - (ir >> 31) as int * 0x1000
}

/// U-type: imm[31:12] = inst[31:12], imm[11:0] = 0.
pub open spec fn imm_u_value(ir: u32) -> int {
    (ir >> 12) as int * 0x1000
}

/// J-type: imm[20] = inst[31], imm[19:12] = inst[19:12], imm[11] = inst[20],
/// imm[10:1] = inst[30:21], imm[0] = 0.
pub open spec fn imm_j_value(ir: u32) -> int {
    ((ir >> 21) & 0x3ff) as int * 2 + ((ir >> 20) & 1) as int * 0x800 + ((ir >> 12) & 0xff) as int
        * 0x1000 - (ir >> 31) as int * 0x10_0000
}

/// A word whose unsigned value is `v` wrapped into range has two's-complement
/// value `v`.
proof fn lemma_twos(r: u32, v: int)
    requires
        -0x8000_0000 <= v < 0x8000_0000,
        r as int == (if v < 0 { v + 0x1_0000_0000 } else { v }),
    ensures
        sval(r) == v,
        r == word(v),
{
}

/// Bits 0-6.
pub fn opcode(ir: u32) -> (r: u32)
    ensures
        r == opcode_of(ir),
{
    ir & 0x7f
}

/// Destination register, bits 7-11.
pub fn rd(ir: u32) -> (r: u32)
    ensures
        r == rd_of(ir),
        r < 32,
{
    let r = (ir >> 7) & 0x1f;
    assert(r == (ir >> 7) & 0x1f ==> r < 32) by (bit_vector);
    r
}

/// Bits 12-14.
pub fn funct3(ir: u32) -> (r: u32)
    ensures
        r == funct3_of(ir),
        r < 8,
{
    let r = (ir >> 12) & 0x7;
    assert(r == (ir >> 12) & 0x7 ==> r < 8) by (bit_vector);
    r
}

/// First source register, bits 15-19.
pub fn rs1(ir: u32) -> (r: u32)
    ensures
        r == rs1_of(ir),
        r < 32,
{
    let r = (ir >> 15) & 0x1f;
    assert(r == (ir >> 15) & 0x1f ==> r < 32) by (bit_vector);
    r
}

/// Second source register, bits 20-24.
pub fn rs2(ir: u32) -> (r: u32)
    ensures
        r == rs2_of(ir),
        r < 32,
{
    let r = (ir >> 20) & 0x1f;
    assert(r == (ir >> 20) & 0x1f ==> r < 32) by (bit_vector);
    r
}

/// Bits 25-31.
pub fn funct7(ir: u32) -> (r: u32)
    ensures
        r == funct7_of(ir),
{
    ir >> 25
}

/// Sign-extended I-type immediate.
pub fn imm_i(ir: u32) -> (r: u32)
    ensures
        sval(r) == imm_i_value(ir),
        r == word(imm_i_value(ir)),
{
    let r = if ir & 0x8000_0000 != 0 {
        (ir >> 20) | 0xffff_f000
    } else {
        ir >> 20
    };
    assert(r == (if ir & 0x8000_0000 != 0 { (ir >> 20) | 0xffff_f000 } else { ir >> 20 })
        ==> r as int == (if ir >> 31 == 0 { ((ir >> 20) & 0x7ff) as int } else { ((ir >> 20)
        & 0x7ff) as int + 0xffff_f800 })) by (bit_vector);
    assert(ir >> 31 <= 1 && (ir >> 20) & 0x7ff < 0x800) by (bit_vector);
    proof {
        lemma_twos(r, imm_i_value(ir));
    }
    r
}

/// Sign-extended S-type immediate.
pub fn imm_s(ir: u32) -> (r: u32)
    ensures
        sval(r) == imm_s_value(ir),
        r == word(imm_s_value(ir)),
{
    let f = ((ir >> 7) & 0x1f) | ((ir & 0xfe00_0000) >> 20);
    let r = if f & 0x800 != 0 {
        f | 0xffff_f000
    } else {
        f
    };
    assert(f == ((ir >> 7) & 0x1f) | ((ir & 0xfe00_0000) >> 20) && r == (if f & 0x800 != 0 {
        f | 0xffff_f000
    } else {
        f
    }) ==> r as int == (if ir >> 31 == 0 { ((ir >> 25) & 0x3f) as int * 0x20 + ((ir >> 7)
        & 0x1f) as int } else { ((ir >> 25) & 0x3f) as int * 0x20 + ((ir >> 7) & 0x1f) as int
        + 0xffff_f800 })) by (bit_vector);
    assert(ir >> 31 <= 1 && (ir >> 25) & 0x3f < 0x40 && (ir >> 7) & 0x1f < 0x20) by (bit_vector);
    proof {
        lemma_twos(r, imm_s_value(ir));
    }
    r
}

/// Sign-extended B-type immediate.
pub fn imm_b(ir: u32) -> (r: u32)
    ensures
        sval(r) == imm_b_value(ir),
        r == word(imm_b_value(ir)),
{
    let f = ((ir & 0xf00) >> 7) | ((ir & 0x7e00_0000) >> 20) | ((ir & 0x80) << 4) | ((ir >> 31)
        << 12);
    let r = if f & 0x1000 != 0 {
        f | 0xffff_e000
    } else {
        f
    };
    assert(f == ((ir & 0xf00) >> 7) | ((ir & 0x7e00_0000) >> 20) | ((ir & 0x80) << 4) | ((ir
        >> 31) << 12) && r == (if f & 0x1000 != 0 {
        f | 0xffff_e000
    } else {
        f
    }) ==> r as int == ((ir >> 8) & 0xf) as int * 2 + ((ir >> 25) & 0x3f) as int * 0x20 + ((ir
        >> 7) & 1) as int * 0x800 + (ir >> 31) as int * 0xffff_f000) by (bit_vector);
    assert(ir >> 31 <= 1 && (ir >> 25) & 0x3f < 0x40 && (ir >> 8) & 0xf < 0x10 && (ir >> 7) & 1
        <= 1) by (bit_vector);
    proof {
        lemma_twos(r, imm_b_value(ir));
    }
    r
}

/// U-type immediate, already shifted into place.
pub fn imm_u(ir: u32) -> (r: u32)
    ensures
        r as int == imm_u_value(ir),
        r == word(imm_u_value(ir)),
{
    let r = ir & 0xffff_f000;
    assert(r == ir & 0xffff_f000 ==> r as int == (ir >> 12) as int * 0x1000) by (bit_vector);
    assert(ir >> 12 < 0x10_0000) by (bit_vector);
    r
}

/// Sign-extended J-type immediate.
pub fn imm_j(ir: u32) -> (r: u32)
    ensures
        sval(r) == imm_j_value(ir),
        r == word(imm_j_value(ir)),
{
    let f = ((ir & 0x8000_0000) >> 11) | ((ir & 0x7fe0_0000) >> 20) | ((ir & 0x0010_0000) >> 9)
        | (ir & 0x000f_f000);
    let r = if f & 0x0010_0000 != 0 {
        f | 0xffe0_0000
    } else {
        f
    };
    assert(f == ((ir & 0x8000_0000) >> 11) | ((ir & 0x7fe0_0000) >> 20) | ((ir & 0x0010_0000)
        >> 9) | (ir & 0x000f_f000) && r == (if f & 0x0010_0000 != 0 {
        f | 0xffe0_0000
    } else {
        f
    }) ==> r as int == ((ir >> 21) & 0x3ff) as int * 2 + ((ir >> 20) & 1) as int * 0x800 + ((ir
        >> 12) & 0xff) as int * 0x1000 + (ir >> 31) as int * 0xfff0_0000) by (bit_vector);
    assert(ir >> 31 <= 1 && (ir >> 21) & 0x3ff < 0x400 && (ir >> 20) & 1 <= 1 && (ir >> 12) & 0xff
        < 0x100) by (bit_vector);
    proof {
        lemma_twos(r, imm_j_value(ir));
    }
    r
}

} // verus!
