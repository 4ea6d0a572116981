//! Little-endian typed access to the RAM image, and the MMIO window.
use vstd::prelude::*;

verus! {

/// Value of the byte at `i`.
pub open spec fn byte_at(m: Seq<u8>, i: int) -> int {
    m[i] as int
}

/// Little-endian value of the two bytes at `i`.
pub open spec fn half_at(m: Seq<u8>, i: int) -> int {
    m[i] as int + m[i + 1] as int * 0x100
}

/// Little-endian value of the four bytes at `i`.
pub open spec fn word_at(m: Seq<u8>, i: int) -> int {
    m[i] as int + m[i + 1] as int * 0x100 + m[i + 2] as int * 0x1_0000 + m[i + 3] as int
        * 0x100_0000
}

/// Two's-complement value of an 8-bit pattern.
pub open spec fn signed8(v: int) -> int {
    if v < 0x80 {
        v
    } else {
        v - 0x100
    }
}

/// Two's-complement value of a 16-bit pattern.
pub open spec fn signed16(v: int) -> int {
    if v < 0x8000 {
        v
    } else {
        v - 0x1_0000
    }
}

/// RAM after writing `v` at `i`.
pub open spec fn put_byte(m: Seq<u8>, i: int, v: u8) -> Seq<u8> {
    m.update(i, v)
}

/// RAM after writing the two bytes of `v`, little-endian, at `i`.
pub open spec fn put_half(m: Seq<u8>, i: int, v: u16) -> Seq<u8> {
    m.update(i, (v & 0xff) as u8).update(i + 1, (v >> 8) as u8)
}

/// RAM after writing the four bytes of `v`, little-endian, at `i`.
pub open spec fn put_word(m: Seq<u8>, i: int, v: u32) -> Seq<u8> {
    m.update(i, (v & 0xff) as u8).update(i + 1, ((v >> 8) & 0xff) as u8).update(
        i + 2,
        ((v >> 16) & 0xff) as u8,
    ).update(i + 3, (v >> 24) as u8)
}

/// Whether an absolute address lies in the window reserved for MMIO.
pub open spec fn in_mmio(addr: u32) -> bool {
    0x1000_0000 <= addr < 0x1200_0000
}

/// Little-endian word at `ofs`.
pub fn minirv32_load4(ofs: u32, image: &[u8]) -> (r: u32)
    requires
        ofs + 4 <= image@.len(),
    ensures
        r as int == word_at(image@, ofs as int),
{
    let offset = ofs as usize;
    let b0 = image[offset];
    let b1 = image[offset + 1];
    let b2 = image[offset + 2];
    let b3 = image[offset + 3];
    let r: u32 = (b0 as u32) | ((b1 as u32) << 8) | ((b2 as u32) << 16) | ((b3 as u32) << 24);
    assert(r == (b0 as u32) | ((b1 as u32) << 8) | ((b2 as u32) << 16) | ((b3 as u32) << 24)
        ==> r as int == b0 as int + b1 as int * 0x100 + b2 as int * 0x1_0000 + b3 as int
        * 0x100_0000) by (bit_vector);
    r
}

/// Byte at `ofs`, as a signed value.
pub fn minirv32_load1_signed(ofs: u32, image: &[u8]) -> (r: i8)
    requires
        ofs < image@.len(),
    ensures
        r as int == signed8(byte_at(image@, ofs as int)),
{
    let b = image[ofs as usize];
    let r = b as i8;
    assert(r == b as i8 ==> r as int == signed8(b as int)) by (bit_vector);
    r
}

/// Byte at `ofs`.
pub fn minirv32_load1(ofs: u32, image: &[u8]) -> (r: u8)
    requires
        ofs < image@.len(),
    ensures
        r as int == byte_at(image@, ofs as int),
{
    image[ofs as usize]
}

/// Little-endian halfword at `ofs`.
pub fn minirv32_load2(ofs: u32, image: &[u8]) -> (r: u16)
    requires
        ofs + 2 <= image@.len(),
    ensures
        r as int == half_at(image@, ofs as int),
{
    let offset = ofs as usize;
    let b0 = image[offset];
    let b1 = image[offset + 1];
    let r: u16 = (b0 as u16) | ((b1 as u16) << 8);
    assert(r == (b0 as u16) | ((b1 as u16) << 8) ==> r as int == b0 as int + b1 as int * 0x100)
        by (bit_vector);
    r
}

/// Little-endian halfword at `ofs`, as a signed value.
pub fn minirv32_load2_signed(ofs: u32, image: &[u8]) -> (r: i16)
    requires
        ofs + 2 <= image@.len(),
    ensures
        r as int == signed16(half_at(image@, ofs as int)),
{
    let h = minirv32_load2(ofs, image);
    let r = h as i16;
    assert(r == h as i16 ==> r as int == signed16(h as int)) by (bit_vector);
    r
}

/// Whether `n` lies in the MMIO window `[0x1000_0000, 0x1200_0000)`.
pub fn minirv32_mmio_range(n: u32) -> (r: bool)
    ensures
        r == in_mmio(n),
{
    0x1000_0000 <= n && n < 0x1200_0000
}

/// Writes `val` at `ofs`.
pub fn minirv32_store1(ofs: u32, val: u8, image: &mut [u8])
    requires
        ofs < old(image)@.len(),
    ensures
        final(image)@ == put_byte(old(image)@, ofs as int, val),
{
    image[ofs as usize] = val;
}

/// Writes `val` little-endian at `ofs`.
pub fn minirv32_store2(ofs: u32, val: u16, image: &mut [u8])
    requires
        ofs + 2 <= old(image)@.len(),
    ensures
        final(image)@ == put_half(old(image)@, ofs as int, val),
{
    let offset = ofs as usize;
    image[offset] = (val & 0xff) as u8;
    image[offset + 1] = (val >> 8) as u8;
}

/// Writes `val` little-endian at `ofs`.
pub fn minirv32_store4(ofs: u32, val: u32, image: &mut [u8])
    requires
        ofs + 4 <= old(image)@.len(),
    ensures
        final(image)@ == put_word(old(image)@, ofs as int, val),
{
    let offset = ofs as usize;
    image[offset] = (val & 0xff) as u8;
    image[offset + 1] = ((val >> 8) & 0xff) as u8;
    image[offset + 2] = ((val >> 16) & 0xff) as u8;
    image[offset + 3] = (val >> 24) as u8;
}

/// A word stored at `i` reads back unchanged.
pub proof fn lemma_word_round_trip(m: Seq<u8>, i: int, v: u32)
    requires
        0 <= i,
        i + 4 <= m.len(),
    ensures
        word_at(put_word(m, i, v), i) == v as int,
{
    assert(((v & 0xff) as u8) as int + (((v >> 8) & 0xff) as u8) as int * 0x100 + (((v >> 16)
        & 0xff) as u8) as int * 0x1_0000 + ((v >> 24) as u8) as int * 0x100_0000 == v as int)
        by (bit_vector);
}

/// A byte stored at `i` reads back, through the signed byte load, as its
/// two's-complement value.
pub proof fn lemma_signed_byte_round_trip(m: Seq<u8>, i: int, v: u8)
    requires
        0 <= i < m.len(),
    ensures
        signed8(byte_at(put_byte(m, i, v), i)) == v as i8 as int,
{
    assert(signed8(v as int) == v as i8 as int) by (bit_vector);
}

} // verus!
