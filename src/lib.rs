use vstd::prelude::*;

pub mod guid;
pub mod uefi;

verus! {

/// The two bytes of `v`, least significant first.
pub open spec fn le16(v: u16) -> Seq<u8> {
    seq![(v % 256) as u8, (v / 256) as u8]
}

/// The four bytes of `v`, least significant first.
pub open spec fn le32(v: u32) -> Seq<u8> {
    seq![
        (v % 256) as u8,
        ((v / 256) % 256) as u8,
        ((v / 65536) % 256) as u8,
        (v / 16777216) as u8,
    ]
}

/// Appends `val` to `buf` in little-endian byte order.
pub fn serialize_u32(val: u32, buf: &mut Vec<u8>)
    ensures
        final(buf)@ == old(buf)@ + le32(val),
{
    buf.push((val % 256) as u8);
    buf.push(((val / 256) % 256) as u8);
    buf.push(((val / 65536) % 256) as u8);
    buf.push((val / 16777216) as u8);
    assert(buf@ =~= old(buf)@ + le32(val));
}

/// Appends `val` to `buf` in little-endian byte order.
pub fn serialize_u16(val: u16, buf: &mut Vec<u8>)
    ensures
        final(buf)@ == old(buf)@ + le16(val),
{
    buf.push((val % 256) as u8);
    buf.push((val / 256) as u8);
    assert(buf@ =~= old(buf)@ + le16(val));
}

/// The value whose little-endian bytes are `b0`, `b1`.
pub open spec fn from_le16(b0: u8, b1: u8) -> u16 {
    (b0 + 256 * b1) as u16
}

/// The value whose little-endian bytes are `b0` to `b3`.
pub open spec fn from_le32(b0: u8, b1: u8, b2: u8, b3: u8) -> u32 {
    (b0 + 256 * b1 + 65536 * b2 + 16777216 * b3) as u32
}

/// Writing two bytes read in little-endian order gives them back.
pub proof fn lemma_le16_of_bytes(b0: u8, b1: u8)
    ensures
        le16(from_le16(b0, b1)) == seq![b0, b1],
{
    let v: int = b0 + 256 * b1;
    assert(0 <= v < 65536 && v % 256 == b0 && v / 256 == b1) by (nonlinear_arith)
        requires
            v == b0 + 256 * b1,
            0 <= b0 < 256,
            0 <= b1 < 256,
    ;
    assert(le16(from_le16(b0, b1)) =~= seq![b0, b1]);
}

/// Writing four bytes read in little-endian order gives them back.
pub proof fn lemma_le32_of_bytes(b0: u8, b1: u8, b2: u8, b3: u8)
    ensures
        le32(from_le32(b0, b1, b2, b3)) == seq![b0, b1, b2, b3],
{
    let v: int = b0 + 256 * b1 + 65536 * b2 + 16777216 * b3;
    assert(0 <= v < 0x1_0000_0000 && v % 256 == b0 && (v / 256) % 256 == b1 && (v / 65536)
        % 256 == b2 && v / 16777216 == b3) by (nonlinear_arith)
        requires
            v == b0 + 256 * b1 + 65536 * b2 + 16777216 * b3,
            0 <= b0 < 256,
            0 <= b1 < 256,
            0 <= b2 < 256,
            0 <= b3 < 256,
    ;
    assert(le32(from_le32(b0, b1, b2, b3)) =~= seq![b0, b1, b2, b3]);
}

/// Reading back the little-endian bytes of a value gives the value.
pub proof fn lemma_from_le16_of_value(v: u16)
    ensures
        from_le16(le16(v)[0], le16(v)[1]) == v,
{
    assert(v == v % 256 + 256 * (v / 256)) by (nonlinear_arith);
}

/// Reading back the little-endian bytes of a value gives the value.
pub proof fn lemma_from_le32_of_value(v: u32)
    ensures
        from_le32(le32(v)[0], le32(v)[1], le32(v)[2], le32(v)[3]) == v,
{
    let x: int = v as int;
    assert(x == x % 256 + 256 * ((x / 256) % 256) + 65536 * ((x / 65536) % 256) + 16777216 * (x
        / 16777216) && x / 16777216 < 256) by (nonlinear_arith)
        requires
            0 <= x < 0x1_0000_0000,
    ;
}

/// Reads two bytes as a little-endian value.
pub fn u16_from_le(b0: u8, b1: u8) -> (r: u16)
    ensures
        r == from_le16(b0, b1),
{
    b0 as u16 + (b1 as u16) * 256
}

/// Reads four bytes as a little-endian value.
pub fn u32_from_le(b0: u8, b1: u8, b2: u8, b3: u8) -> (r: u32)
    ensures
        r == from_le32(b0, b1, b2, b3),
{
    b0 as u32 + (b1 as u32) * 256 + (b2 as u32) * 65536 + (b3 as u32) * 16777216
}

} // verus!
