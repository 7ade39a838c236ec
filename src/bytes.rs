use byteorder::{ByteOrder, LittleEndian};
use vstd::prelude::*;

verus! {

/// The unsigned value of the `width` bytes of `b` starting at `pos`, least
/// significant byte first.
pub open spec fn le_at(b: Seq<u8>, pos: int, width: nat) -> nat
    decreases width,
{
    if width == 0 {
        0
    } else {
        b[pos] as nat + 256 * le_at(b, pos + 1, (width - 1) as nat)
    }
}

/// `256` to the power `width`: one more than the largest value of `width` bytes.
pub open spec fn byte_range(width: nat) -> nat
    decreases width,
{
    if width == 0 {
        1
    } else {
        256 * byte_range((width - 1) as nat)
    }
}

/// Half the range of a signed integer of `width` bytes, for widths 1 to 4.
pub open spec fn half_range(width: nat) -> int {
    if width == 1 {
        0x80
    } else if width == 2 {
        0x8000
    } else if width == 3 {
        0x80_0000
    } else {
        0x8000_0000
    }
}

/// The two's-complement reading of the unsigned value `u` of `width` bytes.
pub open spec fn to_signed(u: nat, width: nat) -> int {
    if u >= half_range(width) {
        u - 2 * half_range(width)
    } else {
        u as int
    }
}

/// The `width` bytes at `pos` are all within `b`.
pub open spec fn in_bounds(b: Seq<u8>, pos: int, width: int) -> bool {
    0 <= pos && pos + width <= b.len()
}

pub proof fn lemma_le_at_bound(b: Seq<u8>, pos: int, width: nat)
    ensures
        le_at(b, pos, width) < byte_range(width),
    decreases width,
{
    if width > 0 {
        lemma_le_at_bound(b, pos + 1, (width - 1) as nat);
        let x = le_at(b, pos + 1, (width - 1) as nat);
        let p = byte_range((width - 1) as nat);
        let b0 = b[pos] as nat;
        assert(b0 + 256 * x < 256 * p) by (nonlinear_arith)
            requires
                b0 < 256,
                x < p,
        ;
    }
}

/// `le_at` reads only the bytes it covers: two sequences that agree there
/// give the same value.
pub proof fn lemma_le_at_same_bytes(b1: Seq<u8>, p1: int, b2: Seq<u8>, p2: int, width: nat)
    requires
        forall|i: int| 0 <= i < width ==> #[trigger] b1[p1 + i] == b2[p2 + i],
    ensures
        le_at(b1, p1, width) == le_at(b2, p2, width),
    decreases width,
{
    if width > 0 {
        assert(b1[p1 + 0] == b2[p2 + 0]);
        assert forall|i: int| 0 <= i < width - 1 implies #[trigger] b1[(p1 + 1) + i] == b2[(p2
            + 1) + i] by {
            assert(b1[p1 + (i + 1)] == b2[p2 + (i + 1)]);
        }
        lemma_le_at_same_bytes(b1, p1 + 1, b2, p2 + 1, (width - 1) as nat);
    }
}

/// Relies on byteorder's `LittleEndian::read_u16`: the first two bytes of
/// the slice, least significant first.
#[verifier::external_body]
pub(crate) fn read_u16_le(b: &[u8], pos: usize) -> (r: u16)
    requires
        in_bounds(b@, pos as int, 2),
    ensures
        r as nat == le_at(b@, pos as int, 2),
{
    LittleEndian::read_u16(&b[pos..])
}

/// Relies on byteorder's `LittleEndian::read_u32`: the first four bytes of
/// the slice, least significant first.
#[verifier::external_body]
pub(crate) fn read_u32_le(b: &[u8], pos: usize) -> (r: u32)
    requires
        in_bounds(b@, pos as int, 4),
    ensures
        r as nat == le_at(b@, pos as int, 4),
{
    LittleEndian::read_u32(&b[pos..])
}

/// Relies on byteorder's `LittleEndian::read_u64`: the first eight bytes of
/// the slice, least significant first.
#[verifier::external_body]
pub(crate) fn read_u64_le(b: &[u8], pos: usize) -> (r: u64)
    requires
        in_bounds(b@, pos as int, 8),
    ensures
        r as nat == le_at(b@, pos as int, 8),
{
    LittleEndian::read_u64(&b[pos..])
}

/// Relies on byteorder's `LittleEndian::read_i16`: the first two bytes of
/// the slice as a two's-complement integer.
#[verifier::external_body]
pub(crate) fn read_i16_le(b: &[u8], pos: usize) -> (r: i16)
    requires
        in_bounds(b@, pos as int, 2),
    ensures
        r as int == to_signed(le_at(b@, pos as int, 2), 2),
{
    LittleEndian::read_i16(&b[pos..])
}

/// Relies on byteorder's `LittleEndian::read_i24`: the first three bytes of
/// the slice as a two's-complement integer, sign-extended.
#[verifier::external_body]
pub(crate) fn read_i24_le(b: &[u8], pos: usize) -> (r: i32)
    requires
        in_bounds(b@, pos as int, 3),
    ensures
        r as int == to_signed(le_at(b@, pos as int, 3), 3),
{
    LittleEndian::read_i24(&b[pos..])
}

/// Relies on byteorder's `LittleEndian::read_i32`: the first four bytes of
/// the slice as a two's-complement integer.
#[verifier::external_body]
pub(crate) fn read_i32_le(b: &[u8], pos: usize) -> (r: i32)
    requires
        in_bounds(b@, pos as int, 4),
    ensures
        r as int == to_signed(le_at(b@, pos as int, 4), 4),
{
    LittleEndian::read_i32(&b[pos..])
}

/// Whether the four bytes at `pos` are `c0 c1 c2 c3`; `false` where fewer
/// than four bytes are left.
pub fn id_matches(b: &[u8], pos: usize, c0: u8, c1: u8, c2: u8, c3: u8) -> (r: bool)
    ensures
        r == (in_bounds(b@, pos as int, 4) && b@.subrange(pos as int, pos + 4) == seq![
            c0,
            c1,
            c2,
            c3,
        ]),
{
    if pos > b.len() || b.len() - pos < 4 {
        return false;
    }
    let r = b[pos] == c0 && b[pos + 1] == c1 && b[pos + 2] == c2 && b[pos + 3] == c3;
    assert(r == (b@.subrange(pos as int, pos + 4) =~= seq![c0, c1, c2, c3]));
    r
}

} // verus!
