//! Mapping of pixel coordinates to a byte index and a bit offset.
use vstd::prelude::*;

verus! {

/// Where a pixel lives in a packed 1-bit-per-pixel buffer.
pub struct Address {
    pub buffer_position: usize,
    pub byte_offset: u8,
}

/// Byte index of pixel `(x, y)` in a buffer whose rows are `width` pixels wide.
pub open spec fn byte_index(x: int, y: int, width: int) -> int {
    x / 8 + y * width / 8
}

/// Bit offset of pixel `x` within its byte.
pub open spec fn bit_offset(x: int) -> int {
    x % 8
}

/// Maps `(x, y)` to the byte that holds it and the bit within that byte.
pub fn get_address(x: u16, y: u16, width: u16) -> (a: Address)
    ensures
        a.buffer_position == byte_index(x as int, y as int, width as int),
        a.byte_offset == bit_offset(x as int),
        a.byte_offset < 8,
{
    proof {
        assert((y as int) * (width as int) <= 65535 * 65535) by (nonlinear_arith)
            requires
                y <= 65535,
                width <= 65535,
        ;
    }
    let row_start: u32 = (y as u32) * (width as u32) / 8;
    let position: u32 = (x as u32) / 8 + row_start;
    Address { buffer_position: position as usize, byte_offset: (x % 8) as u8 }
}

/// For a row width that is a whole number of bytes, the pixel `(x, y)` with
/// `x < width` lies in row `y`: its byte is byte `x / 8` of that row, and its bit
/// offset is in `0..8`.
pub proof fn lemma_address_in_row(x: int, y: int, width: int)
    requires
        0 <= x < width,
        0 <= y,
        width % 8 == 0,
    ensures
        byte_index(x, y, width) == x / 8 + y * (width / 8),
        y * (width / 8) <= byte_index(x, y, width) < (y + 1) * (width / 8),
        0 <= bit_offset(x) < 8,
{
    let s = width / 8;
    assert(width == 8 * s);
    assert(y * width == 8 * (y * s)) by (nonlinear_arith)
        requires
            width == 8 * s,
    ;
    assert(x / 8 < s);
    assert((y + 1) * s == y * s + s) by (nonlinear_arith);
}

} // verus!
