use vstd::prelude::*;

verus! {

/// Unsigned value of four bytes read most-significant first.
pub open spec fn be_word(b: Seq<u8>) -> int {
    0x100_0000 * b[0] + 0x1_0000 * b[1] + 0x100 * b[2] + b[3]
}

/// Unsigned value of four bytes read least-significant first.
pub open spec fn le_word(b: Seq<u8>) -> int {
    0x100_0000 * b[3] + 0x1_0000 * b[2] + 0x100 * b[1] + b[0]
}

/// Two's-complement reading of an unsigned 32-bit value.
pub open spec fn signed32(w: int) -> int {
    if w >= 0x8000_0000 {
        w - 0x1_0000_0000
    } else {
        w
    }
}

/// The signed 32-bit integer stored in the four bytes `b`, in the given
/// byte order (`little` selects least-significant-first).
pub open spec fn decode_i32(b: Seq<u8>, little: bool) -> i32 {
    (if little {
        signed32(le_word(b))
    } else {
        signed32(be_word(b))
    }) as i32
}

/// Reads one signed 32-bit integer from four bytes in the given byte order.
pub fn decode_word(b0: u8, b1: u8, b2: u8, b3: u8, little: bool) -> (v: i32)
    ensures
        v == decode_i32(seq![b0, b1, b2, b3], little),
{
    let w: u32 = if little {
        (b3 as u32) * 0x100_0000 + (b2 as u32) * 0x1_0000 + (b1 as u32) * 0x100 + (b0 as u32)
    } else {
        (b0 as u32) * 0x100_0000 + (b1 as u32) * 0x1_0000 + (b2 as u32) * 0x100 + (b3 as u32)
    };
    if w >= 0x8000_0000 {
        ((w as i64) - 0x1_0000_0000i64) as i32
    } else {
        w as i32
    }
}

} // verus!
