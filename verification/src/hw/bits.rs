//! Single bits of bytes and words, read as arithmetic.
use vstd::prelude::*;

verus! {

/// What the bit operations on a byte come to in numbers.
pub proof fn lemma_byte(b: u8)
    by (bit_vector)
    ensures
        (b & 0x1u8 != 0) == (b / 1 % 2 == 1),
        (b >> 0u8) & 1 == b / 1 % 2,
        (b & 0x2u8 != 0) == (b / 2 % 2 == 1),
        (b >> 1u8) & 1 == b / 2 % 2,
        (b & 0x4u8 != 0) == (b / 4 % 2 == 1),
        (b >> 2u8) & 1 == b / 4 % 2,
        (b & 0x8u8 != 0) == (b / 8 % 2 == 1),
        (b >> 3u8) & 1 == b / 8 % 2,
        (b & 0x10u8 != 0) == (b / 16 % 2 == 1),
        (b >> 4u8) & 1 == b / 16 % 2,
        (b & 0x20u8 != 0) == (b / 32 % 2 == 1),
        (b >> 5u8) & 1 == b / 32 % 2,
        (b & 0x40u8 != 0) == (b / 64 % 2 == 1),
        (b >> 6u8) & 1 == b / 64 % 2,
        (b & 0x80u8 != 0) == (b / 128 % 2 == 1),
        (b >> 7u8) & 1 == b / 128 % 2,
        b & 0x1u8 == b % 2,
        b & 0x3u8 == b % 4,
        b & 0x7u8 == b % 8,
        b & 0xfu8 == b % 16,
        b & 0x1fu8 == b % 32,
        b & 0x3fu8 == b % 64,
        b & 0x7fu8 == b % 128,
        b & 0xf8u8 == b / 8 * 8,
        b & 0xf0u8 == b / 16 * 16,
        b | 0xf8u8 == b % 8 + 0xf8,
        0xf0u8 | b == b % 16 + 0xf0,
        b | 0x04u8 == b / 8 * 8 + 4 + b % 4,
        b & !0x04u8 == b / 8 * 8 + b % 4,
        (b & 0xfcu8) | 0u8 == b / 4 * 4,
        (b & 0xfcu8) | 1u8 == b / 4 * 4 + 1,
        (b & 0xfcu8) | 2u8 == b / 4 * 4 + 2,
        (b & 0xfcu8) | 3u8 == b / 4 * 4 + 3,
        b | 0u8 == b,
        b | 0xe0u8 == b % 32 + 0xe0,
        b | 0x80u8 == b % 128 + 128,
        0x80u8 | b == b % 128 + 128,
        b | 0x40u8 == b / 128 * 128 + 64 + b % 64,
        b & 0xbfu8 == b / 128 * 128 + b % 64,
        b & 0x80u8 == b / 128 * 128,
        b & 0x30u8 == b / 16 % 4 * 16,
        b & 0x78u8 == b / 8 % 16 * 8,
        b | 0xfeu8 == b % 2 + 254,
        0xfeu8 | b == b % 2 + 254,
        (b >> 2u8) & 3 == b / 4 % 4,
        (b >> 4u8) & 3 == b / 16 % 4,
        (b >> 6u8) & 3 == b / 64,
        (b >> 0u8) & 3 == b % 4,
{
}

/// What the bit operations on a word come to in numbers.
pub proof fn lemma_word(w: u16)
    by (bit_vector)
    ensures
        (w & 0x1u16 != 0) == (w / 1 % 2 == 1),
        (w & 0x2u16 != 0) == (w / 2 % 2 == 1),
        (w & 0x4u16 != 0) == (w / 4 % 2 == 1),
        (w & 0x8u16 != 0) == (w / 8 % 2 == 1),
        (w & 0x10u16 != 0) == (w / 16 % 2 == 1),
        (w & 0x20u16 != 0) == (w / 32 % 2 == 1),
        (w & 0x40u16 != 0) == (w / 64 % 2 == 1),
        (w & 0x80u16 != 0) == (w / 128 % 2 == 1),
        (w & 0x100u16 != 0) == (w / 256 % 2 == 1),
        (w & 0x200u16 != 0) == (w / 512 % 2 == 1),
        (w & 0x400u16 != 0) == (w / 1024 % 2 == 1),
        (w & 0x800u16 != 0) == (w / 2048 % 2 == 1),
        (w & 0x1000u16 != 0) == (w / 4096 % 2 == 1),
        (w & 0x2000u16 != 0) == (w / 8192 % 2 == 1),
        (w & 0x4000u16 != 0) == (w / 16384 % 2 == 1),
        (w & 0x8000u16 != 0) == (w / 32768 % 2 == 1),
        (w >> 8u16) as u8 == w / 256,
        w >> 8u16 == w / 256,
        w & 0xffu16 == w % 256,
{
}

} // verus!
