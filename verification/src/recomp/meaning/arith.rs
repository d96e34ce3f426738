//! The 8-bit arithmetic instructions.

use vstd::prelude::*;
use crate::recomp::abi::GbState;
use crate::recomp::bus::Hardware;
use crate::recomp::meaning;
use crate::recomp::program::Gen;
use crate::recomp::sm83;
use crate::recomp::x64::Alu;
use crate::recomp::x86;
use crate::recomp::x86::Machine;

verus! {

/// The carries of a byte addition, read off where the sum differs from the sum
/// without carries, as flags; `z` is the zero flag as 0 or 1.
pub proof fn lemma_sum_bits(a: u32, v: u32, c: u32, s: u32, z: u32)
    by (bit_vector)
    requires
        a < 256,
        v < 256,
        c < 2,
        z < 2,
        s == a + v + c,
    ensures
        ((((((a ^ v) ^ c) ^ s) & 0x10) << 1) | ((((((a ^ v) ^ c) ^ s) >> 8) & 1) << 4)) | (z << 7)
            == 128 * z + (if a % 16 + v % 16 + c > 15 {
            32int
        } else {
            0
        }) + (if s > 255 {
            16int
        } else {
            0
        }),
        s & 0xff == s % 256,
        (a ^ v) ^ 0 == a ^ v,
{
}

pub proof fn lemma_and_self()
    by (bit_vector)
    ensures
        forall|x: u8| #[trigger] (x & x) == x,
{
}

/// The borrows of a byte subtraction, read off in the same way.
pub proof fn lemma_difference_bits(a: u32, v: u32, c: u32, d: u32, s: u32, z: u32)
    by (bit_vector)
    requires
        a < 256,
        v < 256,
        c < 2,
        z < 2,
        d + v == a || d + v == a + 0x1_0000_0000,
        s + c == d || s + c == d + 0x1_0000_0000,
    ensures
        (((((((a ^ v) ^ c) ^ s) & 0x10) << 1) | ((((((a ^ v) ^ c) ^ s) >> 8) & 1) << 4)) | (z << 7))
            | 0x40 == 128 * z + 64 + (if a % 16 < v % 16 + c {
            32int
        } else {
            0
        }) + (if a < v + c {
            16int
        } else {
            0
        }),
        s & 0xff == s % 256,
        a < v + c ==> (s & 0xff) + v + c == a + 256,
        a >= v + c ==> (s & 0xff) + v + c == a,
        (a ^ v) ^ 0 == a ^ v,
{
}

/// The carry flag as a number.
pub proof fn lemma_carry_bit(f: u32)
    by (bit_vector)
    requires
        f < 256,
    ensures
        (f >> 4) & 1 == f / 16 % 2,
{
}

/// ADD and ADC.
pub proof fn lemma_sum(hw: Hardware, g: Gen, with_carry: bool, m0: Machine)
    requires
        meaning::ready(hw, g, m0),
    ensures
        ({
            let w = meaning::here(hw, g, m0);
            let h = g.alu_add_sub(false, with_carry, true);
            let v = x86::low8(meaning::at(hw, g, m0).rax);
            &&& meaning::ready(hw, h, m0)
            &&& meaning::here(hw, h, m0) == w.with(sm83::alu(w.st, sm83::bit_of(with_carry), v))
            &&& h.owed == g.owed
        }),
{
    broadcast use meaning::group_follow;

    reveal(Gen::alu_add_sub);
    lemma_and_self();
    let m = meaning::at(hw, g, m0);
    let a = m.w.st.a as u32;
    let v = x86::low8(m.rax) as u32;
    let f = m.w.st.f as u32;
    lemma_carry_bit(f);
    if with_carry {
        let c = (f / 16 % 2) as u32;
        let s = (a + v + c) as u32;
        let n = meaning::at(hw, g.alu_add_sub(false, true, true), m0);
        assert(n.w.st.a == x86::low8((s & 0xff) as u64));
        let z: u32 = if s & 0xff == 0 { 1 } else { 0 };
        lemma_sum_bits(a, v, c, s, z);
        assert(n.w.st.f == sm83::sum_flags(a as u8, v as u8, c as int));
    } else {
        let s = (a + v) as u32;
        let n = meaning::at(hw, g.alu_add_sub(false, false, true), m0);
        assert(n.w.st.a == x86::low8((s & 0xff) as u64));
        let z: u32 = if s & 0xff == 0 { 1 } else { 0 };
        lemma_sum_bits(a, v, 0, s, z);
        assert(n.w.st.f == sm83::sum_flags(a as u8, v as u8, 0));
    }
}

/// `x - y` on 32 bits.
pub open spec fn minus32(x: u32, y: u32) -> u32 {
    ((x - y) % 0x1_0000_0000) as u32
}

/// The flag byte the translation makes of the borrows in `x` and of `r`.
pub open spec fn borrow_byte(x: u32, r: u32) -> u32 {
    let z: u32 = if r & 0xff == 0 {
        1
    } else {
        0
    };
    (((x & 0x10) << 1) | (((x >> 8) & 1) << 4)) | (z << 7) | 0x40
}

/// How a subtraction runs.
pub proof fn lemma_difference_runs(hw: Hardware, g: Gen, with_carry: bool, store: bool, m0: Machine)
    requires
        meaning::ready(hw, g, m0),
    ensures
        ({
            let m = meaning::at(hw, g, m0);
            let h = g.alu_add_sub(true, with_carry, store);
            let a = m.w.st.a as u32;
            let v = x86::low8(m.rax) as u32;
            let c = (m.w.st.f as u32 >> 4) & 1;
            let d = minus32(a, v);
            let r = if with_carry {
                minus32(d, c)
            } else {
                d
            };
            let x = if with_carry {
                ((a ^ v) ^ c) ^ r
            } else {
                (a ^ v) ^ r
            };
            &&& meaning::ready(hw, h, m0)
            &&& meaning::at(hw, h, m0).w == m.w.with(
                GbState {
                    a: if store {
                        x86::low8((r & 0xff) as u64)
                    } else {
                        m.w.st.a
                    },
                    f: x86::low8(borrow_byte(x, r) as u64),
                    ..m.w.st
                },
            )
            &&& h.owed == g.owed
        }),
{
    broadcast use meaning::group_follow;

    reveal(Gen::alu_add_sub);
    lemma_and_self();
    lemma_and_ff();
}

pub proof fn lemma_and_ff()
    by (bit_vector)
    ensures
        forall|x: u32| #[trigger] (x & 0xff) < 256,
{
}

pub proof fn lemma_difference_value(a: u32, v: u32, c: u32)
    requires
        a < 256,
        v < 256,
        c < 2,
    ensures
        ({
            let r = minus32(minus32(a, v), c);
            &&& r & 0xff == (a - v - c) % 256
            &&& borrow_byte(((a ^ v) ^ c) ^ r, r) == sm83::difference_flags(
                a as u8,
                v as u8,
                c as int,
            )
        }),
        (a ^ v) ^ 0 == a ^ v,
        minus32(minus32(a, v), 0) == minus32(a, v),
{
    let d = minus32(a, v);
    let r = minus32(d, c);
    assert(d + v == a || d + v == a + 0x1_0000_0000);
    assert(r + c == d || r + c == d + 0x1_0000_0000);
    let z: u32 = if r & 0xff == 0 {
        1
    } else {
        0
    };
    lemma_difference_bits(a, v, c, d, r, z);
    assert((a - v - c) % 256 == r & 0xff);
}

/// SUB, SBC, and CP, which is SUB that throws the result away.
pub proof fn lemma_difference(hw: Hardware, g: Gen, with_carry: bool, store: bool, m0: Machine)
    requires
        meaning::ready(hw, g, m0),
        with_carry ==> store,
    ensures
        ({
            let w = meaning::here(hw, g, m0);
            let h = g.alu_add_sub(true, with_carry, store);
            let v = x86::low8(meaning::at(hw, g, m0).rax);
            let kind = if store {
                2 + sm83::bit_of(with_carry)
            } else {
                7
            };
            &&& meaning::ready(hw, h, m0)
            &&& meaning::here(hw, h, m0) == w.with(sm83::alu(w.st, kind, v))
            &&& h.owed == g.owed
        }),
{
    broadcast use x86::group_widths;

    lemma_difference_runs(hw, g, with_carry, store, m0);
    lemma_and_ff();
    let m = meaning::at(hw, g, m0);
    let a = m.w.st.a as u32;
    let v = x86::low8(m.rax) as u32;
    let f = m.w.st.f as u32;
    lemma_carry_bit(f);
    if with_carry {
        lemma_difference_value(a, v, (f >> 4) & 1);
    } else {
        lemma_difference_value(a, v, 0);
    }
}

/// Flags made of separate bits.
pub proof fn lemma_flag_bits(z: u32, h: u32, c: u32)
    by (bit_vector)
    requires
        z < 2,
        h < 2,
        c < 256,
    ensures
        0x20u32 | (z << 7) == 0x20 + 128 * z,
        0u32 | (z << 7) == 128 * z,
        z == 0 ==> z << 7 == 0,
        z == 1 ==> z << 7 == 0x80,
        ((c & 0x10) | (h << 5)) | (z << 7) == c / 16 % 2 * 16 + h * 32 + z * 128,
        (((c & 0x10) | (h << 5)) | (z << 7)) | 0x40 == c / 16 % 2 * 16 + h * 32 + z * 128 + 64,
        ((c & 0x10) | 0x20) | (z << 7) == c / 16 % 2 * 16 + 32 + z * 128,
        forall|x: u32| #[trigger] (x ^ x) == 0,
{
}

/// AND, XOR and OR.
pub proof fn lemma_logic(hw: Hardware, g: Gen, kind: int, m0: Machine)
    requires
        meaning::ready(hw, g, m0),
        4 <= kind <= 6,
    ensures
        ({
            let w = meaning::here(hw, g, m0);
            let h = if kind == 4 {
                g.alu_logic(Alu::And, true)
            } else if kind == 5 {
                g.alu_logic(Alu::Xor, false)
            } else {
                g.alu_logic(Alu::Or, false)
            };
            &&& meaning::ready(hw, h, m0)
            &&& meaning::here(hw, h, m0) == w.with(sm83::alu(w.st, kind, x86::low8(meaning::at(hw, g, m0).rax)))
            &&& h.owed == g.owed
        }),
{
    broadcast use meaning::group_follow;

    reveal(Gen::alu_logic);
    lemma_and_self();
    lemma_flag_bits(0, 0, 0);
    lemma_flag_bits(1, 0, 0);
}

pub proof fn lemma_alu_op(hw: Hardware, g: Gen, kind: u8, m0: Machine)
    requires
        meaning::ready(hw, g, m0),
        kind < 8,
    ensures
        meaning::ready(hw, g.alu_op(kind), m0),
        g.alu_op(kind).owed == g.owed,
        ({
            let w = meaning::here(hw, g, m0);
            meaning::here(hw, g.alu_op(kind), m0) == w.with(
                sm83::alu(w.st, kind as int, x86::low8(meaning::at(hw, g, m0).rax)),
            )
        }),
{
    reveal(Gen::alu_op);
    if kind == 0 {
        lemma_sum(hw, g, false, m0);
    } else if kind == 1 {
        lemma_sum(hw, g, true, m0);
    } else if kind == 2 {
        lemma_difference(hw, g, false, true, m0);
    } else if kind == 3 {
        lemma_difference(hw, g, true, true, m0);
    } else if kind == 7 {
        lemma_difference(hw, g, false, false, m0);
    } else {
        lemma_logic(hw, g, kind as int, m0);
    }
}

pub proof fn lemma_nibble(v: u8)
    by (bit_vector)
    ensures
        v & 0x0f == v % 16,
{
}

pub proof fn lemma_low8_of_put8(x: u64, v: u8)
    ensures
        x86::low32(x86::put8(x, v)) & 0xff == v,
{
    reveal(x86::put8);
    reveal(x86::low32);
    let p = x86::put8(x, v);
    let y = x86::low32(p);
    assert(y % 256 == v) by {
        vstd::arithmetic::div_mod::lemma_mod_mod(p as int, 256, 0x100_0000);
        assert(p == 256 * (x / 256) + v);
    }
    assert(y & 0xff == y % 256) by (bit_vector);
}

pub proof fn lemma_inc_dec_flags(hw: Hardware, g: Gen, decrement: bool, m0: Machine)
    requires
        meaning::ready(hw, g, m0),
    ensures
        ({
            let w = meaning::here(hw, g, m0);
            let h = g.inc_dec_flags(decrement);
            let v = x86::low8(meaning::at(hw, g, m0).rax);
            let r = (if decrement {
                (v - 1) % 256
            } else {
                (v + 1) % 256
            }) as u8;
            let half = if decrement {
                v % 16 == 0
            } else {
                v % 16 == 15
            };
            &&& meaning::ready(hw, h, m0)
            &&& meaning::here(hw, h, m0) == w.with(
                GbState {
                    f: sm83::flags(r == 0, decrement, half, sm83::carry_flag(w.st.f)),
                    ..w.st
                },
            )
            &&& x86::low8(meaning::at(hw, h, m0).rax) == r
            &&& h.owed == g.owed
        }),
{
    broadcast use meaning::group_follow;

    reveal(Gen::inc_dec_flags);
    lemma_and_self();
    let m = meaning::at(hw, g, m0);
    let v = x86::low8(m.rax);
    let f = m.w.st.f as u32;
    lemma_nibble(v);
    lemma_flag_bits(0, 0, f);
    lemma_flag_bits(0, 1, f);
    lemma_flag_bits(1, 0, f);
    lemma_flag_bits(1, 1, f);
    if decrement {
        let r = ((v - 1) % 256) as u8;
        lemma_low8_of_put8(m.rax, r);
        let n = meaning::at(hw, g.inc_dec_flags(true), m0);
        assert(n.rax == r);
    } else {
        let r = ((v + 1) % 256) as u8;
        lemma_low8_of_put8(m.rax, r);
        let n = meaning::at(hw, g.inc_dec_flags(false), m0);
        assert(n.rax == r);
    }
}

/// INC and DEC of one operand.
pub proof fn lemma_inc_dec(hw: Hardware, g: Gen, idx: u8, decrement: bool, m0: Machine)
    requires
        meaning::ready(hw, g, m0),
        idx < 8,
    ensures
        meaning::ready(hw, g.inc_dec_8(idx, decrement), m0),
        meaning::here(hw, g.inc_dec_8(idx, decrement), m0) == sm83::inc_dec(
            hw,
            meaning::here(hw, g, m0),
            idx as int,
            decrement,
        ),
        g.inc_dec_8(idx, decrement).owed <= g.owed,
{
    reveal(Gen::inc_dec_8);
    let g1 = g.load_operand(idx);
    meaning::lemma_load_operand(hw, g, idx, m0);
    let g2 = g1.inc_dec_flags(decrement);
    lemma_inc_dec_flags(hw, g1, decrement, m0);
    meaning::lemma_store_operand(hw, g2, idx, m0);
}

} // verus!
