//! Rotates, single bits, and the operations on the accumulator and the flags.

use vstd::prelude::*;
use crate::recomp::abi::{GbState, FLAG_C, FLAG_H, FLAG_N, OFF_A, OFF_F};
use crate::recomp::bus::Hardware;
use crate::recomp::meaning;
use crate::recomp::meaning::arith;
use crate::recomp::program;
use crate::recomp::program::Gen;
use crate::recomp::sm83;
use crate::recomp::x64;
use crate::recomp::x64::{Alu, Cc, Op, Rm, Shift, State, R8, R9, RAX, RCX, RDX};
use crate::recomp::x86;
use crate::recomp::x86::Machine;

verus! {

/// The byte rotates and shifts, as arithmetic; `c` is the carry in.
proof fn lemma_shift_bits(v: u8, c: u32)
    by (bit_vector)
    requires
        c < 2,
    ensures
        ((v as u32) << 1 | (v as u32) >> 7) as u8 == v % 128 * 2 + v / 128,
        ((v as u32) >> 1 | (v as u32) << 7) as u8 == v / 2 + 128 * (v % 2),
        (v << 1) | (c as u8) == v % 128 * 2 + c,
        (v >> 1) | ((c << 7) as u8) == v / 2 + 128 * c,
        v << 1 == v % 128 * 2,
        ((v as i8) >> 1) as u8 == v / 2 + v / 128 * 128,
        ((v as u32) << 4 | (v as u32) >> 4) as u8 == v % 16 * 16 + v / 16,
        v >> 1 == v / 2,
        c << 7 < 256,
        (((v as u32) >> 7) & 1) << 4 == v / 128 * 16,
        (((v as u32) & 1) & 1) << 4 == v % 2 * 16,
{
}

/// Rotate or shift the byte in AL: the result stays there, and the bit that fell
/// off is in ECX, in the place of the carry flag.
#[verifier::rlimit(60)]
#[verifier::spinoff_prover]
pub proof fn lemma_rotate(hw: Hardware, g: Gen, kind: u8, m0: Machine)
    requires
        meaning::ready(hw, g, m0),
        kind < 8,
    ensures
        ({
            let m = meaning::at(hw, g, m0);
            let h = g.rotate(kind);
            let n = meaning::at(hw, h, m0);
            let v = x86::low8(m.rax);
            &&& meaning::ready(hw, h, m0)
            &&& n.w == m.w
            &&& n.rax == sm83::rotated(kind as int, v, sm83::carry_flag(m.w.st.f))
            &&& n.rcx == 16 * sm83::bit_of(sm83::carried(kind as int, v))
            &&& h.owed == g.owed
        }),
{
    broadcast use meaning::group_follow;

    reveal(Gen::rotate);
    let m = meaning::at(hw, g, m0);
    let v = x86::low8(m.rax);
    let f = m.w.st.f as u32;
    arith::lemma_carry_bit(f);
    let c = (f >> 4) & 1;
    lemma_shift_bits(v, c);
    arith::lemma_flag_bits(0, 0, 0);
    if kind == 0 {
        assert(meaning::at(hw, g.rotate(0), m0).rax == x86::shift8(Shift::Rol, v, 1));
    } else if kind == 1 {
        assert(meaning::at(hw, g.rotate(1), m0).rax == x86::shift8(Shift::Ror, v, 1));
    } else if kind == 2 {
        assert(meaning::at(hw, g.rotate(2), m0).rax == x86::shift8(Shift::Shl, v, 1) | (c as u8));
    } else if kind == 3 {
        assert(meaning::at(hw, g.rotate(3), m0).rax == x86::shift8(Shift::Shr, v, 1) | ((c
            << 7) as u8));
    } else if kind == 4 {
        assert(meaning::at(hw, g.rotate(4), m0).rax == x86::shift8(Shift::Shl, v, 1));
    } else if kind == 5 {
        assert(meaning::at(hw, g.rotate(5), m0).rax == x86::shift8(Shift::Sar, v, 1));
    } else if kind == 6 {
        assert(meaning::at(hw, g.rotate(6), m0).rax == x86::shift8(Shift::Rol, v, 4));
    } else {
        assert(meaning::at(hw, g.rotate(7), m0).rax == x86::shift8(Shift::Shr, v, 1));
    }
}

proof fn lemma_mask_bits(b: u8)
    by (bit_vector)
    requires
        b < 8,
    ensures
        (1u32 << (b as u32)) < 256,
        ((1u32 << (b as u32)) as u8) == 1u8 << b,
        ((0xffu32 - (1u32 << (b as u32))) as u8) == !(1u8 << b),
        (1u32 << (b as u32)) > 0,
{
}

/// Z from AL beside the carry that `rotate` left in ECX.
proof fn lemma_rotate_flags(z: u32, c: u32)
    by (bit_vector)
    requires
        z < 2,
        c == 0 || c == 16,
    ensures
        c | (z << 7) == c + 128 * z,
{
}

/// The instructions behind the `CB` prefix.
pub proof fn lemma_prefixed(hw: Hardware, g: Gen, cb: u8, m0: Machine)
    requires
        meaning::ready(hw, g, m0),
    ensures
        meaning::ready(hw, g.cb_instruction(cb), m0),
        meaning::here(hw, g.cb_instruction(cb), m0) == sm83::prefixed(
            hw,
            meaning::here(hw, g, m0),
            cb,
        ),
        g.cb_instruction(cb).owed <= g.owed,
{
    broadcast use meaning::group_follow;

    reveal(Gen::cb_instruction);
    let idx = (cb % 8) as u8;
    let bit = (cb / 8 % 8) as u8;
    lemma_mask_bits(bit);
    let mask = 1u32 << (bit as u32);
    let g1 = g.load_operand(idx);
    meaning::lemma_load_operand(hw, g, idx, m0);
    let m1 = meaning::at(hw, g1, m0);
    let w1 = meaning::here(hw, g1, m0);
    let v = x86::low8(m1.rax);
    if cb < 0x40 {
        let g2 = g1.rotate(bit);
        lemma_rotate(hw, g1, bit, m0);
        let r = sm83::rotated(bit as int, v, sm83::carry_flag(w1.st.f));
        let c = (16 * sm83::bit_of(sm83::carried(bit as int, v))) as u32;
        arith::lemma_and_self();
        let g3 = g2.flags_from_al(true, false);
        lemma_rotate_flags(0, c);
        lemma_rotate_flags(1, c);
        assert(meaning::ready(hw, g3, m0));
        assert(x86::low8(meaning::at(hw, g3, m0).rax) == r);
        assert(meaning::here(hw, g3, m0) == w1.with(
            GbState {
                f: sm83::flags(r == 0, false, false, sm83::carried(bit as int, v)),
                ..w1.st
            },
        ));
        meaning::lemma_store_operand(hw, g3, idx, m0);
    } else if cb < 0x80 {
        let f = w1.st.f as u32;
        arith::lemma_flag_bits(0, 0, f);
        arith::lemma_flag_bits(1, 0, f);
    } else if cb < 0xc0 {
        let g2 = g1.op(Op::AluImm(Alu::And, Rm::R(RAX), (0xff - mask) as u32, 1));
        assert(meaning::ready(hw, g2, m0));
        assert(meaning::here(hw, g2, m0) == w1);
        assert(x86::low8(meaning::at(hw, g2, m0).rax) == v & !(1u8 << bit));
        meaning::lemma_store_operand(hw, g2, idx, m0);
    } else {
        let g2 = g1.op(Op::AluImm(Alu::Or, Rm::R(RAX), mask, 1));
        assert(meaning::ready(hw, g2, m0));
        assert(meaning::here(hw, g2, m0) == w1);
        assert(x86::low8(meaning::at(hw, g2, m0).rax) == v | (1u8 << bit));
        meaning::lemma_store_operand(hw, g2, idx, m0);
    }
}

/// The flag register, one bit at a time.
proof fn lemma_f_bits(f: u8, a: u8)
    by (bit_vector)
    ensures
        !a == 255 - a,
        f % 16 == 0 ==> f | 0x60 == f / 128 * 128 + 0x60 + f / 16 % 2 * 16,
        (f & 0x80) | 0x10 == f / 128 * 128 + 16,
        (((f as u32) & 0x10) ^ 0x10) | ((f as u32) & 0x80) == f / 128 * 128 + 16 - f / 16 % 2 * 16,
        f & 0x10 == 0 <==> f / 16 % 2 == 0,
        f & 0x20 == 0 <==> f / 32 % 2 == 0,
        f & 0x40 == 0 <==> f / 64 % 2 == 0,
        (f as u32) & 0x40 == f / 64 % 2 * 64,
        (a as u32) & 0x0f == a % 16,
{
}

/// RLCA, RRCA, RLA, RRA, CPL, SCF and CCF.
pub proof fn lemma_accumulator(hw: Hardware, g: Gen, op: u8, m0: Machine)
    requires
        meaning::ready(hw, g, m0),
        op < 0x40,
        op % 8 == 7,
        meaning::here(hw, g, m0).st.f % 16 == 0,
    ensures
        ({
            let w = meaning::here(hw, g, m0);
            let h = g.accumulator(op);
            &&& meaning::ready(hw, h, m0)
            &&& meaning::here(hw, h, m0) == w.with(sm83::accumulator(w.st, op))
            &&& h.owed == g.owed
        }),
{
    broadcast use meaning::group_follow;

    reveal(Gen::accumulator);
    let m = meaning::at(hw, g, m0);
    lemma_f_bits(m.w.st.f, m.w.st.a);
    if op < 0x20 {
        let g1 = g.op(Op::Movzx(RAX, State(OFF_A), 1));
        assert(meaning::ready(hw, g1, m0));
        assert(meaning::here(hw, g1, m0) == meaning::here(hw, g, m0));
        lemma_rotate(hw, g1, (op / 8) as u8, m0);
    } else if op == 0x27 {
        lemma_daa(hw, g, m0);
    } else if op == 0x2f {
    } else if op == 0x37 {
    } else {
    }
}

proof fn lemma_adjust_bits()
    by (bit_vector)
    ensures
        0u32 | 0x60 == 0x60,
        0u32 | 0x06 == 0x06,
        0x60u32 | 0x06 == 0x66,
        0x06u32 | 0x06 == 0x06,
        0x66u32 | 0x06 == 0x66,
        0x60u32 | 0x60 == 0x60,
        0x06u32 | 0x60 == 0x66,
        0x66u32 | 0x60 == 0x66,
{
}

/// The digit corrections collected in R8 and the carry in R9.
spec fn adjusts(m: Machine, high: bool, low: bool) -> bool {
    &&& m.r8 == (if high {
        0x60int
    } else {
        0
    }) + (if low {
        0x06int
    } else {
        0
    })
    &&& m.r9 == sm83::bit_of(high)
}

/// The two machines differ only in scratch registers.
spec fn same(m: Machine, n: Machine) -> bool {
    &&& m.w == n.w
    &&& m.ok == n.ok
    &&& m.rsp == n.rsp
    &&& m.rax == n.rax
    &&& m.rcx == n.rcx
}

proof fn lemma_daa_digit(hw: Hardware, m: Machine, high: bool, low: bool)
    requires
        adjusts(m, high, low),
        m.ok,
    ensures
        x86::run(hw, program::daa_high(), 0, m) is Fell,
        same(x86::run(hw, program::daa_high(), 0, m)->Fell_0, m),
        adjusts(x86::run(hw, program::daa_high(), 0, m)->Fell_0, true, low),
        x86::run(hw, program::daa_low(), 0, m) is Fell,
        same(x86::run(hw, program::daa_low(), 0, m)->Fell_0, m),
        adjusts(x86::run(hw, program::daa_low(), 0, m)->Fell_0, high, true),
        program::code_len(program::daa_high()) < 100,
        program::code_len(program::daa_low()) < 100,
{
    broadcast use {x86::group_steps, x86::group_widths};

    lemma_adjust_bits();
    let a = Op::AluImm(Alu::Or, Rm::R(R8), 0x60, 4);
    let b = Op::MovImm32(R9, 1);
    let c = Op::AluImm(Alu::Or, Rm::R(R8), 0x06, 4);
    meaning::lemma_run_few(hw, a, b, m);
    meaning::lemma_run_few(hw, c, b, m);
    x64::lemma_encode_all_short(program::daa_high());
    x64::lemma_encode_all_short(program::daa_low());
}

/// The side of DAA that follows an addition.
proof fn lemma_daa_add(hw: Hardware, m: Machine, a: u8, high: bool, low: bool)
    requires
        adjusts(m, high, low),
        m.ok,
        m.rax == a,
    ensures
        ({
            let out = x86::run(hw, program::daa_add(), 0, m);
            let n = out->Fell_0;
            let h = high || a > 0x99;
            let l = low || a % 16 > 9;
            &&& out is Fell
            &&& n.w == m.w
            &&& n.ok
            &&& n.rsp == m.rsp
            &&& n.rcx == m.rcx
            &&& adjusts(n, h, l)
            &&& n.rax == a + n.r8
        }),
        program::code_len(program::daa_add()) < 1000,
{
    broadcast use meaning::group_follow;

    lemma_f_bits(0, a);
    meaning::lemma_start(hw, 0, m);
    let g0 = Gen { ops: seq![], owed: 0 };
    let g1 = g0.copy(RDX, RAX).imm_op(Alu::And, RDX, 0x0f).imm_op(Alu::Cmp, RDX, 9);
    let m1 = meaning::at(hw, g1, m);
    assert(meaning::falls(hw, g1, m) && same(m1, m) && adjusts(m1, high, low));
    assert(x86::holds(Cc::Be, m1) == (a % 16 <= 9));
    lemma_daa_digit(hw, m1, high, low);
    let g2 = g1.unless(Cc::Be, program::daa_low());
    meaning::lemma_unless(hw, g1, Cc::Be, program::daa_low(), m);
    let m2 = meaning::at(hw, g2, m);
    let l = low || a % 16 > 9;
    assert(same(m2, m) && adjusts(m2, high, l));
    let g3 = g2.imm_op(Alu::Cmp, RAX, 0x99);
    let m3 = meaning::at(hw, g3, m);
    assert(meaning::falls(hw, g3, m) && same(m3, m) && adjusts(m3, high, l));
    assert(x86::holds(Cc::Be, m3) == (a <= 0x99));
    lemma_daa_digit(hw, m3, high, l);
    let g4 = g3.unless(Cc::Be, program::daa_high());
    meaning::lemma_unless(hw, g3, Cc::Be, program::daa_high(), m);
    let m4 = meaning::at(hw, g4, m);
    let h = high || a > 0x99;
    assert(same(m4, m) && adjusts(m4, h, l));
    let g5 = g4.reg_op(Alu::Add, RAX, R8);
    assert(meaning::falls(hw, g5, m));
    let m5 = meaning::at(hw, g5, m);
    assert(m5.rax == a + m4.r8 && m5.r8 == m4.r8);
    assert(g5.ops == program::daa_add());
    reveal(meaning::falls);
    reveal(meaning::at);
    reveal(Gen::unless);
    assert(program::daa_add().len() < 20);
    x64::lemma_encode_all_short(program::daa_add());
}

/// DAA.
proof fn lemma_daa(hw: Hardware, g: Gen, m0: Machine)
    requires
        meaning::ready(hw, g, m0),
    ensures
        ({
            let w = meaning::here(hw, g, m0);
            let h = g.daa();
            &&& meaning::ready(hw, h, m0)
            &&& meaning::here(hw, h, m0) == w.with(sm83::daa(w.st))
            &&& h.owed == g.owed
        }),
{
    broadcast use meaning::group_follow;

    reveal(Gen::daa);
    let m = meaning::at(hw, g, m0);
    let st = m.w.st;
    let a = st.a;
    let f = st.f;
    lemma_f_bits(f, a);
    arith::lemma_flag_bits(0, 0, 0);
    let carry = sm83::carry_flag(f);
    let half = sm83::half_flag(f);
    let sub = sm83::subtract_flag(f);
    let g1 = g.op(Op::Movzx(RAX, State(OFF_A), 1))
        .op(Op::Movzx(RCX, State(OFF_F), 1))
        .reg_op(Alu::Xor, R8, R8)
        .reg_op(Alu::Xor, R9, R9)
        .op(Op::TestImm(Rm::R(RCX), FLAG_C as u32, 1));
    let m1 = meaning::at(hw, g1, m0);
    assert(meaning::ready(hw, g1, m0) && m1.w == m.w && m1.rax == a && m1.rcx == f);
    assert(adjusts(m1, false, false));
    assert(m1.zf == !carry);
    lemma_daa_digit(hw, m1, false, false);
    let g2 = g1.unless(Cc::E, program::daa_high());
    meaning::lemma_unless(hw, g1, Cc::E, program::daa_high(), m0);
    let m2 = meaning::at(hw, g2, m0);
    assert(same(m2, m1) && adjusts(m2, carry, false));
    let g3 = g2.op(Op::TestImm(Rm::R(RCX), FLAG_H as u32, 1));
    let m3 = meaning::at(hw, g3, m0);
    assert(meaning::falls(hw, g3, m0) && same(m3, m1) && adjusts(m3, carry, false));
    assert(m3.zf == !half);
    lemma_daa_digit(hw, m3, carry, false);
    let g4 = g3.unless(Cc::E, program::daa_low());
    meaning::lemma_unless(hw, g3, Cc::E, program::daa_low(), m0);
    let m4 = meaning::at(hw, g4, m0);
    assert(same(m4, m1) && adjusts(m4, carry, half));
    let g5 = g4.op(Op::TestImm(Rm::R(RCX), FLAG_N as u32, 1));
    let m5 = meaning::at(hw, g5, m0);
    assert(meaning::falls(hw, g5, m0) && same(m5, m1) && adjusts(m5, carry, half));
    assert(m5.zf == !sub);
    lemma_daa_add(hw, m5, a, carry, half);
    let minus = Op::AluStore(Alu::Sub, Rm::R(RAX), R8, 4);
    meaning::lemma_run_few(hw, minus, minus, m5);
    x64::lemma_encode_all_short(program::daa_sub());
    let g6 = g5.either(Cc::Ne, program::daa_add(), program::daa_sub());
    meaning::lemma_either(hw, g5, Cc::Ne, program::daa_add(), program::daa_sub(), m0);
    let m6 = meaning::at(hw, g6, m0);
    let high = sm83::daa_high(st);
    let low = sm83::daa_low(st);
    assert(m6.w == m.w && m6.ok && m6.rsp == m0.rsp && m6.rcx == f && adjusts(m6, high, low));
    let adjust = m6.r8 as u32;
    let x = if sub {
        arith::minus32(a as u32, adjust)
    } else {
        (a + adjust) as u32
    };
    assert(m6.rax == x);
    let r = (x & 0xff) as u8;
    assert(r == (if sub {
        (a - adjust) % 256
    } else {
        (a + adjust) % 256
    }) && x & 0xff < 256) by {
        arith::lemma_difference_value(a as u32, adjust, 0);
        arith::lemma_and_ff();
        assert(((a + adjust) as u32) & 0xff == ((a + adjust) as u32) % 256) by {
            lemma_low_byte((a + adjust) as u32);
        }
    }
    arith::lemma_and_self();
    let bits = (((f as u32) & 0x40) | ((m6.r9 as u32) << 4)) | ((if r == 0 {
        1u32
    } else {
        0u32
    }) << 7);
    lemma_daa_flags(f as u32, m6.r9 as u32, 0);
    lemma_daa_flags(f as u32, m6.r9 as u32, 1);
    let n = meaning::at(hw, g.daa(), m0);
    assert(g.daa() == daa_end(g6) && g.daa().owed == g.owed) by {
        reveal(Gen::unless);
        reveal(Gen::either);
    }
    lemma_daa_end(hw, g6, m0);
    assert(n.w == m.w.with(GbState { a: r, f: x86::low8(bits as u64), ..st }));
}

proof fn lemma_low_byte(x: u32)
    by (bit_vector)
    ensures
        x & 0xff == x % 256,
{
}

proof fn lemma_daa_flags(f: u32, c: u32, z: u32)
    by (bit_vector)
    requires
        f < 256,
        c < 2,
        z < 2,
    ensures
        ((f & 0x40) | (c << 4)) | (z << 7) == f / 64 % 2 * 64 + c * 16 + z * 128,
{
}

/// The end of DAA: N survives, H clears.
spec fn daa_end(g: Gen) -> Gen {
    g.imm_op(Alu::And, RAX, 0xff)
        .op(Op::MovStore(State(OFF_A), RAX, 1))
        .imm_op(Alu::And, RCX, FLAG_N as u32)
        .shift(Shift::Shl, R9, 4)
        .reg_op(Alu::Or, RCX, R9)
        .op(Op::Test(Rm::R(RAX), RAX, 1))
        .zero_flag()
        .reg_op(Alu::Or, RCX, R9)
        .op(Op::MovStore(State(OFF_F), RCX, 1))
}

proof fn lemma_daa_end(hw: Hardware, g: Gen, m0: Machine)
    requires
        meaning::falls(hw, g, m0),
        meaning::at(hw, g, m0).ok,
        meaning::at(hw, g, m0).rax < 0x1_0000_0000,
        meaning::at(hw, g, m0).rcx < 0x1_0000_0000,
        meaning::at(hw, g, m0).r9 < 0x1_0000_0000,
    ensures
        ({
            let m = meaning::at(hw, g, m0);
            let n = meaning::at(hw, daa_end(g), m0);
            let r = (m.rax as u32) & 0xff;
            let bits = (((m.rcx as u32) & 0x40) | ((m.r9 as u32) << 4)) | ((if r == 0 {
                1u32
            } else {
                0u32
            }) << 7);
            &&& meaning::falls(hw, daa_end(g), m0)
            &&& n.ok
            &&& n.rsp == m.rsp
            &&& n.w == m.w.with(GbState { a: r as u8, f: x86::low8(bits as u64), ..m.w.st })
        }),
{
    broadcast use meaning::group_follow;

    arith::lemma_and_self();
    arith::lemma_and_ff();
}

} // verus!
