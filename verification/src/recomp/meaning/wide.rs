//! The 16-bit instructions and the stack.

use vstd::prelude::*;
use crate::recomp::abi::{
    GbState, OFF_A, OFF_B, OFF_C, OFF_D, OFF_E, OFF_F, OFF_H, OFF_HL, OFF_L, OFF_READ8, OFF_SCRATCH,
    OFF_SP, OFF_WRITE8,
};
use crate::recomp::bus::Hardware;
use crate::recomp::decode;
use crate::recomp::meaning;
use crate::recomp::meaning::arith;
use crate::recomp::program;
use crate::recomp::program::Gen;
use crate::recomp::sm83;
use crate::recomp::x64::{Alu, Op, Rm, Shift, State, R8, RAX, RDX};
use crate::recomp::x86;
use crate::recomp::x86::Machine;

verus! {

/// The carries out of bits 11 and 15 of a 16-bit addition, as flags, beside the
/// zero flag of `f`.
proof fn lemma_wide_sum_bits(a: u32, v: u32, s: u32, f: u32)
    by (bit_vector)
    requires
        a < 0x1_0000,
        v < 0x1_0000,
        s == a + v,
        f < 256,
    ensures
        ((f & 0x80) | ((((a ^ v) ^ s) & 0x1000) >> 7)) | (((((a ^ v) ^ s) >> 16) & 1) << 4) == f / 128
            * 128 + (if a % 4096 + v % 4096 > 4095 {
            32int
        } else {
            0
        }) + (if s > 65535 {
            16int
        } else {
            0
        }),
{
}

/// The register pair at `pair_offset(row)` is the pair the instruction set means.
pub proof fn lemma_pairs(st: GbState, row: int, v: u16)
    requires
        0 <= row <= 3,
    ensures
        x86::has_field16(program::pair_offset(row)),
        x86::field16(st, program::pair_offset(row)) == sm83::reg16(st, row),
        x86::set_field16(st, program::pair_offset(row), v) == sm83::set_reg16(st, row, v),
{
}

/// ADD HL.
pub proof fn lemma_add_hl(hw: Hardware, g: Gen, row: int, m0: Machine)
    requires
        meaning::ready(hw, g, m0),
        0 <= row <= 3,
    ensures
        ({
            let w = meaning::here(hw, g, m0);
            let h = g.add_hl(program::pair_offset(row));
            &&& meaning::ready(hw, h, m0)
            &&& meaning::here(hw, h, m0) == w.with(sm83::add_hl(w.st, sm83::reg16(w.st, row)))
            &&& h.owed == g.owed
        }),
{
    broadcast use meaning::group_follow;

    reveal(Gen::add_hl);
    let m = meaning::at(hw, g, m0);
    let st = m.w.st;
    let src = program::pair_offset(row);
    lemma_pairs(st, row, 0);
    let a = sm83::hl(st) as u32;
    let v = sm83::reg16(st, row) as u32;
    let f = st.f as u32;
    let s = (a + v) as u32;
    let n = meaning::at(hw, g.add_hl(src), m0);
    assert(n.w == m.w.with(
        GbState {
            f: x86::low8(
                (((f & 0x80) | ((((a ^ v) ^ s) & 0x1000) >> 7)) | (((((a ^ v) ^ s) >> 16) & 1)
                    << 4)) as u64,
            ),
            ..x86::set_field16(st, OFF_HL, x86::low16(s as u64))
        },
    ));
    lemma_wide_sum_bits(a, v, s, f);
    reveal(x86::low16);
}

/// The carries out of bits 3 and 7 of SP plus a byte, as flags.
proof fn lemma_offset_bits(sp: u32, e: u32, s: u32)
    by (bit_vector)
    requires
        sp < 0x1_0000,
        e < 256,
        s == (sp & 0xff) + e,
    ensures
        sp & 0xff == sp % 256,
        (((((sp & 0xff) ^ e) ^ s) & 0x10) << 1) | ((((((sp & 0xff) ^ e) ^ s) >> 8) & 1) << 4) == (
        if sp % 16 + e % 16 > 15 {
            32int
        } else {
            0
        }) + (if sp % 256 + e > 255 {
            16int
        } else {
            0
        }),
{
}

/// The flag byte the translation makes of SP plus a byte.
spec fn offset_byte(sp: u32, e: u32) -> u32 {
    let low = sp & 0xff;
    let s = ((low + e) % 0x1_0000_0000) as u32;
    let x = (low ^ e) ^ s;
    ((x & 0x10) << 1) | (((x >> 8) & 1) << 4)
}

proof fn lemma_offset_byte(sp: u16, e: u8, st: GbState)
    requires
        st.sp == sp,
    ensures
        offset_byte(sp as u32, e as u32) == sm83::sp_plus_flags(st, e),
{
    let low = sp as u32 & 0xff;
    arith::lemma_and_ff();
    let s = (low + e) as u32;
    lemma_offset_bits(sp as u32, e as u32, s);
}

proof fn lemma_offset_sum(sp: u16, e: u8)
    ensures
        (sp + program::sign_extend(e)) % 0x1_0000_0000 % 0x1_0000 == decode::wrap16(
            sp + decode::signed(e),
        ),
{
    let total = sp + program::sign_extend(e);
    if e < 128 {
        assert(total % 0x1_0000_0000 == sp + e);
    } else if sp + e >= 256 {
        assert(total % 0x1_0000_0000 == sp + e - 256);
    } else {
        assert(total % 0x1_0000_0000 == 0x1_0000_0000 + sp + e - 256);
    }
}

proof fn lemma_sp_plus_runs(hw: Hardware, g: Gen, e: u8, wide: u32, dest: i32, m0: Machine)
    requires
        meaning::ready(hw, g, m0),
        dest == OFF_SP || dest == OFF_HL,
    ensures
        ({
            let m = meaning::at(hw, g, m0);
            let h = g.sp_plus_offset(e, wide, dest);
            let sp = m.w.st.sp as u32;
            let total = ((sp + wide) % 0x1_0000_0000) as u32;
            &&& meaning::ready(hw, h, m0)
            &&& meaning::at(hw, h, m0).w == m.w.with(
                x86::set_field16(
                    GbState { f: x86::low8(offset_byte(sp, e as u32) as u64), ..m.w.st },
                    dest,
                    x86::low16(total as u64),
                ),
            )
            &&& h.owed == g.owed
        }),
{
    broadcast use meaning::group_follow;

    reveal(Gen::sp_plus_offset);
}

/// ADD SP,e and LD HL,SP+e.
pub proof fn lemma_sp_plus(hw: Hardware, g: Gen, e: u8, dest: i32, m0: Machine)
    requires
        meaning::ready(hw, g, m0),
        dest == OFF_SP || dest == OFF_HL,
    ensures
        ({
            let w = meaning::here(hw, g, m0);
            let h = g.sp_plus_offset(e, program::sign_extend(e), dest);
            &&& meaning::ready(hw, h, m0)
            &&& meaning::here(hw, h, m0) == w.with(
                x86::set_field16(
                    GbState { f: sm83::sp_plus_flags(w.st, e), ..w.st },
                    dest,
                    sm83::sp_plus(w.st, e),
                ),
            )
            &&& h.owed == g.owed
        }),
{
    broadcast use x86::group_widths;

    let m = meaning::at(hw, g, m0);
    lemma_sp_plus_runs(hw, g, e, program::sign_extend(e), dest, m0);
    lemma_offset_byte(m.w.st.sp, e, meaning::here(hw, g, m0).st);
    lemma_offset_sum(m.w.st.sp, e);
    reveal(x86::low16);
}

/// What `high` and `low` name when a pair is pushed or popped.
pub open spec fn byte_field(at: i32) -> bool {
    at == OFF_A || at == OFF_F || at == OFF_B || at == OFF_C || at == OFF_D || at == OFF_E || at
        == OFF_H || at == OFF_L
}

/// Move SP down and write the byte that `load` puts in R8.
proof fn lemma_push_byte(hw: Hardware, g: Gen, load: Op, v: u8, m0: Machine)
    requires
        meaning::ready(hw, g, m0),
        load == Op::MovImm32(R8, v as u32) || (exists|at: i32| #[trigger]
            byte_field(at) && load == Op::Movzx(R8, State(at), 1) && x86::field8(
                meaning::here(hw, g, m0).st,
                at,
            ) == v),
    ensures
        ({
            let w = meaning::here(hw, g, m0);
            let h = g.op(Op::Dec(State(OFF_SP), 2)).op(load).op(
                Op::Movzx(RDX, State(OFF_SP), 2),
            ).write_mem();
            let sp = decode::wrap16(w.st.sp - 1);
            &&& meaning::ready(hw, h, m0)
            &&& meaning::here(hw, h, m0) == w.with(GbState { sp, ..w.st }).write(hw, sp, v)
            &&& h.owed == 0
        }),
{
    broadcast use meaning::group_follow;

    let w = meaning::here(hw, g, m0);
    let g1 = g.op(Op::Dec(State(OFF_SP), 2)).op(load).op(Op::Movzx(RDX, State(OFF_SP), 2));
    let m1 = meaning::at(hw, g1, m0);
    assert(meaning::ready(hw, g1, m0));
    assert(x86::low8(m1.r8) == v);
    assert(meaning::here(hw, g1, m0) == w.with(
        GbState { sp: decode::wrap16(w.st.sp - 1), ..w.st },
    ));
    meaning::lemma_call_helper(hw, g1, OFF_WRITE8, m0);
}

/// PUSH.
pub proof fn lemma_push16(hw: Hardware, g: Gen, high: i32, low: i32, m0: Machine)
    requires
        meaning::ready(hw, g, m0),
        byte_field(high),
        byte_field(low),
    ensures
        ({
            let w = meaning::here(hw, g, m0);
            let h = g.push16(high, low);
            &&& meaning::ready(hw, h, m0)
            &&& meaning::here(hw, h, m0) == sm83::push(
                hw,
                w,
                x86::field8(w.st, high),
                x86::field8(w.st, low),
            )
            &&& h.owed == 0
        }),
{
    reveal(Gen::push16);
    let w = meaning::here(hw, g, m0);
    lemma_push_byte(hw, g, Op::Movzx(R8, State(high), 1), x86::field8(w.st, high), m0);
    let g1 = g.op(Op::Dec(State(OFF_SP), 2)).op(Op::Movzx(R8, State(high), 1)).op(
        Op::Movzx(RDX, State(OFF_SP), 2),
    ).write_mem();
    lemma_push_byte(hw, g1, Op::Movzx(R8, State(low), 1), x86::field8(w.st, low), m0);
}

/// Push an address known at translation time.
pub proof fn lemma_push_imm16(hw: Hardware, g: Gen, value: u16, m0: Machine)
    requires
        meaning::ready(hw, g, m0),
    ensures
        ({
            let h = g.push_imm16(value);
            &&& meaning::ready(hw, h, m0)
            &&& meaning::here(hw, h, m0) == sm83::push(
                hw,
                meaning::here(hw, g, m0),
                (value / 256) as u8,
                (value % 256) as u8,
            )
            &&& h.owed == 0
        }),
{
    reveal(Gen::push_imm16);
    let hi = (value / 256) as u8;
    let lo = (value % 256) as u8;
    lemma_push_byte(hw, g, Op::MovImm32(R8, hi as u32), hi, m0);
    let g1 = g.op(Op::Dec(State(OFF_SP), 2)).op(Op::MovImm32(R8, hi as u32)).op(
        Op::Movzx(RDX, State(OFF_SP), 2),
    ).write_mem();
    lemma_push_byte(hw, g1, Op::MovImm32(R8, lo as u32), lo, m0);
}

/// Read the byte SP points at into AL.
proof fn lemma_peek_stack(hw: Hardware, g: Gen, m0: Machine)
    requires
        meaning::ready(hw, g, m0),
    ensures
        ({
            let w = meaning::here(hw, g, m0);
            let h = g.op(Op::Movzx(RDX, State(OFF_SP), 2)).read_mem();
            &&& meaning::ready(hw, h, m0)
            &&& meaning::here(hw, h, m0) == w.read(w.st.sp)
            &&& x86::low8(meaning::at(hw, h, m0).rax) == sm83::popped(hw, w)
            &&& h.owed == 0
            &&& meaning::at(hw, h, m0).w.st.scratch == meaning::at(hw, g, m0).w.st.scratch
        }),
{
    broadcast use meaning::group_follow;

    let g1 = g.op(Op::Movzx(RDX, State(OFF_SP), 2));
    assert(meaning::ready(hw, g1, m0));
    assert(meaning::here(hw, g1, m0) == meaning::here(hw, g, m0));
    meaning::lemma_call_helper(hw, g1, OFF_READ8, m0);
}

/// POP.
pub proof fn lemma_pop16(hw: Hardware, g: Gen, high: i32, low: i32, m0: Machine)
    requires
        meaning::ready(hw, g, m0),
        byte_field(high),
        byte_field(low),
        high != low,
    ensures
        ({
            let w = meaning::here(hw, g, m0);
            let h = g.pop16(high, low);
            let lo = sm83::popped(hw, w);
            let w1 = sm83::pop(w);
            let hi = sm83::popped(hw, w1);
            let w2 = sm83::pop(w1);
            &&& meaning::ready(hw, h, m0)
            &&& meaning::here(hw, h, m0) == w2.with(
                x86::set_field8(x86::set_field8(w2.st, low, lo), high, hi),
            )
            &&& h.owed == 0
        }),
{
    broadcast use meaning::group_follow;

    reveal(Gen::pop16);
    let w = meaning::here(hw, g, m0);
    let g1 = g.op(Op::Movzx(RDX, State(OFF_SP), 2)).read_mem();
    lemma_peek_stack(hw, g, m0);
    let lo = sm83::popped(hw, w);
    let w1 = sm83::pop(w);
    let g2 = g1.op(Op::MovStore(State(low), RAX, 1)).op(Op::Inc(State(OFF_SP), 2));
    assert(meaning::ready(hw, g2, m0));
    let v1 = meaning::here(hw, g2, m0);
    assert(v1 == w1.with(x86::set_field8(w1.st, low, lo)));
    let g3 = g2.op(Op::Movzx(RDX, State(OFF_SP), 2)).read_mem();
    lemma_peek_stack(hw, g2, m0);
    let hi = sm83::popped(hw, w1);
    assert(sm83::popped(hw, v1) == hi);
    let g4 = g3.op(Op::MovStore(State(high), RAX, 1)).op(Op::Inc(State(OFF_SP), 2));
    assert(meaning::ready(hw, g4, m0));
    let w2 = sm83::pop(w1);
    assert(meaning::here(hw, g4, m0) == w2.with(
        x86::set_field8(x86::set_field8(w2.st, low, lo), high, hi),
    ));
}

proof fn lemma_join_bits(hi: u32, lo: u32)
    by (bit_vector)
    requires
        hi < 256,
        lo < 256,
    ensures
        (hi << 8) | lo == 256 * hi + lo,
{
}

/// Pop a return address into EAX.
pub proof fn lemma_pop_pc(hw: Hardware, g: Gen, m0: Machine)
    requires
        meaning::ready(hw, g, m0),
    ensures
        ({
            let w = meaning::here(hw, g, m0);
            let h = g.pop_pc();
            let lo = sm83::popped(hw, w);
            let w1 = sm83::pop(w);
            let hi = sm83::popped(hw, w1);
            &&& meaning::ready(hw, h, m0)
            &&& meaning::here(hw, h, m0) == sm83::pop(w1)
            &&& x86::low16(meaning::at(hw, h, m0).rax) == sm83::pair(hi, lo)
            &&& h.owed == 0
        }),
{
    broadcast use meaning::group_follow;

    reveal(Gen::pop_pc);
    let w = meaning::here(hw, g, m0);
    let g1 = g.op(Op::Movzx(RDX, State(OFF_SP), 2)).read_mem();
    lemma_peek_stack(hw, g, m0);
    let lo = sm83::popped(hw, w);
    let w1 = sm83::pop(w);
    let g2 = g1.op(Op::Movzx(RAX, Rm::R(RAX), 1)).op(
        Op::MovStore(State(OFF_SCRATCH), RAX, 4),
    ).op(Op::Inc(State(OFF_SP), 2));
    assert(meaning::ready(hw, g2, m0));
    assert(meaning::here(hw, g2, m0) == w1);
    assert(meaning::at(hw, g2, m0).w.st.scratch == lo);
    let g3 = g2.op(Op::Movzx(RDX, State(OFF_SP), 2)).read_mem();
    lemma_peek_stack(hw, g2, m0);
    let hi = sm83::popped(hw, w1);
    let g4 = g3.op(Op::Inc(State(OFF_SP), 2)).op(Op::Movzx(RAX, Rm::R(RAX), 1)).shift(
        Shift::Shl,
        RAX,
        8,
    ).op(Op::AluLoad(Alu::Or, RAX, State(OFF_SCRATCH), 4));
    lemma_join_bits(hi as u32, lo as u32);
    assert(meaning::ready(hw, g4, m0));
    assert(meaning::here(hw, g4, m0) == sm83::pop(w1));
    assert(meaning::at(hw, g4, m0).rax == ((hi as u32) << 8) | (lo as u32));
}

} // verus!
