//! Whole instructions: the translation of every instruction that falls through
//! does what the instruction set says.

use vstd::prelude::*;
use crate::recomp::abi::{
    GbState, OFF_A, OFF_B, OFF_C, OFF_D, OFF_E, OFF_F, OFF_H, OFF_HL, OFF_L, OFF_READ8, OFF_SP,
    OFF_WRITE8,
};
use crate::recomp::bus::{Hardware, World};
use crate::recomp::decode;
use crate::recomp::decode::Insn;
use crate::recomp::meaning;
use crate::recomp::meaning::arith;
use crate::recomp::meaning::bits;
use crate::recomp::meaning::wide;
use crate::recomp::program;
use crate::recomp::program::Gen;
use crate::recomp::sm83;
use crate::recomp::x64::{Alu, Op, State, R8, RAX, RDX};
use crate::recomp::x86;
use crate::recomp::x86::Machine;

verus! {

/// LD through a register pair, and the step of HL that may follow.
proof fn lemma_indirect(hw: Hardware, g: Gen, insn: Insn, m0: Machine)
    requires
        meaning::ready(hw, g, m0),
        insn.opcode < 0x40,
        insn.opcode % 8 == 2,
    ensures
        meaning::ready(hw, g.low_quarter(insn), m0),
        meaning::here(hw, g.low_quarter(insn), m0) == sm83::low_quarter(
            hw,
            meaning::here(hw, g, m0),
            insn,
        ),
        g.low_quarter(insn).owed <= g.owed,
{
    broadcast use meaning::group_follow;

    reveal(Gen::low_quarter);
    let op = insn.opcode;
    let row = op / 16;
    let pair = if row == 3 {
        OFF_HL
    } else {
        program::pair_offset(row as int)
    };
    let w = meaning::here(hw, g, m0);
    let addr = if row == 3 {
        sm83::hl(w.st)
    } else {
        sm83::reg16(w.st, row as int)
    };
    wide::lemma_pairs(w.st, row as int, 0);
    if op / 8 % 2 == 0 {
        let g1 = g.op(Op::Movzx(R8, State(OFF_A), 1)).op(Op::Movzx(RDX, State(pair), 2));
        assert(meaning::ready(hw, g1, m0));
        assert(meaning::here(hw, g1, m0) == w);
        assert(meaning::at(hw, g1, m0).rdx == addr);
        meaning::lemma_call_helper(hw, g1, OFF_WRITE8, m0);
        let g2 = g1.write_mem();
        assert(meaning::here(hw, g2, m0) == w.write(hw, addr, w.st.a));
    } else {
        let g1 = g.op(Op::Movzx(RDX, State(pair), 2));
        assert(meaning::ready(hw, g1, m0));
        assert(meaning::here(hw, g1, m0) == w);
        assert(meaning::at(hw, g1, m0).rdx == addr);
        meaning::lemma_call_helper(hw, g1, OFF_READ8, m0);
        let g2 = g1.read_mem().op(Op::MovStore(State(OFF_A), RAX, 1));
        assert(meaning::ready(hw, g2, m0));
        let r = w.read(addr);
        assert(meaning::here(hw, g2, m0) == r.with(
            GbState { a: w.read_value(hw, addr), ..r.st },
        ));
    }
}

/// The 16-bit loads and arithmetic of the first quarter.
proof fn lemma_low_wide(hw: Hardware, g: Gen, insn: Insn, m0: Machine)
    requires
        meaning::ready(hw, g, m0),
        insn.opcode < 0x40,
        insn.opcode % 8 == 1 || insn.opcode % 8 == 3,
        g.owed + 4 < 0x1_0000_0000,
    ensures
        meaning::ready(hw, g.low_quarter(insn), m0),
        meaning::here(hw, g.low_quarter(insn), m0) == sm83::low_quarter(
            hw,
            meaning::here(hw, g, m0),
            insn,
        ),
        g.low_quarter(insn).owed <= g.owed + 4,
{
    broadcast use meaning::group_follow;

    reveal(Gen::low_quarter);
    let op = insn.opcode;
    let row = (op / 16) as int;
    let w = meaning::here(hw, g, m0);
    let st = meaning::at(hw, g, m0).w.st;
    if op % 8 == 1 {
        wide::lemma_pairs(st, row, insn.imm16);
        wide::lemma_pairs(w.st, row, insn.imm16);
        if op / 8 % 2 == 1 {
            wide::lemma_add_hl(hw, g, row, m0);
            meaning::lemma_charge(hw, g.add_hl(program::pair_offset(row)), 4, m0);
        }
    } else {
        let x = if op / 8 % 2 == 0 {
            decode::wrap16(sm83::reg16(st, row) + 1)
        } else {
            decode::wrap16(sm83::reg16(st, row) - 1)
        };
        wide::lemma_pairs(st, row, x);
        wide::lemma_pairs(w.st, row, x);
        let g1 = g.op(
            if op / 8 % 2 == 0 {
                Op::Inc(State(program::pair_offset(row)), 2)
            } else {
                Op::Dec(State(program::pair_offset(row)), 2)
            },
        );
        assert(meaning::ready(hw, g1, m0));
        assert(meaning::here(hw, g1, m0) == w.with(sm83::set_reg16(w.st, row, x)));
        meaning::lemma_charge(hw, g1, 4, m0);
    }
}

/// `LD (nn),SP`.
proof fn lemma_store_sp(hw: Hardware, g: Gen, insn: Insn, m0: Machine)
    requires
        meaning::ready(hw, g, m0),
        insn.opcode == 0x08,
    ensures
        meaning::ready(hw, g.low_quarter(insn), m0),
        meaning::here(hw, g.low_quarter(insn), m0) == sm83::low_quarter(
            hw,
            meaning::here(hw, g, m0),
            insn,
        ),
        g.low_quarter(insn).owed <= g.owed,
{
    broadcast use meaning::group_follow;

    reveal(Gen::low_quarter);
    let w = meaning::here(hw, g, m0);
    let g1 = g.op(Op::Movzx(R8, State(OFF_SP), 1)).load_addr_imm(insn.imm16);
    assert(meaning::ready(hw, g1, m0));
    assert(meaning::here(hw, g1, m0) == w);
    meaning::lemma_call_helper(hw, g1, OFF_WRITE8, m0);
    let w1 = w.write(hw, insn.imm16, (w.st.sp % 256) as u8);
    let g2 = g1.write_mem();
    assert(meaning::here(hw, g2, m0) == w1);
    let g3 = g2.op(Op::Movzx(R8, State((OFF_SP + 1) as i32), 1)).load_addr_imm(
        decode::wrap16(insn.imm16 + 1),
    );
    assert(meaning::ready(hw, g3, m0));
    assert(meaning::here(hw, g3, m0) == w1);
    meaning::lemma_call_helper(hw, g3, OFF_WRITE8, m0);
}

proof fn lemma_low_quarter(hw: Hardware, g: Gen, insn: Insn, m0: Machine)
    requires
        meaning::ready(hw, g, m0),
        insn.opcode < 0x40,
        decode::flow_of(insn.opcode, insn.imm8, insn.imm16, 0) is Normal,
        meaning::here(hw, g, m0).st.f % 16 == 0,
        g.owed + 4 < 0x1_0000_0000,
    ensures
        meaning::ready(hw, g.low_quarter(insn), m0),
        meaning::here(hw, g.low_quarter(insn), m0) == sm83::low_quarter(
            hw,
            meaning::here(hw, g, m0),
            insn,
        ),
        g.low_quarter(insn).owed <= g.owed + 4,
{
    let op = insn.opcode;
    let col = op % 8;
    let i = (op / 8) as u8;
    if col == 1 || col == 3 {
        lemma_low_wide(hw, g, insn, m0);
    } else if col == 2 {
        lemma_indirect(hw, g, insn, m0);
    } else if op == 0x08 {
        lemma_store_sp(hw, g, insn, m0);
    } else {
        reveal(Gen::low_quarter);
        if col == 4 {
            arith::lemma_inc_dec(hw, g, i, false, m0);
        } else if col == 5 {
            arith::lemma_inc_dec(hw, g, i, true, m0);
        } else if col == 6 {
            let g1 = g.op(Op::MovImm32(RAX, insn.imm8 as u32));
            assert(meaning::ready(hw, g1, m0) && meaning::here(hw, g1, m0) == meaning::here(
                hw,
                g,
                m0,
            ) && x86::low8(meaning::at(hw, g1, m0).rax) == insn.imm8) by {
                broadcast use meaning::group_follow;

            }
            meaning::lemma_store_operand(hw, g1, i, m0);
        } else if col == 7 {
            bits::lemma_accumulator(hw, g, op, m0);
        } else {
            assert(op == 0);
        }
    }
}

proof fn lemma_high_page(c: u32)
    by (bit_vector)
    requires
        c < 256,
    ensures
        c | 0xff00 == 0xff00 + c,
{
}

/// A byte read into A from the address in EDX.
proof fn lemma_read_a(hw: Hardware, g: Gen, addr: u16, m0: Machine)
    requires
        meaning::ready(hw, g, m0),
        meaning::at(hw, g, m0).rdx == addr,
    ensures
        ({
            let w = meaning::here(hw, g, m0);
            let r = w.read(addr);
            let h = g.read_mem().op(Op::MovStore(State(OFF_A), RAX, 1));
            &&& meaning::ready(hw, h, m0)
            &&& meaning::here(hw, h, m0) == r.with(
                GbState { a: w.read_value(hw, addr), ..r.st },
            )
            &&& h.owed <= g.owed
        }),
{
    broadcast use meaning::group_follow;

    meaning::lemma_call_helper(hw, g, OFF_READ8, m0);
}

/// The loads of the last quarter that go through an address.
proof fn lemma_high_loads(hw: Hardware, g: Gen, insn: Insn, m0: Machine)
    requires
        meaning::ready(hw, g, m0),
        insn.opcode == 0xe0 || insn.opcode == 0xe2 || insn.opcode == 0xea || insn.opcode == 0xf0
            || insn.opcode == 0xf2 || insn.opcode == 0xfa,
    ensures
        meaning::ready(hw, g.high_quarter(insn), m0),
        meaning::here(hw, g.high_quarter(insn), m0) == sm83::high_quarter(
            hw,
            meaning::here(hw, g, m0),
            insn,
        ),
        g.high_quarter(insn).owed <= g.owed,
{
    broadcast use meaning::group_follow;

    reveal(Gen::high_quarter);
    let op = insn.opcode;
    let w = meaning::here(hw, g, m0);
    lemma_high_page(w.st.c as u32);
    if op == 0xe0 {
        let addr = (0xff00 + insn.imm8) as u16;
        let g1 = g.op(Op::Movzx(R8, State(OFF_A), 1)).load_addr_imm(addr);
        assert(meaning::ready(hw, g1, m0));
        assert(meaning::here(hw, g1, m0) == w);
        meaning::lemma_call_helper(hw, g1, OFF_WRITE8, m0);
    } else if op == 0xea {
        let g1 = g.op(Op::Movzx(R8, State(OFF_A), 1)).load_addr_imm(insn.imm16);
        assert(meaning::ready(hw, g1, m0));
        assert(meaning::here(hw, g1, m0) == w);
        meaning::lemma_call_helper(hw, g1, OFF_WRITE8, m0);
    } else if op == 0xe2 {
        let g1 = g.op(Op::Movzx(R8, State(OFF_A), 1)).op(Op::Movzx(RDX, State(OFF_C), 1)).imm_op(
            Alu::Or,
            RDX,
            0xff00,
        );
        assert(meaning::ready(hw, g1, m0));
        assert(meaning::here(hw, g1, m0) == w);
        assert(meaning::at(hw, g1, m0).rdx == 0xff00 + w.st.c);
        meaning::lemma_call_helper(hw, g1, OFF_WRITE8, m0);
    } else if op == 0xf0 {
        let addr = (0xff00 + insn.imm8) as u16;
        let g1 = g.load_addr_imm(addr);
        assert(meaning::ready(hw, g1, m0));
        assert(meaning::here(hw, g1, m0) == w);
        lemma_read_a(hw, g1, addr, m0);
    } else if op == 0xf2 {
        let g1 = g.op(Op::Movzx(RDX, State(OFF_C), 1)).imm_op(Alu::Or, RDX, 0xff00);
        assert(meaning::ready(hw, g1, m0));
        assert(meaning::here(hw, g1, m0) == w);
        lemma_read_a(hw, g1, (0xff00 + w.st.c) as u16, m0);
    } else {
        let g1 = g.load_addr_imm(insn.imm16);
        assert(meaning::ready(hw, g1, m0));
        assert(meaning::here(hw, g1, m0) == w);
        lemma_read_a(hw, g1, insn.imm16, m0);
    }
}

/// The stack instructions of the last quarter.
proof fn lemma_high_stack(hw: Hardware, g: Gen, insn: Insn, m0: Machine)
    requires
        meaning::ready(hw, g, m0),
        insn.opcode >= 0xc0,
        insn.opcode % 16 == 1 || insn.opcode % 16 == 5,
        g.owed + 4 < 0x1_0000_0000,
    ensures
        meaning::ready(hw, g.high_quarter(insn), m0),
        meaning::here(hw, g.high_quarter(insn), m0) == sm83::high_quarter(
            hw,
            meaning::here(hw, g, m0),
            insn,
        ),
        g.high_quarter(insn).owed <= g.owed + 4,
{
    broadcast use meaning::group_follow;

    reveal(Gen::high_quarter);
    let op = insn.opcode;
    if op == 0xc1 {
        wide::lemma_pop16(hw, g, OFF_B, OFF_C, m0);
    } else if op == 0xd1 {
        wide::lemma_pop16(hw, g, OFF_D, OFF_E, m0);
    } else if op == 0xe1 {
        wide::lemma_pop16(hw, g, OFF_H, OFF_L, m0);
    } else if op == 0xf1 {
        wide::lemma_pop16(hw, g, OFF_A, OFF_F, m0);
    } else if op == 0xc5 {
        wide::lemma_push16(hw, g, OFF_B, OFF_C, m0);
        meaning::lemma_charge(hw, g.push16(OFF_B, OFF_C), 4, m0);
    } else if op == 0xd5 {
        wide::lemma_push16(hw, g, OFF_D, OFF_E, m0);
        meaning::lemma_charge(hw, g.push16(OFF_D, OFF_E), 4, m0);
    } else if op == 0xe5 {
        wide::lemma_push16(hw, g, OFF_H, OFF_L, m0);
        meaning::lemma_charge(hw, g.push16(OFF_H, OFF_L), 4, m0);
    } else {
        wide::lemma_push16(hw, g, OFF_A, OFF_F, m0);
        meaning::lemma_charge(hw, g.push16(OFF_A, OFF_F), 4, m0);
    }
}

proof fn lemma_high_quarter(hw: Hardware, g: Gen, insn: Insn, m0: Machine)
    requires
        meaning::ready(hw, g, m0),
        insn.opcode >= 0xc0,
        decode::flow_of(insn.opcode, insn.imm8, insn.imm16, 0) is Normal,
        g.owed + 8 < 0x1_0000_0000,
    ensures
        meaning::ready(hw, g.high_quarter(insn), m0),
        meaning::here(hw, g.high_quarter(insn), m0) == sm83::high_quarter(
            hw,
            meaning::here(hw, g, m0),
            insn,
        ),
        g.high_quarter(insn).owed <= g.owed + 8,
{
    let op = insn.opcode;
    let w = meaning::here(hw, g, m0);
    if op % 16 == 1 || op % 16 == 5 {
        lemma_high_stack(hw, g, insn, m0);
    } else if op == 0xe0 || op == 0xe2 || op == 0xea || op == 0xf0 || op == 0xf2 || op == 0xfa {
        lemma_high_loads(hw, g, insn, m0);
    } else {
        broadcast use meaning::group_follow;

        reveal(Gen::high_quarter);
        if op % 8 == 6 {
            let g1 = g.op(Op::MovImm32(RAX, insn.imm8 as u32));
            assert(meaning::ready(hw, g1, m0));
            assert(meaning::here(hw, g1, m0) == w);
            arith::lemma_alu_op(hw, g1, (op / 8 % 8) as u8, m0);
        } else if op == 0xe8 {
            wide::lemma_sp_plus(hw, g, insn.imm8, OFF_SP, m0);
            meaning::lemma_charge(
                hw,
                g.sp_plus_offset(insn.imm8, program::sign_extend(insn.imm8), OFF_SP),
                8,
                m0,
            );
        } else if op == 0xf8 {
            wide::lemma_sp_plus(hw, g, insn.imm8, OFF_HL, m0);
            meaning::lemma_charge(
                hw,
                g.sp_plus_offset(insn.imm8, program::sign_extend(insn.imm8), OFF_HL),
                4,
                m0,
            );
        } else if op == 0xf9 {
            let g1 = g.op(Op::Movzx(RAX, State(OFF_HL), 2)).op(
                Op::MovStore(State(OFF_SP), RAX, 2),
            );
            assert(meaning::ready(hw, g1, m0));
            assert(meaning::here(hw, g1, m0) == w.with(GbState { sp: sm83::hl(w.st), ..w.st }));
            meaning::lemma_charge(hw, g1, 4, m0);
        } else if op == 0xcb {
            bits::lemma_prefixed(hw, g, insn.cb, m0);
        } else {
            assert(op == 0xf3 || op == 0xfb);
        }
    }
}

/// Whenever the translation so far has brought the machine to where the game is
/// in `w`, the translation of one more instruction brings it to where the
/// instruction set takes the game: registers, flags, the bytes read and written,
/// and every cycle in between. The low nibble of F does not exist, so it is zero
/// to begin with.
pub proof fn law_instruction(hw: Hardware, g: Gen, insn: Insn, m0: Machine)
    requires
        meaning::ready(hw, g, m0),
        insn.flow is Normal,
        insn.flow == decode::flow_of(
            insn.opcode,
            insn.imm8,
            insn.imm16,
            decode::next_addr(insn),
        ),
        insn.len <= 3,
        meaning::here(hw, g, m0).st.f % 16 == 0,
        g.owed + 20 < 0x1_0000_0000,
    ensures
        meaning::ready(hw, g.instruction(insn), m0),
        meaning::here(hw, g.instruction(insn), m0) == sm83::normal(
            hw,
            meaning::here(hw, g, m0),
            insn,
        ),
        g.instruction(insn).owed <= g.owed + 20,
{
    reveal(Gen::instruction);
    let op = insn.opcode;
    let g1 = g.charge(4 * insn.len);
    meaning::lemma_charge(hw, g, 4 * insn.len, m0);
    if op < 0x40 {
        lemma_low_quarter(hw, g1, insn, m0);
    } else if op < 0x80 {
        let src = (op % 8) as u8;
        meaning::lemma_load_operand(hw, g1, src, m0);
        meaning::lemma_store_operand(hw, g1.load_operand(src), (op / 8 % 8) as u8, m0);
    } else if op < 0xc0 {
        let src = (op % 8) as u8;
        meaning::lemma_load_operand(hw, g1, src, m0);
        arith::lemma_alu_op(hw, g1.load_operand(src), (op / 8 % 8) as u8, m0);
    } else {
        lemma_high_quarter(hw, g1, insn, m0);
    }
}

proof fn lemma_pop_f(v: u8)
    by (bit_vector)
    ensures
        (v & 0xf0) % 16 == 0,
{
}

proof fn lemma_nibble_low(hw: Hardware, w: World, insn: Insn)
    requires
        w.st.f % 16 == 0,
    ensures
        sm83::low_quarter(hw, w, insn).st.f % 16 == 0,
{
    let op = insn.opcode;
    let i = (op / 8) as int;
    assert(sm83::inc_dec(hw, w, i, false).st.f % 16 == 0);
    assert(sm83::inc_dec(hw, w, i, true).st.f % 16 == 0);
    assert(sm83::accumulator(w.st, op).f % 16 == 0);
}

proof fn lemma_nibble_high(hw: Hardware, w: World, insn: Insn)
    requires
        w.st.f % 16 == 0,
    ensures
        sm83::high_quarter(hw, w, insn).st.f % 16 == 0,
{
    let op = insn.opcode;
    lemma_nibble_alu(w.st, (op / 8 % 8) as int, insn.imm8);
    assert(sm83::prefixed(hw, w, insn.cb).st.f % 16 == 0);
    if op == 0xf1 {
        let lo = sm83::popped(hw, w);
        lemma_pop_f(lo);
    }
}

proof fn lemma_nibble_alu(st: GbState, kind: int, v: u8)
    requires
        st.f % 16 == 0,
    ensures
        sm83::alu(st, kind, v).f % 16 == 0,
{
}

/// No instruction sets a bit of the low nibble of F.
pub proof fn law_flag_nibble(hw: Hardware, w: World, insn: Insn)
    requires
        w.st.f % 16 == 0,
    ensures
        sm83::normal(hw, w, insn).st.f % 16 == 0,
        sm83::control(hw, w, insn).st.f % 16 == 0,
{
    let op = insn.opcode;
    let w1 = sm83::spend(w, 4 * insn.len);
    if op < 0x40 {
        lemma_nibble_low(hw, w1, insn);
    } else if op < 0x80 {
    } else if op < 0xc0 {
        let i = (op % 8) as int;
        lemma_nibble_alu(sm83::load(w1, i).st, (op / 8 % 8) as int, sm83::loaded(hw, w1, i));
    } else {
        lemma_nibble_high(hw, w1, insn);
    }
}

} // verus!
