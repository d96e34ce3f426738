//! Whole blocks.

use vstd::prelude::*;
use crate::recomp::abi::{
    GbState, EXIT_ILLEGAL, OFF_EXIT, OFF_HALT, OFF_HL, OFF_PC, OFF_STOP,
};
use crate::recomp::bus::{Hardware, World};
use crate::recomp::decode;
use crate::recomp::decode::{Flow, Insn};
use crate::recomp::meaning;
use crate::recomp::meaning::exits;
use crate::recomp::meaning::insn;
use crate::recomp::program;
use crate::recomp::program::{Context, Gen, Links, CALL_FRAME, MAX_INSTRUCTIONS};
use crate::recomp::sm83;
use crate::recomp::x64::{Alu, Cc, Op, State, RAX};
use crate::recomp::x86;
use crate::recomp::x86::Machine;

verus! {

/// HALT, STOP and the opcodes that do not exist.
proof fn lemma_stopping(
    hw: Hardware,
    g: Gen,
    insn: Insn,
    ctx: Context,
    start: u16,
    links: Links,
    m0: Machine,
)
    requires
        meaning::ready(hw, g, m0),
        exits::table_ready(hw),
        exits::links_fit(insn, ctx, start, links),
        insn.len <= 3,
        g.owed + 12 < 0x1_0000_0000,
        insn.flow is Halt || insn.flow is Stop || insn.flow is Illegal,
    ensures
        exits::ended(
            hw,
            meaning::here(hw, g, m0),
            insn,
            ctx,
            start,
            links,
            m0.rsp,
            x86::run(
                hw,
                program::ending_ops(g, insn, ctx, start, links) + seq![Op::Ret],
                0,
                m0,
            ),
        ),
{
    reveal(program::ending_ops);
    let next = decode::next_addr(insn);
    let w = meaning::here(hw, g, m0);
    let paid = g.charge(4 * insn.len);
    meaning::lemma_charge(hw, g, 4 * insn.len, m0);
    let tail = seq![Op::Ret];
    let ops = program::ending_ops(g, insn, ctx, start, links) + tail;
    if insn.flow is Illegal {
        let g1 = g.settle().op(Op::MovRmImm(State(OFF_PC), insn.addr as u32, 2)).op(
            Op::MovRmImm(State(OFF_EXIT), EXIT_ILLEGAL as u32, 1),
        );
        assert(meaning::ready(hw, g1, m0) && exits::arrives(
            meaning::at(hw, g1, m0),
            w.with(GbState { pc: insn.addr, exit: EXIT_ILLEGAL, ..w.st }),
            m0.rsp,
        )) by {
            broadcast use meaning::group_follow;

            meaning::lemma_settle(hw, g, m0);
        }
        meaning::lemma_falls(hw, g1, m0);
        let rest = seq![Op::Ret] + tail;
        assert(ops =~= g1.ops + rest);
        meaning::lemma_run_concat(hw, g1.ops, rest, m0);
        assert(rest[0] == Op::Ret);
    } else {
        let g1 = paid.op(Op::MovRmImm(State(OFF_PC), next as u32, 2));
        assert(meaning::ready(hw, g1, m0) && meaning::here(hw, g1, m0) == sm83::goto(
            sm83::spend(w, 4 * insn.len),
            next,
        )) by {
            broadcast use meaning::group_follow;

        }
        if insn.flow is Halt {
            let g2 = g1.call_helper(OFF_HALT);
            meaning::lemma_call_helper(hw, g1, OFF_HALT, m0);
            meaning::lemma_falls(hw, g2, m0);
            let rest = seq![Op::Ret] + tail;
            assert(ops =~= g2.ops + rest);
            meaning::lemma_run_concat(hw, g2.ops, rest, m0);
            assert(rest[0] == Op::Ret);
        } else {
            let s = meaning::here(hw, g1, m0).stop(hw);
            let g2 = g1.call_helper(OFF_STOP).op(Op::AluImm(Alu::Cmp, State(OFF_EXIT), 0, 1));
            assert(meaning::ready(hw, g2, m0) && meaning::here(hw, g2, m0) == s && g2.owed == 0
                && meaning::at(hw, g2, m0).zf == (s.st.exit == 0)) by {
                broadcast use meaning::group_follow;

                meaning::lemma_call_helper(hw, g1, OFF_STOP, m0);
            }
            meaning::lemma_falls(hw, g2, m0);
            let n = meaning::at(hw, g2, m0);
            let link = exits::next_link(insn, ctx, start, links);
            let go_on = program::direct_ops(program::fresh(0), next, link, 0);
            let rel = program::code_len(go_on) as u32;
            exits::lemma_ending_sizes(insn, ctx, start, links);
            let j = Op::Jcc(Cc::Ne, rel);
            let rest = seq![j] + go_on + tail;
            assert(ops =~= g2.ops + rest);
            meaning::lemma_run_concat(hw, g2.ops, rest, m0);
            assert(rest[0] == j);
            assert(n.check(true) == n);
            if s.st.exit != 0 {
                meaning::lemma_jump_over(hw, seq![j], go_on, tail, rel, n);
                assert(x86::run(hw, rest, 0, n) == x86::jump(hw, rest, 1, rel, n));
                assert(tail[0] == Op::Ret);
            } else {
                assert(rest =~= seq![j] + (go_on + tail));
                meaning::lemma_run_shift(hw, seq![j], go_on + tail, 0, n);
                assert(x86::run(hw, rest, 0, n) == x86::run(hw, rest, 1, n));
                exits::lemma_afresh(hw, g2, m0);
                let none: Seq<Op> = seq![];
                assert(none + (seq![Op::Ret] + none) =~= tail);
                assert(program::code_len(none) == 0);
                exits::lemma_direct(hw, program::fresh(0), next, link, none, none, n);
                assert(sm83::goto(s, next) == s);
            }
        }
    }
}

/// The last instruction of a block and the way out of it do what the instruction
/// set says, whatever the instruction is.
pub proof fn law_ending(
    hw: Hardware,
    g: Gen,
    insn: Insn,
    ctx: Context,
    start: u16,
    links: Links,
    m0: Machine,
)
    requires
        meaning::ready(hw, g, m0),
        exits::table_ready(hw),
        exits::links_fit(insn, ctx, start, links),
        insn.flow == decode::flow_of(
            insn.opcode,
            insn.imm8,
            insn.imm16,
            decode::next_addr(insn),
        ),
        insn.len <= 3,
        g.owed + 20 < 0x1_0000_0000,
        meaning::here(hw, g, m0).st.f % 16 == 0,
    ensures
        exits::ended(
            hw,
            meaning::here(hw, g, m0),
            insn,
            ctx,
            start,
            links,
            m0.rsp,
            x86::run(
                hw,
                program::ending_ops(g, insn, ctx, start, links) + seq![Op::Ret],
                0,
                m0,
            ),
        ),
{
    let next = decode::next_addr(insn);
    let w = meaning::here(hw, g, m0);
    let none: Seq<Op> = seq![];
    let tail = seq![Op::Ret];
    assert(none + (seq![Op::Ret] + none) =~= tail);
    assert(seq![Op::Ret] + none =~= tail);
    assert(program::code_len(none) == 0);
    let to_next = exits::next_link(insn, ctx, start, links);
    let to_target = exits::target_link(insn, ctx, start, links);
    let rest = exits::taken_ops(insn, ctx, start, links);
    exits::lemma_ending_sizes(insn, ctx, start, links);
    let paid = g.charge(4 * insn.len);
    meaning::lemma_charge(hw, g, 4 * insn.len, m0);
    meaning::lemma_charge(hw, paid, 4, m0);
    match insn.flow {
        Flow::Normal => {
            reveal(program::ending_ops);
            insn::law_instruction(hw, g, insn, m0);
            exits::lemma_direct(hw, g.instruction(insn), next, to_next, none, none, m0);
        },
        Flow::Jump { target, conditional } => {
            reveal(program::ending_ops);
            if conditional {
                exits::lemma_branch(hw, paid, insn.opcode, next, to_next, rest, m0);
                let t = program::test_ops(paid, insn.opcode);
                exits::lemma_test(hw, paid, insn.opcode, m0);
                exits::lemma_afresh(hw, t, m0);
                let n = meaning::at(hw, t, m0);
                exits::lemma_taken(hw, program::fresh(0).charge(4), insn, ctx, start, links, n);
            } else {
                exits::lemma_taken(hw, paid.charge(4), insn, ctx, start, links, m0);
            }
        },
        Flow::Call { target, conditional } => {
            reveal(program::ending_ops);
            if conditional {
                exits::lemma_branch(hw, paid, insn.opcode, next, to_next, rest, m0);
                let t = program::test_ops(paid, insn.opcode);
                exits::lemma_test(hw, paid, insn.opcode, m0);
                exits::lemma_afresh(hw, t, m0);
                let n = meaning::at(hw, t, m0);
                exits::lemma_taken(hw, program::fresh(0).charge(4), insn, ctx, start, links, n);
            } else {
                exits::lemma_taken(hw, paid.charge(4), insn, ctx, start, links, m0);
            }
        },
        Flow::Rst { target } => {
            reveal(program::ending_ops);
            exits::lemma_taken(hw, paid.charge(4), insn, ctx, start, links, m0);
        },
        Flow::Ret { conditional, enable_interrupts } => {
            reveal(program::ending_ops);
            if conditional {
                let g1 = paid.charge(4);
                exits::lemma_branch(hw, g1, insn.opcode, next, to_next, rest, m0);
                let t = program::test_ops(g1, insn.opcode);
                exits::lemma_test(hw, g1, insn.opcode, m0);
                exits::lemma_afresh(hw, t, m0);
                let n = meaning::at(hw, t, m0);
                exits::lemma_taken(hw, program::fresh(0).charge(4), insn, ctx, start, links, n);
                assert(!enable_interrupts);
            } else {
                exits::lemma_taken(hw, paid.charge(4), insn, ctx, start, links, m0);
            }
        },
        Flow::JumpIndirect => {
            reveal(program::ending_ops);
            let g1 = paid.op(Op::Movzx(RAX, State(OFF_HL), 2));
            let pc = sm83::hl(w.st);
            assert(meaning::ready(hw, g1, m0) && meaning::here(hw, g1, m0) == meaning::here(
                hw,
                paid,
                m0,
            ) && x86::low16(meaning::at(hw, g1, m0).rax) == pc) by {
                broadcast use meaning::group_follow;

            }
            exits::lemma_indirect(hw, g1, pc, none, m0);
        },
        _ => {
            lemma_stopping(hw, g, insn, ctx, start, links, m0);
        },
    }
}

/// The game's side of a block up to its last instruction.
pub open spec fn walk(
    hw: Hardware,
    mem: spec_fn(u16) -> u8,
    start: u16,
    pc: u16,
    count: nat,
    w: World,
) -> World
    decreases MAX_INSTRUCTIONS - count,
{
    let insn = decode::insn_at(mem, pc);
    if program::ends_with(insn, start, count) {
        w
    } else {
        walk(hw, mem, start, decode::next_addr(insn), count + 1, sm83::normal(hw, w, insn))
    }
}

proof fn lemma_body(
    hw: Hardware,
    mem: spec_fn(u16) -> u8,
    start: u16,
    pc: u16,
    count: nat,
    g: Gen,
    m0: Machine,
)
    requires
        meaning::ready(hw, g, m0),
        meaning::here(hw, g, m0).st.f % 16 == 0,
        1 <= count <= MAX_INSTRUCTIONS,
        g.owed <= 20 * (count - 1),
    ensures
        ({
            let b = program::body(mem, start, pc, count, g);
            let w = walk(hw, mem, start, pc, count, meaning::here(hw, g, m0));
            &&& meaning::ready(hw, b, m0)
            &&& meaning::here(hw, b, m0) == w
            &&& w.st.f % 16 == 0
            &&& b.owed <= 20 * MAX_INSTRUCTIONS
        }),
    decreases MAX_INSTRUCTIONS - count,
{
    let insn = decode::insn_at(mem, pc);
    if !program::ends_with(insn, start, count) {
        decode::law_lengths(insn.opcode);
        insn::law_instruction(hw, g, insn, m0);
        insn::law_flag_nibble(hw, meaning::here(hw, g, m0), insn);
        lemma_body(
            hw,
            mem,
            start,
            decode::next_addr(insn),
            count + 1,
            g.instruction(insn),
            m0,
        );
    }
}

proof fn lemma_last(mem: spec_fn(u16) -> u8, start: u16, pc: u16, count: nat)
    ensures
        ({
            let insn = program::last_insn(mem, start, pc, count);
            &&& insn == decode::insn_at(mem, insn.addr)
            &&& insn.len <= 3
        }),
    decreases MAX_INSTRUCTIONS - count,
{
    let insn = decode::insn_at(mem, pc);
    decode::law_lengths(insn.opcode);
    if !program::ends_with(insn, start, count) {
        lemma_last(mem, start, decode::next_addr(insn), count + 1);
    }
}

/// The state a block is entered with: the stack eight bytes short of a 16-byte
/// boundary with room for a helper call, no scratch in use, and an F whose low
/// nibble is zero.
pub open spec fn enterable(m: Machine) -> bool {
    &&& m.ok
    &&& m.rsp % 16 == 8
    &&& m.rsp >= CALL_FRAME
    &&& m.w.st.f % 16 == 0
}

/// A translated block does what the game's code does. Run on the host from any
/// state it can be entered with, against any hardware, and with its links open or
/// filled in, it takes the game through the same instructions: the same
/// registers and flags, the same reads and writes with the same cycles between
/// them, and then, unless the hardware takes control, on to the same address.
pub proof fn law_block(
    hw: Hardware,
    mem: spec_fn(u16) -> u8,
    start: u16,
    ctx: Context,
    links: Links,
    m0: Machine,
)
    requires
        enterable(m0),
        exits::table_ready(hw),
        exits::links_fit(program::last_insn(mem, start, start, 1), ctx, start, links),
    ensures
        exits::ended(
            hw,
            walk(hw, mem, start, start, 1, meaning::seen(m0, 0)),
            program::last_insn(mem, start, start, 1),
            ctx,
            start,
            links,
            m0.rsp,
            x86::run(hw, program::block_ops(mem, start, ctx, links), 0, m0),
        ),
{
    meaning::lemma_start(hw, 0, m0);
    lemma_body(hw, mem, start, start, 1, program::fresh(0), m0);
    let b = program::body(mem, start, start, 1, program::fresh(0));
    let insn = program::last_insn(mem, start, start, 1);
    lemma_last(mem, start, start, 1);
    law_ending(hw, b, insn, ctx, start, links, m0);
    assert(program::block_ops(mem, start, ctx, links) =~= program::ending_ops(
        b,
        insn,
        ctx,
        start,
        links,
    ) + seq![Op::Ret]);
}

} // verus!
