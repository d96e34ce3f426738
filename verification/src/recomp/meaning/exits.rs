//! The way out of a block: a chance for the hardware to take control, then a
//! linked jump, the inline jump cache, or the host.

use vstd::prelude::*;
use crate::recomp::abi::{
    GbState, JumpEntry, EXIT_DISPATCH, EXIT_ILLEGAL, JUMP_CACHE_MASK, JUMP_CACHE_SLOTS,
    OFF_BANK_GEN, OFF_EXIT, OFF_JUMP_TABLE, OFF_PC, OFF_SYNC,
};
use crate::recomp::bus::{Hardware, World};
use crate::recomp::decode;
use crate::recomp::decode::{Flow, Insn};
use crate::recomp::meaning;
use crate::recomp::meaning::insn;
use crate::recomp::meaning::wide;
use crate::recomp::program;
use crate::recomp::program::{Context, Gen, Links};
use crate::recomp::sm83;
use crate::recomp::x64;
use crate::recomp::x64::{Alu, Cc, Op, Rm, Shift, State, RAX, RCX, RDX};
use crate::recomp::x86;
use crate::recomp::x86::{Machine, Outcome};

verus! {

/// The jump cache lies in memory as one block of its full size.
pub open spec fn table_ready(hw: Hardware) -> bool {
    &&& hw.table_at + 16 * JUMP_CACHE_SLOTS <= 0x1_0000_0000_0000_0000
    &&& forall|log| #[trigger] (hw.table)(log).len() == JUMP_CACHE_SLOTS
}

/// The slot of the jump cache that `pc` uses.
pub open spec fn slot(hw: Hardware, w: World) -> JumpEntry {
    (hw.table)(w.log)[w.st.pc as int % JUMP_CACHE_SLOTS as int]
}

/// A way out that leaves the game in `w`, with the stack as it was found.
pub open spec fn arrives(m: Machine, w: World, rsp: u64) -> bool {
    &&& meaning::seen(m, 0) == w
    &&& m.ok
    &&& m.rsp == rsp
}

/// The inline cache: straight to the code it names if it names the address and
/// the banks have not changed since, and otherwise back to the host.
pub open spec fn dispatched(hw: Hardware, w: World, rsp: u64, out: Outcome) -> bool {
    if slot(hw, w).pc == w.st.pc && slot(hw, w).gen == w.st.bank_gen {
        &&& out matches Outcome::Jumped(m, to)
        &&& arrives(m, w, rsp)
        &&& to == slot(hw, w).target
    } else {
        &&& out matches Outcome::Left(m)
        &&& arrives(m, w.with(GbState { exit: EXIT_DISPATCH, ..w.st }), rsp)
    }
}

/// The way on from a point where nothing wants control: through the link if it
/// leads anywhere, and through the cache if not. `past` is how far the end of
/// the program is from the link.
pub open spec fn goes_on(
    hw: Hardware,
    w: World,
    rsp: u64,
    link: Option<u32>,
    past: int,
    out: Outcome,
) -> bool {
    if link is Some && link->0 != 0 {
        let to = x86::signed32(link->0) - past;
        ||| out matches Outcome::Away(m, d) && arrives(m, w, rsp) && d == to
        ||| out matches Outcome::Fell(m) && arrives(m, w, rsp) && to == 0
    } else {
        dispatched(hw, w, rsp, out)
    }
}

/// The end of a block that has set the program counter of `w`.
pub open spec fn leaves(
    hw: Hardware,
    w: World,
    rsp: u64,
    link: Option<u32>,
    past: int,
    out: Outcome,
) -> bool {
    let s = w.sync(hw);
    if s.st.exit != 0 {
        out matches Outcome::Left(m) && arrives(m, s, rsp)
    } else {
        goes_on(hw, s, rsp, link, past, out)
    }
}

proof fn lemma_slot_bits(pc: u32)
    by (bit_vector)
    requires
        pc < 0x1_0000,
    ensures
        pc & 4095 == pc % 4096,
        (pc % 4096) << 4 == 16 * (pc % 4096),
{
}

/// The first half of the dispatch: the address of the slot is in RCX, and its
/// program counter has been compared.
spec fn look_up() -> Gen {
    program::fresh(0).op(Op::Movzx(RAX, State(OFF_PC), 2)).copy(RCX, RAX).imm_op(
        Alu::And,
        RCX,
        JUMP_CACHE_MASK,
    ).shift(Shift::Shl, RCX, 4).op(Op::AluLoad(Alu::Add, RCX, State(OFF_JUMP_TABLE), 8)).op(
        Op::AluStore(Alu::Cmp, Rm::Mem { base: RCX, disp: 0 }, RAX, 4),
    )
}

proof fn lemma_look_up(hw: Hardware, m: Machine)
    requires
        table_ready(hw),
        m.ok,
    ensures
        ({
            let n = meaning::at(hw, look_up(), m);
            let pc = m.w.st.pc;
            &&& meaning::falls(hw, look_up(), m)
            &&& n.w == m.w
            &&& n.ok
            &&& n.rsp == m.rsp
            &&& n.rcx == hw.table_at + 16 * (pc as int % 4096)
            &&& n.zf == (slot(hw, m.w).pc == pc)
        }),
{
    broadcast use meaning::group_follow;

    meaning::lemma_start(hw, 0, m);
    let pc = m.w.st.pc as u32;
    lemma_slot_bits(pc);
    let g = program::fresh(0).op(Op::Movzx(RAX, State(OFF_PC), 2)).copy(RCX, RAX).imm_op(
        Alu::And,
        RCX,
        JUMP_CACHE_MASK,
    ).shift(Shift::Shl, RCX, 4);
    let m1 = meaning::at(hw, g, m);
    assert(meaning::falls(hw, g, m) && m1.ok && m1.w == m.w && m1.rsp == m.rsp && m1.rax == pc);
    assert(m1.rcx == 16 * (pc as int % 4096));
    let g2 = g.op(Op::AluLoad(Alu::Add, RCX, State(OFF_JUMP_TABLE), 8));
    let m2 = meaning::at(hw, g2, m);
    assert(m2.rcx == hw.table_at + 16 * (pc as int % 4096) && m2.ok);
    let rm = Rm::Mem { base: RCX, disp: 0 };
    assert(x86::table_offset(hw, m2, rm) == 16 * (pc as int % 4096));
    assert((hw.table)(m2.w.log).len() == JUMP_CACHE_SLOTS);
    assert(x86::in_table(hw, m2, rm));
}

spec fn miss() -> Seq<Op> {
    seq![Op::MovRmImm(State(OFF_EXIT), EXIT_DISPATCH as u32, 1), Op::Ret]
}

/// A miss hands the address to the host.
proof fn lemma_miss(hw: Hardware, m: Machine, post: Seq<Op>)
    requires
        m.ok,
    ensures
        ({
            let out = x86::run(hw, miss() + post, 0, m);
            &&& out matches Outcome::Left(n)
            &&& n == m.with_state(GbState { exit: EXIT_DISPATCH, ..m.w.st })
        }),
{
    broadcast use {x86::group_steps, x86::group_widths};

    reveal_with_fuel(x86::run, 3);
    let ops = miss() + post;
    assert(ops[0] == miss()[0] && ops[1] == miss()[1]);
}

spec fn hit() -> Seq<Op> {
    seq![Op::JmpRm(Rm::Mem { base: RCX, disp: 8 })]
}

spec fn check_ops() -> Seq<Op> {
    seq![
        Op::MovLoad(RDX, State(OFF_BANK_GEN), 4),
        Op::AluStore(Alu::Cmp, Rm::Mem { base: RCX, disp: 4 }, RDX, 4),
        Op::Jcc(Cc::Ne, program::code_len(hit()) as u32),
    ]
}

/// The second half of the dispatch: compare the generation, and jump or miss.
proof fn lemma_check(hw: Hardware, m: Machine, post: Seq<Op>)
    requires
        table_ready(hw),
        m.ok,
        m.rcx == hw.table_at + 16 * (m.w.st.pc as int % 4096),
    ensures
        ({
            let out = x86::run(hw, check_ops() + hit() + (miss() + post), 0, m);
            if slot(hw, m.w).gen == m.w.st.bank_gen {
                &&& out matches Outcome::Jumped(n, to)
                &&& n.w == m.w
                &&& n.ok
                &&& n.rsp == m.rsp
                &&& to == slot(hw, m.w).target
            } else {
                &&& out matches Outcome::Left(n)
                &&& n.w == m.w.with(GbState { exit: EXIT_DISPATCH, ..m.w.st })
                &&& n.ok
                &&& n.rsp == m.rsp
            }
        }),
{
    let tail = miss() + post;
    let rest = check_ops() + hit() + tail;
    let load = check_ops()[0];
    let compare = check_ops()[1];
    let n1 = x86::step(hw, load, m);
    let n2 = x86::step(hw, compare, n1);
    let pc = m.w.st.pc as int % 4096;
    let s = slot(hw, m.w);
    assert(n1.rdx == m.w.st.bank_gen && n1.rcx == m.rcx && n1.ok && n1.w == m.w && n1.rsp
        == m.rsp) by {
        broadcast use {x86::group_steps, x86::group_widths};

    }
    let rm = Rm::Mem { base: RCX, disp: 4 };
    assert(x86::table_offset(hw, n1, rm) == 16 * pc + 4);
    assert((hw.table)(m.w.log).len() == JUMP_CACHE_SLOTS);
    assert(x86::in_table(hw, n1, rm));
    assert(n2.zf == (s.gen == m.w.st.bank_gen) && n2.ok && n2.w == m.w && n2.rcx == m.rcx && n2.rsp
        == m.rsp) by {
        broadcast use {x86::group_steps, x86::group_widths};

    }
    assert(rest[0] == load && rest[1] == compare && rest[2] == check_ops()[2] && rest[3]
        == hit()[0]);
    assert(x86::run(hw, rest, 0, m) == x86::run(hw, rest, 1, n1));
    assert(x86::run(hw, rest, 1, n1) == x86::run(hw, rest, 2, n2));
    if s.gen != m.w.st.bank_gen {
        x64::lemma_encode_all_short(hit());
        let rel = program::code_len(hit()) as u32;
        meaning::lemma_jump_over(hw, check_ops(), hit(), tail, rel, n2);
        lemma_miss(hw, n2, post);
        assert(n2.check(true) == n2);
        assert(x86::run(hw, rest, 2, n2) == x86::jump(hw, rest, 3, rel, n2));
        assert(x86::run(hw, rest, 2, n2) == x86::run(hw, tail, 0, n2));
    } else {
        assert(x86::run(hw, rest, 2, n2) == x86::run(hw, rest, 3, n2));
        let rm8 = Rm::Mem { base: RCX, disp: 8 };
        assert(x86::table_offset(hw, n2, rm8) == 16 * pc + 8);
        assert(x86::in_table(hw, n2, rm8));
    }
}

/// The inline dispatch does what `dispatched` says.
pub proof fn lemma_dispatch(hw: Hardware, m: Machine, post: Seq<Op>)
    requires
        table_ready(hw),
        m.ok,
    ensures
        dispatched(
            hw,
            meaning::seen(m, 0),
            m.rsp,
            x86::run(hw, program::dispatch_ops() + post, 0, m),
        ),
{
    lemma_look_up(hw, m);
    meaning::lemma_falls(hw, look_up(), m);
    let n = meaning::at(hw, look_up(), m);
    let tail = miss() + post;
    let both = check_ops() + hit();
    let skip = Op::Jcc(
        Cc::Ne,
        (program::code_len(check_ops()) + program::code_len(hit())) as u32,
    );
    x64::lemma_encode_all_short(hit());
    x64::lemma_encode_all_short(check_ops());
    x64::lemma_encode_concat(check_ops(), hit());
    let rest = seq![skip] + both + tail;
    assert(program::dispatch_ops() + post =~= look_up().ops + rest) by {
        reveal(program::dispatch_ops);
    }
    meaning::lemma_run_concat(hw, look_up().ops, rest, m);
    assert(rest[0] == skip);
    if slot(hw, m.w).pc != m.w.st.pc {
        let rel = (program::code_len(check_ops()) + program::code_len(hit())) as u32;
        meaning::lemma_jump_over(hw, seq![skip], both, tail, rel, n);
        lemma_miss(hw, n, post);
        assert(n.check(true) == n);
        assert(x86::run(hw, rest, 0, n) == x86::jump(hw, rest, 1, rel, n));
        assert(x86::run(hw, rest, 0, n) == x86::run(hw, tail, 0, n));
    } else {
        assert(rest =~= seq![skip] + (both + tail));
        meaning::lemma_run_shift(hw, seq![skip], both + tail, 0, n);
        lemma_check(hw, n, post);
        assert(x86::run(hw, rest, 0, n) == x86::run(hw, rest, 1, n));
    }
}

/// A jump beyond the end of the program lands nowhere in it.
proof fn lemma_land_past(ops: Seq<Op>, i: int, dist: int)
    requires
        0 <= i <= ops.len(),
        dist > program::code_len(ops.skip(i)),
    ensures
        x86::land(ops, i, dist) is None,
    decreases ops.len() - i,
{
    if i < ops.len() {
        x64::lemma_encode_first(ops.skip(i));
        assert(ops.skip(i).skip(1) =~= ops.skip(i + 1));
        lemma_land_past(ops, i + 1, dist - ops[i].encode().len());
    }
}

/// A link is either not filled in or leads out of the program, whose end is
/// `past` bytes behind it.
pub open spec fn link_outside(link: Option<u32>, past: int) -> bool {
    link is Some && link->0 != 0 ==> x86::signed32(link->0) < 0 || x86::signed32(link->0) >= past
}

/// How many bytes stand between a link and the end of the program, when `post`
/// follows the dispatch.
pub open spec fn past_link(post: Seq<Op>) -> int {
    program::code_len(program::dispatch_ops() + post)
}

proof fn lemma_leave(hw: Hardware, m: Machine, link: Option<u32>, post: Seq<Op>)
    requires
        table_ready(hw),
        m.ok,
        link_outside(link, past_link(post)),
        past_link(post) < 0x8000_0000,
    ensures
        goes_on(
            hw,
            meaning::seen(m, 0),
            m.rsp,
            link,
            past_link(post),
            x86::run(hw, program::leave_ops(link) + post, 0, m),
        ),
{
    reveal(program::leave_ops);
    let rest = program::dispatch_ops() + post;
    lemma_dispatch(hw, m, post);
    if link is Some {
        let rel = link->0;
        let ops = seq![Op::Jmp(rel)] + rest;
        assert(program::leave_ops(link) + post =~= ops);
        assert(ops.skip(1) =~= rest);
        assert(x86::run(hw, ops, 0, m) == x86::jump(hw, ops, 1, rel, m));
        if rel == 0 {
            meaning::lemma_run_shift(hw, seq![Op::Jmp(rel)], rest, 0, m);
            assert(x86::jump(hw, ops, 1, rel, m) == x86::run(hw, ops, 1, m));
        } else if rel == past_link(post) {
            meaning::lemma_jump_over(hw, seq![Op::Jmp(rel)], rest, seq![], rel, m);
            assert(seq![Op::Jmp(rel)] + rest + seq![] =~= ops);
        } else {
            lemma_land_past(ops, 1, rel as int);
        }
    } else {
        assert(program::leave_ops(link) + post =~= rest);
    }
}

/// The check for a yield: back to the host through the shared `ret`, or on.
proof fn lemma_sync(
    hw: Hardware,
    g: Gen,
    body: Seq<Op>,
    mid: Seq<Op>,
    post: Seq<Op>,
    m0: Machine,
) -> (n: Machine)
    requires
        meaning::ready(hw, g, m0),
        program::code_len(body) + program::code_len(mid) < 0x1_0000_0000,
    ensures
        ({
            let skip = program::code_len(body) + program::code_len(mid);
            let rest = body + mid + (seq![Op::Ret] + post);
            let out = x86::run(hw, program::sync_ops(g, skip) + rest, 0, m0);
            let s = meaning::here(hw, g, m0).sync(hw);
            &&& arrives(n, s, m0.rsp)
            &&& s.st.exit != 0 ==> out == Outcome::Left(n)
            &&& s.st.exit == 0 ==> out == x86::run(hw, rest, 0, n)
        }),
{
    reveal(program::sync_ops);
    let skip = program::code_len(body) + program::code_len(mid);
    let tail = seq![Op::Ret] + post;
    let rest = body + mid + tail;
    let g1 = g.call_helper(OFF_SYNC).op(Op::AluImm(Alu::Cmp, State(OFF_EXIT), 0, 1));
    let n = meaning::at(hw, g1, m0);
    let s = meaning::here(hw, g, m0).sync(hw);
    assert(meaning::falls(hw, g1, m0) && n.zf == (s.st.exit == 0) && arrives(n, s, m0.rsp)) by {
        broadcast use meaning::group_follow;

        meaning::lemma_call_helper(hw, g, OFF_SYNC, m0);
    }
    meaning::lemma_falls(hw, g1, m0);
    let j = Op::Jcc(Cc::Ne, skip as u32);
    let ops = seq![j] + rest;
    assert(program::sync_ops(g, skip) + rest =~= g1.ops + ops);
    meaning::lemma_run_concat(hw, g1.ops, ops, m0);
    assert(ops[0] == j);
    assert(n.check(true) == n);
    if s.st.exit != 0 {
        x64::lemma_encode_concat(body, mid);
        meaning::lemma_jump_over(hw, seq![j], body + mid, tail, skip as u32, n);
        assert(seq![j] + (body + mid) + tail =~= ops);
        assert(x86::run(hw, ops, 0, n) == x86::jump(hw, ops, 1, skip as u32, n));
        assert(tail[0] == Op::Ret);
    } else {
        meaning::lemma_run_shift(hw, seq![j], rest, 0, n);
        assert(x86::run(hw, ops, 0, n) == x86::run(hw, ops, 1, n));
    }
    n
}

/// Leaving for a known address. `mid` stands between this and the shared `ret`.
pub proof fn lemma_direct(
    hw: Hardware,
    g: Gen,
    target: u16,
    link: Option<u32>,
    mid: Seq<Op>,
    post: Seq<Op>,
    m0: Machine,
)
    requires
        meaning::ready(hw, g, m0),
        table_ready(hw),
        link_outside(link, past_link(mid + (seq![Op::Ret] + post))),
        past_link(mid + (seq![Op::Ret] + post)) < 0x8000_0000,
    ensures
        leaves(
            hw,
            sm83::goto(meaning::here(hw, g, m0), target),
            m0.rsp,
            link,
            past_link(mid + (seq![Op::Ret] + post)),
            x86::run(
                hw,
                program::direct_ops(g, target, link, program::code_len(mid)) + (mid + (seq![Op::Ret]
                    + post)),
                0,
                m0,
            ),
        ),
{
    reveal(program::direct_ops);
    let body = program::leave_ops(link);
    let tail = seq![Op::Ret] + post;
    let g1 = g.op(Op::MovRmImm(State(OFF_PC), target as u32, 2));
    let w = sm83::goto(meaning::here(hw, g, m0), target);
    assert(meaning::ready(hw, g1, m0) && meaning::here(hw, g1, m0) == w) by {
        broadcast use meaning::group_follow;

    }
    assert(program::code_len(body) + program::code_len(mid) <= past_link(mid + tail) + 5) by {
        reveal(program::leave_ops);
        x64::lemma_encode_concat(program::dispatch_ops(), mid + tail);
        x64::lemma_encode_concat(mid, tail);
        if link is Some {
            x64::lemma_encode_concat(seq![Op::Jmp(link->0)], program::dispatch_ops());
            x64::lemma_encode_one(Op::Jmp(link->0));
        } else {
            assert(body =~= program::dispatch_ops());
        }
    }
    let n = lemma_sync(hw, g1, body, mid, post, m0);
    let skip = program::code_len(body) + program::code_len(mid);
    assert(program::direct_ops(g, target, link, program::code_len(mid)) + (mid + tail)
        =~= program::sync_ops(g1, skip) + (body + mid + tail));
    assert(body + mid + tail =~= body + (mid + tail));
    lemma_leave(hw, n, link, mid + tail);
    assert(meaning::seen(n, 0) == w.sync(hw));
}

/// Leaving for the address in EAX.
pub proof fn lemma_indirect(hw: Hardware, g: Gen, target: u16, post: Seq<Op>, m0: Machine)
    requires
        meaning::ready(hw, g, m0),
        table_ready(hw),
        x86::low16(meaning::at(hw, g, m0).rax) == target,
        past_link(seq![Op::Ret] + post) < 0x8000_0000,
    ensures
        leaves(
            hw,
            sm83::goto(meaning::here(hw, g, m0), target),
            m0.rsp,
            None,
            past_link(seq![Op::Ret] + post),
            x86::run(hw, program::indirect_ops(g) + (seq![Op::Ret] + post), 0, m0),
        ),
{
    reveal(program::indirect_ops);
    let body = program::leave_ops(None);
    let tail = seq![Op::Ret] + post;
    let mid: Seq<Op> = seq![];
    let g1 = g.op(Op::MovStore(State(OFF_PC), RAX, 2));
    let w = sm83::goto(meaning::here(hw, g, m0), target);
    assert(meaning::ready(hw, g1, m0) && meaning::here(hw, g1, m0) == w) by {
        broadcast use meaning::group_follow;

    }
    assert(program::code_len(body) + program::code_len(mid) <= past_link(tail)) by {
        reveal(program::leave_ops);
        x64::lemma_encode_concat(program::dispatch_ops(), tail);
        assert(body =~= program::dispatch_ops());
    }
    let n = lemma_sync(hw, g1, body, mid, post, m0);
    let skip = program::code_len(body) + program::code_len(mid);
    assert(program::indirect_ops(g) + tail =~= program::sync_ops(g1, skip) + (body + mid + tail));
    assert(body + mid + tail =~= body + tail);
    lemma_leave(hw, n, None, tail);
    assert(meaning::seen(n, 0) == w.sync(hw));
}

// ---- whole endings -------------------------------------------------------

/// What the taken side of a conditional instruction is translated to.
pub open spec fn taken_ops(insn: Insn, ctx: Context, start: u16, links: Links) -> Seq<Op> {
    let next = decode::next_addr(insn);
    match insn.flow {
        Flow::Jump { target, .. } => program::direct_ops(
            program::fresh(0).charge(4),
            target,
            program::link_if(program::can_link(ctx, start, target), links.target),
            0,
        ),
        Flow::Call { target, .. } => program::direct_ops(
            program::fresh(0).charge(4).push_imm16(next),
            target,
            program::link_if(program::can_link(ctx, start, target), links.target),
            0,
        ),
        Flow::Ret { enable_interrupts, .. } => program::indirect_ops(
            program::resume_ops(program::fresh(0).charge(4).pop_pc(), enable_interrupts),
        ),
        _ => seq![],
    }
}

pub open spec fn is_conditional(flow: Flow) -> bool {
    match flow {
        Flow::Jump { conditional, .. } => conditional,
        Flow::Call { conditional, .. } => conditional,
        Flow::Ret { conditional, .. } => conditional,
        _ => false,
    }
}

/// What follows the link for falling through.
pub open spec fn behind_next(insn: Insn, ctx: Context, start: u16, links: Links) -> Seq<Op> {
    if is_conditional(insn.flow) {
        taken_ops(insn, ctx, start, links) + seq![Op::Ret]
    } else {
        seq![Op::Ret]
    }
}

/// The link for falling through to the next instruction.
pub open spec fn next_link(insn: Insn, ctx: Context, start: u16, links: Links) -> Option<u32> {
    program::link_if(program::can_link(ctx, start, decode::next_addr(insn)), links.next)
}

/// The link for the target of a jump or call.
pub open spec fn target_link(insn: Insn, ctx: Context, start: u16, links: Links) -> Option<u32> {
    match insn.flow {
        Flow::Jump { target, .. } => program::link_if(
            program::can_link(ctx, start, target),
            links.target,
        ),
        Flow::Call { target, .. } => program::link_if(
            program::can_link(ctx, start, target),
            links.target,
        ),
        Flow::Rst { target } => program::link_if(
            program::can_link(ctx, start, target),
            links.target,
        ),
        _ => None,
    }
}

/// Every link is open or leads out of the block.
pub open spec fn links_fit(insn: Insn, ctx: Context, start: u16, links: Links) -> bool {
    &&& link_outside(
        next_link(insn, ctx, start, links),
        past_link(behind_next(insn, ctx, start, links)),
    )
    &&& link_outside(target_link(insn, ctx, start, links), past_link(seq![Op::Ret]))
}

/// The last instruction of a block, run from `w`, ends as `out`.
pub open spec fn ended(
    hw: Hardware,
    w: World,
    insn: Insn,
    ctx: Context,
    start: u16,
    links: Links,
    rsp: u64,
    out: Outcome,
) -> bool {
    let next = decode::next_addr(insn);
    let to_next = next_link(insn, ctx, start, links);
    let past_next = past_link(behind_next(insn, ctx, start, links));
    let to_target = target_link(insn, ctx, start, links);
    let past = past_link(seq![Op::Ret]);
    let paid = sm83::spend(w, 4 * insn.len);
    match insn.flow {
        Flow::Normal => leaves(
            hw,
            sm83::goto(sm83::normal(hw, w, insn), next),
            rsp,
            to_next,
            past_next,
            out,
        ),
        Flow::Halt => out matches Outcome::Left(m) && arrives(
            m,
            sm83::goto(paid, next).halt(),
            rsp,
        ),
        Flow::Stop => {
            let s = sm83::goto(paid, next).stop(hw);
            if s.st.exit != 0 {
                out matches Outcome::Left(m) && arrives(m, s, rsp)
            } else {
                leaves(hw, s, rsp, to_next, past_next, out)
            }
        },
        Flow::Illegal => out matches Outcome::Left(m) && arrives(
            m,
            w.with(GbState { pc: insn.addr, exit: EXIT_ILLEGAL, ..w.st }),
            rsp,
        ),
        _ => if is_conditional(insn.flow) && !sm83::taken(w.st, insn.opcode) {
            leaves(hw, sm83::control(hw, w, insn), rsp, to_next, past_next, out)
        } else {
            leaves(hw, sm83::control(hw, w, insn), rsp, to_target, past, out)
        },
    }
}

proof fn lemma_condition_bits(f: u8)
    by (bit_vector)
    ensures
        f & 0x80 == 0 <==> f < 0x80,
        f & 0x10 == 0 <==> f / 16 % 2 == 0,
{
}

/// The test of a conditional instruction.
pub proof fn lemma_test(hw: Hardware, g: Gen, opcode: u8, m0: Machine)
    requires
        meaning::ready(hw, g, m0),
    ensures
        ({
            let t = program::test_ops(g, opcode);
            let n = meaning::at(hw, t, m0);
            let w = meaning::here(hw, g, m0);
            &&& meaning::ready(hw, t, m0)
            &&& t.owed == 0
            &&& meaning::here(hw, t, m0) == w
            &&& x86::holds(program::taken_cc(opcode), n) == sm83::taken(w.st, opcode)
        }),
{
    broadcast use meaning::group_follow;

    reveal(program::test_ops);
    meaning::lemma_settle(hw, g, m0);
    lemma_condition_bits(meaning::here(hw, g, m0).st.f);
}

/// A fresh program on a machine that has just fallen out of another.
pub proof fn lemma_afresh(hw: Hardware, g: Gen, m0: Machine)
    requires
        meaning::ready(hw, g, m0),
        g.owed == 0,
    ensures
        ({
            let n = meaning::at(hw, g, m0);
            &&& n.rsp == m0.rsp
            &&& meaning::ready(hw, program::fresh(0), n)
            &&& meaning::here(hw, program::fresh(0), n) == meaning::here(hw, g, m0)
            &&& meaning::ready(hw, program::fresh(0).charge(4), n)
            &&& meaning::here(hw, program::fresh(0).charge(4), n) == sm83::spend(
                meaning::here(hw, g, m0),
                4,
            )
        }),
{
    let n = meaning::at(hw, g, m0);
    meaning::lemma_start(hw, 0, n);
    meaning::lemma_charge(hw, program::fresh(0), 4, n);
}

/// A conditional branch: over to the taken side, or out to the next instruction.
pub proof fn lemma_branch(
    hw: Hardware,
    g: Gen,
    opcode: u8,
    next: u16,
    link: Option<u32>,
    rest: Seq<Op>,
    m0: Machine,
)
    requires
        meaning::ready(hw, g, m0),
        table_ready(hw),
        link_outside(link, past_link(rest + seq![Op::Ret])),
        past_link(rest + seq![Op::Ret]) < 0x8000_0000,
        program::code_len(program::direct_ops(program::fresh(0), next, link, program::code_len(rest)))
            < 0x1_0000_0000,
    ensures
        ({
            let t = program::test_ops(g, opcode);
            let n = meaning::at(hw, t, m0);
            let w = meaning::here(hw, g, m0);
            let out = x86::run(
                hw,
                program::branch_ops(g, opcode, next, link, rest) + seq![Op::Ret],
                0,
                m0,
            );
            if sm83::taken(w.st, opcode) {
                out == x86::run(hw, rest + seq![Op::Ret], 0, n)
            } else {
                leaves(
                    hw,
                    sm83::goto(w, next),
                    m0.rsp,
                    link,
                    past_link(rest + seq![Op::Ret]),
                    out,
                )
            }
        }),
{
    reveal(program::branch_ops);
    let t = program::test_ops(g, opcode);
    let n = meaning::at(hw, t, m0);
    lemma_test(hw, g, opcode, m0);
    meaning::lemma_falls(hw, t, m0);
    lemma_afresh(hw, t, m0);
    let tail = seq![Op::Ret];
    let out_ops = program::direct_ops(program::fresh(0), next, link, program::code_len(rest));
    let rel = program::code_len(out_ops) as u32;
    let j = Op::Jcc(program::taken_cc(opcode), rel);
    let ops = seq![j] + out_ops + (rest + tail);
    assert(program::branch_ops(g, opcode, next, link, rest) + tail =~= t.ops + ops);
    meaning::lemma_run_concat(hw, t.ops, ops, m0);
    assert(ops[0] == j);
    assert(n.check(true) == n);
    if sm83::taken(meaning::here(hw, g, m0).st, opcode) {
        meaning::lemma_jump_over(hw, seq![j], out_ops, rest + tail, rel, n);
        assert(x86::run(hw, ops, 0, n) == x86::jump(hw, ops, 1, rel, n));
    } else {
        assert(ops =~= seq![j] + (out_ops + (rest + tail)));
        meaning::lemma_run_shift(hw, seq![j], out_ops + (rest + tail), 0, n);
        assert(x86::run(hw, ops, 0, n) == x86::run(hw, ops, 1, n));
        assert(rest + tail =~= rest + (seq![Op::Ret] + seq![]));
        lemma_direct(hw, program::fresh(0), next, link, rest, seq![], n);
    }
}

/// How many instructions the pieces of an ending are made of, at most.
proof fn lemma_piece_sizes(g: Gen, target: u16, value: u16, link: Option<u32>, after: int)
    ensures
        program::dispatch_ops().len() <= 20,
        program::direct_ops(g, target, link, after).len() <= g.ops.len() + 40,
        program::indirect_ops(g).len() <= g.ops.len() + 40,
        g.push_imm16(value).ops.len() <= g.ops.len() + 20,
        g.pop_pc().ops.len() <= g.ops.len() + 30,
{
    reveal(program::dispatch_ops);
    reveal(program::direct_ops);
    reveal(program::indirect_ops);
    reveal(program::sync_ops);
    reveal(program::leave_ops);
    reveal(Gen::push_imm16);
    reveal(Gen::pop_pc);
    reveal(Gen::call_helper);
    reveal(Gen::settle);
}

/// Endings are short enough for every jump inside them.
pub proof fn lemma_ending_sizes(insn: Insn, ctx: Context, start: u16, links: Links)
    ensures
        past_link(seq![Op::Ret]) < 0x1000,
        past_link(behind_next(insn, ctx, start, links)) < 0x1000,
        program::code_len(taken_ops(insn, ctx, start, links)) < 0x1000,
        forall|target: u16, link: Option<u32>, after: int|
            program::code_len(
                #[trigger] program::direct_ops(program::fresh(0), target, link, after),
            ) < 0x1000,
{
    let next = decode::next_addr(insn);
    let g4 = program::fresh(0).charge(4);
    lemma_piece_sizes(g4, 0, next, None, 0);
    match insn.flow {
        Flow::Jump { target, .. } => {
            let link = program::link_if(program::can_link(ctx, start, target), links.target);
            lemma_piece_sizes(g4, target, next, link, 0);
        },
        Flow::Call { target, .. } => {
            let link = program::link_if(program::can_link(ctx, start, target), links.target);
            lemma_piece_sizes(g4.push_imm16(next), target, next, link, 0);
        },
        Flow::Ret { enable_interrupts, .. } => {
            lemma_piece_sizes(
                program::resume_ops(g4.pop_pc(), enable_interrupts),
                0,
                next,
                None,
                0,
            );
        },
        _ => {},
    }
    x64::lemma_encode_all_short(taken_ops(insn, ctx, start, links));
    x64::lemma_encode_all_short(program::dispatch_ops() + seq![Op::Ret]);
    x64::lemma_encode_all_short(program::dispatch_ops() + behind_next(insn, ctx, start, links));
    assert forall|target: u16, link: Option<u32>, after: int|
        program::code_len(
            #[trigger] program::direct_ops(program::fresh(0), target, link, after),
        ) < 0x1000 by {
        lemma_piece_sizes(program::fresh(0), target, next, link, after);
        x64::lemma_encode_all_short(
            program::direct_ops(program::fresh(0), target, link, after),
        );
    }
}

/// Jumping, calling or returning once it is certain, with the cycles paid.
pub proof fn lemma_taken(
    hw: Hardware,
    g: Gen,
    insn: Insn,
    ctx: Context,
    start: u16,
    links: Links,
    m0: Machine,
)
    requires
        meaning::ready(hw, g, m0),
        table_ready(hw),
        links_fit(insn, ctx, start, links),
        insn.flow is Jump || insn.flow is Call || insn.flow is Rst || insn.flow is Ret,
    ensures
        ({
            let next = decode::next_addr(insn);
            let w = meaning::here(hw, g, m0);
            let hi = (next / 256) as u8;
            let lo = (next % 256) as u8;
            let past = past_link(seq![Op::Ret]);
            match insn.flow {
                Flow::Jump { target, .. } => leaves(
                    hw,
                    sm83::goto(w, target),
                    m0.rsp,
                    target_link(insn, ctx, start, links),
                    past,
                    x86::run(
                        hw,
                        program::direct_ops(g, target, target_link(insn, ctx, start, links), 0)
                            + seq![Op::Ret],
                        0,
                        m0,
                    ),
                ),
                Flow::Call { target, .. } => leaves(
                    hw,
                    sm83::goto(sm83::push(hw, w, hi, lo), target),
                    m0.rsp,
                    target_link(insn, ctx, start, links),
                    past,
                    x86::run(
                        hw,
                        program::direct_ops(
                            g.push_imm16(next),
                            target,
                            target_link(insn, ctx, start, links),
                            0,
                        ) + seq![Op::Ret],
                        0,
                        m0,
                    ),
                ),
                Flow::Rst { target } => leaves(
                    hw,
                    sm83::goto(sm83::push(hw, w, hi, lo), target),
                    m0.rsp,
                    target_link(insn, ctx, start, links),
                    past,
                    x86::run(
                        hw,
                        program::direct_ops(
                            g.push_imm16(next),
                            target,
                            target_link(insn, ctx, start, links),
                            0,
                        ) + seq![Op::Ret],
                        0,
                        m0,
                    ),
                ),
                Flow::Ret { enable_interrupts, .. } => {
                    let r = sm83::pop_pc(hw, w);
                    leaves(
                        hw,
                        if enable_interrupts {
                            r.with(GbState { ime: 1, ime_delay: 0, ..r.st })
                        } else {
                            r
                        },
                        m0.rsp,
                        None,
                        past,
                        x86::run(
                            hw,
                            program::indirect_ops(
                                program::resume_ops(g.pop_pc(), enable_interrupts),
                            ) + seq![Op::Ret],
                            0,
                            m0,
                        ),
                    )
                },
                _ => false,
            }
        }),
{
    let next = decode::next_addr(insn);
    let link = target_link(insn, ctx, start, links);
    let none: Seq<Op> = seq![];
    lemma_ending_sizes(insn, ctx, start, links);
    assert(none + (seq![Op::Ret] + none) =~= seq![Op::Ret]);
    assert(seq![Op::Ret] + none =~= seq![Op::Ret]);
    assert(program::code_len(none) == 0);
    match insn.flow {
        Flow::Jump { target, .. } => {
            lemma_direct(hw, g, target, link, none, none, m0);
        },
        Flow::Call { target, .. } => {
            wide::lemma_push_imm16(hw, g, next, m0);
            lemma_direct(hw, g.push_imm16(next), target, link, none, none, m0);
        },
        Flow::Rst { target } => {
            wide::lemma_push_imm16(hw, g, next, m0);
            lemma_direct(hw, g.push_imm16(next), target, link, none, none, m0);
        },
        Flow::Ret { enable_interrupts, .. } => {
            wide::lemma_pop_pc(hw, g, m0);
            let p = g.pop_pc();
            let r = program::resume_ops(p, enable_interrupts);
            let w = meaning::here(hw, p, m0);
            let pc = x86::low16(meaning::at(hw, p, m0).rax);
            assert(meaning::ready(hw, r, m0) && x86::low16(meaning::at(hw, r, m0).rax) == pc
                && meaning::here(hw, r, m0) == (if enable_interrupts {
                w.with(GbState { ime: 1, ime_delay: 0, ..w.st })
            } else {
                w
            })) by {
                broadcast use meaning::group_follow;

            }
            lemma_indirect(hw, r, pc, none, m0);
        },
        _ => {},
    }
}

} // verus!
