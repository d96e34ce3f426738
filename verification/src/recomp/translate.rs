//! SM83 basic block in, x86-64 machine code out.
//!
//! One Game Boy instruction becomes a short run of host instructions operating
//! on the state at `[rbp + n]`. Nothing is decoded at run time: control flow that
//! is known statically becomes a direct `jmp`, and control flow that is not goes
//! through an inline cache before it will consider asking the host for help.
//!
//! Timing is preserved exactly. Cycles the game owes the hardware accumulate in
//! `state.pending` and are handed over at every point the hardware could be
//! observed: any memory access, and the end of every block.
//!
//! Which instructions are emitted is stated in [`crate::recomp::program`], and
//! that they do what the game's code does is proved in
//! [`crate::recomp::meaning`].

use vstd::prelude::*;
use crate::bytes;
use crate::recomp::abi::{
    EXIT_DISPATCH, EXIT_ILLEGAL, FLAG_C, FLAG_H, FLAG_N, FLAG_Z, JUMP_CACHE_MASK, OFF_A, OFF_B,
    OFF_BANK_GEN, OFF_BC, OFF_C, OFF_D, OFF_DE, OFF_E, OFF_EXIT, OFF_F, OFF_H, OFF_HALT, OFF_HL,
    OFF_IME, OFF_IME_DELAY, OFF_JUMP_TABLE, OFF_L, OFF_PC, OFF_PENDING, OFF_READ8, OFF_SCRATCH,
    OFF_SP, OFF_STOP, OFF_SYNC, OFF_WRITE8,
};
use crate::recomp::decode;
use crate::recomp::decode::{decode_heard, Flow, Insn};
use crate::recomp::program;
use crate::recomp::program::{Context, Gen, Link, CALL_FRAME, MAX_INSTRUCTIONS};
use crate::recomp::x64;
use crate::recomp::x64::{
    Alu, Asm, Cc, Op, Patch, Rm, Shift, State, R10, R8, R9, RAX, RBP, RBX, RCX, RDX, RSP,
};

verus! {

pub struct Block {
    pub start: u16,
    /// One past the last byte of the last instruction translated.
    pub end: u16,
    pub code: Vec<u8>,
    pub links: Vec<Link>,
    pub instructions: usize,
}

/// Which part of the address space `addr` is in.
pub fn region(addr: u16) -> (r: u8)
    ensures
        r == program::region_of(addr),
{
    if addr < 0x4000 {
        0
    } else if addr < 0x8000 {
        1
    } else {
        2
    }
}

/// Where an operand slot lives. Index 6 is `(HL)`.
fn reg_offset(idx: u8) -> (off: i32)
    ensures
        off == program::slot_offset(idx),
{
    match idx {
        0 => OFF_B,
        1 => OFF_C,
        2 => OFF_D,
        3 => OFF_E,
        4 => OFF_H,
        5 => OFF_L,
        _ => OFF_A,
    }
}

/// The flag bit a condition code tests, and whether it must be set.
fn condition(idx: u8) -> (c: (u32, bool))
    ensures
        idx < 4 ==> c.0 == program::condition_mask(idx) && c.1 == program::condition_set(idx),
{
    match idx {
        0 => (FLAG_Z as u32, false),
        1 => (FLAG_Z as u32, true),
        2 => (FLAG_C as u32, false),
        _ => (FLAG_C as u32, true),
    }
}

/// The register pair at index `row`.
fn pair_at(row: u8) -> (off: i32)
    ensures
        off == program::pair_offset(row as int),
{
    match row {
        0 => OFF_BC,
        1 => OFF_DE,
        2 => OFF_HL,
        _ => OFF_SP,
    }
}

struct Emitter {
    buf: Asm,
    ctx: Context,
    links: Vec<Link>,
    /// Cycles run since the hardware was last told, not yet written to state.
    owed: u32,
    /// Sites that jump to this block's shared `ret`.
    exits: Vec<Patch>,
    block_start: u16,
    /// The instructions in `buf`.
    ops: Ghost<Seq<Op>>,
    /// The instructions that `exits` are the sites of.
    exit_at: Ghost<Seq<int>>,
}

/// A jump that has been emitted with no destination.
spec fn open_jump(op: Op) -> bool {
    op == Op::Jmp(0) || (op is Jcc && op->Jcc_1 == 0)
}

/// The same jump with its destination filled in.
spec fn aimed(op: Op, rel: u32) -> Op {
    match op {
        Op::Jcc(cc, _) => Op::Jcc(cc, rel),
        _ => Op::Jmp(rel),
    }
}

/// Where the rel32 field of the jump at `k` is.
spec fn site_of(ops: Seq<Op>, k: int) -> int {
    program::code_len(ops.take(k)) + (if ops[k] is Jcc {
        2int
    } else {
        1
    })
}

/// The program with the open jump at `k` aimed at its end.
spec fn closed_at(ops: Seq<Op>, k: int) -> Seq<Op> {
    ops.update(k, aimed(ops[k], program::code_len(ops.skip(k + 1)) as u32))
}

/// The program with every open jump at one of `ks` aimed at its end.
#[verifier::opaque]
spec fn closed_all(ops: Seq<Op>, ks: Seq<int>) -> Seq<Op>
    decreases ks.len(),
{
    if ks.len() == 0 {
        ops
    } else {
        closed_at(closed_all(ops, ks.drop_last()), ks.last())
    }
}

pub proof fn lemma_split(ops: Seq<Op>, k: int)
    requires
        0 <= k < ops.len(),
    ensures
        ops == ops.take(k) + seq![ops[k]] + ops.skip(k + 1),
        x64::encode_all(ops) == x64::encode_all(ops.take(k)) + ops[k].encode() + x64::encode_all(
            ops.skip(k + 1),
        ),
{
    assert(ops =~= ops.take(k) + seq![ops[k]] + ops.skip(k + 1));
    x64::lemma_encode_concat(ops.take(k), seq![ops[k]]);
    x64::lemma_encode_one(ops[k]);
    x64::lemma_encode_concat(ops.take(k) + seq![ops[k]], ops.skip(k + 1));
}

/// Aiming a jump rewrites its rel32 field and nothing else.
proof fn lemma_aim(ops: Seq<Op>, k: int, rel: u32)
    requires
        0 <= k < ops.len(),
        open_jump(ops[k]),
    ensures
        x64::encode_all(ops.update(k, aimed(ops[k], rel))) == bytes::splice(
            x64::encode_all(ops),
            site_of(ops, k),
            bytes::le32(rel),
        ),
        site_of(ops, k) + 4 == program::code_len(ops.take(k + 1)),
        site_of(ops, k) + 4 + program::code_len(ops.skip(k + 1)) == program::code_len(ops),
        program::code_len(ops.update(k, aimed(ops[k], rel))) == program::code_len(ops),
{
    let new = ops.update(k, aimed(ops[k], rel));
    lemma_split(ops, k);
    lemma_split(new, k);
    assert(new.take(k) =~= ops.take(k));
    assert(new.skip(k + 1) =~= ops.skip(k + 1));
    assert(ops.take(k + 1) =~= ops.take(k) + seq![ops[k]]);
    x64::lemma_encode_concat(ops.take(k), seq![ops[k]]);
    x64::lemma_encode_one(ops[k]);
    assert(x64::encode_all(new) =~= bytes::splice(
        x64::encode_all(ops),
        site_of(ops, k),
        bytes::le32(rel),
    ));
}

/// Aiming a jump moves nothing.
proof fn lemma_aim_keeps(ops: Seq<Op>, k: int, rel: u32, j: int)
    requires
        0 <= k < ops.len(),
        open_jump(ops[k]),
        0 <= j <= ops.len(),
    ensures
        ({
            let new = ops.update(k, aimed(ops[k], rel));
            &&& program::code_len(new.take(j)) == program::code_len(ops.take(j))
            &&& program::code_len(new.skip(j)) == program::code_len(ops.skip(j))
            &&& program::code_len(new) == program::code_len(ops)
        }),
{
    let new = ops.update(k, aimed(ops[k], rel));
    lemma_aim(ops, k, rel);
    if j <= k {
        assert(new.take(j) =~= ops.take(j));
    } else {
        assert(ops.take(j)[k] == ops[k]);
        assert(new.take(j) =~= ops.take(j).update(k, aimed(ops[k], rel)));
        lemma_aim(ops.take(j), k, rel);
    }
    assert(ops =~= ops.take(j) + ops.skip(j));
    assert(new =~= new.take(j) + new.skip(j));
    x64::lemma_encode_concat(ops.take(j), ops.skip(j));
    x64::lemma_encode_concat(new.take(j), new.skip(j));
}

impl Emitter {
    spec fn gen(self) -> Gen {
        Gen { ops: self.ops@, owed: self.owed as int }
    }

    /// The buffer holds the encoding of the program, and every exit is the site
    /// of an open jump in it.
    spec fn wf(self) -> bool {
        &&& self.buf.code@ == x64::encode_all(self.ops@)
        &&& self.exits@.len() == self.exit_at@.len()
        &&& forall|i: int|
            0 <= i < self.exit_at@.len() ==> 0 <= #[trigger] self.exit_at@[i] < self.ops@.len()
                && self.ops@[self.exit_at@[i]] == Op::Jcc(Cc::Ne, 0) && self.exits@[i].site()
                == site_of(self.ops@, self.exit_at@[i])
    }

    /// Nothing but the program has changed since `before`, and it is `g`.
    spec fn emitted(self, before: Emitter, g: Gen) -> bool {
        &&& self.wf()
        &&& self.gen() == g
        &&& self.links@ == before.links@
        &&& self.exit_at@ == before.exit_at@
        &&& self.ctx == before.ctx
        &&& self.block_start == before.block_start
    }

    fn new(ctx: Context, block_start: u16) -> (em: Self)
        ensures
            em.wf(),
            em.gen() == program::fresh(0),
            em.links@ == Seq::<Link>::empty(),
            em.exit_at@ == Seq::<int>::empty(),
            em.ctx == ctx,
            em.block_start == block_start,
    {
        Emitter {
            buf: Asm::new(),
            ctx,
            links: Vec::new(),
            owed: 0,
            exits: Vec::new(),
            block_start,
            ops: Ghost(Seq::empty()),
            exit_at: Ghost(Seq::empty()),
        }
    }

    /// Append one instruction.
    fn op(&mut self, op: Op)
        requires
            old(self).wf(),
            op.plain(),
        ensures
            final(self).emitted(*old(self), old(self).gen().op(op)),
    {
        self.buf.emit(op);
        proof {
            let before = self.ops@;
            self.ops@ = before.push(op);
            assert(self.ops@.drop_last() =~= before);
            assert forall|i: int| 0 <= i < self.exit_at@.len() implies 0
                <= #[trigger] self.exit_at@[i] < self.ops@.len() && self.ops@[self.exit_at@[i]]
                == Op::Jcc(Cc::Ne, 0) && self.exits@[i].site() == site_of(
                self.ops@,
                self.exit_at@[i],
            ) by {
                let k = old(self).exit_at@[i];
                assert(before.push(op).take(k) =~= before.take(k));
            }
        }
    }

    fn reg_op(&mut self, alu: Alu, dst: u8, src: u8)
        requires
            old(self).wf(),
        ensures
            final(self).emitted(*old(self), old(self).gen().reg_op(alu, dst, src)),
    {
        self.op(Op::AluStore(alu, Rm::R(dst), src, 4));
    }

    fn imm_op(&mut self, alu: Alu, dst: u8, value: u32)
        requires
            old(self).wf(),
        ensures
            final(self).emitted(*old(self), old(self).gen().imm_op(alu, dst, value)),
    {
        self.op(Op::AluImm(alu, Rm::R(dst), value, 4));
    }

    fn shift(&mut self, kind: Shift, dst: u8, amount: u8)
        requires
            old(self).wf(),
        ensures
            final(self).emitted(*old(self), old(self).gen().shift(kind, dst, amount)),
    {
        self.op(Op::ShiftImm(kind, Rm::R(dst), amount, 4));
    }

    fn copy(&mut self, dst: u8, src: u8)
        requires
            old(self).wf(),
        ensures
            final(self).emitted(*old(self), old(self).gen().copy(dst, src)),
    {
        self.op(Op::MovStore(Rm::R(dst), src, 4));
    }

    /// Append a jump with no destination.
    fn open(&mut self, op: Op) -> (patch: Patch)
        requires
            old(self).wf(),
            open_jump(op),
        ensures
            final(self).emitted(*old(self), old(self).gen().op(op)),
            patch.site() == program::code_len(old(self).ops@) + (if op is Jcc {
                2int
            } else {
                1
            }),
    {
        let at: usize = self.buf.len();
        self.op(op);
        proof {
            assert(self.ops@.take(old(self).ops@.len() as int) =~= old(self).ops@);
            let n = old(self).buf.code@.len() as int;
            assert(self.buf.code@.len() == n + op.encode().len());
        }
        assert(self.buf.code.len() == at + op.encode().len());
        match op {
            Op::Jcc(_, _) => Asm::into_patch(at + 2),
            _ => Asm::into_patch(at + 1),
        }
    }

    /// Aim the open jump at `k` at the end of the program.
    fn close(&mut self, patch: Patch, Ghost(k): Ghost<int>)
        requires
            old(self).wf(),
            0 <= k < old(self).ops@.len(),
            open_jump(old(self).ops@[k]),
            patch.site() == site_of(old(self).ops@, k),
            !old(self).exit_at@.contains(k),
            program::code_len(old(self).ops@.skip(k + 1)) < 0x8000_0000,
        ensures
            final(self).emitted(
                *old(self),
                Gen { ops: closed_at(old(self).ops@, k), owed: old(self).owed as int },
            ),
    {
        proof {
            let rel = program::code_len(self.ops@.skip(k + 1)) as u32;
            lemma_aim(self.ops@, k, rel);
            assert(bytes::bits32(program::code_len(self.ops@.skip(k + 1))) == rel);
        }
        self.buf.bind(patch);
        proof {
            let before = self.ops@;
            let rel = program::code_len(before.skip(k + 1)) as u32;
            self.ops@ = closed_at(before, k);
            assert forall|i: int| 0 <= i < self.exit_at@.len() implies 0
                <= #[trigger] self.exit_at@[i] < self.ops@.len() && self.ops@[self.exit_at@[i]]
                == Op::Jcc(Cc::Ne, 0) && self.exits@[i].site() == site_of(
                self.ops@,
                self.exit_at@[i],
            ) by {
                let j = old(self).exit_at@[i];
                assert(old(self).exit_at@.contains(j));
                lemma_aim_keeps(before, k, rel, j);
            }
        }
    }

    // ---- the steps of the translation ------------------------------------

    fn charge(&mut self, cycles: u32)
        requires
            old(self).wf(),
            old(self).owed + cycles <= u32::MAX,
        ensures
            final(self).emitted(*old(self), old(self).gen().charge(cycles as int)),
    {
        self.owed += cycles;
    }

    /// Write accumulated cycles into the state so the hardware can see them.
    fn settle(&mut self)
        requires
            old(self).wf(),
        ensures
            final(self).emitted(*old(self), old(self).gen().settle()),
            final(self).owed == 0,
    {
        proof {
            reveal(Gen::settle);
        }
        if self.owed != 0 {
            self.op(Op::AluImm(Alu::Add, State(OFF_PENDING), self.owed, 4));
            self.owed = 0;
        }
    }

    fn call_helper(&mut self, slot: i32)
        requires
            old(self).wf(),
        ensures
            final(self).emitted(*old(self), old(self).gen().call_helper(slot)),
            final(self).owed == 0,
    {
        proof {
            reveal(Gen::call_helper);
        }
        self.settle();
        self.op(Op::MovStore(Rm::R(RCX), RBP, 8));
        self.op(Op::AluImm(Alu::Sub, Rm::R(RSP), CALL_FRAME, 8));
        self.op(Op::CallRm(State(slot)));
        self.op(Op::AluImm(Alu::Add, Rm::R(RSP), CALL_FRAME, 8));
    }

    /// Read from the address in EDX; the byte comes back in AL.
    fn read_mem(&mut self)
        requires
            old(self).wf(),
        ensures
            final(self).emitted(*old(self), old(self).gen().read_mem()),
            final(self).owed == 0,
    {
        self.call_helper(OFF_READ8);
    }

    /// Write the byte in R8D to the address in EDX.
    fn write_mem(&mut self)
        requires
            old(self).wf(),
        ensures
            final(self).emitted(*old(self), old(self).gen().write_mem()),
            final(self).owed == 0,
    {
        self.call_helper(OFF_WRITE8);
    }

    fn load_addr_imm(&mut self, addr: u16)
        requires
            old(self).wf(),
        ensures
            final(self).emitted(*old(self), old(self).gen().load_addr_imm(addr)),
    {
        self.op(Op::MovImm32(RDX, addr as u32));
    }

    fn load_addr_hl(&mut self)
        requires
            old(self).wf(),
        ensures
            final(self).emitted(*old(self), old(self).gen().load_addr_hl()),
    {
        self.op(Op::Movzx(RDX, State(OFF_HL), 2));
    }

    /// Put operand `idx` in AL.
    fn load_operand(&mut self, idx: u8)
        requires
            old(self).wf(),
        ensures
            final(self).emitted(*old(self), old(self).gen().load_operand(idx)),
            final(self).owed <= old(self).owed,
    {
        proof {
            reveal(Gen::load_operand);
        }
        if idx == 6 {
            self.load_addr_hl();
            self.read_mem();
        } else {
            self.op(Op::MovLoad(RAX, State(reg_offset(idx)), 1));
        }
    }

    /// Store AL into operand `idx`.
    fn store_operand(&mut self, idx: u8)
        requires
            old(self).wf(),
        ensures
            final(self).emitted(*old(self), old(self).gen().store_operand(idx)),
            final(self).owed <= old(self).owed,
    {
        proof {
            reveal(Gen::store_operand);
        }
        if idx == 6 {
            self.op(Op::Movzx(R8, Rm::R(RAX), 1));
            self.load_addr_hl();
            self.write_mem();
        } else {
            self.op(Op::MovStore(State(reg_offset(idx)), RAX, 1));
        }
    }

    /// The Z flag for the byte last tested, in R9D.
    fn zero_flag(&mut self)
        requires
            old(self).wf(),
        ensures
            final(self).emitted(*old(self), old(self).gen().zero_flag()),
    {
        self.op(Op::Setcc(Cc::E, Rm::R(R9)));
        self.op(Op::Movzx(R9, Rm::R(R9), 1));
        self.shift(Shift::Shl, R9, 7);
    }

    /// Set F from parts: Z from AL being zero, plus whatever is already in ECX.
    /// `n` is the constant N flag for this operation.
    fn flags_from_al(&mut self, extra_in_ecx: bool, n: bool)
        requires
            old(self).wf(),
        ensures
            final(self).emitted(*old(self), old(self).gen().flags_from_al(extra_in_ecx, n)),
            final(self).owed == old(self).owed,
    {
        self.op(Op::Test(Rm::R(RAX), RAX, 1));
        self.zero_flag();
        if !extra_in_ecx {
            self.reg_op(Alu::Xor, RCX, RCX);
        }
        self.reg_op(Alu::Or, RCX, R9);
        if n {
            self.imm_op(Alu::Or, RCX, FLAG_N as u32);
        }
        self.op(Op::MovStore(State(OFF_F), RCX, 1));
    }

    /// The carry flag, as 0 or 1, in R10D.
    fn carry_in(&mut self)
        requires
            old(self).wf(),
        ensures
            final(self).emitted(*old(self), old(self).gen().carry_in()),
    {
        self.op(Op::Movzx(R10, State(OFF_F), 1));
        self.shift(Shift::Shr, R10, 4);
        self.imm_op(Alu::And, R10, 1);
    }

    /// The 8-bit add/subtract family.
    /// 
    /// Half-carry and carry both fall out of one identity: the sum with all
    /// carries suppressed is `a ^ b ^ carry_in`, so XOR-ing that against the real
    /// result leaves a 1 exactly where a carry crossed a bit boundary.
    fn alu_add_sub(&mut self, subtract: bool, with_carry: bool, store: bool)
        requires
            old(self).wf(),
        ensures
            final(self).emitted(*old(self), old(self).gen().alu_add_sub(subtract, with_carry, store)),
            final(self).owed == old(self).owed,
    {
        proof {
            reveal(Gen::alu_add_sub);
        }
        // AL holds the operand on entry; A and the carry come from state.
        self.op(Op::Movzx(RCX, Rm::R(RAX), 1));  // ecx = operand
        self.op(Op::Movzx(RAX, State(OFF_A), 1));  // eax = a
        self.copy(RDX, RAX);
        self.reg_op(Alu::Xor, RDX, RCX);  // edx = a ^ b
        if with_carry {
            self.carry_in();
            self.reg_op(Alu::Xor, RDX, R10);  // fold carry-in into the guess
        }
        let alu = if subtract {
            Alu::Sub
        } else {
            Alu::Add
        };
        self.reg_op(alu, RAX, RCX);
        if with_carry {
            self.reg_op(alu, RAX, R10);
        }
        self.reg_op(Alu::Xor, RDX, RAX);  // edx: bit 4 = H, bit 8 = C
        self.imm_op(Alu::And, RAX, 0xff);
        if store {
            self.op(Op::MovStore(State(OFF_A), RAX, 1));
        }
        // ecx = H | C
        self.copy(RCX, RDX);
        self.imm_op(Alu::And, RCX, 0x10);
        self.shift(Shift::Shl, RCX, 1);  // 0x10 -> FLAG_H
        self.shift(Shift::Shr, RDX, 8);
        self.imm_op(Alu::And, RDX, 1);
        self.shift(Shift::Shl, RDX, 4);  // -> FLAG_C
        self.reg_op(Alu::Or, RCX, RDX);
        self.flags_from_al(true, subtract);
    }

    /// AND / OR / XOR, whose flags are fixed apart from Z.
    fn alu_logic(&mut self, alu: Alu, half_carry: bool)
        requires
            old(self).wf(),
        ensures
            final(self).emitted(*old(self), old(self).gen().alu_logic(alu, half_carry)),
            final(self).owed == old(self).owed,
    {
        proof {
            reveal(Gen::alu_logic);
        }
        self.op(Op::AluStore(alu, State(OFF_A), RAX, 1));
        self.op(Op::MovLoad(RAX, State(OFF_A), 1));
        if half_carry {
            self.op(Op::MovImm32(RCX, FLAG_H as u32));
        } else {
            self.reg_op(Alu::Xor, RCX, RCX);
        }
        self.flags_from_al(true, false);
    }

    /// The flags of INC and DEC, and the new value, of the operand in AL.
    fn inc_dec_flags(&mut self, decrement: bool)
        requires
            old(self).wf(),
        ensures
            final(self).emitted(*old(self), old(self).gen().inc_dec_flags(decrement)),
            final(self).owed == old(self).owed,
    {
        proof {
            reveal(Gen::inc_dec_flags);
        }
        // Half-carry is decided by the low nibble before the change.
        self.op(Op::MovStore(Rm::R(RCX), RAX, 1));
        self.op(Op::AluImm(Alu::And, Rm::R(RCX), 0x0f, 1));
        self.op(Op::AluImm(Alu::Cmp, Rm::R(RCX), if decrement { 0x00 } else { 0x0f }, 1));
        self.op(Op::Setcc(Cc::E, Rm::R(R9)));
        if decrement {
            self.op(Op::Dec(Rm::R(RAX), 1));
        } else {
            self.op(Op::Inc(Rm::R(RAX), 1));
        }
        // INC/DEC leave the carry flag alone.
        self.op(Op::Movzx(RCX, State(OFF_F), 1));
        self.imm_op(Alu::And, RCX, FLAG_C as u32);
        self.op(Op::Movzx(R9, Rm::R(R9), 1));
        self.shift(Shift::Shl, R9, 5);
        self.reg_op(Alu::Or, RCX, R9);
        // Storing to (HL) calls out to the host, so build F while AL is still live.
        self.imm_op(Alu::And, RAX, 0xff);
        self.op(Op::Test(Rm::R(RAX), RAX, 1));
        self.zero_flag();
        self.reg_op(Alu::Or, RCX, R9);
        if decrement {
            self.imm_op(Alu::Or, RCX, FLAG_N as u32);
        }
        self.op(Op::MovStore(State(OFF_F), RCX, 1));
    }

    fn inc_dec_8(&mut self, idx: u8, decrement: bool)
        requires
            old(self).wf(),
        ensures
            final(self).emitted(*old(self), old(self).gen().inc_dec_8(idx, decrement)),
            final(self).owed <= old(self).owed,
    {
        proof {
            reveal(Gen::inc_dec_8);
        }
        self.load_operand(idx);
        self.inc_dec_flags(decrement);
        self.store_operand(idx);
    }

    fn add_hl(&mut self, src: i32)
        requires
            old(self).wf(),
        ensures
            final(self).emitted(*old(self), old(self).gen().add_hl(src)),
            final(self).owed == old(self).owed,
    {
        proof {
            reveal(Gen::add_hl);
        }
        self.op(Op::Movzx(RAX, State(OFF_HL), 2));
        self.op(Op::Movzx(RCX, State(src), 2));
        self.copy(RDX, RAX);
        self.reg_op(Alu::Xor, RDX, RCX);
        self.reg_op(Alu::Add, RAX, RCX);
        self.reg_op(Alu::Xor, RDX, RAX);  // bit 12 = H, bit 16 = C
        self.op(Op::MovStore(State(OFF_HL), RAX, 2));

        self.op(Op::Movzx(RCX, State(OFF_F), 1));
        self.imm_op(Alu::And, RCX, FLAG_Z as u32);  // Z survives
        self.copy(R9, RDX);
        self.imm_op(Alu::And, R9, 0x1000);
        self.shift(Shift::Shr, R9, 7);  // -> FLAG_H
        self.reg_op(Alu::Or, RCX, R9);
        self.shift(Shift::Shr, RDX, 16);
        self.imm_op(Alu::And, RDX, 1);
        self.shift(Shift::Shl, RDX, 4);  // -> FLAG_C
        self.reg_op(Alu::Or, RCX, RDX);
        self.op(Op::MovStore(State(OFF_F), RCX, 1));
    }

    /// `ADD SP,e8` and `LD HL,SP+e8`: the flags come from the low byte only.
    fn sp_plus_offset(&mut self, offset: u8, dest: i32)
        requires
            old(self).wf(),
        ensures
            final(self).emitted(*old(self), old(self).gen().sp_plus_offset(offset, program::sign_extend(offset), dest)),
            final(self).owed == old(self).owed,
    {
        proof {
            reveal(Gen::sp_plus_offset);
        }
        let wide: u32 = if offset < 128 {
            offset as u32
        } else {
            0xffff_ff00 + offset as u32
        };
        self.op(Op::Movzx(RAX, State(OFF_SP), 2));
        self.op(Op::MovImm32(RCX, offset as u32));
        self.copy(RDX, RAX);
        self.imm_op(Alu::And, RDX, 0xff);
        self.copy(R9, RDX);
        self.reg_op(Alu::Xor, R9, RCX);
        self.reg_op(Alu::Add, RDX, RCX);
        self.reg_op(Alu::Xor, R9, RDX);  // bit 4 = H, bit 8 = C

        self.copy(RCX, R9);
        self.imm_op(Alu::And, RCX, 0x10);
        self.shift(Shift::Shl, RCX, 1);
        self.shift(Shift::Shr, R9, 8);
        self.imm_op(Alu::And, R9, 1);
        self.shift(Shift::Shl, R9, 4);
        self.reg_op(Alu::Or, RCX, R9);
        self.op(Op::MovStore(State(OFF_F), RCX, 1));  // Z and N are always clear

        self.op(Op::MovImm32(RCX, wide));
        self.reg_op(Alu::Add, RAX, RCX);
        self.op(Op::MovStore(State(dest), RAX, 2));
    }

    fn push16(&mut self, high: i32, low: i32)
        requires
            old(self).wf(),
        ensures
            final(self).emitted(*old(self), old(self).gen().push16(high, low)),
            final(self).owed == 0,
    {
        proof {
            reveal(Gen::push16);
        }
        self.op(Op::Dec(State(OFF_SP), 2));
        self.op(Op::Movzx(R8, State(high), 1));
        self.op(Op::Movzx(RDX, State(OFF_SP), 2));
        self.write_mem();
        self.op(Op::Dec(State(OFF_SP), 2));
        self.op(Op::Movzx(R8, State(low), 1));
        self.op(Op::Movzx(RDX, State(OFF_SP), 2));
        self.write_mem();
    }

    fn push_imm16(&mut self, value: u16)
        requires
            old(self).wf(),
        ensures
            final(self).emitted(*old(self), old(self).gen().push_imm16(value)),
            final(self).owed == 0,
    {
        proof {
            reveal(Gen::push_imm16);
        }
        self.op(Op::Dec(State(OFF_SP), 2));
        self.op(Op::MovImm32(R8, (value / 256) as u32));
        self.op(Op::Movzx(RDX, State(OFF_SP), 2));
        self.write_mem();
        self.op(Op::Dec(State(OFF_SP), 2));
        self.op(Op::MovImm32(R8, (value % 256) as u32));
        self.op(Op::Movzx(RDX, State(OFF_SP), 2));
        self.write_mem();
    }

    fn pop16(&mut self, high: i32, low: i32)
        requires
            old(self).wf(),
        ensures
            final(self).emitted(*old(self), old(self).gen().pop16(high, low)),
            final(self).owed == 0,
    {
        proof {
            reveal(Gen::pop16);
        }
        self.op(Op::Movzx(RDX, State(OFF_SP), 2));
        self.read_mem();
        self.op(Op::MovStore(State(low), RAX, 1));
        self.op(Op::Inc(State(OFF_SP), 2));
        self.op(Op::Movzx(RDX, State(OFF_SP), 2));
        self.read_mem();
        self.op(Op::MovStore(State(high), RAX, 1));
        self.op(Op::Inc(State(OFF_SP), 2));
    }

    /// Pop a return address off the Game Boy stack, leaving it in EAX.
    fn pop_pc(&mut self)
        requires
            old(self).wf(),
        ensures
            final(self).emitted(*old(self), old(self).gen().pop_pc()),
            final(self).owed == 0,
    {
        proof {
            reveal(Gen::pop_pc);
        }
        self.op(Op::Movzx(RDX, State(OFF_SP), 2));
        self.read_mem();
        self.op(Op::Movzx(RAX, Rm::R(RAX), 1));
        self.op(Op::MovStore(State(OFF_SCRATCH), RAX, 4));
        self.op(Op::Inc(State(OFF_SP), 2));
        self.op(Op::Movzx(RDX, State(OFF_SP), 2));
        self.read_mem();
        self.op(Op::Inc(State(OFF_SP), 2));
        self.op(Op::Movzx(RAX, Rm::R(RAX), 1));
        self.shift(Shift::Shl, RAX, 8);
        self.op(Op::AluLoad(Alu::Or, RAX, State(OFF_SCRATCH), 4));
    }

    /// Rotate or shift the byte in AL. Leaves the outgoing carry in ECX,
    /// already positioned as `FLAG_C`.
    fn rotate(&mut self, kind: u8)
        requires
            old(self).wf(),
        ensures
            final(self).emitted(*old(self), old(self).gen().rotate(kind)),
            final(self).owed == old(self).owed,
    {
        proof {
            reveal(Gen::rotate);
        }
        // Carry-in, needed by RL and RR.
        if kind == 2 || kind == 3 {
            self.carry_in();
        }
        // Carry-out comes from whichever end is about to fall off.
        self.op(Op::Movzx(RCX, Rm::R(RAX), 1));
        match kind {
            0 | 2 | 4 => self.shift(Shift::Shr, RCX, 7),
            6 => self.reg_op(Alu::Xor, RCX, RCX),  // SWAP clears the carry
            _ => self.imm_op(Alu::And, RCX, 1),
        }
        if kind != 6 {
            self.imm_op(Alu::And, RCX, 1);
            self.shift(Shift::Shl, RCX, 4);
        }
        match kind {
            0 => self.op(Op::ShiftImm(Shift::Rol, Rm::R(RAX), 1, 1)),
            1 => self.op(Op::ShiftImm(Shift::Ror, Rm::R(RAX), 1, 1)),
            2 => {
                self.op(Op::ShiftImm(Shift::Shl, Rm::R(RAX), 1, 1));
                self.op(Op::AluStore(Alu::Or, Rm::R(RAX), R10, 1));
            },
            3 => {
                self.op(Op::ShiftImm(Shift::Shr, Rm::R(RAX), 1, 1));
                self.shift(Shift::Shl, R10, 7);
                self.op(Op::AluStore(Alu::Or, Rm::R(RAX), R10, 1));
            },
            4 => self.op(Op::ShiftImm(Shift::Shl, Rm::R(RAX), 1, 1)),
            5 => self.op(Op::ShiftImm(Shift::Sar, Rm::R(RAX), 1, 1)),
            6 => self.op(Op::ShiftImm(Shift::Rol, Rm::R(RAX), 4, 1)),
            _ => self.op(Op::ShiftImm(Shift::Shr, Rm::R(RAX), 1, 1)),
        }
        self.op(Op::Movzx(RAX, Rm::R(RAX), 1));
    }

    fn alu_op(&mut self, kind: u8)
        requires
            old(self).wf(),
        ensures
            final(self).emitted(*old(self), old(self).gen().alu_op(kind)),
            final(self).owed == old(self).owed,
    {
        proof {
            reveal(Gen::alu_op);
        }
        match kind {
            0 => self.alu_add_sub(false, false, true),
            1 => self.alu_add_sub(false, true, true),
            2 => self.alu_add_sub(true, false, true),
            3 => self.alu_add_sub(true, true, true),
            4 => self.alu_logic(Alu::And, true),
            5 => self.alu_logic(Alu::Xor, false),
            6 => self.alu_logic(Alu::Or, false),
            // CP is SUB that throws the result away.
            _ => self.alu_add_sub(true, false, false),
        }
    }

    /// Correct one digit unless `cc` holds.
    fn correct_unless(&mut self, cc: Cc, high: bool)
        requires
            old(self).wf(),
        ensures
            final(self).emitted(
                *old(self),
                old(self).gen().unless(
                    cc,
                    if high {
                        program::daa_high()
                    } else {
                        program::daa_low()
                    },
                ),
            ),
    {
        let ghost k = self.ops@.len() as int;
        let ghost body = if high {
            program::daa_high()
        } else {
            program::daa_low()
        };
        let skip = self.open(Op::Jcc(cc, 0));
        if high {
            self.op(Op::AluImm(Alu::Or, Rm::R(R8), 0x60, 4));
            self.op(Op::MovImm32(R9, 1));
        } else {
            self.op(Op::AluImm(Alu::Or, Rm::R(R8), 0x06, 4));
        }
        proof {
            reveal(Gen::unless);
            assert(self.ops@.skip(k + 1) =~= body);
            assert(self.ops@.take(k) =~= old(self).ops@);
            x64::lemma_encode_all_short(body);
            assert(closed_at(self.ops@, k) =~= old(self).gen().unless(cc, body).ops);
        }
        self.close(skip, Ghost(k));
    }

    /// Correct the digits of a sum, which can be out of range, and add.
    fn correct_sum(&mut self)
        requires
            old(self).wf(),
        ensures
            final(self).emitted(
                *old(self),
                Gen { ops: old(self).ops@ + program::daa_add(), owed: old(self).owed as int },
            ),
    {
        self.copy(RDX, RAX);
        self.imm_op(Alu::And, RDX, 0x0f);
        self.imm_op(Alu::Cmp, RDX, 9);
        self.correct_unless(Cc::Be, false);
        self.imm_op(Alu::Cmp, RAX, 0x99);
        self.correct_unless(Cc::Be, true);
        self.reg_op(Alu::Add, RAX, R8);
        proof {
            reveal(Gen::unless);
            assert(self.ops@ =~= old(self).ops@ + program::daa_add());
        }
    }

    /// Add the correction, or subtract it if N is set. After a subtraction the
    /// digits are already valid; only undo the borrow.
    fn apply_correction(&mut self)
        requires
            old(self).wf(),
        ensures
            final(self).emitted(
                *old(self),
                old(self).gen().either(Cc::Ne, program::daa_add(), program::daa_sub()),
            ),
    {
        let ghost base = self.ops@;
        let ghost k = base.len() as int;
        let ghost add = program::daa_add();
        let ghost sub = program::daa_sub();
        let subtract = self.open(Op::Jcc(Cc::Ne, 0));
        self.correct_sum();
        let ghost k2 = self.ops@.len() as int;
        let done = self.open(Op::Jmp(0));
        let ghost before = self.ops@;
        proof {
            assert(before.skip(k + 1) =~= add.push(Op::Jmp(0)));
            assert(add.push(Op::Jmp(0)).drop_last() =~= add);
            assert(before.take(k) =~= base);
            assert(add.len() < 20) by {
                reveal(Gen::unless);
            }
            x64::lemma_encode_all_short(add);
            lemma_aim_keeps(before, k, program::code_len(before.skip(k + 1)) as u32, k2);
            assert(before.take(k2) =~= base.push(Op::Jcc(Cc::Ne, 0)) + add);
        }
        self.close(subtract, Ghost(k));
        let ghost aimed_once = self.ops@;
        self.reg_op(Alu::Sub, RAX, R8);
        proof {
            reveal(Gen::either);
            assert(self.ops@.skip(k2 + 1) =~= sub);
            x64::lemma_encode_all_short(sub);
            assert(self.ops@.take(k2) =~= aimed_once.take(k2));
            assert(closed_at(self.ops@, k2) =~= old(self).gen().either(Cc::Ne, add, sub).ops);
        }
        self.close(done, Ghost(k2));
    }

    /// Decimal adjust. Rare enough that branches cost nothing worth saving.
    fn daa(&mut self)
        requires
            old(self).wf(),
        ensures
            final(self).emitted(*old(self), old(self).gen().daa()),
            final(self).owed == old(self).owed,
    {
        proof {
            reveal(Gen::daa);
        }
        self.op(Op::Movzx(RAX, State(OFF_A), 1));
        self.op(Op::Movzx(RCX, State(OFF_F), 1));
        self.reg_op(Alu::Xor, R8, R8);  // adjustment
        self.reg_op(Alu::Xor, R9, R9);  // outgoing carry

        // A carry already set means the high digit needs correcting.
        self.op(Op::TestImm(Rm::R(RCX), FLAG_C as u32, 1));
        self.correct_unless(Cc::E, true);
        self.op(Op::TestImm(Rm::R(RCX), FLAG_H as u32, 1));
        self.correct_unless(Cc::E, false);

        self.op(Op::TestImm(Rm::R(RCX), FLAG_N as u32, 1));
        self.apply_correction();

        self.imm_op(Alu::And, RAX, 0xff);
        self.op(Op::MovStore(State(OFF_A), RAX, 1));

        self.imm_op(Alu::And, RCX, FLAG_N as u32);  // N survives, H clears
        self.shift(Shift::Shl, R9, 4);
        self.reg_op(Alu::Or, RCX, R9);
        self.op(Op::Test(Rm::R(RAX), RAX, 1));
        self.zero_flag();
        self.reg_op(Alu::Or, RCX, R9);
        self.op(Op::MovStore(State(OFF_F), RCX, 1));
        assert(self.owed == old(self).owed) by {
            reveal(Gen::unless);
            reveal(Gen::either);
        }
    }

    fn cb_instruction(&mut self, cb: u8)
        requires
            old(self).wf(),
        ensures
            final(self).emitted(*old(self), old(self).gen().cb_instruction(cb)),
            final(self).owed <= old(self).owed,
    {
        proof {
            reveal(Gen::cb_instruction);
        }
        let idx: u8 = cb % 8;
        let bit: u8 = cb / 8 % 8;
        proof {
            lemma_mask(bit);
        }
        let mask: u32 = 1u32 << (bit as u32);
        self.load_operand(idx);
        if cb < 0x40 {
            self.rotate(bit);
            // Build F before a store to (HL) sends us through the host.
            self.flags_from_al(true, false);
            self.store_operand(idx);
        } else if cb < 0x80 {
            self.op(Op::TestImm(Rm::R(RAX), mask, 1));
            self.op(Op::Setcc(Cc::E, Rm::R(R9)));
            self.op(Op::Movzx(RCX, State(OFF_F), 1));
            self.imm_op(Alu::And, RCX, FLAG_C as u32);
            self.imm_op(Alu::Or, RCX, FLAG_H as u32);
            self.op(Op::Movzx(R9, Rm::R(R9), 1));
            self.shift(Shift::Shl, R9, 7);
            self.reg_op(Alu::Or, RCX, R9);
            self.op(Op::MovStore(State(OFF_F), RCX, 1));
        } else if cb < 0xc0 {
            self.op(Op::AluImm(Alu::And, Rm::R(RAX), 0xff - mask, 1));
            self.store_operand(idx);
        } else {
            self.op(Op::AluImm(Alu::Or, Rm::R(RAX), mask, 1));
            self.store_operand(idx);
        }
    }

    /// Column 7 of the first quarter: the accumulator and flag operations.
    fn accumulator(&mut self, op: u8)
        requires
            old(self).wf(),
        ensures
            final(self).emitted(*old(self), old(self).gen().accumulator(op)),
            final(self).owed == old(self).owed,
    {
        proof {
            reveal(Gen::accumulator);
        }
        if op < 0x20 {
            // Accumulator rotates clear Z, unlike their CB-prefixed twins.
            self.op(Op::Movzx(RAX, State(OFF_A), 1));
            self.rotate(op / 8);
            self.op(Op::MovStore(State(OFF_A), RAX, 1));
            self.op(Op::MovStore(State(OFF_F), RCX, 1));
        } else if op == 0x27 {
            self.daa();
        } else if op == 0x2f {
            self.op(Op::Not(State(OFF_A), 1));
            self.op(Op::AluImm(Alu::Or, State(OFF_F), (FLAG_N + FLAG_H) as u32, 1));
        } else if op == 0x37 {
            self.op(Op::AluImm(Alu::And, State(OFF_F), FLAG_Z as u32, 1));
            self.op(Op::AluImm(Alu::Or, State(OFF_F), FLAG_C as u32, 1));
        } else {
            self.op(Op::Movzx(RCX, State(OFF_F), 1));
            self.copy(RAX, RCX);
            self.imm_op(Alu::And, RAX, FLAG_Z as u32);
            self.imm_op(Alu::And, RCX, FLAG_C as u32);
            self.imm_op(Alu::Xor, RCX, FLAG_C as u32);
            self.reg_op(Alu::Or, RCX, RAX);
            self.op(Op::MovStore(State(OFF_F), RCX, 1));
        }
    }

    /// Opcodes 0x00 to 0x3F that fall through.
    fn low_quarter(&mut self, insn: Insn)
        requires
            old(self).wf(),
            insn.opcode < 0x40,
            old(self).owed + 4 <= u32::MAX,
        ensures
            final(self).emitted(*old(self), old(self).gen().low_quarter(insn)),
            final(self).owed <= old(self).owed + 4,
    {
        proof {
            reveal(Gen::low_quarter);
        }
        let op: u8 = insn.opcode;
        let row: u8 = op / 16;
        let second: bool = op / 8 % 2 == 1;
        match op % 8 {
            1 => {
                if !second {
                    self.op(Op::MovRmImm(State(pair_at(row)), insn.imm16 as u32, 2));
                } else {
                    self.add_hl(pair_at(row));
                    self.charge(4);
                }
            },
            // A through a pointer register
            2 => {
                let pair: i32 = if row == 3 {
                    OFF_HL
                } else {
                    pair_at(row)
                };
                if !second {
                    self.op(Op::Movzx(R8, State(OFF_A), 1));
                    self.op(Op::Movzx(RDX, State(pair), 2));
                    self.write_mem();
                } else {
                    self.op(Op::Movzx(RDX, State(pair), 2));
                    self.read_mem();
                    self.op(Op::MovStore(State(OFF_A), RAX, 1));
                }
                if row == 2 {
                    self.op(Op::Inc(State(OFF_HL), 2));
                } else if row == 3 {
                    self.op(Op::Dec(State(OFF_HL), 2));
                }
            },
            // 16-bit increment and decrement touch no flags
            3 => {
                if !second {
                    self.op(Op::Inc(State(pair_at(row)), 2));
                } else {
                    self.op(Op::Dec(State(pair_at(row)), 2));
                }
                self.charge(4);
            },
            4 => self.inc_dec_8(op / 8, false),
            5 => self.inc_dec_8(op / 8, true),
            6 => {
                self.op(Op::MovImm32(RAX, insn.imm8 as u32));
                self.store_operand(op / 8);
            },
            7 => self.accumulator(op),
            _ => {
                if op == 0x08 {
                    self.op(Op::Movzx(R8, State(OFF_SP), 1));
                    self.load_addr_imm(insn.imm16);
                    self.write_mem();
                    self.op(Op::Movzx(R8, State(OFF_SP + 1), 1));
                    self.load_addr_imm(insn.imm16.wrapping_add(1));
                    self.write_mem();
                }
            },
        }
    }

    /// Opcodes 0xC0 to 0xFF that fall through.
    fn high_quarter(&mut self, insn: Insn)
        requires
            old(self).wf(),
            old(self).owed + 8 <= u32::MAX,
        ensures
            final(self).emitted(*old(self), old(self).gen().high_quarter(insn)),
            final(self).owed <= old(self).owed + 8,
    {
        proof {
            reveal(Gen::high_quarter);
        }
        let op: u8 = insn.opcode;
        if op % 8 == 6 {
            self.op(Op::MovImm32(RAX, insn.imm8 as u32));
            self.alu_op(op / 8 % 8);
            return ;
        }
        match op {
            0xc1 => self.pop16(OFF_B, OFF_C),
            0xd1 => self.pop16(OFF_D, OFF_E),
            0xe1 => self.pop16(OFF_H, OFF_L),
            0xf1 => {
                self.pop16(OFF_A, OFF_F);
                // The low nibble of F does not exist on real hardware.
                self.op(Op::AluImm(Alu::And, State(OFF_F), 0xf0, 1));
            },
            0xc5 => {
                self.push16(OFF_B, OFF_C);
                self.charge(4);
            },
            0xd5 => {
                self.push16(OFF_D, OFF_E);
                self.charge(4);
            },
            0xe5 => {
                self.push16(OFF_H, OFF_L);
                self.charge(4);
            },
            0xf5 => {
                self.push16(OFF_A, OFF_F);
                self.charge(4);
            },
            // High page I/O
            0xe0 => {
                self.op(Op::Movzx(R8, State(OFF_A), 1));
                self.load_addr_imm(0xff00 + insn.imm8 as u16);
                self.write_mem();
            },
            0xf0 => {
                self.load_addr_imm(0xff00 + insn.imm8 as u16);
                self.read_mem();
                self.op(Op::MovStore(State(OFF_A), RAX, 1));
            },
            0xe2 => {
                self.op(Op::Movzx(R8, State(OFF_A), 1));
                self.op(Op::Movzx(RDX, State(OFF_C), 1));
                self.imm_op(Alu::Or, RDX, 0xff00);
                self.write_mem();
            },
            0xf2 => {
                self.op(Op::Movzx(RDX, State(OFF_C), 1));
                self.imm_op(Alu::Or, RDX, 0xff00);
                self.read_mem();
                self.op(Op::MovStore(State(OFF_A), RAX, 1));
            },
            0xea => {
                self.op(Op::Movzx(R8, State(OFF_A), 1));
                self.load_addr_imm(insn.imm16);
                self.write_mem();
            },
            0xfa => {
                self.load_addr_imm(insn.imm16);
                self.read_mem();
                self.op(Op::MovStore(State(OFF_A), RAX, 1));
            },
            0xe8 => {
                self.sp_plus_offset(insn.imm8, OFF_SP);
                self.charge(8);
            },
            0xf8 => {
                self.sp_plus_offset(insn.imm8, OFF_HL);
                self.charge(4);
            },
            0xf9 => {
                self.op(Op::Movzx(RAX, State(OFF_HL), 2));
                self.op(Op::MovStore(State(OFF_SP), RAX, 2));
                self.charge(4);
            },
            0xf3 => {
                self.op(Op::MovRmImm(State(OFF_IME), 0, 1));
                self.op(Op::MovRmImm(State(OFF_IME_DELAY), 0, 1));
            },
            // Interrupts come back on after the following instruction, which the
            // host applies at the next block boundary.
            0xfb => self.op(Op::MovRmImm(State(OFF_IME_DELAY), 1, 1)),
            0xcb => self.cb_instruction(insn.cb),
            // Control flow and illegal opcodes are handled by the caller.
            _ => {},
        }
    }

    /// Emit one non-control-flow instruction. Control flow is handled by the
    /// block loop, which needs to decide about linking.
    fn instruction(&mut self, insn: Insn)
        requires
            old(self).wf(),
            insn.len <= 3,
            old(self).owed + 20 <= u32::MAX,
        ensures
            final(self).emitted(*old(self), old(self).gen().instruction(insn)),
            final(self).owed <= old(self).owed + 20,
    {
        proof {
            reveal(Gen::instruction);
        }
        let op: u8 = insn.opcode;
        // Fetching the opcode and its immediates costs four cycles a byte.
        self.charge(4 * insn.len as u32);
        if op < 0x40 {
            self.low_quarter(insn);
        } else if op < 0x80 {
            // LD r,r'; 0x76 is HALT and never reaches here
            self.load_operand(op % 8);
            self.store_operand(op / 8 % 8);
        } else if op < 0xc0 {
            self.load_operand(op % 8);
            self.alu_op(op / 8 % 8);
        } else {
            self.high_quarter(insn);
        }
    }

    // ---- block exits -----------------------------------------------------

    /// The program is `g`, which has gained the exits `ks` and the links `links`
    /// since `before`.
    spec fn left(self, before: Emitter, g: Gen, ks: Seq<int>, links: Seq<Link>) -> bool {
        &&& self.wf()
        &&& self.gen() == g
        &&& self.links@ == before.links@ + links
        &&& self.exit_at@ == before.exit_at@ + ks
        &&& self.ctx == before.ctx
        &&& self.block_start == before.block_start
    }

    /// Can a jump from this block to `target` be a plain `jmp`, or does the
    /// mapping at that address depend on state we cannot see from here?
    fn linkable(&self, target: u16) -> (b: bool)
        ensures
            b == program::can_link(self.ctx, self.block_start, target),
    {
        match (region(self.block_start), region(target)) {
            // Anything in RAM can be rewritten under us.
            (2, _) | (_, 2) => false,
            // The fixed window is only really fixed if nothing can remap it.
            (0, 0) | (1, 0) => self.ctx.lower_window_fixed,
            // Staying inside the switchable window keeps the same bank.
            (1, 1) => true,
            // Entering the switchable window from the fixed one: bank unknown.
            _ => false,
        }
    }

    /// Consult the inline cache for the address in the state's PC, and jump
    /// straight there on a hit. A miss hands the address to the host.
    fn inline_dispatch(&mut self)
        requires
            old(self).wf(),
        ensures
            final(self).emitted(
                *old(self),
                Gen { ops: old(self).ops@ + program::dispatch_ops(), owed: old(self).owed as int },
            ),
    {
        let ghost base = self.ops@;
        self.op(Op::Movzx(RAX, State(OFF_PC), 2));
        self.copy(RCX, RAX);
        self.imm_op(Alu::And, RCX, JUMP_CACHE_MASK);
        self.shift(Shift::Shl, RCX, 4);  // entries are 16 bytes
        self.op(Op::AluLoad(Alu::Add, RCX, State(OFF_JUMP_TABLE), 8));

        self.op(Op::AluStore(Alu::Cmp, Rm::Mem { base: RCX, disp: 0 }, RAX, 4));
        let ghost k1 = self.ops@.len() as int;
        let ghost ops1 = self.ops@;
        let miss_pc = self.open(Op::Jcc(Cc::Ne, 0));
        self.op(Op::MovLoad(RDX, State(OFF_BANK_GEN), 4));
        self.op(Op::AluStore(Alu::Cmp, Rm::Mem { base: RCX, disp: 4 }, RDX, 4));
        let ghost k2 = self.ops@.len() as int;
        let ghost ops2 = self.ops@;
        let miss_gen = self.open(Op::Jcc(Cc::Ne, 0));
        self.op(Op::JmpRm(Rm::Mem { base: RCX, disp: 8 }));

        let ghost jump = seq![Op::JmpRm(Rm::Mem { base: RCX, disp: 8 })];
        let ghost check0 = seq![
            Op::MovLoad(RDX, State(OFF_BANK_GEN), 4),
            Op::AluStore(Alu::Cmp, Rm::Mem { base: RCX, disp: 4 }, RDX, 4),
            Op::Jcc(Cc::Ne, 0),
        ];
        let ghost check = check0.update(2, Op::Jcc(Cc::Ne, program::code_len(jump) as u32));
        let ghost all = self.ops@;
        proof {
            x64::lemma_encode_all_short(jump);
            x64::lemma_encode_all_short(check0);
            lemma_aim(check0, 2, program::code_len(jump) as u32);
            assert(all.skip(k1 + 1) =~= check0 + jump);
            x64::lemma_encode_concat(check0, jump);
            assert(all.take(k1) =~= ops1);
            assert(all.take(k2) =~= ops2);
            assert(all.skip(k2 + 1) =~= jump);
            lemma_aim_keeps(all, k1, program::code_len(all.skip(k1 + 1)) as u32, k2);
        }
        self.close(miss_pc, Ghost(k1));
        proof {
            assert(self.ops@.skip(k2 + 1) =~= jump);
        }
        self.close(miss_gen, Ghost(k2));
        self.op(Op::MovRmImm(State(OFF_EXIT), EXIT_DISPATCH as u32, 1));
        self.op(Op::Ret);
        proof {
            reveal(program::dispatch_ops);
            assert(check =~= seq![
                Op::MovLoad(RDX, State(OFF_BANK_GEN), 4),
                Op::AluStore(Alu::Cmp, Rm::Mem { base: RCX, disp: 4 }, RDX, 4),
                Op::Jcc(Cc::Ne, program::code_len(jump) as u32),
            ]);
            assert(self.ops@ =~= base + program::dispatch_ops());
        }
    }

    /// Hand the hardware its cycles and leave if it wants control back.
    fn sync_and_check(&mut self)
        requires
            old(self).wf(),
        ensures
            final(self).left(
                *old(self),
                Gen { ops: program::sync_ops(old(self).gen(), 0), owed: 0 },
                seq![program::sync_ops(old(self).gen(), 0).len() - 1],
                seq![],
            ),
    {
        self.call_helper(OFF_SYNC);
        self.op(Op::AluImm(Alu::Cmp, State(OFF_EXIT), 0, 1));
        self.leave_unless_clear();
        proof {
            reveal(program::sync_ops);
            assert(self.links@ =~= old(self).links@ + Seq::<Link>::empty());
        }
    }

    /// Jump to the shared `ret` if the comparison just made found a difference.
    fn leave_unless_clear(&mut self)
        requires
            old(self).wf(),
        ensures
            final(self).left(
                *old(self),
                old(self).gen().op(Op::Jcc(Cc::Ne, 0)),
                seq![old(self).ops@.len() as int],
                seq![],
            ),
    {
        let ghost k = self.ops@.len() as int;
        let ghost before = self.ops@;
        let patch = self.open(Op::Jcc(Cc::Ne, 0));
        let ghost sites = self.exits@;
        let ghost at = self.exit_at@;
        self.exits.push(patch);
        proof {
            self.exit_at@ = at.push(k);
            assert(self.ops@.take(k) =~= before);
            assert forall|i: int| 0 <= i < self.exit_at@.len() implies 0
                <= #[trigger] self.exit_at@[i] < self.ops@.len() && self.ops@[self.exit_at@[i]]
                == Op::Jcc(Cc::Ne, 0) && self.exits@[i].site() == site_of(
                self.ops@,
                self.exit_at@[i],
            ) by {
                if i < at.len() {
                    assert(at[i] == self.exit_at@[i]);
                    assert(sites[i] == self.exits@[i]);
                }
            }
            assert(self.exit_at@ =~= old(self).exit_at@ + seq![k]);
            assert(self.links@ =~= old(self).links@ + Seq::<Link>::empty());
        }
    }

    /// Leave for a statically known address.
    fn end_direct(&mut self, target: u16)
        requires
            old(self).wf(),
        ensures
            final(self).left(
                *old(self),
                Gen {
                    ops: open_direct(
                        old(self).gen(),
                        target,
                        program::link_if(
                            program::can_link(old(self).ctx, old(self).block_start, target),
                            0,
                        ),
                    ),
                    owed: 0,
                },
                seq![direct_exit(old(self).gen(), target)],
                program::direct_links(
                    0,
                    old(self).gen(),
                    target,
                    program::can_link(old(self).ctx, old(self).block_start, target),
                ),
            ),
    {
        self.op(Op::MovRmImm(State(OFF_PC), target as u32, 2));
        self.sync_and_check();
        let ghost synced = self.ops@;
        let linkable = self.linkable(target);
        if linkable {
            // Until the linker fills this in it falls straight through to the
            // dispatch path below, so an unlinked block is still correct.
            let patch = self.open(Op::Jmp(0));
            let site = Asm::patch_site(&patch);
            self.links.push(Link { site, target });
        }
        self.inline_dispatch();
        proof {
            reveal(program::leave_ops);
            reveal(open_direct);
            reveal(direct_exit);
            reveal(program::direct_links);
            assert(self.ops@ =~= open_direct(
                old(self).gen(),
                target,
                program::link_if(linkable, 0),
            ));
            assert(self.links@ =~= old(self).links@ + program::direct_links(
                0,
                old(self).gen(),
                target,
                linkable,
            ));
        }
    }

    /// Leave for the address in EAX.
    fn end_indirect(&mut self)
        requires
            old(self).wf(),
        ensures
            final(self).left(
                *old(self),
                Gen { ops: open_indirect(old(self).gen()), owed: 0 },
                seq![indirect_exit(old(self).gen())],
                seq![],
            ),
    {
        self.op(Op::MovStore(State(OFF_PC), RAX, 2));
        self.sync_and_check();
        self.inline_dispatch();
        proof {
            reveal(program::leave_ops);
            reveal(open_indirect);
            reveal(indirect_exit);
            assert(self.ops@ =~= open_indirect(old(self).gen()));
        }
    }

    /// Emit the shared `ret` every early exit jumps to.
    fn finish(&mut self)
        requires
            old(self).wf(),
            forall|i: int, j: int|
                0 <= i < j < old(self).exit_at@.len() ==> old(self).exit_at@[i]
                    < old(self).exit_at@[j],
            forall|i: int|
                0 <= i < old(self).exit_at@.len() ==> program::code_len(
                    old(self).ops@.skip(#[trigger] old(self).exit_at@[i] + 1),
                ) < 0x8000_0000,
        ensures
            final(self).buf.code@ == x64::encode_all(
                closed_all(old(self).ops@, old(self).exit_at@).push(Op::Ret),
            ),
            final(self).links@ == old(self).links@,
    {
        let ghost first = self.ops@;
        let ghost ks = self.exit_at@;
        let mut exits: Vec<Patch> = Vec::new();
        std::mem::swap(&mut self.exits, &mut exits);
        proof {
            self.exit_at@ = Seq::empty();
        }
        let mut i: usize = 0;
        proof {
            reveal(closed_all);
            assert(ks.take(0) =~= Seq::<int>::empty());
        }
        while i < exits.len()
            invariant
                i <= exits.len(),
                exits@.len() == ks.len(),
                self.wf(),
                self.exit_at@.len() == 0,
                self.links@ == old(self).links@,
                self.ops@ == closed_all(first, ks.take(i as int)),
                self.ops@.len() == first.len(),
                forall|a: int, b: int| 0 <= a < b < ks.len() ==> ks[a] < ks[b],
                forall|a: int|
                    i <= a < ks.len() ==> 0 <= #[trigger] ks[a] < first.len() && self.ops@[ks[a]]
                        == Op::Jcc(Cc::Ne, 0) && exits@[a].site() == site_of(self.ops@, ks[a])
                        && program::code_len(self.ops@.skip(ks[a] + 1)) < 0x8000_0000,
            decreases exits.len() - i,
        {
            let ghost k = ks[i as int];
            let ghost before = self.ops@;
            let patch = Asm::into_patch(Asm::patch_site(&exits[i]));
            self.close(patch, Ghost(k));
            proof {
                let rel = program::code_len(before.skip(k + 1)) as u32;
                assert forall|a: int| i + 1 <= a < ks.len() implies 0 <= #[trigger] ks[a]
                    < first.len() && self.ops@[ks[a]] == Op::Jcc(Cc::Ne, 0) && exits@[a].site()
                    == site_of(self.ops@, ks[a]) && program::code_len(self.ops@.skip(ks[a] + 1))
                    < 0x8000_0000 by {
                    assert(k < ks[a]);
                    lemma_aim_keeps(before, k, rel, ks[a]);
                    lemma_aim_keeps(before, k, rel, ks[a] + 1);
                }
                reveal(closed_all);
                assert(ks.take(i + 1).drop_last() =~= ks.take(i as int));
                assert(ks.take(i + 1).last() == k);
            }
            i += 1;
        }
        assert(ks.take(ks.len() as int) =~= ks);
        self.op(Op::Ret);
    }
}

/// A program that leaves for a known address, whose exit is still open.
#[verifier::opaque]
spec fn open_direct(g: Gen, target: u16, link: Option<u32>) -> Seq<Op> {
    program::sync_ops(g.op(Op::MovRmImm(State(OFF_PC), target as u32, 2)), 0)
        + program::leave_ops(link)
}

/// The exit of `open_direct`.
#[verifier::opaque]
spec fn direct_exit(g: Gen, target: u16) -> int {
    program::sync_ops(g.op(Op::MovRmImm(State(OFF_PC), target as u32, 2)), 0).len() - 1
}

/// A program that leaves for the address in EAX, whose exit is still open.
#[verifier::opaque]
spec fn open_indirect(g: Gen) -> Seq<Op> {
    program::sync_ops(g.op(Op::MovStore(State(OFF_PC), RAX, 2)), 0) + program::leave_ops(None)
}

/// The exit of `open_indirect`.
#[verifier::opaque]
spec fn indirect_exit(g: Gen) -> int {
    program::sync_ops(g.op(Op::MovStore(State(OFF_PC), RAX, 2)), 0).len() - 1
}

/// What stands before the exit in a program that leaves.
#[verifier::opaque]
spec fn checked(g: Gen) -> Seq<Op> {
    g.call_helper(OFF_SYNC).op(Op::AluImm(Alu::Cmp, State(OFF_EXIT), 0, 1)).ops
}

/// Closing one exit.
proof fn lemma_close_one(pre: Seq<Op>, post: Seq<Op>)
    requires
        program::code_len(post) < 0x8000_0000,
    ensures
        ({
            let ops = pre.push(Op::Jcc(Cc::Ne, 0)) + post;
            let k = pre.len() as int;
            &&& closed_at(ops, k) == pre.push(Op::Jcc(Cc::Ne, program::code_len(post) as u32))
                + post
            &&& ops.skip(k + 1) == post
            &&& closed_all(ops, seq![k]) == closed_at(ops, k)
            &&& program::code_len(closed_at(ops, k)) == program::code_len(ops)
        }),
{
    let ops = pre.push(Op::Jcc(Cc::Ne, 0)) + post;
    let k = pre.len() as int;
    assert(ops.skip(k + 1) =~= post);
    assert(closed_at(ops, k) =~= pre.push(Op::Jcc(Cc::Ne, program::code_len(post) as u32)) + post);
    reveal_with_fuel(closed_all, 3);
    assert(seq![k].drop_last() =~= Seq::<int>::empty());
    lemma_aim(ops, k, program::code_len(post) as u32);
}

/// Closing two exits of a program, of which the first is in `a`.
proof fn lemma_close_two(a: Seq<Op>, mid: Seq<Op>, b: Seq<Op>, post: Seq<Op>)
    requires
        program::code_len(mid) < 0x1000,
        program::code_len(b) < 0x1000,
        program::code_len(post) < 0x1000,
    ensures
        ({
            let second = b.push(Op::Jcc(Cc::Ne, 0)) + post;
            let second_closed = b.push(Op::Jcc(Cc::Ne, program::code_len(post) as u32)) + post;
            let ops = a.push(Op::Jcc(Cc::Ne, 0)) + (mid + second);
            let k1 = a.len() as int;
            let k2 = (a.len() + 1 + mid.len() + b.len()) as int;
            let skip = program::code_len(mid) + program::code_len(second_closed);
            &&& closed_all(ops, seq![k1, k2]) == a.push(Op::Jcc(Cc::Ne, skip as u32)) + (mid
                + second_closed)
            &&& program::code_len(ops.skip(k1 + 1)) < 0x8000_0000
            &&& program::code_len(ops.skip(k2 + 1)) < 0x8000_0000
        }),
{
    let second = b.push(Op::Jcc(Cc::Ne, 0)) + post;
    let second_closed = b.push(Op::Jcc(Cc::Ne, program::code_len(post) as u32)) + post;
    let ops = a.push(Op::Jcc(Cc::Ne, 0)) + (mid + second);
    let k1 = a.len() as int;
    let k2 = (a.len() + 1 + mid.len() + b.len()) as int;
    x64::lemma_encode_concat(mid, second);
    x64::lemma_encode_concat(b.push(Op::Jcc(Cc::Ne, 0)), post);
    assert(b.push(Op::Jcc(Cc::Ne, 0)).drop_last() =~= b);
    lemma_close_one(a, mid + second);
    lemma_close_one(b, post);
    let once = closed_at(ops, k1);
    let pre2 = a.push(Op::Jcc(Cc::Ne, program::code_len(mid + second) as u32)) + mid + b;
    assert(once =~= pre2.push(Op::Jcc(Cc::Ne, 0)) + post);
    lemma_close_one(pre2, post);
    reveal(closed_all);
    assert(seq![k1, k2].drop_last() =~= seq![k1]);
    assert(closed_all(ops, seq![k1, k2]) == closed_at(once, k2));
    assert(ops.skip(k2 + 1) =~= post);
    assert(closed_at(once, k2) =~= a.push(
        Op::Jcc(
            Cc::Ne,
            (program::code_len(mid) + program::code_len(second_closed)) as u32,
        ),
    ) + (mid + second_closed));
}

/// The way out is short.
proof fn lemma_leave_short(link: Option<u32>)
    ensures
        program::code_len(program::leave_ops(link)) < 0x1000,
{
    reveal(program::leave_ops);
    reveal(program::dispatch_ops);
    assert(program::leave_ops(link).len() <= 20);
    x64::lemma_encode_all_short(program::leave_ops(link));
}

/// A program that leaves, behind others.
proof fn lemma_open_on_top(base: Seq<Op>, g: Gen, target: u16, link: Option<u32>)
    ensures
        open_direct(program::on_top(base, g), target, link) == base + open_direct(g, target, link),
        direct_exit(program::on_top(base, g), target) == base.len() + direct_exit(g, target),
        open_indirect(program::on_top(base, g)) == base + open_indirect(g),
        indirect_exit(program::on_top(base, g)) == base.len() + indirect_exit(g),
        program::direct_links(0, program::on_top(base, g), target, link is Some)
            == program::direct_links(program::code_len(base), g, target, link is Some),
{
    reveal(open_direct);
    reveal(direct_exit);
    reveal(open_indirect);
    reveal(indirect_exit);
    reveal(program::direct_links);
    let mov = Op::MovRmImm(State(OFF_PC), target as u32, 2);
    program::lemma_on_top_op(base, g, mov);
    program::lemma_on_top_sync(base, g.op(mov), 0);
    assert(open_direct(program::on_top(base, g), target, link) =~= base + open_direct(
        g,
        target,
        link,
    ));
    let mov2 = Op::MovStore(State(OFF_PC), RAX, 2);
    program::lemma_on_top_op(base, g, mov2);
    program::lemma_on_top_sync(base, g.op(mov2), 0);
    assert(open_indirect(program::on_top(base, g)) =~= base + open_indirect(g));
    x64::lemma_encode_concat(base, program::sync_ops(g.op(mov), 0));
}

/// The pieces of a program that leaves, open and closed.
proof fn lemma_open_parts(g: Gen, target: u16, link: Option<u32>)
    ensures
        ({
            let mov = Op::MovRmImm(State(OFF_PC), target as u32, 2);
            let leave = program::leave_ops(link);
            let skip = program::code_len(leave) as u32;
            &&& open_direct(g, target, link) == checked(g.op(mov)).push(Op::Jcc(Cc::Ne, 0)) + leave
            &&& program::direct_ops(g, target, link, 0) == checked(g.op(mov)).push(
                Op::Jcc(Cc::Ne, skip),
            ) + leave
            &&& direct_exit(g, target) == checked(g.op(mov)).len()
        }),
        ({
            let mov = Op::MovStore(State(OFF_PC), RAX, 2);
            let leave = program::leave_ops(None);
            let skip = program::code_len(leave) as u32;
            &&& open_indirect(g) == checked(g.op(mov)).push(Op::Jcc(Cc::Ne, 0)) + leave
            &&& program::indirect_ops(g) == checked(g.op(mov)).push(Op::Jcc(Cc::Ne, skip)) + leave
            &&& indirect_exit(g) == checked(g.op(mov)).len()
        }),
{
    reveal(program::direct_ops);
    reveal(program::indirect_ops);
    reveal(program::sync_ops);
    reveal(open_direct);
    reveal(direct_exit);
    reveal(open_indirect);
    reveal(indirect_exit);
    reveal(checked);
}

/// One exit, to a known address or to the one in EAX.
proof fn lemma_close_leaving(g: Gen, target: u16, link: Option<u32>)
    ensures
        closed_all(open_direct(g, target, link), seq![direct_exit(g, target)])
            == program::direct_ops(g, target, link, 0),
        program::code_len(open_direct(g, target, link).skip(direct_exit(g, target) + 1))
            < 0x8000_0000,
        closed_all(open_indirect(g), seq![indirect_exit(g)]) == program::indirect_ops(g),
        program::code_len(open_indirect(g).skip(indirect_exit(g) + 1)) < 0x8000_0000,
{
    lemma_open_parts(g, target, link);
    lemma_leave_short(link);
    lemma_leave_short(None);
    lemma_close_one(
        checked(g.op(Op::MovRmImm(State(OFF_PC), target as u32, 2))),
        program::leave_ops(link),
    );
    lemma_close_one(
        checked(g.op(Op::MovStore(State(OFF_PC), RAX, 2))),
        program::leave_ops(None),
    );
}

/// The test of a conditional instruction and the side that is not taken, with
/// its exit still open.
#[verifier::opaque]
spec fn half_branch(g: Gen, opcode: u8, next: u16, link: Option<u32>) -> Seq<Op> {
    let out = open_direct(program::fresh(0), next, link);
    program::test_ops(g, opcode).ops.push(
        Op::Jcc(program::taken_cc(opcode), program::code_len(out) as u32),
    ) + out
}

#[verifier::opaque]
spec fn half_exit(g: Gen, opcode: u8, next: u16) -> int {
    program::test_ops(g, opcode).ops.len() + 1 + direct_exit(program::fresh(0), next)
}

/// A branch whose taken side is `b`, an exit, and `post`.
proof fn lemma_close_branch(
    g: Gen,
    opcode: u8,
    next: u16,
    link: Option<u32>,
    b: Seq<Op>,
    post: Seq<Op>,
)
    requires
        program::code_len(b) < 0x1000,
        program::code_len(post) < 0x1000,
    ensures
        ({
            let half = half_branch(g, opcode, next, link);
            let ops = half + (b.push(Op::Jcc(Cc::Ne, 0)) + post);
            let rest = b.push(Op::Jcc(Cc::Ne, program::code_len(post) as u32)) + post;
            let k1 = half_exit(g, opcode, next);
            let k2 = (half.len() + b.len()) as int;
            &&& closed_all(ops, seq![k1, k2]) == program::branch_ops(g, opcode, next, link, rest)
            &&& k1 < k2
            &&& program::code_len(ops.skip(k1 + 1)) < 0x8000_0000
            &&& program::code_len(ops.skip(k2 + 1)) < 0x8000_0000
        }),
{
    reveal(program::branch_ops);
    reveal(program::direct_ops);
    reveal(program::sync_ops);
    reveal(checked);
    reveal(half_branch);
    reveal(half_exit);
    let half = half_branch(g, opcode, next, link);
    let second = b.push(Op::Jcc(Cc::Ne, 0)) + post;
    let ops = half + second;
    let rest = b.push(Op::Jcc(Cc::Ne, program::code_len(post) as u32)) + post;
    let leave = program::leave_ops(link);
    lemma_leave_short(link);
    lemma_open_parts(program::fresh(0), next, link);
    let out = open_direct(program::fresh(0), next, link);
    let mov = Op::MovRmImm(State(OFF_PC), next as u32, 2);
    let c = checked(program::fresh(0).op(mov));
    let j = Op::Jcc(program::taken_cc(opcode), program::code_len(out) as u32);
    let a = program::test_ops(g, opcode).ops.push(j) + c;
    assert(ops =~= a.push(Op::Jcc(Cc::Ne, 0)) + (leave + second));
    lemma_close_two(a, leave, b, post);
    let closed_out = program::direct_ops(program::fresh(0), next, link, program::code_len(rest));
    let skip = Op::Jcc(Cc::Ne, (program::code_len(leave) + program::code_len(rest)) as u32);
    assert(closed_out =~= c.push(skip) + leave);
    // The exit is as long open as closed.
    x64::lemma_encode_concat(c.push(Op::Jcc(Cc::Ne, 0)), leave);
    x64::lemma_encode_concat(c.push(skip), leave);
    assert(c.push(Op::Jcc(Cc::Ne, 0)).drop_last() =~= c);
    assert(c.push(skip).drop_last() =~= c);
    assert(program::code_len(closed_out) == program::code_len(out));
    assert(a.push(skip) + (leave + rest) =~= program::branch_ops(g, opcode, next, link, rest));
}

/// How many instructions stand before an exit, at most.
proof fn lemma_checked_short(g: Gen, value: u16)
    ensures
        checked(g).len() <= g.ops.len() + 10,
        g.push_imm16(value).ops.len() <= g.ops.len() + 20,
        g.pop_pc().ops.len() <= g.ops.len() + 30,
{
    reveal(checked);
    reveal(Gen::call_helper);
    reveal(Gen::settle);
    reveal(Gen::push_imm16);
    reveal(Gen::pop_pc);
}

/// A branch whose taken side does `taken` and leaves for `target`.
proof fn lemma_branch_direct(
    g: Gen,
    opcode: u8,
    next: u16,
    link: Option<u32>,
    taken: Gen,
    target: u16,
    to_target: Option<u32>,
)
    requires
        taken.ops.len() < 100,
    ensures
        ({
            let half = half_branch(g, opcode, next, link);
            let ops = half + open_direct(taken, target, to_target);
            let k1 = half_exit(g, opcode, next);
            let k2 = half.len() + direct_exit(taken, target);
            &&& closed_all(ops, seq![k1, k2]) == program::branch_ops(
                g,
                opcode,
                next,
                link,
                program::direct_ops(taken, target, to_target, 0),
            )
            &&& k1 < k2
            &&& program::code_len(ops.skip(k1 + 1)) < 0x8000_0000
            &&& program::code_len(ops.skip(k2 + 1)) < 0x8000_0000
        }),
{
    let mov = Op::MovRmImm(State(OFF_PC), target as u32, 2);
    let b = checked(taken.op(mov));
    lemma_checked_short(taken.op(mov), 0);
    x64::lemma_encode_all_short(b);
    lemma_leave_short(to_target);
    lemma_open_parts(taken, target, to_target);
    lemma_close_branch(g, opcode, next, link, b, program::leave_ops(to_target));
}

/// A branch whose taken side does `taken` and leaves for the address in EAX.
proof fn lemma_branch_indirect(g: Gen, opcode: u8, next: u16, link: Option<u32>, taken: Gen)
    requires
        taken.ops.len() < 100,
    ensures
        ({
            let half = half_branch(g, opcode, next, link);
            let ops = half + open_indirect(taken);
            let k1 = half_exit(g, opcode, next);
            let k2 = half.len() + indirect_exit(taken);
            &&& closed_all(ops, seq![k1, k2]) == program::branch_ops(
                g,
                opcode,
                next,
                link,
                program::indirect_ops(taken),
            )
            &&& k1 < k2
            &&& program::code_len(ops.skip(k1 + 1)) < 0x8000_0000
            &&& program::code_len(ops.skip(k2 + 1)) < 0x8000_0000
        }),
{
    let mov = Op::MovStore(State(OFF_PC), RAX, 2);
    let b = checked(taken.op(mov));
    lemma_checked_short(taken.op(mov), 0);
    x64::lemma_encode_all_short(b);
    lemma_leave_short(None);
    lemma_open_parts(taken, 0, None);
    lemma_close_branch(g, opcode, next, link, b, program::leave_ops(None));
}

/// A branch is complete once the taken side has left for `target`.
proof fn lemma_branch_completes(
    em: Emitter,
    g: Gen,
    opcode: u8,
    next: u16,
    half: Seq<Op>,
    taken: Gen,
    target: u16,
    first: Seq<Link>,
)
    requires
        ({
            let to_next = program::link_if(program::can_link(em.ctx, em.block_start, next), 0);
            let possible = program::can_link(em.ctx, em.block_start, target);
            let to_target = program::link_if(possible, 0);
            let base = program::code_len(program::test_ops(g, opcode).ops) + 6;
            let on_half = program::on_top(half, taken);
            &&& em.wf()
            &&& half == half_branch(g, opcode, next, to_next)
            &&& em.ops@ == open_direct(on_half, target, to_target)
            &&& em.exit_at@ == seq![half_exit(g, opcode, next)] + seq![direct_exit(on_half, target)]
            &&& first == program::direct_links(base, program::fresh(0), next, to_next is Some)
            &&& em.links@ == first + program::direct_links(0, on_half, target, possible)
            &&& taken.ops.len() < 100
        }),
    ensures
        ({
            let next_possible = program::can_link(em.ctx, em.block_start, next);
            let possible = program::can_link(em.ctx, em.block_start, target);
            em.finishes(
                program::branch_ops(
                    g,
                    opcode,
                    next,
                    program::link_if(next_possible, 0),
                    program::direct_ops(taken, target, program::link_if(possible, 0), 0),
                ),
                program::branch_links(g, opcode, next, next_possible, taken, target, possible),
            )
        }),
{
    reveal(program::branch_links);
    let next_possible = program::can_link(em.ctx, em.block_start, next);
    let to_next = program::link_if(next_possible, 0);
    let possible = program::can_link(em.ctx, em.block_start, target);
    let to_target = program::link_if(possible, 0);
    lemma_open_on_top(half, taken, target, to_target);
    lemma_branch_direct(g, opcode, next, to_next, taken, target, to_target);
    lemma_half_length(g, opcode, next, next_possible);
    let k1 = half_exit(g, opcode, next);
    let k2 = half.len() + direct_exit(taken, target);
    assert(em.exit_at@ =~= seq![k1, k2]);
}

/// A conditional return is complete once the taken side has left.
proof fn lemma_return_completes(
    em: Emitter,
    g: Gen,
    opcode: u8,
    next: u16,
    half: Seq<Op>,
    taken: Gen,
)
    requires
        ({
            let possible = program::can_link(em.ctx, em.block_start, next);
            let to_next = program::link_if(possible, 0);
            let base = program::code_len(program::test_ops(g, opcode).ops) + 6;
            let on_half = program::on_top(half, taken);
            &&& em.wf()
            &&& half == half_branch(g, opcode, next, to_next)
            &&& em.ops@ == open_indirect(on_half)
            &&& em.exit_at@ == seq![half_exit(g, opcode, next)] + seq![indirect_exit(on_half)]
            &&& em.links@ == program::direct_links(base, program::fresh(0), next, possible)
            &&& taken.ops.len() < 100
        }),
    ensures
        ({
            let possible = program::can_link(em.ctx, em.block_start, next);
            let base = program::code_len(program::test_ops(g, opcode).ops) + 6;
            em.finishes(
                program::branch_ops(
                    g,
                    opcode,
                    next,
                    program::link_if(possible, 0),
                    program::indirect_ops(taken),
                ),
                program::direct_links(base, program::fresh(0), next, possible),
            )
        }),
{
    let to_next = program::link_if(program::can_link(em.ctx, em.block_start, next), 0);
    lemma_open_on_top(half, taken, 0, None);
    lemma_branch_indirect(g, opcode, next, to_next, taken);
    let k1 = half_exit(g, opcode, next);
    let k2 = half.len() + indirect_exit(taken);
    assert(em.exit_at@ =~= seq![k1, k2]);
}

/// A program that may leave at once, and goes on to leave for `next` if not.
proof fn lemma_stop_completes(em: Emitter, a: Seq<Op>, next: u16)
    requires
        ({
            let possible = program::can_link(em.ctx, em.block_start, next);
            let link = program::link_if(possible, 0);
            let on_a = program::on_top(a.push(Op::Jcc(Cc::Ne, 0)), program::fresh(0));
            &&& em.wf()
            &&& em.ops@ == open_direct(on_a, next, link)
            &&& em.exit_at@ == seq![a.len() as int] + seq![direct_exit(on_a, next)]
            &&& em.links@ == program::direct_links(0, on_a, next, possible)
        }),
    ensures
        ({
            let possible = program::can_link(em.ctx, em.block_start, next);
            let go_on = program::direct_ops(
                program::fresh(0),
                next,
                program::link_if(possible, 0),
                0,
            );
            em.finishes(
                a.push(Op::Jcc(Cc::Ne, program::code_len(go_on) as u32)) + go_on,
                program::direct_links(
                    program::code_len(a) + 6,
                    program::fresh(0),
                    next,
                    possible,
                ),
            )
        }),
{
    let link = program::link_if(program::can_link(em.ctx, em.block_start, next), 0);
    let base = a.push(Op::Jcc(Cc::Ne, 0));
    let mov = Op::MovRmImm(State(OFF_PC), next as u32, 2);
    let c = checked(program::fresh(0).op(mov));
    let leave = program::leave_ops(link);
    lemma_open_on_top(base, program::fresh(0), next, link);
    lemma_open_parts(program::fresh(0), next, link);
    lemma_checked_short(program::fresh(0).op(mov), 0);
    x64::lemma_encode_all_short(c);
    lemma_leave_short(link);
    lemma_close_two(a, seq![], c, leave);
    let second = c.push(Op::Jcc(Cc::Ne, 0)) + leave;
    assert(seq![] + second =~= second);
    let go_on = program::direct_ops(program::fresh(0), next, link, 0);
    assert(seq![] + go_on =~= go_on);
    assert(em.exit_at@ =~= seq![a.len() as int, (a.len() + 1 + c.len()) as int]);
    assert(base.drop_last() =~= a);
}

/// Where the taken side of a branch starts.
proof fn lemma_half_length(g: Gen, opcode: u8, next: u16, possible: bool)
    ensures
        ({
            let link = program::link_if(possible, 0);
            let half = half_branch(g, opcode, next, link);
            let base = program::code_len(program::test_ops(g, opcode).ops) + 6;
            &&& program::code_len(half) == base + program::code_len(
                program::direct_ops(program::fresh(0), next, link, 0),
            )
        }),
{
    reveal(half_branch);
    let link = program::link_if(possible, 0);
    let out = open_direct(program::fresh(0), next, link);
    let t = program::test_ops(g, opcode).ops;
    let j = Op::Jcc(program::taken_cc(opcode), program::code_len(out) as u32);
    x64::lemma_encode_concat(t.push(j), out);
    assert(t.push(j).drop_last() =~= t);
    lemma_close_leaving(program::fresh(0), next, link);
    lemma_open_parts(program::fresh(0), next, link);
    lemma_leave_short(link);
    lemma_close_one(
        checked(program::fresh(0).op(Op::MovRmImm(State(OFF_PC), next as u32, 2))),
        program::leave_ops(link),
    );
}

impl Emitter {
    /// Test the condition of `opcode` and leave for `next` if it does not hold.
    fn not_taken(&mut self, opcode: u8, next: u16)
        requires
            old(self).wf(),
            old(self).exit_at@.len() == 0,
        ensures
            ({
                let possible = program::can_link(old(self).ctx, old(self).block_start, next);
                let base = program::code_len(
                    program::test_ops(old(self).gen(), opcode).ops,
                ) + 6;
                final(self).left(
                    *old(self),
                    Gen {
                        ops: half_branch(
                            old(self).gen(),
                            opcode,
                            next,
                            program::link_if(possible, 0),
                        ),
                        owed: 0,
                    },
                    seq![half_exit(old(self).gen(), opcode, next)],
                    program::direct_links(base, program::fresh(0), next, possible),
                )
            }),
    {
        let ghost link = program::link_if(
            program::can_link(self.ctx, self.block_start, next),
            0,
        );
        proof {
            reveal(program::test_ops);
            reveal(half_branch);
            reveal(half_exit);
        }
        self.settle();
        let (mask, want_set) = condition(opcode / 8 % 4);
        self.op(Op::TestImm(State(OFF_F), mask, 1));
        let ghost t = self.ops@;
        let ghost k = t.len() as int;
        let cc = if want_set {
            Cc::Ne
        } else {
            Cc::E
        };
        let taken = self.open(Op::Jcc(cc, 0));
        let ghost opened = self.ops@;
        self.end_direct(next);
        let ghost out = open_direct(program::fresh(0), next, link);
        proof {
            assert(opened + seq![] =~= opened);
            assert(program::on_top(opened, program::fresh(0)) == (Gen { ops: opened, owed: 0 }));
            lemma_open_on_top(opened, program::fresh(0), next, link);
            assert(self.ops@ == opened + out);
            assert(self.ops@.skip(k + 1) =~= out);
            assert(self.ops@.take(k) =~= t);
            assert(opened.drop_last() =~= t);
            let mov = Op::MovRmImm(State(OFF_PC), next as u32, 2);
            lemma_checked_short(program::fresh(0).op(mov), 0);
            lemma_open_parts(program::fresh(0), next, link);
            x64::lemma_encode_all_short(checked(program::fresh(0).op(mov)));
            lemma_leave_short(link);
            x64::lemma_encode_concat(
                checked(program::fresh(0).op(mov)).push(Op::Jcc(Cc::Ne, 0)),
                program::leave_ops(link),
            );
            x64::lemma_encode_all_short(
                checked(program::fresh(0).op(mov)).push(Op::Jcc(Cc::Ne, 0)),
            );
            assert(closed_at(self.ops@, k) =~= half_branch(
                old(self).gen(),
                opcode,
                next,
                link,
            ));
            assert(self.exit_at@ =~= seq![half_exit(old(self).gen(), opcode, next)]);
        }
        self.close(taken, Ghost(k));
        assert(self.exit_at@ =~= old(self).exit_at@ + seq![
            half_exit(old(self).gen(), opcode, next),
        ]);
    }

    /// Once its exits are closed the program is `ops`, and its links are `links`.
    spec fn finishes(self, ops: Seq<Op>, links: Seq<Link>) -> bool {
        &&& self.wf()
        &&& closed_all(self.ops@, self.exit_at@) == ops
        &&& self.links@ == links
        &&& forall|i: int, j: int|
            0 <= i < j < self.exit_at@.len() ==> self.exit_at@[i] < self.exit_at@[j]
        &&& forall|i: int|
            0 <= i < self.exit_at@.len() ==> program::code_len(
                self.ops@.skip(#[trigger] self.exit_at@[i] + 1),
            ) < 0x8000_0000
    }

    /// The program can be completed by `insn`.
    spec fn unfinished(self, insn: Insn) -> bool {
        &&& self.wf()
        &&& self.exit_at@.len() == 0
        &&& self.links@.len() == 0
        &&& insn.len <= 3
        &&& self.owed + 20 <= u32::MAX
    }

    /// The program has been completed by `insn` since `before`.
    spec fn completed(self, before: Emitter, insn: Insn) -> bool {
        self.finishes(
            program::ending_ops(
                before.gen(),
                insn,
                before.ctx,
                before.block_start,
                program::unlinked(),
            ),
            program::ending_links(before.gen(), insn, before.ctx, before.block_start),
        )
    }

    /// An instruction that falls through into another block.
    fn end_normal(&mut self, insn: Insn)
        requires
            old(self).unfinished(insn),
            insn.flow is Normal,
        ensures
            final(self).completed(*old(self), insn),
    {
        let next: u16 = insn.addr.wrapping_add(insn.len as u16);
        let ghost to_next = program::link_if(
            program::can_link(self.ctx, self.block_start, next),
            0,
        );
        self.instruction(insn);
        let ghost g1 = self.gen();
        self.end_direct(next);
        proof {
            lemma_close_leaving(g1, next, to_next);
            assert(self.exit_at@ =~= seq![direct_exit(g1, next)]);
            assert(self.links@ =~= program::direct_links(0, g1, next, to_next is Some));
            reveal(program::ending_ops);
            reveal(program::ending_links);
        }
    }

    /// `JP` and `JR` that always jump.
    fn end_jump(&mut self, insn: Insn, target: u16)
        requires
            old(self).unfinished(insn),
            insn.flow == (Flow::Jump { target, conditional: false }),
        ensures
            final(self).completed(*old(self), insn),
    {
        let ghost to_target = program::link_if(
            program::can_link(self.ctx, self.block_start, target),
            0,
        );
        self.charge(4 * insn.len as u32);
        self.charge(4);
        let ghost g1 = self.gen();
        self.end_direct(target);
        proof {
            lemma_close_leaving(g1, target, to_target);
            assert(self.exit_at@ =~= seq![direct_exit(g1, target)]);
            reveal(program::ending_ops);
            reveal(program::ending_links);
            assert(self.links@ =~= program::direct_links(0, g1, target, to_target is Some));
        }
    }

    /// `JP` and `JR` that depend on a flag.
    fn end_jump_if(&mut self, insn: Insn, target: u16)
        requires
            old(self).unfinished(insn),
            insn.flow == (Flow::Jump { target, conditional: true }),
        ensures
            final(self).completed(*old(self), insn),
    {
        let next: u16 = insn.addr.wrapping_add(insn.len as u16);
        self.charge(4 * insn.len as u32);
        let ghost paid = self.gen();
        self.not_taken(insn.opcode, next);
        let ghost half = self.ops@;
        let ghost first = self.links@;
        self.charge(4);
        assert(self.gen() == program::on_top(half, program::fresh(0).charge(4))) by {
            assert(half + seq![] =~= half);
        }
        self.end_direct(target);
        proof {
            lemma_branch_completes(
                *self,
                paid,
                insn.opcode,
                next,
                half,
                program::fresh(0).charge(4),
                target,
                first,
            );
            reveal(program::ending_ops);
            reveal(program::ending_links);
        }
    }

    /// `CALL`, whether it depends on a flag or not.
    fn end_call(&mut self, insn: Insn, target: u16, conditional: bool)
        requires
            old(self).unfinished(insn),
            insn.flow == (Flow::Call { target, conditional }),
        ensures
            final(self).completed(*old(self), insn),
    {
        let ghost to_target = program::link_if(
            program::can_link(self.ctx, self.block_start, target),
            0,
        );
        let next: u16 = insn.addr.wrapping_add(insn.len as u16);
        self.charge(4 * insn.len as u32);
        let ghost paid = self.gen();
        if conditional {
            self.not_taken(insn.opcode, next);
        }
        let ghost half = self.ops@;
        let ghost first = self.links@;
        self.charge(4);
        let ghost fresh4 = program::fresh(0).charge(4);
        assert(conditional ==> self.gen() == program::on_top(half, fresh4)) by {
            assert(half + seq![] =~= half);
        }
        self.push_imm16(next);
        let ghost g1 = self.gen();
        proof {
            program::lemma_on_top_stack(half, fresh4, next);
            lemma_checked_short(fresh4, next);
        }
        self.end_direct(target);
        proof {
            if conditional {
                lemma_branch_completes(
                    *self,
                    paid,
                    insn.opcode,
                    next,
                    half,
                    fresh4.push_imm16(next),
                    target,
                    first,
                );
            } else {
                lemma_close_leaving(g1, target, to_target);
                assert(self.exit_at@ =~= seq![direct_exit(g1, target)]);
                assert(self.links@ =~= program::direct_links(0, g1, target, to_target is Some));
            }
            reveal(program::ending_ops);
            reveal(program::ending_links);
        }
    }

    /// `RST`.
    fn end_rst(&mut self, insn: Insn, target: u16)
        requires
            old(self).unfinished(insn),
            insn.flow == (Flow::Rst { target }),
        ensures
            final(self).completed(*old(self), insn),
    {
        let ghost to_target = program::link_if(
            program::can_link(self.ctx, self.block_start, target),
            0,
        );
        let next: u16 = insn.addr.wrapping_add(insn.len as u16);
        self.charge(4 * insn.len as u32);
        self.charge(4);
        self.push_imm16(next);
        let ghost g1 = self.gen();
        self.end_direct(target);
        proof {
            lemma_close_leaving(g1, target, to_target);
            assert(self.exit_at@ =~= seq![direct_exit(g1, target)]);
            assert(self.links@ =~= program::direct_links(0, g1, target, to_target is Some));
            reveal(program::ending_ops);
            reveal(program::ending_links);
        }
    }

    /// Pop the return address, and turn interrupts back on for `RETI`.
    fn pop_and_resume(&mut self, enable_interrupts: bool)
        requires
            old(self).wf(),
        ensures
            final(self).emitted(
                *old(self),
                program::resume_ops(old(self).gen().pop_pc(), enable_interrupts),
            ),
            final(self).owed == 0,
    {
        self.pop_pc();
        if enable_interrupts {
            self.op(Op::MovRmImm(State(OFF_IME), 1, 1));
            self.op(Op::MovRmImm(State(OFF_IME_DELAY), 0, 1));
        }
    }

    /// `RET` and `RETI`.
    fn end_ret(&mut self, insn: Insn, enable_interrupts: bool)
        requires
            old(self).unfinished(insn),
            insn.flow == (Flow::Ret { conditional: false, enable_interrupts }),
        ensures
            final(self).completed(*old(self), insn),
    {
        self.charge(4 * insn.len as u32);
        self.charge(4);
        self.pop_and_resume(enable_interrupts);
        let ghost g1 = self.gen();
        self.end_indirect();
        proof {
            lemma_close_leaving(g1, 0, None);
            assert(self.exit_at@ =~= seq![indirect_exit(g1)]);
            assert(self.links@ =~= seq![]);
            reveal(program::ending_ops);
            reveal(program::ending_links);
        }
    }

    /// `RET` that depends on a flag.
    fn end_ret_if(&mut self, insn: Insn, enable_interrupts: bool)
        requires
            old(self).unfinished(insn),
            insn.flow == (Flow::Ret { conditional: true, enable_interrupts }),
        ensures
            final(self).completed(*old(self), insn),
    {
        let next: u16 = insn.addr.wrapping_add(insn.len as u16);
        self.charge(4 * insn.len as u32);
        self.charge(4);
        let ghost paid = self.gen();
        self.not_taken(insn.opcode, next);
        let ghost half = self.ops@;
        let ghost first = self.links@;
        let ghost fresh4 = program::fresh(0).charge(4);
        let ghost taken = program::resume_ops(fresh4.pop_pc(), enable_interrupts);
        self.charge(4);
        assert(self.gen() == program::on_top(half, fresh4)) by {
            assert(half + seq![] =~= half);
        }
        self.pop_and_resume(enable_interrupts);
        assert(self.gen() == program::on_top(half, taken)) by {
            program::lemma_on_top_stack(half, fresh4, next);
            let ime = Op::MovRmImm(State(OFF_IME), 1, 1);
            let delay = Op::MovRmImm(State(OFF_IME_DELAY), 0, 1);
            program::lemma_on_top_op(half, fresh4.pop_pc(), ime);
            program::lemma_on_top_op(half, fresh4.pop_pc().op(ime), delay);
        }
        self.end_indirect();
        proof {
            lemma_checked_short(fresh4, next);
            lemma_return_completes(*self, paid, insn.opcode, next, half, taken);
            reveal(program::ending_ops);
            reveal(program::ending_links);
        }
    }

    /// `JP HL`.
    fn end_jump_indirect(&mut self, insn: Insn)
        requires
            old(self).unfinished(insn),
            insn.flow is JumpIndirect,
        ensures
            final(self).completed(*old(self), insn),
    {
        self.charge(4 * insn.len as u32);
        self.op(Op::Movzx(RAX, State(OFF_HL), 2));
        let ghost g1 = self.gen();
        self.end_indirect();
        proof {
            lemma_close_leaving(g1, 0, None);
            assert(self.exit_at@ =~= seq![indirect_exit(g1)]);
            assert(self.links@ =~= seq![]);
            reveal(program::ending_ops);
            reveal(program::ending_links);
        }
    }

    /// `HALT`.
    fn end_halt(&mut self, insn: Insn)
        requires
            old(self).unfinished(insn),
            insn.flow is Halt,
        ensures
            final(self).completed(*old(self), insn),
    {
        let next: u16 = insn.addr.wrapping_add(insn.len as u16);
        self.charge(4 * insn.len as u32);
        self.op(Op::MovRmImm(State(OFF_PC), next as u32, 2));
        self.call_helper(OFF_HALT);
        self.op(Op::Ret);
        proof {
            reveal(closed_all);
            reveal(program::ending_ops);
            reveal(program::ending_links);
            assert(self.links@ =~= seq![]);
        }
    }

    /// `STOP`.
    fn end_stop(&mut self, insn: Insn)
        requires
            old(self).unfinished(insn),
            insn.flow is Stop,
        ensures
            final(self).completed(*old(self), insn),
    {
        let next: u16 = insn.addr.wrapping_add(insn.len as u16);
        // Two bytes: the opcode swallows the one after it.
        self.charge(4 * insn.len as u32);
        self.op(Op::MovRmImm(State(OFF_PC), next as u32, 2));
        self.call_helper(OFF_STOP);
        // A CGB speed switch resumes; a real stop does not.
        self.op(Op::AluImm(Alu::Cmp, State(OFF_EXIT), 0, 1));
        let ghost a = self.ops@;
        self.leave_unless_clear();
        assert(self.gen() == program::on_top(a.push(Op::Jcc(Cc::Ne, 0)), program::fresh(0))) by {
            assert(a.push(Op::Jcc(Cc::Ne, 0)) + seq![] =~= a.push(Op::Jcc(Cc::Ne, 0)));
        }
        self.end_direct(next);
        proof {
            lemma_stop_completes(*self, a, next);
            reveal(program::ending_ops);
            reveal(program::ending_links);
        }
    }

    /// An opcode that does not exist.
    fn end_illegal(&mut self, insn: Insn)
        requires
            old(self).unfinished(insn),
            insn.flow is Illegal,
        ensures
            final(self).completed(*old(self), insn),
    {
        // Real hardware wedges here; report it instead of running on.
        self.settle();
        self.op(Op::MovRmImm(State(OFF_PC), insn.addr as u32, 2));
        self.op(Op::MovRmImm(State(OFF_EXIT), EXIT_ILLEGAL as u32, 1));
        self.op(Op::Ret);
        proof {
            reveal(closed_all);
            reveal(program::ending_ops);
            reveal(program::ending_links);
            assert(self.links@ =~= seq![]);
        }
    }

    /// Translate the last instruction of the block and the way out of it.
    fn ending(&mut self, insn: Insn)
        requires
            old(self).unfinished(insn),
        ensures
            final(self).buf.code@ == x64::encode_all(
                program::ending_ops(
                    old(self).gen(),
                    insn,
                    old(self).ctx,
                    old(self).block_start,
                    program::unlinked(),
                ).push(Op::Ret),
            ),
            final(self).links@ == program::ending_links(
                old(self).gen(),
                insn,
                old(self).ctx,
                old(self).block_start,
            ),
    {
        match insn.flow {
            Flow::Normal => self.end_normal(insn),
            Flow::Jump { target, conditional } => {
                if conditional {
                    self.end_jump_if(insn, target);
                } else {
                    self.end_jump(insn, target);
                }
            },
            Flow::Call { target, conditional } => self.end_call(insn, target, conditional),
            Flow::Rst { target } => self.end_rst(insn, target),
            Flow::Ret { conditional, enable_interrupts } => {
                if conditional {
                    self.end_ret_if(insn, enable_interrupts);
                } else {
                    self.end_ret(insn, enable_interrupts);
                }
            },
            Flow::JumpIndirect => self.end_jump_indirect(insn),
            Flow::Halt => self.end_halt(insn),
            Flow::Stop => self.end_stop(insn),
            Flow::Illegal => self.end_illegal(insn),
        }
        self.finish();
    }
}

/// Translate one basic block starting at `start`.
///
/// A block runs until the first instruction that can move the program counter
/// somewhere other than straight ahead, and that instruction is included. Every
/// byte of the block is read once.
pub fn translate_block<F: Fn(u16) -> u8>(start: u16, ctx: Context, fetch: &F) -> (block: Block)
    requires
        decode::willing(fetch),
    ensures
        exists|mem: spec_fn(u16) -> u8|
            decode::answers(fetch, mem, start, block_len(block)) && #[trigger] translates(
                block,
                mem,
                start,
                ctx,
            ),
        decode::steady(fetch) ==> translates(block, decode::image(fetch), start, ctx),
        forall|mem: spec_fn(u16) -> u8| #[trigger]
            decode::reads(fetch, mem) ==> translates(block, mem, start, ctx),
{
    let (block, heard) = translate_heard(start, ctx, fetch);
    proof {
        let mem = decode::memory_of(heard@);
        assert(decode::agrees(mem, heard@));
        assert forall|a: u16| #[trigger] decode::among(
            start,
            block_len(block),
            a,
        ) implies call_ensures(fetch, (a,), mem(a)) by {
            assert(heard@.contains_key(a));
        }
        if decode::steady(fetch) {
            decode::lemma_steady_reads_image(fetch);
            assert(decode::agrees(decode::image(fetch), heard@));
        }
        assert forall|mem: spec_fn(u16) -> u8| #[trigger] decode::reads(
            fetch,
            mem,
        ) implies translates(block, mem, start, ctx) by {
            assert(decode::agrees(mem, heard@));
        }
    }
    block
}

/// How many bytes of memory a block covers.
pub open spec fn block_len(block: Block) -> int {
    (block.end - block.start) % 0x1_0000
}

/// `block` is the translation of the block at `start` of the memory `mem`.
pub open spec fn translates(
    block: Block,
    mem: spec_fn(u16) -> u8,
    start: u16,
    ctx: Context,
) -> bool {
    &&& block.start == start
    &&& block.end == decode::next_addr(program::last_insn(mem, start, start, 1))
    &&& block.instructions == program::block_size(mem, start, start, 1)
    &&& block.code@ == x64::encode_all(
        program::block_ops(mem, start, ctx, program::unlinked()),
    )
    &&& block.links@ == program::block_links(mem, start, ctx)
}

/// As `translate_block`, for a source that is known to read `mem`.
pub(crate) fn translate_in<F: Fn(u16) -> u8>(
    start: u16,
    ctx: Context,
    fetch: &F,
    Ghost(mem): Ghost<spec_fn(u16) -> u8>,
) -> (block: Block)
    requires
        decode::reads(fetch, mem),
    ensures
        translates(block, mem, start, ctx),
{
    let (block, heard) = translate_heard(start, ctx, fetch);
    assert(decode::agrees(mem, heard@));
    block
}

/// What a block under translation comes to, whatever of `mem` lies ahead: the same as the
/// instruction number `count` at `pc` comes to after `gen`.
pub open spec fn carries_on(
    mem: spec_fn(u16) -> u8,
    start: u16,
    pc: u16,
    count: nat,
    gen: Gen,
) -> bool {
    &&& program::body(mem, start, start, 1, program::fresh(0)) == program::body(
        mem,
        start,
        pc,
        count,
        gen,
    )
    &&& program::last_insn(mem, start, start, 1) == program::last_insn(mem, start, pc, count)
    &&& program::block_size(mem, start, start, 1) == program::block_size(mem, start, pc, count)
}

/// What is known after the instruction number `count`, `insn` at `pc`, has been read: the
/// bytes that were heard are answers, they are those from `start` to the end of `insn`, and
/// every memory that holds them has this block under translation.
#[verifier::opaque]
spec fn under_way<F: Fn(u16) -> u8>(
    fetch: &F,
    heard: Map<u16, u8>,
    start: u16,
    pc: u16,
    insn: Insn,
    count: nat,
    gen: Gen,
) -> bool {
    &&& decode::heard_from(fetch, heard)
    &&& forall|a: u16| #[trigger]
        heard.contains_key(a) <==> decode::among(start, pc - start + insn.len, a)
    &&& forall|mem: spec_fn(u16) -> u8| #[trigger]
        decode::agrees(mem, heard) ==> insn == decode::insn_at(mem, pc) && carries_on(
            mem,
            start,
            pc,
            count,
            gen,
        )
}

/// The first instruction read.
proof fn lemma_under_way_first<F: Fn(u16) -> u8>(
    fetch: &F,
    heard: Map<u16, u8>,
    start: u16,
    insn: Insn,
)
    requires
        decode::heard_from(fetch, heard),
        forall|a: u16| #[trigger]
            heard.contains_key(a) <==> decode::among(start, insn.len as int, a),
        forall|mem: spec_fn(u16) -> u8| #[trigger]
            decode::agrees(mem, heard) ==> insn == decode::insn_at(mem, start),
    ensures
        under_way(fetch, heard, start, start, insn, 1, program::fresh(0)),
{
    reveal(under_way);
}

/// The last instruction read, and the way out of the block behind it.
proof fn lemma_translated<F: Fn(u16) -> u8>(
    fetch: &F,
    heard: Map<u16, u8>,
    pc: u16,
    insn: Insn,
    gen: Gen,
    ctx: Context,
    block: Block,
)
    requires
        under_way(fetch, heard, block.start, pc, insn, block.instructions as nat, gen),
        program::ends_with(insn, block.start, block.instructions as nat),
        insn.addr == pc,
        1 <= insn.len <= 3,
        block.start <= pc <= block.start + 3 * MAX_INSTRUCTIONS,
        block.end == decode::next_addr(insn),
        block.code@ == x64::encode_all(
            program::ending_ops(gen, insn, ctx, block.start, program::unlinked()).push(Op::Ret),
        ),
        block.links@ == program::ending_links(gen, insn, ctx, block.start),
    ensures
        decode::heard_from(fetch, heard),
        forall|a: u16| #[trigger]
            heard.contains_key(a) <==> decode::among(block.start, block_len(block), a),
        forall|mem: spec_fn(u16) -> u8| #[trigger]
            decode::agrees(mem, heard) ==> translates(block, mem, block.start, ctx),
{
    reveal(under_way);
    assert(block_len(block) == pc - block.start + insn.len);
    assert forall|mem: spec_fn(u16) -> u8| #[trigger] decode::agrees(
        mem,
        heard,
    ) implies translates(block, mem, block.start, ctx) by {
        assert(carries_on(mem, block.start, pc, block.instructions as nat, gen));
    }
}

/// One more instruction read.
proof fn lemma_under_way<F: Fn(u16) -> u8>(
    fetch: &F,
    before: Map<u16, u8>,
    more: Map<u16, u8>,
    start: u16,
    at: u16,
    last: Insn,
    count: nat,
    gen: Gen,
    insn: Insn,
)
    requires
        under_way(fetch, before, start, at, last, count, gen),
        start <= at,
        at + last.len < 0x1_0000,
        last.addr == at,
        1 <= insn.len <= 3,
        at + last.len + insn.len - start <= 0x1_0000,
        !program::ends_with(last, start, count),
        decode::heard_from(fetch, more),
        forall|a: u16| #[trigger]
            more.contains_key(a) <==> decode::among((at + last.len) as u16, insn.len as int, a),
        forall|mem: spec_fn(u16) -> u8| #[trigger]
            decode::agrees(mem, more) ==> insn == decode::insn_at(mem, (at + last.len) as u16),
    ensures
        under_way(
            fetch,
            before.union_prefer_right(more),
            start,
            (at + last.len) as u16,
            insn,
            count + 1,
            gen.instruction(last),
        ),
{
    let pc = (at + last.len) as u16;
    let heard = before.union_prefer_right(more);
    assert(decode::heard_from(fetch, before) && forall|a: u16| #[trigger]
        before.contains_key(a) <==> decode::among(start, pc - start, a)) by {
        reveal(under_way);
    }
    lemma_heard_joins(fetch, before, more, start, pc, insn.len as int);
    assert forall|mem: spec_fn(u16) -> u8| #[trigger] decode::agrees(mem, heard) implies insn
        == decode::insn_at(mem, pc) && carries_on(
        mem,
        start,
        pc,
        count + 1,
        gen.instruction(last),
    ) by {
        lemma_agrees_splits(mem, before, more, start, pc, insn.len as int);
        assert(last == decode::insn_at(mem, at) && carries_on(mem, start, at, count, gen)) by {
            reveal(under_way);
        }
        lemma_carries_on(mem, start, at, count, gen, last);
    }
    assert(under_way(fetch, heard, start, pc, insn, count + 1, gen.instruction(last))) by {
        reveal(under_way);
    }
}

/// The bytes of two stretches, one behind the other.
proof fn lemma_heard_joins<F: Fn(u16) -> u8>(
    fetch: &F,
    before: Map<u16, u8>,
    more: Map<u16, u8>,
    start: u16,
    pc: u16,
    len: int,
)
    requires
        start <= pc,
        0 <= len,
        pc - start + len <= 0x1_0000,
        decode::heard_from(fetch, before),
        decode::heard_from(fetch, more),
        forall|a: u16| #[trigger]
            before.contains_key(a) <==> decode::among(start, pc - start, a),
        forall|a: u16| #[trigger] more.contains_key(a) <==> decode::among(pc, len, a),
    ensures
        decode::heard_from(fetch, before.union_prefer_right(more)),
        forall|a: u16| #[trigger]
            before.union_prefer_right(more).contains_key(a) <==> decode::among(
                start,
                pc - start + len,
                a,
            ),
{
    let heard = before.union_prefer_right(more);
    assert forall|a: u16| #[trigger] heard.contains_key(a) <==> decode::among(
        start,
        pc - start + len,
        a,
    ) by {
        lemma_among_splits(start, pc - start, len, a);
        assert(before.contains_key(a) <==> decode::among(start, pc - start, a));
        assert(more.contains_key(a) <==> decode::among(pc, len, a));
    }
    assert forall|a: u16| #[trigger] heard.contains_key(a) implies call_ensures(
        fetch,
        (a,),
        heard[a],
    ) by {
        if !more.contains_key(a) {
            assert(before.contains_key(a));
        }
    }
}

/// A memory that holds the bytes of both stretches holds those of each.
proof fn lemma_agrees_splits(
    mem: spec_fn(u16) -> u8,
    before: Map<u16, u8>,
    more: Map<u16, u8>,
    start: u16,
    pc: u16,
    len: int,
)
    requires
        start <= pc,
        0 <= len,
        pc - start + len <= 0x1_0000,
        forall|a: u16| #[trigger]
            before.contains_key(a) <==> decode::among(start, pc - start, a),
        forall|a: u16| #[trigger] more.contains_key(a) <==> decode::among(pc, len, a),
        decode::agrees(mem, before.union_prefer_right(more)),
    ensures
        decode::agrees(mem, before),
        decode::agrees(mem, more),
{
    let heard = before.union_prefer_right(more);
    assert forall|a: u16| #[trigger] more.contains_key(a) implies more[a] == mem(a) by {
        assert(heard.contains_key(a));
    }
    assert forall|a: u16| #[trigger] before.contains_key(a) implies before[a] == mem(a) by {
        assert(heard.contains_key(a));
        lemma_among_apart(start, pc - start, len, a);
        assert(decode::among(start, pc - start, a));
        assert(!more.contains_key(a));
    }
}

/// Past one more instruction.
proof fn lemma_carries_on(
    mem: spec_fn(u16) -> u8,
    start: u16,
    pc: u16,
    count: nat,
    gen: Gen,
    insn: Insn,
)
    requires
        carries_on(mem, start, pc, count, gen),
        insn == decode::insn_at(mem, pc),
        !program::ends_with(insn, start, count),
    ensures
        carries_on(mem, start, decode::next_addr(insn), count + 1, gen.instruction(insn)),
{
}

/// As `translate_block`, with the bytes that were heard on the way.
fn translate_heard<F: Fn(u16) -> u8>(start: u16, ctx: Context, fetch: &F) -> (out: (
    Block,
    Ghost<Map<u16, u8>>,
))
    requires
        decode::willing(fetch),
    ensures
        decode::heard_from(fetch, out.1@),
        forall|a: u16| #[trigger]
            out.1@.contains_key(a) <==> decode::among(start, block_len(out.0), a),
        forall|mem: spec_fn(u16) -> u8| #[trigger]
            decode::agrees(mem, out.1@) ==> translates(out.0, mem, start, ctx),
{
    let mut em = Emitter::new(ctx, start);
    let mut pc: u16 = start;
    let mut count: usize = 1;
    let (first, first_heard) = decode_heard(pc, fetch);
    let mut insn: Insn = first;
    let ghost mut heard: Map<u16, u8> = first_heard@;
    let mut next: u16 = pc.wrapping_add(insn.len as u16);
    proof {
        assert(em.gen() == program::fresh(0));
        lemma_under_way_first(fetch, heard, start, insn);
    }
    // A block has to end somewhere even if the code runs off into unmapped
    // space; the cap keeps a pathological stretch of 0x00 from filling the arena.
    // And a block never spans two mapping regions: what follows 0x3FFF depends
    // on the mapper, and is not this block's business.
    while !insn.flow.ends_block() && count < MAX_INSTRUCTIONS && region(next) == region(start)
        invariant
            decode::willing(fetch),
            em.wf(),
            em.links@.len() == 0,
            em.exit_at@.len() == 0,
            em.ctx == ctx,
            em.block_start == start,
            1 <= count <= MAX_INSTRUCTIONS,
            em.owed <= 20 * (count - 1),
            1 <= insn.len <= 3,
            insn.addr == pc,
            next == decode::next_addr(insn),
            start <= pc <= start + 3 * (count - 1),
            program::region_of(pc) == program::region_of(start),
            under_way(fetch, heard, start, pc, insn, count as nat, em.gen()),
        decreases MAX_INSTRUCTIONS - count,
    {
        let ghost last = insn;
        let ghost at = pc;
        let ghost gen = em.gen();
        let ghost before = heard;
        em.instruction(insn);
        assert(next == pc + insn.len);
        pc = next;
        count += 1;
        let (now, now_heard) = decode_heard(pc, fetch);
        insn = now;
        next = pc.wrapping_add(insn.len as u16);
        proof {
            heard = before.union_prefer_right(now_heard@);
            lemma_under_way(
                fetch,
                before,
                now_heard@,
                start,
                at,
                last,
                (count - 1) as nat,
                gen,
                insn,
            );
        }
    }
    let ghost gen = em.gen();
    em.ending(insn);
    let block = Block { start, end: next, code: em.buf.code, links: em.links, instructions: count };
    proof {
        lemma_translated(fetch, heard, pc, insn, gen, ctx, block);
    }
    (block, Ghost(heard))
}

/// Two stretches, one behind the other, have no address in common.
proof fn lemma_among_apart(start: u16, n: int, m: int, a: u16)
    requires
        0 <= n,
        0 <= m,
        n + m <= 0x1_0000,
        start + n < 0x1_0000,
    ensures
        !(decode::among(start, n, a) && decode::among((start + n) as u16, m, a)),
{
}

/// The addresses of two stretches, one behind the other.
proof fn lemma_among_splits(start: u16, n: int, m: int, a: u16)
    requires
        0 <= n,
        0 <= m,
        n + m <= 0x1_0000,
        start + n < 0x1_0000,
    ensures
        decode::among(start, n + m, a) <==> decode::among(start, n, a) || decode::among(
            (start + n) as u16,
            m,
            a,
        ),
{
}

/// The trampoline that gets from the host into translated code and back.
pub open spec fn trampoline_ops() -> Seq<Op> {
    seq![
        Op::Push(RBP),
        Op::Push(RBX),
        Op::AluImm(Alu::Sub, Rm::R(RSP), 8, 8),
        Op::MovStore(Rm::R(RBP), RCX, 8),
        Op::CallRm(Rm::R(RDX)),
        Op::AluImm(Alu::Add, Rm::R(RSP), 8, 8),
        Op::Pop(RBX),
        Op::Pop(RBP),
        Op::Ret,
    ]
}

/// The trampoline that gets from the host into translated code and back, called
/// with the address of the state and the address of the code by the Windows
/// convention.
///
/// It parks the state pointer in RBP, which every translated block relies on,
/// and leaves RSP arranged so a block's helper calls land 16-byte aligned.
pub fn build_trampoline() -> (code: Vec<u8>)
    ensures
        code@ == x64::encode_all(trampoline_ops()),
{
    let mut buf = Asm::new();
    buf.push(RBP);
    buf.push(RBX);
    buf.alu_imm(Alu::Sub, Rm::R(RSP), 8, 8);
    buf.mov_reg(RBP, RCX, 8);
    buf.call_rm(Rm::R(RDX));
    buf.alu_imm(Alu::Add, Rm::R(RSP), 8, 8);
    buf.pop(RBX);
    buf.pop(RBP);
    buf.ret();
    proof {
        let ops = trampoline_ops();
        assert(ops.take(9) =~= ops);
        assert(ops.take(0) =~= seq![]);
        x64::lemma_encode_take(ops, 0);
        x64::lemma_encode_take(ops, 1);
        x64::lemma_encode_take(ops, 2);
        x64::lemma_encode_take(ops, 3);
        x64::lemma_encode_take(ops, 4);
        x64::lemma_encode_take(ops, 5);
        x64::lemma_encode_take(ops, 6);
        x64::lemma_encode_take(ops, 7);
        x64::lemma_encode_take(ops, 8);
        assert(buf.code@ =~= x64::encode_all(ops));
    }
    buf.code
}

proof fn lemma_mask(bit: u8)
    by (bit_vector)
    requires
        bit < 8,
    ensures
        1u32 << (bit as u32) < 256,
{
}

} // verus!
