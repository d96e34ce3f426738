//! The translation as data: which x86-64 instructions stand for which SM83
//! instruction.
//!
//! A [`Gen`] is a program under construction together with the cycles that have
//! been run but not yet written to the state. Each method appends what one step
//! of the translator appends, so the translator's contracts are stated as "the
//! program grew by this", and the laws about what a program does are proved of
//! the same methods.

use vstd::prelude::*;
use crate::recomp::abi::{
    EXIT_DISPATCH, EXIT_ILLEGAL, FLAG_C, FLAG_H, FLAG_N, FLAG_Z, JUMP_CACHE_MASK, OFF_A, OFF_B, OFF_BANK_GEN, OFF_BC, OFF_C, OFF_D,
    OFF_DE, OFF_E, OFF_EXIT, OFF_F, OFF_H, OFF_HALT, OFF_HL, OFF_IME, OFF_IME_DELAY, OFF_JUMP_TABLE,
    OFF_L, OFF_PC, OFF_PENDING, OFF_READ8, OFF_SCRATCH, OFF_SP, OFF_STOP, OFF_SYNC, OFF_WRITE8,
};
use crate::recomp::decode;
use crate::recomp::decode::{Flow, Insn};
use crate::recomp::x64;
use crate::recomp::x64::{Alu, Cc, Op, Rm, Shift, State, R10, R8, R9, RAX, RBP, RCX, RDX, RSP};

verus! {

/// Bytes of stack a helper call needs: 32 for the Windows shadow space, plus 8
/// to bring RSP back to a 16-byte boundary at the call.
pub const CALL_FRAME: u32 = 40;

/// The longest run of instructions one block covers.
pub const MAX_INSTRUCTIONS: usize = 2048;

/// A jump out of a block whose destination block may not exist yet.
#[derive(Debug, Clone, Copy, PartialEq, Eq, Structural)]
pub struct Link {
    /// Offset of the rel32 field inside this block's code.
    pub site: usize,
    /// Game Boy address the jump goes to.
    pub target: u16,
}

/// What the translator is allowed to assume about the address space while it
/// works, which decides whether a jump can be linked directly.
#[derive(Debug, Clone, Copy, PartialEq, Eq, Structural)]
pub struct Context {
    /// True when nothing can remap 0x0000-0x3FFF, so its addresses are stable.
    pub lower_window_fixed: bool,
}

impl Default for Context {
    fn default() -> (ctx: Self)
        ensures
            ctx.lower_window_fixed,
    {
        Context { lower_window_fixed: true }
    }
}

/// Which part of the address space `addr` is in: 0 for the fixed cartridge
/// window, 1 for the switchable one, 2 for everything outside the cartridge.
pub open spec fn region_of(addr: u16) -> u8 {
    if addr < 0x4000 {
        0
    } else if addr < 0x8000 {
        1
    } else {
        2
    }
}

/// Where an operand slot lives. Index 6 is `(HL)` and has no offset of its own.
pub open spec fn slot_offset(idx: u8) -> i32 {
    if idx == 0 {
        OFF_B
    } else if idx == 1 {
        OFF_C
    } else if idx == 2 {
        OFF_D
    } else if idx == 3 {
        OFF_E
    } else if idx == 4 {
        OFF_H
    } else if idx == 5 {
        OFF_L
    } else {
        OFF_A
    }
}

/// The flag bit a condition tests: Z for the first two, C for the others.
pub open spec fn condition_mask(idx: u8) -> u32 {
    if idx < 2 {
        FLAG_Z as u32
    } else {
        FLAG_C as u32
    }
}

/// Whether the flag must be set for the condition to hold.
pub open spec fn condition_set(idx: u8) -> bool {
    idx == 1 || idx == 3
}

/// The register pair at index `idx` of an opcode's pair field.
pub open spec fn pair_offset(idx: int) -> i32 {
    if idx == 0 {
        OFF_BC
    } else if idx == 1 {
        OFF_DE
    } else if idx == 2 {
        OFF_HL
    } else {
        OFF_SP
    }
}

/// A program under construction, and the cycles not yet written to the state.
#[verifier::ext_equal]
pub struct Gen {
    pub ops: Seq<Op>,
    pub owed: int,
}

/// The length in bytes of a run of instructions.
pub open spec fn code_len(ops: Seq<Op>) -> int {
    x64::encode_all(ops).len() as int
}

impl Gen {
    pub open spec fn op(self, x: Op) -> Gen {
        Gen { ops: self.ops.push(x), owed: self.owed }
    }

    pub open spec fn reg_op(self, alu: Alu, dst: u8, src: u8) -> Gen {
        self.op(Op::AluStore(alu, Rm::R(dst), src, 4))
    }

    pub open spec fn imm_op(self, alu: Alu, dst: u8, value: u32) -> Gen {
        self.op(Op::AluImm(alu, Rm::R(dst), value, 4))
    }

    pub open spec fn shift(self, kind: Shift, dst: u8, amount: u8) -> Gen {
        self.op(Op::ShiftImm(kind, Rm::R(dst), amount, 4))
    }

    pub open spec fn copy(self, dst: u8, src: u8) -> Gen {
        self.op(Op::MovStore(Rm::R(dst), src, 4))
    }

    pub open spec fn charge(self, cycles: int) -> Gen {
        Gen { ops: self.ops, owed: self.owed + cycles }
    }

    /// Write accumulated cycles into the state so the hardware can see them.
    #[verifier::opaque]
    pub open spec fn settle(self) -> Gen {
        if self.owed != 0 {
            Gen { ops: self.op(Op::AluImm(Alu::Add, State(OFF_PENDING), self.owed as u32, 4)).ops, owed: 0 }
        } else {
            self
        }
    }

    #[verifier::opaque]
    pub open spec fn call_helper(self, slot: i32) -> Gen {
        self.settle()
            .op(Op::MovStore(Rm::R(RCX), RBP, 8))
            .op(Op::AluImm(Alu::Sub, Rm::R(RSP), CALL_FRAME, 8))
            .op(Op::CallRm(State(slot)))
            .op(Op::AluImm(Alu::Add, Rm::R(RSP), CALL_FRAME, 8))
    }

    /// Read from the address in EDX; the byte comes back in AL.
    pub open spec fn read_mem(self) -> Gen {
        self.call_helper(OFF_READ8)
    }

    /// Write the byte in R8D to the address in EDX.
    pub open spec fn write_mem(self) -> Gen {
        self.call_helper(OFF_WRITE8)
    }

    pub open spec fn load_addr_imm(self, addr: u16) -> Gen {
        self.op(Op::MovImm32(RDX, addr as u32))
    }

    pub open spec fn load_addr_hl(self) -> Gen {
        self.op(Op::Movzx(RDX, State(OFF_HL), 2))
    }

    /// Put operand `idx` in AL.
    #[verifier::opaque]
    pub open spec fn load_operand(self, idx: u8) -> Gen {
        if idx == 6 {
            self.load_addr_hl().read_mem()
        } else {
            self.op(Op::MovLoad(RAX, State(slot_offset(idx)), 1))
        }
    }

    /// Store AL into operand `idx`.
    #[verifier::opaque]
    pub open spec fn store_operand(self, idx: u8) -> Gen {
        if idx == 6 {
            self.op(Op::Movzx(R8, Rm::R(RAX), 1)).load_addr_hl().write_mem()
        } else {
            self.op(Op::MovStore(State(slot_offset(idx)), RAX, 1))
        }
    }

    /// Or into ECX the Z flag for the byte in AL.
    pub open spec fn zero_flag(self) -> Gen {
        self.op(Op::Setcc(Cc::E, Rm::R(R9))).op(Op::Movzx(R9, Rm::R(R9), 1)).shift(Shift::Shl, R9, 7)
    }

    /// Set F from parts: Z from AL being zero, plus what is in ECX if
    /// `extra_in_ecx`. `n` is the constant N flag for this operation.
    pub open spec fn flags_from_al(self, extra_in_ecx: bool, n: bool) -> Gen {
        let g = self.op(Op::Test(Rm::R(RAX), RAX, 1)).zero_flag();
        let g = if extra_in_ecx {
            g
        } else {
            g.reg_op(Alu::Xor, RCX, RCX)
        };
        let g = g.reg_op(Alu::Or, RCX, R9);
        let g = if n {
            g.imm_op(Alu::Or, RCX, FLAG_N as u32)
        } else {
            g
        };
        g.op(Op::MovStore(State(OFF_F), RCX, 1))
    }

    /// The carry flag, as 0 or 1, in R10D.
    pub open spec fn carry_in(self) -> Gen {
        self.op(Op::Movzx(R10, State(OFF_F), 1)).shift(Shift::Shr, R10, 4).imm_op(Alu::And, R10, 1)
    }

    /// The 8-bit add/subtract family.
    #[verifier::opaque]
    pub open spec fn alu_add_sub(self, subtract: bool, with_carry: bool, store: bool) -> Gen {
        let alu = if subtract {
            Alu::Sub
        } else {
            Alu::Add
        };
        let g = self.op(Op::Movzx(RCX, Rm::R(RAX), 1)).op(Op::Movzx(RAX, State(OFF_A), 1)).copy(
            RDX,
            RAX,
        ).reg_op(Alu::Xor, RDX, RCX);
        let g = if with_carry {
            g.carry_in().reg_op(Alu::Xor, RDX, R10)
        } else {
            g
        };
        let g = g.reg_op(alu, RAX, RCX);
        let g = if with_carry {
            g.reg_op(alu, RAX, R10)
        } else {
            g
        };
        let g = g.reg_op(Alu::Xor, RDX, RAX).imm_op(Alu::And, RAX, 0xff);
        let g = if store {
            g.op(Op::MovStore(State(OFF_A), RAX, 1))
        } else {
            g
        };
        g.copy(RCX, RDX)
            .imm_op(Alu::And, RCX, 0x10)
            .shift(Shift::Shl, RCX, 1)
            .shift(Shift::Shr, RDX, 8)
            .imm_op(Alu::And, RDX, 1)
            .shift(Shift::Shl, RDX, 4)
            .reg_op(Alu::Or, RCX, RDX)
            .flags_from_al(true, subtract)
    }

    /// AND / OR / XOR, whose flags are fixed apart from Z.
    #[verifier::opaque]
    pub open spec fn alu_logic(self, alu: Alu, half_carry: bool) -> Gen {
        let g = self.op(Op::AluStore(alu, State(OFF_A), RAX, 1)).op(
            Op::MovLoad(RAX, State(OFF_A), 1),
        );
        let g = if half_carry {
            g.op(Op::MovImm32(RCX, FLAG_H as u32))
        } else {
            g.reg_op(Alu::Xor, RCX, RCX)
        };
        g.flags_from_al(true, false)
    }

    /// The flags of INC and DEC, and the new value, of the operand in AL. The
    /// carry flag stays; the half-carry is decided by the low nibble before the
    /// change.
    #[verifier::opaque]
    pub open spec fn inc_dec_flags(self, decrement: bool) -> Gen {
        let g = self.op(Op::MovStore(Rm::R(RCX), RAX, 1))
            .op(Op::AluImm(Alu::And, Rm::R(RCX), 0x0f, 1))
            .op(Op::AluImm(Alu::Cmp, Rm::R(RCX), if decrement { 0x00 } else { 0x0f }, 1))
            .op(Op::Setcc(Cc::E, Rm::R(R9)))
            .op(if decrement { Op::Dec(Rm::R(RAX), 1) } else { Op::Inc(Rm::R(RAX), 1) })
            .op(Op::Movzx(RCX, State(OFF_F), 1))
            .imm_op(Alu::And, RCX, FLAG_C as u32)
            .op(Op::Movzx(R9, Rm::R(R9), 1))
            .shift(Shift::Shl, R9, 5)
            .reg_op(Alu::Or, RCX, R9)
            .imm_op(Alu::And, RAX, 0xff)
            .op(Op::Test(Rm::R(RAX), RAX, 1))
            .zero_flag()
            .reg_op(Alu::Or, RCX, R9);
        let g = if decrement {
            g.imm_op(Alu::Or, RCX, FLAG_N as u32)
        } else {
            g
        };
        g.op(Op::MovStore(State(OFF_F), RCX, 1))
    }

    #[verifier::opaque]
    pub open spec fn inc_dec_8(self, idx: u8, decrement: bool) -> Gen {
        self.load_operand(idx).inc_dec_flags(decrement).store_operand(idx)
    }

    #[verifier::opaque]
    pub open spec fn add_hl(self, src: i32) -> Gen {
        self.op(Op::Movzx(RAX, State(OFF_HL), 2))
            .op(Op::Movzx(RCX, State(src), 2))
            .copy(RDX, RAX)
            .reg_op(Alu::Xor, RDX, RCX)
            .reg_op(Alu::Add, RAX, RCX)
            .reg_op(Alu::Xor, RDX, RAX)
            .op(Op::MovStore(State(OFF_HL), RAX, 2))
            .op(Op::Movzx(RCX, State(OFF_F), 1))
            .imm_op(Alu::And, RCX, FLAG_Z as u32)
            .copy(R9, RDX)
            .imm_op(Alu::And, R9, 0x1000)
            .shift(Shift::Shr, R9, 7)
            .reg_op(Alu::Or, RCX, R9)
            .shift(Shift::Shr, RDX, 16)
            .imm_op(Alu::And, RDX, 1)
            .shift(Shift::Shl, RDX, 4)
            .reg_op(Alu::Or, RCX, RDX)
            .op(Op::MovStore(State(OFF_F), RCX, 1))
    }

    /// `ADD SP,e8` and `LD HL,SP+e8`: the flags come from the low byte only.
    /// `offset` is the immediate byte, `wide` the same number at 32 bits.
    #[verifier::opaque]
    pub open spec fn sp_plus_offset(self, offset: u8, wide: u32, dest: i32) -> Gen {
        self.op(Op::Movzx(RAX, State(OFF_SP), 2))
            .op(Op::MovImm32(RCX, offset as u32))
            .copy(RDX, RAX)
            .imm_op(Alu::And, RDX, 0xff)
            .copy(R9, RDX)
            .reg_op(Alu::Xor, R9, RCX)
            .reg_op(Alu::Add, RDX, RCX)
            .reg_op(Alu::Xor, R9, RDX)
            .copy(RCX, R9)
            .imm_op(Alu::And, RCX, 0x10)
            .shift(Shift::Shl, RCX, 1)
            .shift(Shift::Shr, R9, 8)
            .imm_op(Alu::And, R9, 1)
            .shift(Shift::Shl, R9, 4)
            .reg_op(Alu::Or, RCX, R9)
            .op(Op::MovStore(State(OFF_F), RCX, 1))
            .op(Op::MovImm32(RCX, wide))
            .reg_op(Alu::Add, RAX, RCX)
            .op(Op::MovStore(State(dest), RAX, 2))
    }

    #[verifier::opaque]
    pub open spec fn push16(self, high: i32, low: i32) -> Gen {
        self.op(Op::Dec(State(OFF_SP), 2))
            .op(Op::Movzx(R8, State(high), 1))
            .op(Op::Movzx(RDX, State(OFF_SP), 2))
            .write_mem()
            .op(Op::Dec(State(OFF_SP), 2))
            .op(Op::Movzx(R8, State(low), 1))
            .op(Op::Movzx(RDX, State(OFF_SP), 2))
            .write_mem()
    }

    #[verifier::opaque]
    pub open spec fn push_imm16(self, value: u16) -> Gen {
        self.op(Op::Dec(State(OFF_SP), 2))
            .op(Op::MovImm32(R8, (value / 256) as u32))
            .op(Op::Movzx(RDX, State(OFF_SP), 2))
            .write_mem()
            .op(Op::Dec(State(OFF_SP), 2))
            .op(Op::MovImm32(R8, (value % 256) as u32))
            .op(Op::Movzx(RDX, State(OFF_SP), 2))
            .write_mem()
    }

    #[verifier::opaque]
    pub open spec fn pop16(self, high: i32, low: i32) -> Gen {
        self.op(Op::Movzx(RDX, State(OFF_SP), 2))
            .read_mem()
            .op(Op::MovStore(State(low), RAX, 1))
            .op(Op::Inc(State(OFF_SP), 2))
            .op(Op::Movzx(RDX, State(OFF_SP), 2))
            .read_mem()
            .op(Op::MovStore(State(high), RAX, 1))
            .op(Op::Inc(State(OFF_SP), 2))
    }

    /// Pop a return address off the Game Boy stack, leaving it in EAX.
    #[verifier::opaque]
    pub open spec fn pop_pc(self) -> Gen {
        self.op(Op::Movzx(RDX, State(OFF_SP), 2))
            .read_mem()
            .op(Op::Movzx(RAX, Rm::R(RAX), 1))
            .op(Op::MovStore(State(OFF_SCRATCH), RAX, 4))
            .op(Op::Inc(State(OFF_SP), 2))
            .op(Op::Movzx(RDX, State(OFF_SP), 2))
            .read_mem()
            .op(Op::Inc(State(OFF_SP), 2))
            .op(Op::Movzx(RAX, Rm::R(RAX), 1))
            .shift(Shift::Shl, RAX, 8)
            .op(Op::AluLoad(Alu::Or, RAX, State(OFF_SCRATCH), 4))
    }

    /// Rotate or shift the byte in AL. Leaves the outgoing carry in ECX,
    /// already positioned as `FLAG_C`.
    #[verifier::opaque]
    pub open spec fn rotate(self, kind: u8) -> Gen {
        let g = if kind == 2 || kind == 3 {
            self.carry_in()
        } else {
            self
        };
        let g = g.op(Op::Movzx(RCX, Rm::R(RAX), 1));
        let g = if kind == 0 || kind == 2 || kind == 4 {
            g.shift(Shift::Shr, RCX, 7)
        } else if kind == 6 {
            g.reg_op(Alu::Xor, RCX, RCX)
        } else {
            g.imm_op(Alu::And, RCX, 1)
        };
        let g = if kind != 6 {
            g.imm_op(Alu::And, RCX, 1).shift(Shift::Shl, RCX, 4)
        } else {
            g
        };
        let g = if kind == 0 {
            g.op(Op::ShiftImm(Shift::Rol, Rm::R(RAX), 1, 1))
        } else if kind == 1 {
            g.op(Op::ShiftImm(Shift::Ror, Rm::R(RAX), 1, 1))
        } else if kind == 2 {
            g.op(Op::ShiftImm(Shift::Shl, Rm::R(RAX), 1, 1)).op(
                Op::AluStore(Alu::Or, Rm::R(RAX), R10, 1),
            )
        } else if kind == 3 {
            g.op(Op::ShiftImm(Shift::Shr, Rm::R(RAX), 1, 1)).shift(Shift::Shl, R10, 7).op(
                Op::AluStore(Alu::Or, Rm::R(RAX), R10, 1),
            )
        } else if kind == 4 {
            g.op(Op::ShiftImm(Shift::Shl, Rm::R(RAX), 1, 1))
        } else if kind == 5 {
            g.op(Op::ShiftImm(Shift::Sar, Rm::R(RAX), 1, 1))
        } else if kind == 6 {
            g.op(Op::ShiftImm(Shift::Rol, Rm::R(RAX), 4, 1))
        } else {
            g.op(Op::ShiftImm(Shift::Shr, Rm::R(RAX), 1, 1))
        };
        g.op(Op::Movzx(RAX, Rm::R(RAX), 1))
    }

    /// Run `body` unless `cc` holds.
    #[verifier::opaque]
    pub open spec fn unless(self, cc: Cc, body: Seq<Op>) -> Gen {
        Gen { ops: self.ops.push(Op::Jcc(cc, code_len(body) as u32)) + body, owed: self.owed }
    }

    /// Run `no` if `cc` holds, and `yes` if not.
    #[verifier::opaque]
    pub open spec fn either(self, cc: Cc, yes: Seq<Op>, no: Seq<Op>) -> Gen {
        Gen {
            ops: self.ops.push(Op::Jcc(cc, (code_len(yes) + 5) as u32)) + yes.push(
                Op::Jmp(code_len(no) as u32),
            ) + no,
            owed: self.owed,
        }
    }

    /// Decimal adjust.
    #[verifier::opaque]
    pub open spec fn daa(self) -> Gen {
        let g = self.op(Op::Movzx(RAX, State(OFF_A), 1))
            .op(Op::Movzx(RCX, State(OFF_F), 1))
            .reg_op(Alu::Xor, R8, R8)
            .reg_op(Alu::Xor, R9, R9)
            .op(Op::TestImm(Rm::R(RCX), FLAG_C as u32, 1))
            .unless(Cc::E, daa_high())
            .op(Op::TestImm(Rm::R(RCX), FLAG_H as u32, 1))
            .unless(Cc::E, daa_low())
            .op(Op::TestImm(Rm::R(RCX), FLAG_N as u32, 1));
        let g = g.either(Cc::Ne, daa_add(), daa_sub());
        g.imm_op(Alu::And, RAX, 0xff)
            .op(Op::MovStore(State(OFF_A), RAX, 1))
            .imm_op(Alu::And, RCX, FLAG_N as u32)
            .shift(Shift::Shl, R9, 4)
            .reg_op(Alu::Or, RCX, R9)
            .op(Op::Test(Rm::R(RAX), RAX, 1))
            .zero_flag()
            .reg_op(Alu::Or, RCX, R9)
            .op(Op::MovStore(State(OFF_F), RCX, 1))
    }

    #[verifier::opaque]
    pub open spec fn alu_op(self, kind: u8) -> Gen {
        if kind == 0 {
            self.alu_add_sub(false, false, true)
        } else if kind == 1 {
            self.alu_add_sub(false, true, true)
        } else if kind == 2 {
            self.alu_add_sub(true, false, true)
        } else if kind == 3 {
            self.alu_add_sub(true, true, true)
        } else if kind == 4 {
            self.alu_logic(Alu::And, true)
        } else if kind == 5 {
            self.alu_logic(Alu::Xor, false)
        } else if kind == 6 {
            self.alu_logic(Alu::Or, false)
        } else {
            self.alu_add_sub(true, false, false)
        }
    }

    /// An instruction behind the `CB` prefix.
    #[verifier::opaque]
    pub open spec fn cb_instruction(self, cb: u8) -> Gen {
        let idx = (cb % 8) as u8;
        let bit = (cb / 8 % 8) as u8;
        let mask = 1u32 << (bit as u32);
        let g = self.load_operand(idx);
        if cb < 0x40 {
            g.rotate(bit).flags_from_al(true, false).store_operand(idx)
        } else if cb < 0x80 {
            g.op(Op::TestImm(Rm::R(RAX), mask, 1))
                .op(Op::Setcc(Cc::E, Rm::R(R9)))
                .op(Op::Movzx(RCX, State(OFF_F), 1))
                .imm_op(Alu::And, RCX, FLAG_C as u32)
                .imm_op(Alu::Or, RCX, FLAG_H as u32)
                .op(Op::Movzx(R9, Rm::R(R9), 1))
                .shift(Shift::Shl, R9, 7)
                .reg_op(Alu::Or, RCX, R9)
                .op(Op::MovStore(State(OFF_F), RCX, 1))
        } else if cb < 0xc0 {
            g.op(Op::AluImm(Alu::And, Rm::R(RAX), (0xff - mask) as u32, 1)).store_operand(idx)
        } else {
            g.op(Op::AluImm(Alu::Or, Rm::R(RAX), mask, 1)).store_operand(idx)
        }
    }

    /// One instruction that falls through to the next.
    #[verifier::opaque]
    pub open spec fn instruction(self, insn: Insn) -> Gen {
        let op = insn.opcode;
        // Fetching the opcode and its immediates costs four cycles a byte.
        let g = self.charge(4 * insn.len);
        if op < 0x40 {
            g.low_quarter(insn)
        } else if op < 0x80 {
            g.load_operand((op % 8) as u8).store_operand((op / 8 % 8) as u8)
        } else if op < 0xc0 {
            g.load_operand((op % 8) as u8).alu_op((op / 8 % 8) as u8)
        } else {
            g.high_quarter(insn)
        }
    }

    /// Opcodes 0x00 to 0x3F, by column.
    #[verifier::opaque]
    pub open spec fn low_quarter(self, insn: Insn) -> Gen {
        let op = insn.opcode;
        let col = op % 8;
        let row = op / 16;
        if col == 1 {
            if op / 8 % 2 == 0 {
                self.op(Op::MovRmImm(State(pair_offset(row as int)), insn.imm16 as u32, 2))
            } else {
                self.add_hl(pair_offset(row as int)).charge(4)
            }
        } else if col == 2 {
            let pair = if row == 3 {
                OFF_HL
            } else {
                pair_offset(row as int)
            };
            let g = if op / 8 % 2 == 0 {
                self.op(Op::Movzx(R8, State(OFF_A), 1)).op(Op::Movzx(RDX, State(pair), 2)).write_mem()
            } else {
                self.op(Op::Movzx(RDX, State(pair), 2)).read_mem().op(
                    Op::MovStore(State(OFF_A), RAX, 1),
                )
            };
            if row == 2 {
                g.op(Op::Inc(State(OFF_HL), 2))
            } else if row == 3 {
                g.op(Op::Dec(State(OFF_HL), 2))
            } else {
                g
            }
        } else if col == 3 {
            let pair = pair_offset(row as int);
            self.op(
                if op / 8 % 2 == 0 {
                    Op::Inc(State(pair), 2)
                } else {
                    Op::Dec(State(pair), 2)
                },
            ).charge(4)
        } else if col == 4 {
            self.inc_dec_8((op / 8) as u8, false)
        } else if col == 5 {
            self.inc_dec_8((op / 8) as u8, true)
        } else if col == 6 {
            self.op(Op::MovImm32(RAX, insn.imm8 as u32)).store_operand((op / 8) as u8)
        } else if col == 7 {
            self.accumulator(op)
        } else if op == 0x08 {
            self.op(Op::Movzx(R8, State(OFF_SP), 1))
                .load_addr_imm(insn.imm16)
                .write_mem()
                .op(Op::Movzx(R8, State((OFF_SP + 1) as i32), 1))
                .load_addr_imm(decode::wrap16(insn.imm16 + 1))
                .write_mem()
        } else {
            self
        }
    }

    /// Column 7 of the first quarter: the accumulator and flag operations.
    #[verifier::opaque]
    pub open spec fn accumulator(self, op: u8) -> Gen {
        if op < 0x20 {
            // Accumulator rotates clear Z, unlike their CB-prefixed twins.
            self.op(Op::Movzx(RAX, State(OFF_A), 1))
                .rotate((op / 8) as u8)
                .op(Op::MovStore(State(OFF_A), RAX, 1))
                .op(Op::MovStore(State(OFF_F), RCX, 1))
        } else if op == 0x27 {
            self.daa()
        } else if op == 0x2f {
            self.op(Op::Not(State(OFF_A), 1)).op(
                Op::AluImm(Alu::Or, State(OFF_F), (FLAG_N + FLAG_H) as u32, 1),
            )
        } else if op == 0x37 {
            self.op(Op::AluImm(Alu::And, State(OFF_F), FLAG_Z as u32, 1)).op(
                Op::AluImm(Alu::Or, State(OFF_F), FLAG_C as u32, 1),
            )
        } else {
            self.op(Op::Movzx(RCX, State(OFF_F), 1))
                .copy(RAX, RCX)
                .imm_op(Alu::And, RAX, FLAG_Z as u32)
                .imm_op(Alu::And, RCX, FLAG_C as u32)
                .imm_op(Alu::Xor, RCX, FLAG_C as u32)
                .reg_op(Alu::Or, RCX, RAX)
                .op(Op::MovStore(State(OFF_F), RCX, 1))
        }
    }

    /// Opcodes 0xC0 to 0xFF that fall through.
    #[verifier::opaque]
    pub open spec fn high_quarter(self, insn: Insn) -> Gen {
        let op = insn.opcode;
        if op % 8 == 6 {
            self.op(Op::MovImm32(RAX, insn.imm8 as u32)).alu_op((op / 8 % 8) as u8)
        } else if op == 0xc1 {
            self.pop16(OFF_B, OFF_C)
        } else if op == 0xd1 {
            self.pop16(OFF_D, OFF_E)
        } else if op == 0xe1 {
            self.pop16(OFF_H, OFF_L)
        } else if op == 0xf1 {
            // The low nibble of F does not exist on real hardware.
            self.pop16(OFF_A, OFF_F).op(Op::AluImm(Alu::And, State(OFF_F), 0xf0, 1))
        } else if op == 0xc5 {
            self.push16(OFF_B, OFF_C).charge(4)
        } else if op == 0xd5 {
            self.push16(OFF_D, OFF_E).charge(4)
        } else if op == 0xe5 {
            self.push16(OFF_H, OFF_L).charge(4)
        } else if op == 0xf5 {
            self.push16(OFF_A, OFF_F).charge(4)
        } else if op == 0xe0 {
            self.op(Op::Movzx(R8, State(OFF_A), 1)).load_addr_imm(
                (0xff00 + insn.imm8) as u16,
            ).write_mem()
        } else if op == 0xf0 {
            self.load_addr_imm((0xff00 + insn.imm8) as u16).read_mem().op(
                Op::MovStore(State(OFF_A), RAX, 1),
            )
        } else if op == 0xe2 {
            self.op(Op::Movzx(R8, State(OFF_A), 1))
                .op(Op::Movzx(RDX, State(OFF_C), 1))
                .imm_op(Alu::Or, RDX, 0xff00)
                .write_mem()
        } else if op == 0xf2 {
            self.op(Op::Movzx(RDX, State(OFF_C), 1))
                .imm_op(Alu::Or, RDX, 0xff00)
                .read_mem()
                .op(Op::MovStore(State(OFF_A), RAX, 1))
        } else if op == 0xea {
            self.op(Op::Movzx(R8, State(OFF_A), 1)).load_addr_imm(insn.imm16).write_mem()
        } else if op == 0xfa {
            self.load_addr_imm(insn.imm16).read_mem().op(Op::MovStore(State(OFF_A), RAX, 1))
        } else if op == 0xe8 {
            self.sp_plus_offset(insn.imm8, sign_extend(insn.imm8), OFF_SP).charge(8)
        } else if op == 0xf8 {
            self.sp_plus_offset(insn.imm8, sign_extend(insn.imm8), OFF_HL).charge(4)
        } else if op == 0xf9 {
            self.op(Op::Movzx(RAX, State(OFF_HL), 2)).op(Op::MovStore(State(OFF_SP), RAX, 2)).charge(4)
        } else if op == 0xf3 {
            self.op(Op::MovRmImm(State(OFF_IME), 0, 1)).op(Op::MovRmImm(State(OFF_IME_DELAY), 0, 1))
        } else if op == 0xfb {
            // Interrupts come back on after the following instruction, which the
            // host applies at the next block boundary.
            self.op(Op::MovRmImm(State(OFF_IME_DELAY), 1, 1))
        } else if op == 0xcb {
            self.cb_instruction(insn.cb)
        } else {
            self
        }
    }
}

/// The byte `b`, sign-extended to 32 bits.
pub open spec fn sign_extend(b: u8) -> u32 {
    if b < 128 {
        b as u32
    } else {
        (0xffff_ff00 + b) as u32
    }
}

/// Correct the high digit and record a carry.
pub open spec fn daa_high() -> Seq<Op> {
    seq![Op::AluImm(Alu::Or, Rm::R(R8), 0x60, 4), Op::MovImm32(R9, 1)]
}

/// Correct the low digit.
pub open spec fn daa_low() -> Seq<Op> {
    seq![Op::AluImm(Alu::Or, Rm::R(R8), 0x06, 4)]
}

/// After an addition the digits themselves can be out of range.
pub open spec fn daa_add() -> Seq<Op> {
    Gen { ops: seq![], owed: 0 }.copy(RDX, RAX).imm_op(Alu::And, RDX, 0x0f).imm_op(
        Alu::Cmp,
        RDX,
        9,
    ).unless(Cc::Be, daa_low()).imm_op(Alu::Cmp, RAX, 0x99).unless(Cc::Be, daa_high()).reg_op(
        Alu::Add,
        RAX,
        R8,
    ).ops
}

/// After a subtraction the digits are already valid; only undo the borrow.
pub open spec fn daa_sub() -> Seq<Op> {
    seq![Op::AluStore(Alu::Sub, Rm::R(RAX), R8, 4)]
}

// ---- block exits ---------------------------------------------------------

/// Can a jump from a block at `from` to `target` be a plain `jmp`, or does the
/// mapping at that address depend on state that cannot be seen from here?
/// Anything in RAM can be rewritten under us; the fixed window is only fixed if
/// nothing can remap it; the switchable window keeps its bank only from inside.
pub open spec fn can_link(ctx: Context, from: u16, target: u16) -> bool {
    region_of(from) != 2 && region_of(target) != 2 && (if region_of(target) == 0 {
        ctx.lower_window_fixed
    } else {
        region_of(from) == 1
    })
}

/// Consult the inline cache for the address in the state's PC, and jump
/// straight there on a hit. A miss hands the address to the host.
#[verifier::opaque]
pub open spec fn dispatch_ops() -> Seq<Op> {
    let miss = seq![Op::MovRmImm(State(OFF_EXIT), EXIT_DISPATCH as u32, 1), Op::Ret];
    let jump = seq![Op::JmpRm(Rm::Mem { base: RCX, disp: 8 })];
    let check = seq![
        Op::MovLoad(RDX, State(OFF_BANK_GEN), 4),
        Op::AluStore(Alu::Cmp, Rm::Mem { base: RCX, disp: 4 }, RDX, 4),
        Op::Jcc(Cc::Ne, code_len(jump) as u32),
    ];
    Gen { ops: seq![], owed: 0 }.op(Op::Movzx(RAX, State(OFF_PC), 2)).copy(RCX, RAX).imm_op(
        Alu::And,
        RCX,
        JUMP_CACHE_MASK,
    ).shift(Shift::Shl, RCX, 4).op(Op::AluLoad(Alu::Add, RCX, State(OFF_JUMP_TABLE), 8)).op(
        Op::AluStore(Alu::Cmp, Rm::Mem { base: RCX, disp: 0 }, RAX, 4),
    ).ops.push(Op::Jcc(Cc::Ne, (code_len(check) + code_len(jump)) as u32)) + check + jump + miss
}

/// What follows the check for a yield: the linkable jump, if there is one, and
/// the dispatch. A link of zero falls straight through to the dispatch, so a
/// block whose destination has not been filled in is still correct.
#[verifier::opaque]
pub open spec fn leave_ops(link: Option<u32>) -> Seq<Op> {
    (match link {
        Some(rel) => seq![Op::Jmp(rel)],
        None => seq![],
    }) + dispatch_ops()
}

/// Hand the hardware its cycles, then leave if it wants control back; `skip` is
/// the distance from there to the block's shared `ret`.
#[verifier::opaque]
pub open spec fn sync_ops(g: Gen, skip: int) -> Seq<Op> {
    g.call_helper(OFF_SYNC).op(Op::AluImm(Alu::Cmp, State(OFF_EXIT), 0, 1)).ops.push(
        Op::Jcc(Cc::Ne, skip as u32),
    )
}

/// A program that goes on to leave for a statically known address; `after` is
/// how many bytes stand between the end of this and the shared `ret`.
#[verifier::opaque]
pub open spec fn direct_ops(g: Gen, target: u16, link: Option<u32>, after: int) -> Seq<Op> {
    sync_ops(
        g.op(Op::MovRmImm(State(OFF_PC), target as u32, 2)),
        code_len(leave_ops(link)) + after,
    ) + leave_ops(link)
}

/// A program that goes on to leave for the address in EAX.
#[verifier::opaque]
pub open spec fn indirect_ops(g: Gen) -> Seq<Op> {
    sync_ops(g.op(Op::MovStore(State(OFF_PC), RAX, 2)), code_len(leave_ops(None))) + leave_ops(None)
}

/// The condition code under which a conditional instruction is taken.
pub open spec fn taken_cc(opcode: u8) -> Cc {
    if condition_set((opcode / 8 % 4) as u8) {
        Cc::Ne
    } else {
        Cc::E
    }
}

/// Cycles owed and nothing emitted yet.
pub open spec fn fresh(owed: int) -> Gen {
    Gen { ops: seq![], owed }
}

/// The test of a conditional instruction.
#[verifier::opaque]
pub open spec fn test_ops(g: Gen, opcode: u8) -> Gen {
    g.settle().op(Op::TestImm(State(OFF_F), condition_mask((opcode / 8 % 4) as u8), 1))
}

/// A program that goes on to test the condition of `opcode` and, if it does not
/// hold, to leave for `next`. `rest` is what the taken side does.
#[verifier::opaque]
pub open spec fn branch_ops(
    g: Gen,
    opcode: u8,
    next: u16,
    link: Option<u32>,
    rest: Seq<Op>,
) -> Seq<Op> {
    let not_taken = direct_ops(fresh(0), next, link, code_len(rest));
    test_ops(g, opcode).ops.push(Op::Jcc(taken_cc(opcode), code_len(not_taken) as u32)) + not_taken
        + rest
}

/// Where the links of a block lead, as distances from the jump to the entry of
/// the destination; zero while the destination is not known.
pub struct Links {
    /// The link for falling through.
    pub next: u32,
    /// The link for a jump or call.
    pub target: u32,
}

/// Links as the translator leaves them.
pub open spec fn unlinked() -> Links {
    Links { next: 0, target: 0 }
}

/// A link, where one is possible.
pub open spec fn link_if(possible: bool, rel: u32) -> Option<u32> {
    if possible {
        Some(rel)
    } else {
        None
    }
}

/// What a return does once the address is popped.
pub open spec fn resume_ops(g: Gen, enable_interrupts: bool) -> Gen {
    if enable_interrupts {
        g.op(Op::MovRmImm(State(OFF_IME), 1, 1)).op(Op::MovRmImm(State(OFF_IME_DELAY), 0, 1))
    } else {
        g
    }
}

/// The program `g` completed by the last instruction of the block and the way
/// out of it, without the shared `ret`.
#[verifier::opaque]
pub open spec fn ending_ops(g: Gen, insn: Insn, ctx: Context, start: u16, links: Links) -> Seq<Op> {
    let next = decode::next_addr(insn);
    let to_next = link_if(can_link(ctx, start, next), links.next);
    let paid = g.charge(4 * insn.len);
    match insn.flow {
        Flow::Normal => direct_ops(g.instruction(insn), next, to_next, 0),
        Flow::Jump { target, conditional } => {
            let to_target = link_if(can_link(ctx, start, target), links.target);
            if conditional {
                branch_ops(
                    paid,
                    insn.opcode,
                    next,
                    to_next,
                    direct_ops(fresh(0).charge(4), target, to_target, 0),
                )
            } else {
                direct_ops(paid.charge(4), target, to_target, 0)
            }
        },
        Flow::Call { target, conditional } => {
            let to_target = link_if(can_link(ctx, start, target), links.target);
            if conditional {
                branch_ops(
                    paid,
                    insn.opcode,
                    next,
                    to_next,
                    direct_ops(fresh(0).charge(4).push_imm16(next), target, to_target, 0),
                )
            } else {
                direct_ops(paid.charge(4).push_imm16(next), target, to_target, 0)
            }
        },
        Flow::Rst { target } => direct_ops(
            paid.charge(4).push_imm16(next),
            target,
            link_if(can_link(ctx, start, target), links.target),
            0,
        ),
        Flow::Ret { conditional, enable_interrupts } => if conditional {
            branch_ops(
                paid.charge(4),
                insn.opcode,
                next,
                to_next,
                indirect_ops(resume_ops(fresh(0).charge(4).pop_pc(), enable_interrupts)),
            )
        } else {
            indirect_ops(resume_ops(paid.charge(4).pop_pc(), enable_interrupts))
        },
        Flow::JumpIndirect => indirect_ops(paid.op(Op::Movzx(RAX, State(OFF_HL), 2))),
        Flow::Halt => paid.op(Op::MovRmImm(State(OFF_PC), next as u32, 2)).call_helper(
            OFF_HALT,
        ).op(Op::Ret).ops,
        Flow::Stop => {
            let go_on = direct_ops(fresh(0), next, to_next, 0);
            // A CGB speed switch resumes; a real stop does not.
            paid.op(Op::MovRmImm(State(OFF_PC), next as u32, 2)).call_helper(OFF_STOP).op(
                Op::AluImm(Alu::Cmp, State(OFF_EXIT), 0, 1),
            ).ops.push(Op::Jcc(Cc::Ne, code_len(go_on) as u32)) + go_on
        },
        Flow::Illegal => g.settle().op(Op::MovRmImm(State(OFF_PC), insn.addr as u32, 2)).op(
            Op::MovRmImm(State(OFF_EXIT), EXIT_ILLEGAL as u32, 1),
        ).op(Op::Ret).ops,
    }
}

/// The link site of a piece of program that leaves for a known address, when
/// `base` bytes stand before it and `g` is what it does first.
#[verifier::opaque]
pub open spec fn direct_links(base: int, g: Gen, target: u16, possible: bool) -> Seq<Link> {
    if possible {
        let before = sync_ops(g.op(Op::MovRmImm(State(OFF_PC), target as u32, 2)), 0);
        seq![Link { site: (base + code_len(before) + 1) as usize, target }]
    } else {
        seq![]
    }
}

/// The links of a conditional instruction: out to `next`, then over to the taken
/// side, which does `taken` first.
#[verifier::opaque]
pub open spec fn branch_links(
    g: Gen,
    opcode: u8,
    next: u16,
    next_possible: bool,
    taken: Gen,
    target: u16,
    target_possible: bool,
) -> Seq<Link> {
    let base = code_len(test_ops(g, opcode).ops) + 6;
    let not_taken = direct_ops(fresh(0), next, link_if(next_possible, 0), 0);
    direct_links(base, fresh(0), next, next_possible) + direct_links(
        base + code_len(not_taken),
        taken,
        target,
        target_possible,
    )
}

/// The links of the program `g` completed by `ending_ops`.
#[verifier::opaque]
pub open spec fn ending_links(g: Gen, insn: Insn, ctx: Context, start: u16) -> Seq<Link> {
    let next = decode::next_addr(insn);
    let next_possible = can_link(ctx, start, next);
    let paid = g.charge(4 * insn.len);
    match insn.flow {
        Flow::Normal => direct_links(0, g.instruction(insn), next, next_possible),
        Flow::Jump { target, conditional } => {
            let possible = can_link(ctx, start, target);
            if conditional {
                let taken = fresh(0).charge(4);
                branch_links(paid, insn.opcode, next, next_possible, taken, target, possible)
            } else {
                direct_links(0, paid.charge(4), target, possible)
            }
        },
        Flow::Call { target, conditional } => {
            let possible = can_link(ctx, start, target);
            if conditional {
                let taken = fresh(0).charge(4).push_imm16(next);
                branch_links(paid, insn.opcode, next, next_possible, taken, target, possible)
            } else {
                direct_links(0, paid.charge(4).push_imm16(next), target, possible)
            }
        },
        Flow::Rst { target } => direct_links(
            0,
            paid.charge(4).push_imm16(next),
            target,
            can_link(ctx, start, target),
        ),
        Flow::Ret { conditional, .. } => if conditional {
            let base = code_len(test_ops(paid.charge(4), insn.opcode).ops) + 6;
            direct_links(base, fresh(0), next, next_possible)
        } else {
            seq![]
        },
        Flow::Stop => {
            let before = paid.op(Op::MovRmImm(State(OFF_PC), next as u32, 2)).call_helper(
                OFF_STOP,
            ).op(Op::AluImm(Alu::Cmp, State(OFF_EXIT), 0, 1)).ops;
            direct_links(code_len(before) + 6, fresh(0), next, next_possible)
        },
        _ => seq![],
    }
}

// ---- whole blocks --------------------------------------------------------

/// Whether the block that starts at `start` ends with `insn`, its instruction
/// number `count`. A block runs until the first instruction that can move the
/// program counter somewhere other than straight ahead; it never spans two
/// mapping regions, and it has to end somewhere even if the code runs off into
/// unmapped space.
pub open spec fn ends_with(insn: Insn, start: u16, count: nat) -> bool {
    insn.flow.ends_block() || count >= MAX_INSTRUCTIONS || region_of(decode::next_addr(insn))
        != region_of(start)
}

/// The last instruction of a block, from its instruction number `count` on,
/// which is at `pc`.
pub open spec fn last_insn(mem: spec_fn(u16) -> u8, start: u16, pc: u16, count: nat) -> Insn
    decreases MAX_INSTRUCTIONS - count,
{
    let insn = decode::insn_at(mem, pc);
    if ends_with(insn, start, count) {
        insn
    } else {
        last_insn(mem, start, decode::next_addr(insn), count + 1)
    }
}

/// How many instructions a block has, from its instruction number `count` on.
pub open spec fn block_size(mem: spec_fn(u16) -> u8, start: u16, pc: u16, count: nat) -> nat
    decreases MAX_INSTRUCTIONS - count,
{
    let insn = decode::insn_at(mem, pc);
    if ends_with(insn, start, count) {
        count
    } else {
        block_size(mem, start, decode::next_addr(insn), count + 1)
    }
}

/// The translation of a block up to its last instruction.
pub open spec fn body(mem: spec_fn(u16) -> u8, start: u16, pc: u16, count: nat, g: Gen) -> Gen
    decreases MAX_INSTRUCTIONS - count,
{
    let insn = decode::insn_at(mem, pc);
    if ends_with(insn, start, count) {
        g
    } else {
        body(mem, start, decode::next_addr(insn), count + 1, g.instruction(insn))
    }
}

/// The translation of the block at `start`.
pub open spec fn block_ops(
    mem: spec_fn(u16) -> u8,
    start: u16,
    ctx: Context,
    links: Links,
) -> Seq<Op> {
    ending_ops(
        body(mem, start, start, 1, fresh(0)),
        last_insn(mem, start, start, 1),
        ctx,
        start,
        links,
    ).push(Op::Ret)
}

/// The links of the block at `start`.
pub open spec fn block_links(mem: spec_fn(u16) -> u8, start: u16, ctx: Context) -> Seq<Link> {
    ending_links(
        body(mem, start, start, 1, fresh(0)),
        last_insn(mem, start, start, 1),
        ctx,
        start,
    )
}

// ---- programs on top of others -------------------------------------------

/// The program `g` behind the instructions `base`.
pub open spec fn on_top(base: Seq<Op>, g: Gen) -> Gen {
    Gen { ops: base + g.ops, owed: g.owed }
}

pub proof fn lemma_on_top_op(base: Seq<Op>, g: Gen, x: Op)
    ensures
        on_top(base, g).op(x) == on_top(base, g.op(x)),
{
    assert((base + g.ops).push(x) =~= base + g.ops.push(x));
}

pub proof fn lemma_on_top_call(base: Seq<Op>, g: Gen, slot: i32)
    ensures
        on_top(base, g).call_helper(slot) == on_top(base, g.call_helper(slot)),
{
    reveal(Gen::call_helper);
    reveal(Gen::settle);
    assert(on_top(base, g).call_helper(slot).ops =~= base + g.call_helper(slot).ops);
}

pub proof fn lemma_on_top_stack(base: Seq<Op>, g: Gen, value: u16)
    ensures
        on_top(base, g).push_imm16(value) == on_top(base, g.push_imm16(value)),
        on_top(base, g).pop_pc() == on_top(base, g.pop_pc()),
{
    reveal(Gen::push_imm16);
    reveal(Gen::pop_pc);
    reveal(Gen::call_helper);
    reveal(Gen::settle);
    assert(on_top(base, g).push_imm16(value).ops =~= base + g.push_imm16(value).ops);
    assert(on_top(base, g).pop_pc().ops =~= base + g.pop_pc().ops);
}

pub proof fn lemma_on_top_sync(base: Seq<Op>, g: Gen, skip: int)
    ensures
        sync_ops(on_top(base, g), skip) == base + sync_ops(g, skip),
{
    reveal(sync_ops);
    lemma_on_top_call(base, g, OFF_SYNC);
    assert(sync_ops(on_top(base, g), skip) =~= base + sync_ops(g, skip));
}

} // verus!
