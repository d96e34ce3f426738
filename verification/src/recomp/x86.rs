//! What the emitted host instructions do.
//!
//! A [`Machine`] is the part of an x86-64 processor that translated code uses,
//! with the game's state behind RBP. [`step`] is the effect of one instruction
//! that does not jump and [`run`] follows a program from one of its
//! instructions to where it leaves it. A form that translated code never uses,
//! or a call on a misaligned stack, clears [`Machine::ok`].

use vstd::prelude::*;
use crate::recomp::abi::{
    GbState, JUMP_CACHE_SLOTS, OFF_A, OFF_B, OFF_BANK_GEN, OFF_BC, OFF_C, OFF_D, OFF_DE, OFF_E,
    OFF_EXIT, OFF_F, OFF_H, OFF_HALT, OFF_HL, OFF_IME, OFF_IME_DELAY, OFF_JUMP_TABLE, OFF_L, OFF_PC,
    OFF_PENDING, OFF_READ8, OFF_SCRATCH, OFF_SP, OFF_STOP, OFF_SYNC, OFF_WRITE8,
};
use crate::recomp::bus::{Hardware, World};
use crate::recomp::x64;
use crate::recomp::x64::{Alu, Cc, Op, Rm, Shift, R10, R11, R8, R9, RAX, RBP, RCX, RDX, RSP};

verus! {

#[verifier::ext_equal]
pub struct Machine {
    /// The state RBP points at, and what the hardware has been told.
    pub w: World,
    pub rax: u64,
    pub rcx: u64,
    pub rdx: u64,
    pub rsp: u64,
    pub r8: u64,
    pub r9: u64,
    pub r10: u64,
    pub r11: u64,
    pub zf: bool,
    pub cf: bool,
    /// Nothing outside the modelled forms has been executed.
    pub ok: bool,
}

// ---- register widths -----------------------------------------------------

#[verifier::opaque]
pub open spec fn low8(x: u64) -> u8 {
    (x % 0x100) as u8
}

#[verifier::opaque]
pub open spec fn low16(x: u64) -> u16 {
    (x % 0x1_0000) as u16
}

#[verifier::opaque]
pub open spec fn low32(x: u64) -> u32 {
    (x % 0x1_0000_0000) as u32
}

/// Writing the low byte of a register leaves the rest.
#[verifier::opaque]
pub open spec fn put8(x: u64, v: u8) -> u64 {
    (x - x % 0x100 + v) as u64
}

/// The 16-bit number with the given bytes.
pub open spec fn join(hi: u8, lo: u8) -> u16 {
    (256 * hi + lo) as u16
}

pub open spec fn hi8(x: u16) -> u8 {
    (x / 256) as u8
}

pub open spec fn lo8(x: u16) -> u8 {
    (x % 256) as u8
}

pub broadcast proof fn lemma_low8_put8(x: u64, v: u8)
    ensures
        #[trigger] low8(put8(x, v)) == v,
{
    reveal(low8);
    reveal(put8);
}

pub broadcast proof fn lemma_low8_small(x: u64)
    requires
        x < 0x100,
    ensures
        #[trigger] low8(x) == x,
{
    reveal(low8);
}

pub broadcast proof fn lemma_low16_small(x: u64)
    requires
        x < 0x1_0000,
    ensures
        #[trigger] low16(x) == x,
{
    reveal(low16);
}

pub broadcast proof fn lemma_low32_small(x: u64)
    requires
        x < 0x1_0000_0000,
    ensures
        #[trigger] low32(x) == x,
{
    reveal(low32);
}

/// What is read back of a register at the width it was written, or wider.
pub broadcast group group_widths {
    lemma_low8_put8,
    lemma_low8_small,
    lemma_low16_small,
    lemma_low32_small,
}

// ---- the state's fields --------------------------------------------------

pub open spec fn field8(st: GbState, at: i32) -> u8 {
    if at == OFF_C {
        st.c
    } else if at == OFF_B {
        st.b
    } else if at == OFF_E {
        st.e
    } else if at == OFF_D {
        st.d
    } else if at == OFF_L {
        st.l
    } else if at == OFF_H {
        st.h
    } else if at == OFF_SP {
        lo8(st.sp)
    } else if at == OFF_SP + 1 {
        hi8(st.sp)
    } else if at == OFF_A {
        st.a
    } else if at == OFF_F {
        st.f
    } else if at == OFF_IME {
        st.ime
    } else if at == OFF_IME_DELAY {
        st.ime_delay
    } else {
        st.exit
    }
}

pub open spec fn has_field8(at: i32) -> bool {
    0 <= at <= OFF_SP + 1 || OFF_A <= at <= OFF_IME_DELAY || at == OFF_EXIT
}

pub open spec fn set_field8(st: GbState, at: i32, v: u8) -> GbState {
    if at == OFF_C {
        GbState { c: v, ..st }
    } else if at == OFF_B {
        GbState { b: v, ..st }
    } else if at == OFF_E {
        GbState { e: v, ..st }
    } else if at == OFF_D {
        GbState { d: v, ..st }
    } else if at == OFF_L {
        GbState { l: v, ..st }
    } else if at == OFF_H {
        GbState { h: v, ..st }
    } else if at == OFF_SP {
        GbState { sp: join(hi8(st.sp), v), ..st }
    } else if at == OFF_SP + 1 {
        GbState { sp: join(v, lo8(st.sp)), ..st }
    } else if at == OFF_A {
        GbState { a: v, ..st }
    } else if at == OFF_F {
        GbState { f: v, ..st }
    } else if at == OFF_IME {
        GbState { ime: v, ..st }
    } else if at == OFF_IME_DELAY {
        GbState { ime_delay: v, ..st }
    } else {
        GbState { exit: v, ..st }
    }
}

pub open spec fn field16(st: GbState, at: i32) -> u16 {
    if at == OFF_BC {
        join(st.b, st.c)
    } else if at == OFF_DE {
        join(st.d, st.e)
    } else if at == OFF_HL {
        join(st.h, st.l)
    } else if at == OFF_SP {
        st.sp
    } else {
        st.pc
    }
}

pub open spec fn has_field16(at: i32) -> bool {
    at == OFF_BC || at == OFF_DE || at == OFF_HL || at == OFF_SP || at == OFF_PC
}

pub open spec fn set_field16(st: GbState, at: i32, v: u16) -> GbState {
    if at == OFF_BC {
        GbState { b: hi8(v), c: lo8(v), ..st }
    } else if at == OFF_DE {
        GbState { d: hi8(v), e: lo8(v), ..st }
    } else if at == OFF_HL {
        GbState { h: hi8(v), l: lo8(v), ..st }
    } else if at == OFF_SP {
        GbState { sp: v, ..st }
    } else {
        GbState { pc: v, ..st }
    }
}

pub open spec fn field32(st: GbState, at: i32) -> u32 {
    if at == OFF_PENDING {
        st.pending
    } else if at == OFF_BANK_GEN {
        st.bank_gen
    } else {
        st.scratch
    }
}

pub open spec fn has_field32(at: i32) -> bool {
    at == OFF_PENDING || at == OFF_BANK_GEN || at == OFF_SCRATCH
}

pub open spec fn set_field32(st: GbState, at: i32, v: u32) -> GbState {
    if at == OFF_PENDING {
        GbState { pending: v, ..st }
    } else if at == OFF_BANK_GEN {
        GbState { bank_gen: v, ..st }
    } else {
        GbState { scratch: v, ..st }
    }
}

// ---- operands ------------------------------------------------------------

impl Machine {
    pub open spec fn reg(self, r: u8) -> u64 {
        if r == RAX {
            self.rax
        } else if r == RCX {
            self.rcx
        } else if r == RDX {
            self.rdx
        } else if r == RSP {
            self.rsp
        } else if r == R8 {
            self.r8
        } else if r == R9 {
            self.r9
        } else if r == R10 {
            self.r10
        } else {
            self.r11
        }
    }

    pub open spec fn set_reg(self, r: u8, v: u64) -> Machine {
        if r == RAX {
            Machine { rax: v, ..self }
        } else if r == RCX {
            Machine { rcx: v, ..self }
        } else if r == RDX {
            Machine { rdx: v, ..self }
        } else if r == RSP {
            Machine { rsp: v, ..self }
        } else if r == R8 {
            Machine { r8: v, ..self }
        } else if r == R9 {
            Machine { r9: v, ..self }
        } else if r == R10 {
            Machine { r10: v, ..self }
        } else {
            Machine { r11: v, ..self }
        }
    }

    pub open spec fn with_state(self, st: GbState) -> Machine {
        Machine { w: World { st, log: self.w.log }, ..self }
    }

    pub open spec fn flags(self, zf: bool, cf: bool) -> Machine {
        Machine { zf, cf, ..self }
    }

    pub open spec fn check(self, good: bool) -> Machine {
        Machine { ok: self.ok && good, ..self }
    }

    pub open spec fn get8(self, rm: Rm) -> u8 {
        match rm {
            Rm::R(r) => low8(self.reg(r)),
            Rm::Mem { disp, .. } => field8(self.w.st, disp),
        }
    }

    pub open spec fn set8(self, rm: Rm, v: u8) -> Machine {
        match rm {
            Rm::R(r) => self.set_reg(r, put8(self.reg(r), v)),
            Rm::Mem { disp, .. } => self.with_state(set_field8(self.w.st, disp, v)),
        }
    }

    pub open spec fn get16(self, rm: Rm) -> u16 {
        match rm {
            Rm::R(r) => low16(self.reg(r)),
            Rm::Mem { disp, .. } => field16(self.w.st, disp),
        }
    }

    pub open spec fn get32(self, rm: Rm) -> u32 {
        match rm {
            Rm::R(r) => low32(self.reg(r)),
            Rm::Mem { disp, .. } => field32(self.w.st, disp),
        }
    }

    /// Writing the low half of a register clears the rest.
    pub open spec fn set32(self, rm: Rm, v: u32) -> Machine {
        match rm {
            Rm::R(r) => self.set_reg(r, v as u64),
            Rm::Mem { disp, .. } => self.with_state(set_field32(self.w.st, disp, v)),
        }
    }
}

/// A general register translated code may name. RBP is pinned and RBX unused.
pub open spec fn usable(r: u8) -> bool {
    r <= RDX || r == RSP || (R8 <= r <= R11)
}

/// An operand of the given width that is a usable register or a field of the
/// state.
pub open spec fn operand(rm: Rm, size: u8) -> bool {
    match rm {
        Rm::R(r) => usable(r),
        Rm::Mem { base, disp } => base == RBP && (if size == 1 {
            has_field8(disp)
        } else if size == 2 {
            has_field16(disp)
        } else {
            has_field32(disp)
        }),
    }
}

// ---- arithmetic ----------------------------------------------------------

pub open spec fn alu8(op: Alu, x: u8, y: u8) -> u8 {
    match op {
        Alu::Add => ((x + y) % 0x100) as u8,
        Alu::Or => x | y,
        Alu::And => x & y,
        Alu::Sub => ((x - y) % 0x100) as u8,
        Alu::Xor => x ^ y,
        _ => x,
    }
}

pub open spec fn alu32(op: Alu, x: u32, y: u32) -> u32 {
    match op {
        Alu::Add => ((x + y) % 0x1_0000_0000) as u32,
        Alu::Or => x | y,
        Alu::And => x & y,
        Alu::Sub => ((x - y) % 0x1_0000_0000) as u32,
        Alu::Xor => x ^ y,
        _ => x,
    }
}

/// ZF after an operation on `x` and `y` with the given result.
pub open spec fn zero_after(op: Alu, x: int, y: int, result: int) -> bool {
    if op == Alu::Cmp {
        x == y
    } else {
        result == 0
    }
}

/// CF after an operation on `x` and `y` of a width with `size` values.
pub open spec fn carry_after(op: Alu, x: int, y: int, size: int) -> bool {
    match op {
        Alu::Add => x + y >= size,
        Alu::Sub | Alu::Cmp => x < y,
        _ => false,
    }
}

/// The operations that take no carry in.
pub open spec fn plain_alu(op: Alu) -> bool {
    op != Alu::Adc && op != Alu::Sbb
}

pub open spec fn shift8(kind: Shift, x: u8, n: u8) -> u8 {
    match kind {
        Shift::Rol => ((x as u32) << (n as u32) | (x as u32) >> ((8 - n) as u32)) as u8,
        Shift::Ror => ((x as u32) >> (n as u32) | (x as u32) << ((8 - n) as u32)) as u8,
        Shift::Shl => x << n,
        Shift::Shr => x >> n,
        Shift::Sar => (((x as i8) >> (n as i8)) as u8),
    }
}

pub open spec fn shift32(kind: Shift, x: u32, n: u8) -> u32 {
    match kind {
        Shift::Shl => x << n,
        _ => x >> n,
    }
}

pub open spec fn holds(cc: Cc, m: Machine) -> bool {
    match cc {
        Cc::B => m.cf,
        Cc::Ae => !m.cf,
        Cc::E => m.zf,
        Cc::Ne => !m.zf,
        Cc::Be => m.cf || m.zf,
        Cc::A => !(m.cf || m.zf),
        // The sign flag is not modelled.
        _ => arbitrary(),
    }
}

/// Whether the model knows the sign-free condition `cc`.
pub open spec fn known_cc(cc: Cc) -> bool {
    cc != Cc::S && cc != Cc::Ns
}

// ---- the jump cache in host memory ---------------------------------------

/// Distance of the operand from the start of the jump cache.
pub open spec fn table_offset(hw: Hardware, m: Machine, rm: Rm) -> int {
    match rm {
        Rm::Mem { base, disp } => m.reg(base) + disp - hw.table_at,
        _ => -1,
    }
}

pub open spec fn in_table(hw: Hardware, m: Machine, rm: Rm) -> bool {
    let at = table_offset(hw, m, rm);
    &&& rm matches Rm::Mem { base, .. } && usable(base)
    &&& 0 <= at < 16 * JUMP_CACHE_SLOTS
    &&& (hw.table)(m.w.log).len() == JUMP_CACHE_SLOTS
}

/// The 32-bit field of the jump cache that an operand names.
pub open spec fn table32(hw: Hardware, m: Machine, rm: Rm) -> u32 {
    let at = table_offset(hw, m, rm);
    let entry = (hw.table)(m.w.log)[at / 16];
    if at % 16 == 0 {
        entry.pc
    } else {
        entry.gen
    }
}

// ---- instructions --------------------------------------------------------

/// The effect of an instruction that does not jump.
#[verifier::opaque]
pub open spec fn step(hw: Hardware, op: Op, m: Machine) -> Machine {
    match op {
        Op::MovStore(rm, reg, size) => if size == 1 {
            m.set8(rm, low8(m.reg(reg))).check(usable(reg) && operand(rm, 1))
        } else if size == 2 {
            m.with_state(
                set_field16(
                    m.w.st,
                    rm->disp,
                    low16(m.reg(reg)),
                ),
            ).check(usable(reg) && rm is Mem && operand(rm, 2))
        } else if size == 4 {
            m.set32(rm, low32(m.reg(reg))).check(usable(reg) && operand(rm, 4))
        } else {
            // The state pointer on its way to a helper. What RCX holds across a
            // call is of no consequence.
            m.check(reg == RBP && rm == Rm::R(RCX) && size == 8)
        },
        Op::MovLoad(reg, rm, size) => if size == 1 {
            m.set_reg(reg, put8(m.reg(reg), m.get8(rm))).check(usable(reg) && operand(rm, 1))
        } else {
            m.set_reg(reg, m.get32(rm) as u64).check(usable(reg) && operand(rm, 4) && size == 4)
        },
        Op::MovImm32(reg, value) => m.set_reg(reg, value as u64).check(usable(reg)),
        Op::MovRmImm(rm, value, size) => if size == 1 {
            m.set8(rm, (value % 0x100) as u8).check(operand(rm, 1))
        } else {
            m.with_state(set_field16(m.w.st, rm->disp, (value % 0x1_0000) as u16)).check(
                size == 2 && rm is Mem && operand(rm, 2),
            )
        },
        Op::Movzx(reg, rm, src) => if src == 1 {
            m.set_reg(reg, m.get8(rm) as u64).check(usable(reg) && operand(rm, 1))
        } else {
            m.set_reg(reg, m.get16(rm) as u64).check(usable(reg) && operand(rm, 2) && src == 2)
        },
        Op::AluStore(op, rm, reg, size) => if size == 1 {
            let x = m.get8(rm);
            let y = low8(m.reg(reg));
            let r = alu8(op, x, y);
            m.set8(rm, r).flags(
                zero_after(op, x as int, y as int, r as int),
                carry_after(op, x as int, y as int, 0x100),
            ).check(plain_alu(op) && op != Alu::Cmp && usable(reg) && operand(rm, 1))
        } else if rm is Mem {
            // Only the jump cache is compared in place.
            let x = table32(hw, m, rm);
            let y = low32(m.reg(reg));
            m.flags(x == y, x < y).check(
                op == Alu::Cmp && usable(reg) && in_table(hw, m, rm) && size == 4 && (table_offset(
                    hw,
                    m,
                    rm,
                ) % 16 == 0 || table_offset(hw, m, rm) % 16 == 4),
            )
        } else {
            let x = m.get32(rm);
            let y = low32(m.reg(reg));
            let r = alu32(op, x, y);
            m.set32(rm, r).flags(
                zero_after(op, x as int, y as int, r as int),
                carry_after(op, x as int, y as int, 0x1_0000_0000),
            ).check(plain_alu(op) && op != Alu::Cmp && usable(reg) && operand(rm, 4) && size == 4)
        },
        Op::AluLoad(op, reg, rm, size) => if size == 8 {
            // The address of the jump cache is the one 64-bit field.
            m.set_reg(reg, ((m.reg(reg) + hw.table_at) % 0x1_0000_0000_0000_0000) as u64).flags(
                arbitrary(),
                arbitrary(),
            ).check(
                op == Alu::Add && usable(reg) && rm == (Rm::Mem { base: RBP, disp: OFF_JUMP_TABLE }),
            )
        } else {
            let x = low32(m.reg(reg));
            let y = m.get32(rm);
            let r = alu32(op, x, y);
            m.set_reg(reg, r as u64).flags(
                zero_after(op, x as int, y as int, r as int),
                carry_after(op, x as int, y as int, 0x1_0000_0000),
            ).check(plain_alu(op) && op != Alu::Cmp && usable(reg) && operand(rm, 4) && size == 4)
        },
        Op::AluImm(op, rm, value, size) => if size == 1 {
            let x = m.get8(rm);
            let y = (value % 0x100) as u8;
            let r = alu8(op, x, y);
            let n = if op == Alu::Cmp {
                m
            } else {
                m.set8(rm, r)
            };
            n.flags(
                zero_after(op, x as int, y as int, r as int),
                carry_after(op, x as int, y as int, 0x100),
            ).check(plain_alu(op) && operand(rm, 1))
        } else if size == 4 {
            let x = m.get32(rm);
            let r = alu32(op, x, value);
            let n = if op == Alu::Cmp {
                m
            } else {
                m.set32(rm, r)
            };
            n.flags(
                zero_after(op, x as int, value as int, r as int),
                carry_after(op, x as int, value as int, 0x1_0000_0000),
            ).check(plain_alu(op) && operand(rm, 4))
        } else {
            // Moving the stack pointer.
            let r = if op == Alu::Sub {
                m.rsp - value
            } else {
                m.rsp + value
            };
            Machine { rsp: r as u64, zf: arbitrary(), cf: arbitrary(), ..m }.check(
                size == 8 && rm == Rm::R(RSP) && (op == Alu::Sub || op == Alu::Add) && value
                    < 0x8000_0000 && 0 <= r < 0x1_0000_0000_0000_0000,
            )
        },
        Op::Inc(rm, size) => if size == 1 {
            let r = ((m.get8(rm) + 1) % 0x100) as u8;
            m.set8(rm, r).flags(r == 0, m.cf).check(operand(rm, 1))
        } else {
            let r = ((m.get16(rm) + 1) % 0x1_0000) as u16;
            m.with_state(set_field16(m.w.st, rm->disp, r)).flags(r == 0, m.cf).check(
                size == 2 && rm is Mem && operand(rm, 2),
            )
        },
        Op::Dec(rm, size) => if size == 1 {
            let r = ((m.get8(rm) - 1) % 0x100) as u8;
            m.set8(rm, r).flags(r == 0, m.cf).check(operand(rm, 1))
        } else {
            let r = ((m.get16(rm) - 1) % 0x1_0000) as u16;
            m.with_state(set_field16(m.w.st, rm->disp, r)).flags(r == 0, m.cf).check(
                size == 2 && rm is Mem && operand(rm, 2),
            )
        },
        Op::Not(rm, size) => m.set8(rm, !m.get8(rm)).check(operand(rm, 1) && size == 1),
        Op::ShiftImm(kind, rm, n, size) => if size == 1 {
            m.set8(rm, shift8(kind, m.get8(rm), n)).flags(arbitrary(), arbitrary()).check(
                operand(rm, 1) && 0 < n < 8,
            )
        } else {
            m.set32(rm, shift32(kind, m.get32(rm), n)).flags(arbitrary(), arbitrary()).check(
                operand(rm, 4) && size == 4 && 0 < n < 32 && (kind == Shift::Shl || kind
                    == Shift::Shr),
            )
        },
        Op::Test(rm, reg, size) => m.flags(m.get8(rm) & low8(m.reg(reg)) == 0, false).check(
            usable(reg) && operand(rm, 1) && size == 1,
        ),
        Op::TestImm(rm, value, size) => m.flags(
            m.get8(rm) & ((value % 0x100) as u8) == 0,
            false,
        ).check(operand(rm, 1) && size == 1),
        Op::Setcc(cc, rm) => m.set8(
            rm,
            if holds(cc, m) {
                1
            } else {
                0
            },
        ).check(operand(rm, 1) && known_cc(cc)),
        Op::CallRm(rm) => call(hw, rm, m),
        _ => m.check(false),
    }
}

/// A call through the helper table. The callee finds the stack aligned, with
/// room for its shadow space, and may leave anything in the registers it does
/// not have to preserve.
#[verifier::opaque]
pub open spec fn call(hw: Hardware, rm: Rm, m: Machine) -> Machine {
    let slot = rm->disp;
    let addr = low16(m.rdx);
    let w = if slot == OFF_READ8 {
        m.w.read(addr)
    } else if slot == OFF_WRITE8 {
        m.w.write(hw, addr, low8(m.r8))
    } else if slot == OFF_SYNC {
        m.w.sync(hw)
    } else if slot == OFF_HALT {
        m.w.halt()
    } else {
        m.w.stop(hw)
    };
    let left = (hw.leftover)(w.log);
    let rax = if slot == OFF_READ8 {
        put8(left.rax, m.w.read_value(hw, addr))
    } else {
        left.rax
    };
    Machine {
        w,
        rax,
        rcx: left.rcx,
        rdx: left.rdx,
        rsp: m.rsp,
        r8: left.r8,
        r9: left.r9,
        r10: left.r10,
        r11: left.r11,
        zf: left.zf,
        cf: left.cf,
        ok: m.ok,
    }.check(
        m.rsp % 16 == 0 && (rm matches Rm::Mem { base, .. } && base == RBP) && (slot == OFF_READ8
            || slot == OFF_WRITE8 || slot == OFF_SYNC || slot == OFF_HALT || slot == OFF_STOP),
    )
}

// ---- the forms one by one ------------------------------------------------

pub broadcast proof fn lemma_store8(hw: Hardware, m: Machine, rm: Rm, reg: u8, size: u8)
    requires
        size == 1,
    ensures
        #[trigger] step(hw, Op::MovStore(rm, reg, size), m) == m.set8(rm, low8(m.reg(reg))).check(usable(reg) && operand(rm, 1)),
{
    reveal(step);
}

pub broadcast proof fn lemma_store16(hw: Hardware, m: Machine, base: u8, disp: i32, reg: u8, size: u8)
    requires
        size == 2,
    ensures
        #[trigger] step(hw, Op::MovStore(Rm::Mem { base, disp }, reg, size), m) == m.with_state(set_field16(m.w.st, disp, low16(m.reg(reg)))).check(
            usable(reg) && base == RBP && has_field16(disp),
        ),
{
    reveal(step);
}

pub broadcast proof fn lemma_store32(hw: Hardware, m: Machine, rm: Rm, reg: u8, size: u8)
    requires
        size == 4,
    ensures
        #[trigger] step(hw, Op::MovStore(rm, reg, size), m) == m.set32(rm, low32(m.reg(reg))).check(usable(reg) && operand(rm, 4)),
{
    reveal(step);
}

pub broadcast proof fn lemma_pass_state(hw: Hardware, m: Machine, size: u8)
    requires
        size == 8,
    ensures
        #[trigger] step(hw, Op::MovStore(Rm::R(RCX), RBP, size), m) == m,
{
    reveal(step);
}

pub broadcast proof fn lemma_load8(hw: Hardware, m: Machine, rm: Rm, reg: u8, size: u8)
    requires
        size == 1,
    ensures
        #[trigger] step(hw, Op::MovLoad(reg, rm, size), m) == m.set_reg(reg, put8(m.reg(reg), m.get8(rm))).check(usable(reg) && operand(rm, 1)),
{
    reveal(step);
}

pub broadcast proof fn lemma_load32(hw: Hardware, m: Machine, rm: Rm, reg: u8, size: u8)
    requires
        size == 4,
    ensures
        #[trigger] step(hw, Op::MovLoad(reg, rm, size), m) == m.set_reg(reg, m.get32(rm) as u64).check(usable(reg) && operand(rm, 4)),
{
    reveal(step);
}

pub broadcast proof fn lemma_imm32(hw: Hardware, m: Machine, reg: u8, value: u32)
    ensures
        #[trigger] step(hw, Op::MovImm32(reg, value), m) == m.set_reg(reg, value as u64).check(usable(reg)),
{
    reveal(step);
}

pub broadcast proof fn lemma_put_imm8(hw: Hardware, m: Machine, rm: Rm, value: u32, size: u8)
    requires
        size == 1,
    ensures
        #[trigger] step(hw, Op::MovRmImm(rm, value, size), m) == m.set8(rm, (value % 0x100) as u8).check(operand(rm, 1)),
{
    reveal(step);
}

pub broadcast proof fn lemma_put_imm16(hw: Hardware, m: Machine, base: u8, disp: i32, value: u32, size: u8)
    requires
        size == 2,
    ensures
        #[trigger] step(hw, Op::MovRmImm(Rm::Mem { base, disp }, value, size), m) == m.with_state(set_field16(m.w.st, disp, (value % 0x1_0000) as u16)).check(
            base == RBP && has_field16(disp),
        ),
{
    reveal(step);
}

pub broadcast proof fn lemma_movzx8(hw: Hardware, m: Machine, rm: Rm, reg: u8, size: u8)
    requires
        size == 1,
    ensures
        #[trigger] step(hw, Op::Movzx(reg, rm, size), m) == m.set_reg(reg, m.get8(rm) as u64).check(usable(reg) && operand(rm, 1)),
{
    reveal(step);
}

pub broadcast proof fn lemma_movzx16(hw: Hardware, m: Machine, rm: Rm, reg: u8, size: u8)
    requires
        size == 2,
    ensures
        #[trigger] step(hw, Op::Movzx(reg, rm, size), m) == m.set_reg(reg, m.get16(rm) as u64).check(usable(reg) && operand(rm, 2)),
{
    reveal(step);
}

pub broadcast proof fn lemma_alu8(hw: Hardware, m: Machine, op: Alu, rm: Rm, reg: u8, size: u8)
    requires
        size == 1,
    ensures
        #[trigger] step(hw, Op::AluStore(op, rm, reg, size), m) == {
            let x = m.get8(rm);
            let y = low8(m.reg(reg));
            let r = alu8(op, x, y);
            m.set8(rm, r).flags(
                zero_after(op, x as int, y as int, r as int),
                carry_after(op, x as int, y as int, 0x100),
            ).check(plain_alu(op) && op != Alu::Cmp && usable(reg) && operand(rm, 1))
        },
{
    reveal(step);
}

pub broadcast proof fn lemma_alu32(hw: Hardware, m: Machine, op: Alu, dst: u8, reg: u8, size: u8)
    requires
        size == 4,
    ensures
        #[trigger] step(hw, Op::AluStore(op, Rm::R(dst), reg, size), m) == {
            let x = low32(m.reg(dst));
            let y = low32(m.reg(reg));
            let r = alu32(op, x, y);
            m.set_reg(dst, r as u64).flags(
                zero_after(op, x as int, y as int, r as int),
                carry_after(op, x as int, y as int, 0x1_0000_0000),
            ).check(plain_alu(op) && op != Alu::Cmp && usable(reg) && usable(dst))
        },
{
    reveal(step);
}

pub broadcast proof fn lemma_alu_load32(hw: Hardware, m: Machine, op: Alu, rm: Rm, reg: u8, size: u8)
    requires
        size == 4,
    ensures
        #[trigger] step(hw, Op::AluLoad(op, reg, rm, size), m) == {
            let x = low32(m.reg(reg));
            let y = m.get32(rm);
            let r = alu32(op, x, y);
            m.set_reg(reg, r as u64).flags(
                zero_after(op, x as int, y as int, r as int),
                carry_after(op, x as int, y as int, 0x1_0000_0000),
            ).check(plain_alu(op) && op != Alu::Cmp && usable(reg) && operand(rm, 4))
        },
{
    reveal(step);
}

pub broadcast proof fn lemma_alu_imm8(hw: Hardware, m: Machine, op: Alu, rm: Rm, value: u32, size: u8)
    requires
        size == 1,
    ensures
        #[trigger] step(hw, Op::AluImm(op, rm, value, size), m) == {
            let x = m.get8(rm);
            let y = (value % 0x100) as u8;
            let r = alu8(op, x, y);
            let n = if op == Alu::Cmp {
                m
            } else {
                m.set8(rm, r)
            };
            n.flags(
                zero_after(op, x as int, y as int, r as int),
                carry_after(op, x as int, y as int, 0x100),
            ).check(plain_alu(op) && operand(rm, 1))
        },
{
    reveal(step);
}

pub broadcast proof fn lemma_alu_imm32(hw: Hardware, m: Machine, op: Alu, rm: Rm, value: u32, size: u8)
    requires
        size == 4,
    ensures
        #[trigger] step(hw, Op::AluImm(op, rm, value, size), m) == {
            let x = m.get32(rm);
            let r = alu32(op, x, value);
            let n = if op == Alu::Cmp {
                m
            } else {
                m.set32(rm, r)
            };
            n.flags(
                zero_after(op, x as int, value as int, r as int),
                carry_after(op, x as int, value as int, 0x1_0000_0000),
            ).check(plain_alu(op) && operand(rm, 4))
        },
{
    reveal(step);
}

pub broadcast proof fn lemma_inc8(hw: Hardware, m: Machine, rm: Rm, size: u8)
    requires
        size == 1,
    ensures
        #[trigger] step(hw, Op::Inc(rm, size), m) == {
            let r = ((m.get8(rm) + 1) % 0x100) as u8;
            m.set8(rm, r).flags(r == 0, m.cf).check(operand(rm, 1))
        },
{
    reveal(step);
}

pub broadcast proof fn lemma_dec8(hw: Hardware, m: Machine, rm: Rm, size: u8)
    requires
        size == 1,
    ensures
        #[trigger] step(hw, Op::Dec(rm, size), m) == {
            let r = ((m.get8(rm) - 1) % 0x100) as u8;
            m.set8(rm, r).flags(r == 0, m.cf).check(operand(rm, 1))
        },
{
    reveal(step);
}

pub broadcast proof fn lemma_inc16(hw: Hardware, m: Machine, base: u8, disp: i32, size: u8)
    requires
        size == 2,
    ensures
        #[trigger] step(hw, Op::Inc(Rm::Mem { base, disp }, size), m) == {
            let r = ((field16(m.w.st, disp) + 1) % 0x1_0000) as u16;
            m.with_state(set_field16(m.w.st, disp, r)).flags(r == 0, m.cf).check(
                base == RBP && has_field16(disp),
            )
        },
{
    reveal(step);
}

pub broadcast proof fn lemma_dec16(hw: Hardware, m: Machine, base: u8, disp: i32, size: u8)
    requires
        size == 2,
    ensures
        #[trigger] step(hw, Op::Dec(Rm::Mem { base, disp }, size), m) == {
            let r = ((field16(m.w.st, disp) - 1) % 0x1_0000) as u16;
            m.with_state(set_field16(m.w.st, disp, r)).flags(r == 0, m.cf).check(
                base == RBP && has_field16(disp),
            )
        },
{
    reveal(step);
}

pub broadcast proof fn lemma_not8(hw: Hardware, m: Machine, rm: Rm, size: u8)
    requires
        size == 1,
    ensures
        #[trigger] step(hw, Op::Not(rm, size), m) == m.set8(rm, !m.get8(rm)).check(operand(rm, 1)),
{
    reveal(step);
}

pub broadcast proof fn lemma_shift8(hw: Hardware, m: Machine, kind: Shift, rm: Rm, n: u8, size: u8)
    requires
        size == 1,
    ensures
        #[trigger] step(hw, Op::ShiftImm(kind, rm, n, size), m) == m.set8(rm, shift8(kind, m.get8(rm), n)).flags(arbitrary(), arbitrary()).check(
            operand(rm, 1) && 0 < n < 8,
        ),
{
    reveal(step);
}

pub broadcast proof fn lemma_shift32(hw: Hardware, m: Machine, kind: Shift, rm: Rm, n: u8, size: u8)
    requires
        size == 4,
    ensures
        #[trigger] step(hw, Op::ShiftImm(kind, rm, n, size), m) == m.set32(rm, shift32(kind, m.get32(rm), n)).flags(arbitrary(), arbitrary()).check(
            operand(rm, 4) && 0 < n < 32 && (kind == Shift::Shl || kind == Shift::Shr),
        ),
{
    reveal(step);
}

pub broadcast proof fn lemma_test8(hw: Hardware, m: Machine, rm: Rm, reg: u8, size: u8)
    requires
        size == 1,
    ensures
        #[trigger] step(hw, Op::Test(rm, reg, size), m) == m.flags(m.get8(rm) & low8(m.reg(reg)) == 0, false).check(usable(reg) && operand(rm, 1)),
{
    reveal(step);
}

pub broadcast proof fn lemma_test_imm8(hw: Hardware, m: Machine, rm: Rm, value: u32, size: u8)
    requires
        size == 1,
    ensures
        #[trigger] step(hw, Op::TestImm(rm, value, size), m) == m.flags(m.get8(rm) & ((value % 0x100) as u8) == 0, false).check(operand(rm, 1)),
{
    reveal(step);
}

pub broadcast proof fn lemma_setcc(hw: Hardware, m: Machine, cc: Cc, rm: Rm)
    ensures
        #[trigger] step(hw, Op::Setcc(cc, rm), m) == m.set8(
            rm,
            if holds(cc, m) {
                1
            } else {
                0
            },
        ).check(operand(rm, 1) && known_cc(cc)),
{
    reveal(step);
}

pub broadcast proof fn lemma_move_stack(hw: Hardware, m: Machine, op: Alu, value: u32, size: u8)
    requires
        size == 8,
        op == Alu::Sub || op == Alu::Add,
    ensures
        #[trigger] step(hw, Op::AluImm(op, Rm::R(RSP), value, size), m) == ({
            let r = if op == Alu::Sub {
                m.rsp - value
            } else {
                m.rsp + value
            };
            Machine { rsp: r as u64, zf: arbitrary(), cf: arbitrary(), ..m }.check(
                value < 0x8000_0000 && 0 <= r < 0x1_0000_0000_0000_0000,
            )
        }),
{
    reveal(step);
}

pub broadcast proof fn lemma_call(hw: Hardware, m: Machine, rm: Rm)
    ensures
        #[trigger] step(hw, Op::CallRm(rm), m) == call(hw, rm, m),
{
    reveal(step);
}

/// Adding the address of the jump cache.
pub broadcast proof fn lemma_table_base(hw: Hardware, m: Machine, reg: u8, size: u8)
    requires
        size == 8,
    ensures
        #[trigger] step(
            hw,
            Op::AluLoad(Alu::Add, reg, Rm::Mem { base: RBP, disp: OFF_JUMP_TABLE }, size),
            m,
        ) == m.set_reg(
            reg,
            ((m.reg(reg) + hw.table_at) % 0x1_0000_0000_0000_0000) as u64,
        ).flags(arbitrary(), arbitrary()).check(usable(reg)),
{
    reveal(step);
}

/// Comparing a field of the jump cache with a register.
pub broadcast proof fn lemma_table_compare(
    hw: Hardware,
    m: Machine,
    base: u8,
    disp: i32,
    reg: u8,
    size: u8,
)
    requires
        size == 4,
    ensures
        #[trigger] step(hw, Op::AluStore(Alu::Cmp, Rm::Mem { base, disp }, reg, size), m) == ({
            let rm = Rm::Mem { base, disp };
            let x = table32(hw, m, rm);
            let y = low32(m.reg(reg));
            m.flags(x == y, x < y).check(
                usable(reg) && in_table(hw, m, rm) && (table_offset(hw, m, rm) % 16 == 0
                    || table_offset(hw, m, rm) % 16 == 4),
            )
        }),
{
    reveal(step);
}

/// The effect of each form that works on registers and the state.
pub broadcast group group_steps {
    lemma_store8,
    lemma_store16,
    lemma_store32,
    lemma_pass_state,
    lemma_load8,
    lemma_load32,
    lemma_imm32,
    lemma_put_imm8,
    lemma_put_imm16,
    lemma_movzx8,
    lemma_movzx16,
    lemma_alu8,
    lemma_alu32,
    lemma_alu_load32,
    lemma_alu_imm8,
    lemma_alu_imm32,
    lemma_inc8,
    lemma_dec8,
    lemma_inc16,
    lemma_dec16,
    lemma_not8,
    lemma_shift8,
    lemma_shift32,
    lemma_test8,
    lemma_test_imm8,
    lemma_setcc,
    lemma_move_stack,
    lemma_call,
    lemma_table_base,
    lemma_table_compare,
}

/// How a program ends.
pub enum Outcome {
    /// Ran past its last instruction.
    Fell(Machine),
    /// Returned to the host.
    Left(Machine),
    /// Jumped to an address read from memory.
    Jumped(Machine, u64),
    /// Jumped by a fixed distance to somewhere outside the program, given from
    /// its end.
    Away(Machine, int),
}

/// The instruction `dist` bytes after the start of instruction `i`, if one
/// starts there; the end of the program counts.
pub open spec fn land(ops: Seq<Op>, i: int, dist: int) -> Option<int>
    decreases ops.len() - i,
{
    if dist == 0 {
        Some(i)
    } else if i < 0 || i >= ops.len() || dist < 0 {
        None
    } else {
        land(ops, i + 1, dist - ops[i].encode().len())
    }
}

/// The signed number a 32-bit displacement stands for.
pub open spec fn signed32(x: u32) -> int {
    if x < 0x8000_0000 {
        x as int
    } else {
        x - 0x1_0000_0000
    }
}

/// Run a program from instruction `i` on.
pub open spec fn run(hw: Hardware, ops: Seq<Op>, i: int, m: Machine) -> Outcome
    decreases ops.len() - i, 1nat,
{
    if i < 0 || i >= ops.len() {
        Outcome::Fell(m)
    } else {
        match ops[i] {
            Op::Ret => Outcome::Left(m),
            Op::JmpRm(rm) => Outcome::Jumped(
                m.check(in_table(hw, m, rm) && table_offset(hw, m, rm) % 16 == 8),
                (hw.table)(m.w.log)[table_offset(hw, m, rm) / 16].target,
            ),
            Op::Jmp(rel) => jump(hw, ops, i + 1, rel, m),
            Op::Jcc(cc, rel) => {
                let n = m.check(known_cc(cc));
                if holds(cc, m) {
                    jump(hw, ops, i + 1, rel, n)
                } else {
                    run(hw, ops, i + 1, n)
                }
            },
            op => run(hw, ops, i + 1, step(hw, op, m)),
        }
    }
}

/// Go on `rel` bytes after the start of instruction `i`.
pub open spec fn jump(hw: Hardware, ops: Seq<Op>, i: int, rel: u32, m: Machine) -> Outcome
    decreases ops.len() - i, 2nat,
{
    match land(ops, i, rel as int) {
        Some(j) if i <= j <= ops.len() => run(hw, ops, j, m),
        _ => Outcome::Away(m, signed32(rel) - x64::encode_all(ops.skip(i)).len()),
    }
}

} // verus!
