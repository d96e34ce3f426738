//! The SM83 instruction set: what each instruction does to the registers, and
//! when it touches memory.
//!
//! Fetching costs four cycles a byte and every memory access four more; what an
//! instruction spends on top of that is charged explicitly. Cycles are charged
//! to `pending` and handed to the hardware with the next access, so the order of
//! accesses and the number of cycles between them are part of the meaning.

use vstd::prelude::*;
use crate::recomp::abi::GbState;
use crate::recomp::bus;
use crate::recomp::bus::{Hardware, World};
use crate::recomp::decode;
use crate::recomp::decode::{Flow, Insn};

verus! {

// ---- flags ---------------------------------------------------------------

/// The flag register with the given flags. Its low nibble does not exist.
pub open spec fn flags(z: bool, n: bool, h: bool, c: bool) -> u8 {
    ((if z {
        0x80int
    } else {
        0
    }) + (if n {
        0x40int
    } else {
        0
    }) + (if h {
        0x20int
    } else {
        0
    }) + (if c {
        0x10int
    } else {
        0
    })) as u8
}

pub open spec fn zero_flag(f: u8) -> bool {
    f >= 0x80
}

pub open spec fn subtract_flag(f: u8) -> bool {
    f / 0x40 % 2 == 1
}

pub open spec fn half_flag(f: u8) -> bool {
    f / 0x20 % 2 == 1
}

pub open spec fn carry_flag(f: u8) -> bool {
    f / 0x10 % 2 == 1
}

pub open spec fn bit_of(b: bool) -> int {
    if b {
        1
    } else {
        0
    }
}

// ---- registers -----------------------------------------------------------

pub open spec fn pair(hi: u8, lo: u8) -> u16 {
    (256 * hi + lo) as u16
}

/// The register at index `i` of an operand field. Index 6 is memory at `HL`.
pub open spec fn reg8(st: GbState, i: int) -> u8 {
    if i == 0 {
        st.b
    } else if i == 1 {
        st.c
    } else if i == 2 {
        st.d
    } else if i == 3 {
        st.e
    } else if i == 4 {
        st.h
    } else if i == 5 {
        st.l
    } else {
        st.a
    }
}

pub open spec fn set_reg8(st: GbState, i: int, v: u8) -> GbState {
    if i == 0 {
        GbState { b: v, ..st }
    } else if i == 1 {
        GbState { c: v, ..st }
    } else if i == 2 {
        GbState { d: v, ..st }
    } else if i == 3 {
        GbState { e: v, ..st }
    } else if i == 4 {
        GbState { h: v, ..st }
    } else if i == 5 {
        GbState { l: v, ..st }
    } else {
        GbState { a: v, ..st }
    }
}

pub open spec fn hl(st: GbState) -> u16 {
    pair(st.h, st.l)
}

pub open spec fn set_hl(st: GbState, v: u16) -> GbState {
    GbState { h: (v / 256) as u8, l: (v % 256) as u8, ..st }
}

/// The register pair at index `i`: BC, DE, HL, SP.
pub open spec fn reg16(st: GbState, i: int) -> u16 {
    if i == 0 {
        pair(st.b, st.c)
    } else if i == 1 {
        pair(st.d, st.e)
    } else if i == 2 {
        hl(st)
    } else {
        st.sp
    }
}

pub open spec fn set_reg16(st: GbState, i: int, v: u16) -> GbState {
    if i == 0 {
        GbState { b: (v / 256) as u8, c: (v % 256) as u8, ..st }
    } else if i == 1 {
        GbState { d: (v / 256) as u8, e: (v % 256) as u8, ..st }
    } else if i == 2 {
        set_hl(st, v)
    } else {
        GbState { sp: v, ..st }
    }
}

/// Spend cycles that touch no memory.
pub open spec fn spend(w: World, cycles: int) -> World {
    w.with(GbState { pending: bus::wrap32(w.st.pending + cycles), ..w.st })
}

/// The world after fetching operand `i`.
pub open spec fn load(w: World, i: int) -> World {
    if i == 6 {
        w.read(hl(w.st))
    } else {
        w
    }
}

/// Operand `i`.
pub open spec fn loaded(hw: Hardware, w: World, i: int) -> u8 {
    if i == 6 {
        w.read_value(hw, hl(w.st))
    } else {
        reg8(w.st, i)
    }
}

pub open spec fn store(hw: Hardware, w: World, i: int, v: u8) -> World {
    if i == 6 {
        w.write(hw, hl(w.st), v)
    } else {
        w.with(set_reg8(w.st, i, v))
    }
}

// ---- arithmetic ----------------------------------------------------------

/// A with an addend and a carry in: the flags.
pub open spec fn sum_flags(a: u8, v: u8, carry: int) -> u8 {
    flags(
        (a + v + carry) % 256 == 0,
        false,
        a % 16 + v % 16 + carry > 15,
        a + v + carry > 255,
    )
}

/// A less a subtrahend and a borrow in: the flags.
pub open spec fn difference_flags(a: u8, v: u8, borrow: int) -> u8 {
    flags((a - v - borrow) % 256 == 0, true, a % 16 < v % 16 + borrow, a < v + borrow)
}

/// One of ADD, ADC, SUB, SBC, AND, XOR, OR, CP on A and `v`.
pub open spec fn alu(st: GbState, kind: int, v: u8) -> GbState {
    let a = st.a;
    let c = bit_of(carry_flag(st.f));
    if kind == 0 {
        GbState { a: ((a + v) % 256) as u8, f: sum_flags(a, v, 0), ..st }
    } else if kind == 1 {
        GbState { a: ((a + v + c) % 256) as u8, f: sum_flags(a, v, c), ..st }
    } else if kind == 2 {
        GbState { a: ((a - v) % 256) as u8, f: difference_flags(a, v, 0), ..st }
    } else if kind == 3 {
        GbState { a: ((a - v - c) % 256) as u8, f: difference_flags(a, v, c), ..st }
    } else if kind == 4 {
        GbState { a: a & v, f: flags(a & v == 0, false, true, false), ..st }
    } else if kind == 5 {
        GbState { a: a ^ v, f: flags(a ^ v == 0, false, false, false), ..st }
    } else if kind == 6 {
        GbState { a: a | v, f: flags(a | v == 0, false, false, false), ..st }
    } else {
        GbState { f: difference_flags(a, v, 0), ..st }
    }
}

/// RLC, RRC, RL, RR, SLA, SRA, SWAP, SRL: the new byte.
pub open spec fn rotated(kind: int, v: u8, carry: bool) -> u8 {
    (if kind == 0 {
        v * 2 % 256 + v / 128
    } else if kind == 1 {
        v / 2 + 128 * (v % 2)
    } else if kind == 2 {
        v * 2 % 256 + bit_of(carry)
    } else if kind == 3 {
        v / 2 + 128 * bit_of(carry)
    } else if kind == 4 {
        v * 2 % 256
    } else if kind == 5 {
        v / 2 + v / 128 * 128
    } else if kind == 6 {
        v % 16 * 16 + v / 16
    } else {
        (v / 2) as int
    }) as u8
}

/// The bit that falls off the end in a rotate or shift; SWAP loses none.
pub open spec fn carried(kind: int, v: u8) -> bool {
    if kind == 0 || kind == 2 || kind == 4 {
        v >= 128
    } else if kind == 6 {
        false
    } else {
        v % 2 == 1
    }
}

/// Decimal adjust: what A is corrected by, and whether a carry comes out.
pub open spec fn daa_high(st: GbState) -> bool {
    carry_flag(st.f) || (!subtract_flag(st.f) && st.a > 0x99)
}

pub open spec fn daa_low(st: GbState) -> bool {
    half_flag(st.f) || (!subtract_flag(st.f) && st.a % 16 > 9)
}

pub open spec fn daa(st: GbState) -> GbState {
    let adjust = (if daa_high(st) {
        0x60int
    } else {
        0
    }) + (if daa_low(st) {
        0x06int
    } else {
        0
    });
    let a = (if subtract_flag(st.f) {
        (st.a - adjust) % 256
    } else {
        (st.a + adjust) % 256
    }) as u8;
    GbState { a, f: flags(a == 0, subtract_flag(st.f), false, daa_high(st)), ..st }
}

pub open spec fn add_hl(st: GbState, v: u16) -> GbState {
    let x = hl(st);
    GbState {
        f: flags(zero_flag(st.f), false, x % 4096 + v % 4096 > 4095, x + v > 65535),
        ..set_hl(st, decode::wrap16(x + v))
    }
}

/// SP plus a signed byte. The flags come from the low byte alone.
pub open spec fn sp_plus(st: GbState, offset: u8) -> u16 {
    decode::wrap16(st.sp + decode::signed(offset))
}

pub open spec fn sp_plus_flags(st: GbState, offset: u8) -> u8 {
    flags(false, false, st.sp % 16 + offset % 16 > 15, st.sp % 256 + offset > 255)
}

// ---- the stack -----------------------------------------------------------

pub open spec fn push(hw: Hardware, w: World, hi: u8, lo: u8) -> World {
    let w = w.with(GbState { sp: decode::wrap16(w.st.sp - 1), ..w.st });
    let w = w.write(hw, w.st.sp, hi);
    let w = w.with(GbState { sp: decode::wrap16(w.st.sp - 1), ..w.st });
    w.write(hw, w.st.sp, lo)
}

/// The world after reading one byte off the stack.
pub open spec fn pop(w: World) -> World {
    let r = w.read(w.st.sp);
    r.with(GbState { sp: decode::wrap16(r.st.sp + 1), ..r.st })
}

pub open spec fn popped(hw: Hardware, w: World) -> u8 {
    w.read_value(hw, w.st.sp)
}

// ---- instructions --------------------------------------------------------

/// INC or DEC of one operand.
pub open spec fn inc_dec(hw: Hardware, w: World, i: int, decrement: bool) -> World {
    let v = loaded(hw, w, i);
    let w = load(w, i);
    let r = (if decrement {
        (v - 1) % 256
    } else {
        (v + 1) % 256
    }) as u8;
    let half = if decrement {
        v % 16 == 0
    } else {
        v % 16 == 15
    };
    let w = w.with(GbState { f: flags(r == 0, decrement, half, carry_flag(w.st.f)), ..w.st });
    store(hw, w, i, r)
}

/// The instructions behind the `CB` prefix.
pub open spec fn prefixed(hw: Hardware, w: World, cb: u8) -> World {
    let i = cb % 8;
    let bit = cb / 8 % 8;
    let v = loaded(hw, w, i as int);
    let w = load(w, i as int);
    if cb < 0x40 {
        let r = rotated(bit as int, v, carry_flag(w.st.f));
        let w = w.with(
            GbState { f: flags(r == 0, false, false, carried(bit as int, v)), ..w.st },
        );
        store(hw, w, i as int, r)
    } else if cb < 0x80 {
        w.with(
            GbState {
                f: flags(v & (1u8 << bit) == 0, false, true, carry_flag(w.st.f)),
                ..w.st
            },
        )
    } else if cb < 0xc0 {
        store(hw, w, i as int, v & !(1u8 << bit))
    } else {
        store(hw, w, i as int, v | (1u8 << bit))
    }
}

/// Opcodes 0x00 to 0x3F that fall through, after the fetch.
pub open spec fn low_quarter(hw: Hardware, w: World, insn: Insn) -> World {
    let op = insn.opcode;
    let st = w.st;
    let col = op % 8;
    let row = (op / 16) as int;
    let second = op / 8 % 2 == 1;
    if col == 1 {
        if !second {
            w.with(set_reg16(st, row, insn.imm16))
        } else {
            spend(w.with(add_hl(st, reg16(st, row))), 4)
        }
    } else if col == 2 {
        let addr = if row == 3 {
            hl(st)
        } else {
            reg16(st, row)
        };
        let w = if !second {
            w.write(hw, addr, st.a)
        } else {
            let r = w.read(addr);
            r.with(GbState { a: w.read_value(hw, addr), ..r.st })
        };
        if row == 2 {
            w.with(set_hl(w.st, decode::wrap16(hl(w.st) + 1)))
        } else if row == 3 {
            w.with(set_hl(w.st, decode::wrap16(hl(w.st) - 1)))
        } else {
            w
        }
    } else if col == 3 {
        let delta: int = if second {
            -1
        } else {
            1
        };
        spend(w.with(set_reg16(st, row, decode::wrap16(reg16(st, row) + delta))), 4)
    } else if col == 4 {
        inc_dec(hw, w, (op / 8) as int, false)
    } else if col == 5 {
        inc_dec(hw, w, (op / 8) as int, true)
    } else if col == 6 {
        store(hw, w, (op / 8) as int, insn.imm8)
    } else if col == 7 {
        w.with(accumulator(st, op))
    } else if op == 0x08 {
        let w = w.write(hw, insn.imm16, (st.sp % 256) as u8);
        w.write(hw, decode::wrap16(insn.imm16 + 1), (st.sp / 256) as u8)
    } else {
        w
    }
}

/// RLCA, RRCA, RLA, RRA, DAA, CPL, SCF, CCF.
pub open spec fn accumulator(st: GbState, op: u8) -> GbState {
    if op < 0x20 {
        let kind = (op / 8) as int;
        GbState {
            a: rotated(kind, st.a, carry_flag(st.f)),
            f: flags(false, false, false, carried(kind, st.a)),
            ..st
        }
    } else if op == 0x27 {
        daa(st)
    } else if op == 0x2f {
        GbState {
            a: (255 - st.a) as u8,
            f: flags(zero_flag(st.f), true, true, carry_flag(st.f)),
            ..st
        }
    } else if op == 0x37 {
        GbState { f: flags(zero_flag(st.f), false, false, true), ..st }
    } else {
        GbState { f: flags(zero_flag(st.f), false, false, !carry_flag(st.f)), ..st }
    }
}

/// Opcodes 0xC0 to 0xFF that fall through, after the fetch.
pub open spec fn high_quarter(hw: Hardware, w: World, insn: Insn) -> World {
    let op = insn.opcode;
    let st = w.st;
    if op % 8 == 6 {
        w.with(alu(st, (op / 8 % 8) as int, insn.imm8))
    } else if op == 0xc1 || op == 0xd1 || op == 0xe1 || op == 0xf1 {
        let lo = popped(hw, w);
        let w = pop(w);
        let hi = popped(hw, w);
        let w = pop(w);
        w.with(
            if op == 0xf1 {
                GbState { a: hi, f: lo & 0xf0, ..w.st }
            } else {
                set_reg16(w.st, op / 16 - 12, pair(hi, lo))
            },
        )
    } else if op == 0xc5 {
        spend(push(hw, w, st.b, st.c), 4)
    } else if op == 0xd5 {
        spend(push(hw, w, st.d, st.e), 4)
    } else if op == 0xe5 {
        spend(push(hw, w, st.h, st.l), 4)
    } else if op == 0xf5 {
        spend(push(hw, w, st.a, st.f), 4)
    } else if op == 0xe0 {
        w.write(hw, (0xff00 + insn.imm8) as u16, st.a)
    } else if op == 0xe2 {
        w.write(hw, (0xff00 + st.c) as u16, st.a)
    } else if op == 0xea {
        w.write(hw, insn.imm16, st.a)
    } else if op == 0xf0 || op == 0xf2 || op == 0xfa {
        let addr = if op == 0xf0 {
            (0xff00 + insn.imm8) as u16
        } else if op == 0xf2 {
            (0xff00 + st.c) as u16
        } else {
            insn.imm16
        };
        let r = w.read(addr);
        r.with(GbState { a: w.read_value(hw, addr), ..r.st })
    } else if op == 0xe8 {
        spend(
            w.with(GbState { sp: sp_plus(st, insn.imm8), f: sp_plus_flags(st, insn.imm8), ..st }),
            8,
        )
    } else if op == 0xf8 {
        spend(
            w.with(
                GbState {
                    f: sp_plus_flags(st, insn.imm8),
                    ..set_hl(st, sp_plus(st, insn.imm8))
                },
            ),
            4,
        )
    } else if op == 0xf9 {
        spend(w.with(GbState { sp: hl(st), ..st }), 4)
    } else if op == 0xf3 {
        w.with(GbState { ime: 0, ime_delay: 0, ..st })
    } else if op == 0xfb {
        w.with(GbState { ime_delay: 1, ..st })
    } else if op == 0xcb {
        prefixed(hw, w, insn.cb)
    } else {
        w
    }
}

/// An instruction that falls through to the next.
pub open spec fn normal(hw: Hardware, w: World, insn: Insn) -> World {
    let op = insn.opcode;
    let w = spend(w, 4 * insn.len);
    if op < 0x40 {
        low_quarter(hw, w, insn)
    } else if op < 0x80 {
        store(hw, load(w, (op % 8) as int), (op / 8 % 8) as int, loaded(hw, w, (op % 8) as int))
    } else if op < 0xc0 {
        let v = loaded(hw, w, (op % 8) as int);
        let w = load(w, (op % 8) as int);
        w.with(alu(w.st, (op / 8 % 8) as int, v))
    } else {
        high_quarter(hw, w, insn)
    }
}

/// Whether a conditional jump, call or return is taken: NZ, Z, NC, C.
pub open spec fn taken(st: GbState, opcode: u8) -> bool {
    let i = opcode / 8 % 4;
    if i == 0 {
        !zero_flag(st.f)
    } else if i == 1 {
        zero_flag(st.f)
    } else if i == 2 {
        !carry_flag(st.f)
    } else {
        carry_flag(st.f)
    }
}

/// An instruction that moves the program counter, up to the point where the
/// next one would be fetched. `HALT`, `STOP` and the opcodes that do not exist
/// are not among them.
pub open spec fn control(hw: Hardware, w: World, insn: Insn) -> World {
    let next = decode::next_addr(insn);
    let hi = (next / 256) as u8;
    let lo = (next % 256) as u8;
    let w = spend(w, 4 * insn.len);
    match insn.flow {
        Flow::Jump { target, conditional } => if !conditional || taken(w.st, insn.opcode) {
            goto(spend(w, 4), target)
        } else {
            goto(w, next)
        },
        Flow::Call { target, conditional } => if !conditional || taken(w.st, insn.opcode) {
            goto(push(hw, spend(w, 4), hi, lo), target)
        } else {
            goto(w, next)
        },
        Flow::Rst { target } => goto(push(hw, spend(w, 4), hi, lo), target),
        Flow::Ret { conditional, enable_interrupts } => {
            // The condition costs a cycle of its own.
            let w = spend(w, 4);
            if !conditional {
                let r = pop_pc(hw, w);
                if enable_interrupts {
                    r.with(GbState { ime: 1, ime_delay: 0, ..r.st })
                } else {
                    r
                }
            } else if taken(w.st, insn.opcode) {
                pop_pc(hw, spend(w, 4))
            } else {
                goto(w, next)
            }
        },
        Flow::JumpIndirect => goto(w, hl(w.st)),
        _ => goto(w, next),
    }
}

pub open spec fn goto(w: World, pc: u16) -> World {
    w.with(GbState { pc, ..w.st })
}

/// Return to the address on the stack.
pub open spec fn pop_pc(hw: Hardware, w: World) -> World {
    let lo = popped(hw, w);
    let w = pop(w);
    let hi = popped(hw, w);
    goto(pop(w), pair(hi, lo))
}

} // verus!
