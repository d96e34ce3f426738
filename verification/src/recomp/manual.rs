//! The instruction set as a program sees it: what each instruction does, told from the bytes it
//! is made of.
use vstd::prelude::*;
use crate::hw::bits;
use crate::recomp::abi::GbState;
use crate::recomp::bus::{Event, Hardware, World};
use crate::recomp::decode;
use crate::recomp::decode::{Flow, Insn};
use crate::recomp::sm83;

verus! {

/// How many bytes an instruction is long, by its first: three with a word behind it, two
/// with a byte, one for the rest.
pub proof fn law_length(op: u8)
    ensures
        decode::LENGTHS@[op as int] == if op == 0x01 || op == 0x11 || op == 0x21 || op == 0x31 || op
            == 0x08 || op == 0xc2 || op == 0xc3 || op == 0xc4 || op == 0xca || op == 0xcc || op
            == 0xcd || op == 0xd2 || op == 0xd4 || op == 0xda || op == 0xdc || op == 0xea || op
            == 0xfa {
            3int
        } else if op < 0x40 && op % 8 == 6 || op >= 0xc0 && op % 8 == 6 || op == 0x10 || op == 0x18
            || op == 0x20 || op == 0x28 || op == 0x30 || op == 0x38 || op == 0xcb || op == 0xe0 || op
            == 0xe8 || op == 0xf0 || op == 0xf8 {
            2
        } else {
            1
        },
{
    let s = decode::LENGTHS@;
    assert(forall|i: int|
        0 <= i < 256 ==> #[trigger] s[i] == if i == 0x01 || i == 0x11 || i == 0x21 || i == 0x31 || i
            == 0x08 || i == 0xc2 || i == 0xc3 || i == 0xc4 || i == 0xca || i == 0xcc || i == 0xcd
            || i == 0xd2 || i == 0xd4 || i == 0xda || i == 0xdc || i == 0xea || i == 0xfa {
            3int
        } else if i < 0x40 && i % 8 == 6 || i >= 0xc0 && i % 8 == 6 || i == 0x10 || i == 0x18 || i
            == 0x20 || i == 0x28 || i == 0x30 || i == 0x38 || i == 0xcb || i == 0xe0 || i == 0xe8
            || i == 0xf0 || i == 0xf8 {
            2
        } else {
            1
        });
}

/// Where a relative jump leads: from the instruction after it, by its second byte as a
/// signed number.
pub open spec fn jump_relative(mem: spec_fn(u16) -> u8, addr: u16) -> int {
    let b = mem(((addr + 1) % 0x1_0000) as u16);
    (addr + 2 + (if b < 128 {
        b as int
    } else {
        b - 256
    })) % 0x1_0000
}

/// The word behind an instruction's first byte, the low byte first.
pub open spec fn word_behind(mem: spec_fn(u16) -> u8, addr: u16) -> int {
    mem(((addr + 1) % 0x1_0000) as u16) + 256 * mem(((addr + 2) % 0x1_0000) as u16)
}

/// The relative jumps: 18 always, 20 and 28 by bit 7 of F being clear or set, 30 and 38 by
/// bit 4 of F being clear or set. Twelve cycles when they jump, eight when they do not.
#[verifier::rlimit(40)]
pub proof fn law_jump_relative(hw: Hardware, mem: spec_fn(u16) -> u8, addr: u16, w: World)
    requires
        w.st.pending < 1000,
    ensures
        ({
            let op = mem(addr);
            let f = w.st.f;
            let jumps = op == 0x18 || op == 0x20 && f / 128 % 2 == 0 || op == 0x28 && f / 128 % 2
                == 1 || op == 0x30 && f / 16 % 2 == 0 || op == 0x38 && f / 16 % 2 == 1;
            op == 0x18 || op == 0x20 || op == 0x28 || op == 0x30 || op == 0x38 ==> {
                let out = sm83::control(hw, w, decode::insn_at(mem, addr));
                &&& jumps ==> out.st.pc == jump_relative(mem, addr) && out.st.pending == w.st.pending + 12
                &&& !jumps ==> out.st.pc == (addr + 2) % 0x1_0000 && out.st.pending == w.st.pending + 8
                &&& out == w.with(GbState { pc: out.st.pc, pending: out.st.pending, ..w.st })
            }
        }),
{
    law_length(mem(addr));
}

/// The absolute jumps: C3 always, C2 and CA by bit 7 of F being clear or set, D2 and DA by
/// bit 4 of F being clear or set, E9 to where HL points. Sixteen cycles when they jump and
/// twelve when they do not; four for E9.
#[verifier::rlimit(40)]
pub proof fn law_jump(hw: Hardware, mem: spec_fn(u16) -> u8, addr: u16, w: World)
    requires
        w.st.pending < 1000,
    ensures
        ({
            let op = mem(addr);
            let f = w.st.f;
            let jumps = op == 0xc3 || op == 0xc2 && f / 128 % 2 == 0 || op == 0xca && f / 128 % 2
                == 1 || op == 0xd2 && f / 16 % 2 == 0 || op == 0xda && f / 16 % 2 == 1;
            let out = sm83::control(hw, w, decode::insn_at(mem, addr));
            &&& op == 0xc3 || op == 0xc2 || op == 0xca || op == 0xd2 || op == 0xda ==> {
                &&& jumps ==> out.st.pc == word_behind(mem, addr) && out.st.pending == w.st.pending + 16
                &&& !jumps ==> out.st.pc == (addr + 3) % 0x1_0000 && out.st.pending == w.st.pending + 12
                &&& out == w.with(GbState { pc: out.st.pc, pending: out.st.pending, ..w.st })
            }
            &&& op == 0xe9 ==> out == w.with(
                GbState { pc: (256 * w.st.h + w.st.l) as u16, pending: (w.st.pending + 4) as u32, ..w.st },
            )
        }),
{
    law_length(mem(addr));
}

/// The calls: CD always, C4 and CC by bit 7 of F being clear or set, D4 and DC by bit 4 of F
/// being clear or set. A call writes the address of the instruction after it below the
/// stack pointer, the high byte above the low one, and leaves the pointer at the low one:
/// 24 cycles. Not called, it costs twelve and touches nothing.
#[verifier::rlimit(40)]
pub proof fn law_call(hw: Hardware, mem: spec_fn(u16) -> u8, addr: u16, w: World)
    requires
        w.st.pending == 0,
    ensures
        ({
            let op = mem(addr);
            let f = w.st.f;
            let calls = op == 0xcd || op == 0xc4 && f / 128 % 2 == 0 || op == 0xcc && f / 128 % 2
                == 1 || op == 0xd4 && f / 16 % 2 == 0 || op == 0xdc && f / 16 % 2 == 1;
            let back = (addr + 3) % 0x1_0000;
            op == 0xcd || op == 0xc4 || op == 0xcc || op == 0xd4 || op == 0xdc ==> {
                let out = sm83::control(hw, w, decode::insn_at(mem, addr));
                &&& calls ==> {
                    &&& out.st.pc == word_behind(mem, addr)
                    &&& out.st.sp == (w.st.sp - 2) % 0x1_0000
                    &&& out.st.pending == 0
                    &&& out.log == w.log.push(Event::Tick(20)).push(
                        Event::Write(((w.st.sp - 1) % 0x1_0000) as u16, (back / 256) as u8),
                    ).push(Event::Tick(4)).push(
                        Event::Write(((w.st.sp - 2) % 0x1_0000) as u16, (back % 256) as u8),
                    )
                }
                &&& !calls ==> {
                    &&& out.st.pc == back
                    &&& out.st.sp == w.st.sp
                    &&& out.st.pending == 12
                    &&& out.log == w.log
                }
            }
        }),
{
    law_length(mem(addr));
    lemma_pushed(hw, w.with(GbState { pending: 16, ..w.st }), 0, 0);
    let back = ((addr + 3) % 0x1_0000) as u16;
    lemma_pushed(
        hw,
        w.with(GbState { pending: 16, ..w.st }),
        (back / 256) as u8,
        (back % 256) as u8,
    );
}

/// Two bytes pushed.
proof fn lemma_pushed(hw: Hardware, w: World, hi: u8, lo: u8)
    requires
        w.st.pending < 1000,
    ensures
        ({
            let out = sm83::push(hw, w, hi, lo);
            &&& out.st.sp == (w.st.sp - 2) % 0x1_0000
            &&& out.st.pending == 0
            &&& out.log == w.log.push(Event::Tick((w.st.pending + 4) as u32)).push(
                Event::Write(((w.st.sp - 1) % 0x1_0000) as u16, hi),
            ).push(Event::Tick(4)).push(
                Event::Write(((w.st.sp - 2) % 0x1_0000) as u16, lo),
            )
            &&& out.st == (GbState {
                sp: out.st.sp,
                pending: 0,
                bank_gen: out.st.bank_gen,
                ..w.st
            })
        }),
{
}

/// The restarts: C7, CF and so on to FF call the eight addresses 00, 08 to 38, at the cost
/// of sixteen cycles.
#[verifier::rlimit(40)]
pub proof fn law_restart(hw: Hardware, mem: spec_fn(u16) -> u8, addr: u16, w: World)
    requires
        w.st.pending == 0,
        mem(addr) >= 0xc7,
        mem(addr) % 8 == 7,
    ensures
        ({
            let back = (addr + 1) % 0x1_0000;
            let out = sm83::control(hw, w, decode::insn_at(mem, addr));
            &&& out.st.pc == 8 * (mem(addr) / 8 % 8)
            &&& out.st.sp == (w.st.sp - 2) % 0x1_0000
            &&& out.st.pending == 0
            &&& out.log == w.log.push(Event::Tick(12)).push(
                Event::Write(((w.st.sp - 1) % 0x1_0000) as u16, (back / 256) as u8),
            ).push(Event::Tick(4)).push(
                Event::Write(((w.st.sp - 2) % 0x1_0000) as u16, (back % 256) as u8),
            )
        }),
{
    law_length(mem(addr));
    let back = ((addr + 1) % 0x1_0000) as u16;
    lemma_pushed(
        hw,
        w.with(GbState { pending: 8, ..w.st }),
        (back / 256) as u8,
        (back % 256) as u8,
    );
}

/// The returns: C9 and D9 always, C0 and C8 by bit 7 of F being clear or set, D0 and D8 by
/// bit 4 of F being clear or set. A return reads the address to go to from where the stack
/// pointer points, the low byte first, and leaves the pointer behind it: 16 cycles, or 20
/// with a condition. Not taken, it costs eight. D9 lets interrupts in at once.
#[verifier::rlimit(40)]
pub proof fn law_return(hw: Hardware, mem: spec_fn(u16) -> u8, addr: u16, w: World)
    requires
        w.st.pending == 0,
    ensures
        ({
            let op = mem(addr);
            let f = w.st.f;
            let back = op == 0xc9 || op == 0xd9 || op == 0xc0 && f / 128 % 2 == 0 || op == 0xc8 && f
                / 128 % 2 == 1 || op == 0xd0 && f / 16 % 2 == 0 || op == 0xd8 && f / 16 % 2 == 1;
            let first: u32 = if op == 0xc9 || op == 0xd9 {
                12
            } else {
                16
            };
            op == 0xc9 || op == 0xd9 || op == 0xc0 || op == 0xc8 || op == 0xd0 || op == 0xd8 ==> {
                let out = sm83::control(hw, w, decode::insn_at(mem, addr));
                &&& back ==> {
                    let low = w.log.push(Event::Tick(first));
                    let high = low.push(Event::Read(w.st.sp)).push(Event::Tick(4));
                    let next = ((w.st.sp + 1) % 0x1_0000) as u16;
                    &&& out.st.pc == (hw.byte)(low, w.st.sp) + 256 * (hw.byte)(high, next)
                    &&& out.st.sp == (w.st.sp + 2) % 0x1_0000
                    &&& out.st.pending == 0
                    &&& out.log == high.push(Event::Read(next))
                    &&& op == 0xd9 ==> out.st.ime == 1 && out.st.ime_delay == 0
                    &&& op != 0xd9 ==> out.st.ime == w.st.ime && out.st.ime_delay == w.st.ime_delay
                }
                &&& !back ==> {
                    &&& out.st.pc == (addr + 1) % 0x1_0000
                    &&& out.st.sp == w.st.sp
                    &&& out.st.pending == 8
                    &&& out.log == w.log
                }
            }
        }),
{
    law_length(mem(addr));
    lemma_returned(hw, w.with(GbState { pending: 8, ..w.st }));
    lemma_returned(hw, w.with(GbState { pending: 12, ..w.st }));
}

proof fn lemma_returned(hw: Hardware, w: World)
    requires
        w.st.pending < 1000,
    ensures
        ({
            let out = sm83::pop_pc(hw, w);
            let low = w.log.push(Event::Tick((w.st.pending + 4) as u32));
            let high = low.push(Event::Read(w.st.sp)).push(Event::Tick(4));
            let next = ((w.st.sp + 1) % 0x1_0000) as u16;
            &&& out.st.pc == (hw.byte)(low, w.st.sp) + 256 * (hw.byte)(high, next)
            &&& out.st.sp == (w.st.sp + 2) % 0x1_0000
            &&& out.st.pending == 0
            &&& out.log == high.push(Event::Read(next))
            &&& out.st.ime == w.st.ime
            &&& out.st.ime_delay == w.st.ime_delay
        }),
{
}

/// Which instructions can leave the straight line, and which end a program: all others go
/// on to the next.
#[verifier::rlimit(40)]
pub proof fn law_flow(mem: spec_fn(u16) -> u8, addr: u16)
    ensures
        ({
            let op = mem(addr);
            let flow = decode::insn_at(mem, addr).flow;
            &&& flow is Jump <==> op == 0x18 || op == 0x20 || op == 0x28 || op == 0x30 || op == 0x38
                || op == 0xc3 || op == 0xc2 || op == 0xca || op == 0xd2 || op == 0xda
            &&& flow is Call <==> op == 0xcd || op == 0xc4 || op == 0xcc || op == 0xd4 || op == 0xdc
            &&& flow is Rst <==> op >= 0xc7 && op % 8 == 7
            &&& flow is Ret <==> op == 0xc9 || op == 0xd9 || op == 0xc0 || op == 0xc8 || op == 0xd0
                || op == 0xd8
            &&& flow is JumpIndirect <==> op == 0xe9
            &&& flow is Halt <==> op == 0x76
            &&& flow is Stop <==> op == 0x10
            &&& flow is Illegal <==> op == 0xd3 || op == 0xdb || op == 0xdd || op == 0xe3 || op
                == 0xe4 || op == 0xeb || op == 0xec || op == 0xed || op == 0xf4 || op == 0xfc || op
                == 0xfd
            &&& decode::insn_at(mem, addr).opcode == op
            &&& decode::next_addr(decode::insn_at(mem, addr)) == (addr
                + decode::LENGTHS@[op as int]) % 0x1_0000
        }),
{
}

/// A comparison with `v` sets bit 7 of F exactly when A equals it and bit 4 exactly when A is
/// less, and changes nothing else of a program's but the time; so after it 38 and the other
/// carry forms go when A < v, and 28 and the other zero forms when A == v.
pub proof fn law_compare(
    hw: Hardware,
    mem: spec_fn(u16) -> u8,
    addr: u16,
    w: World,
    branch: u16,
)
    requires
        mem(addr) == 0xfe,
        w.st.pending == 0,
    ensures
        ({
            let v = mem(((addr + 1) % 0x1_0000) as u16);
            let done = sm83::normal(hw, w, decode::insn_at(mem, addr));
            let f = done.st.f;
            let out = sm83::control(hw, done, decode::insn_at(mem, branch));
            &&& f / 128 % 2 == 1 <==> w.st.a == v
            &&& f / 64 % 2 == 1
            &&& f / 32 % 2 == 1 <==> w.st.a % 16 < v % 16
            &&& f / 16 % 2 == 1 <==> w.st.a < v
            &&& f % 16 == 0
            &&& done == w.with(GbState { f, pending: 8, ..w.st })
            &&& mem(branch) == 0x38 ==> out.st.pc == if w.st.a < v {
                jump_relative(mem, branch)
            } else {
                (branch + 2) % 0x1_0000
            }
            &&& mem(branch) == 0x30 ==> out.st.pc == if w.st.a >= v {
                jump_relative(mem, branch)
            } else {
                (branch + 2) % 0x1_0000
            }
            &&& mem(branch) == 0x28 ==> out.st.pc == if w.st.a == v {
                jump_relative(mem, branch)
            } else {
                (branch + 2) % 0x1_0000
            }
            &&& mem(branch) == 0x20 ==> out.st.pc == if w.st.a != v {
                jump_relative(mem, branch)
            } else {
                (branch + 2) % 0x1_0000
            }
        }),
{
    lemma_compared(hw, mem, addr, w);
    law_jump_relative(hw, mem, branch, sm83::normal(hw, w, decode::insn_at(mem, addr)));
}

#[verifier::rlimit(40)]
proof fn lemma_compared(hw: Hardware, mem: spec_fn(u16) -> u8, addr: u16, w: World)
    requires
        mem(addr) == 0xfe,
        w.st.pending == 0,
    ensures
        ({
            let v = mem(((addr + 1) % 0x1_0000) as u16);
            let done = sm83::normal(hw, w, decode::insn_at(mem, addr));
            let f = done.st.f;
            &&& f / 128 % 2 == 1 <==> w.st.a == v
            &&& f / 64 % 2 == 1
            &&& f / 32 % 2 == 1 <==> w.st.a % 16 < v % 16
            &&& f / 16 % 2 == 1 <==> w.st.a < v
            &&& f % 16 == 0
            &&& done == w.with(GbState { f, pending: 8, ..w.st })
        }),
{
    law_length(mem(addr));
    let v = mem(((addr + 1) % 0x1_0000) as u16);
    lemma_flags(
        (w.st.a - v) % 256 == 0,
        true,
        w.st.a % 16 < v % 16,
        w.st.a < v,
    );
}

/// A register by the number that instructions give it: B, C, D, E, H, L, and A for 7.
pub open spec fn register(st: GbState, i: int) -> u8 {
    if i == 0 {
        st.b
    } else if i == 1 {
        st.c
    } else if i == 2 {
        st.d
    } else if i == 3 {
        st.e
    } else if i == 4 {
        st.h
    } else if i == 5 {
        st.l
    } else {
        st.a
    }
}

/// The loads from register to register, 40 to 7F: the number of the one that is set stands
/// in bits 3 to 5 and that of the one that is read in bits 0 to 2; every other register
/// keeps what it holds, and the flags too.
#[verifier::rlimit(40)]
pub proof fn law_load(hw: Hardware, mem: spec_fn(u16) -> u8, addr: u16, w: World, i: int)
    requires
        w.st.pending == 0,
        0x40 <= mem(addr) < 0x80,
        mem(addr) % 8 != 6,
        mem(addr) / 8 % 8 != 6,
        0 <= i < 8,
        i != 6,
    ensures
        ({
            let out = sm83::normal(hw, w, decode::insn_at(mem, addr));
            &&& register(out.st, i) == if i == mem(addr) as int / 8 % 8 {
                register(w.st, mem(addr) as int % 8)
            } else {
                register(w.st, i)
            }
            &&& out.st.f == w.st.f
            &&& out.st.sp == w.st.sp
            &&& out.st.pending == 4
            &&& out.log == w.log
        }),
{
    law_length(mem(addr));
}

/// The loads of a byte behind the instruction, 06, 0E and so on to 3E.
pub proof fn law_load_byte(hw: Hardware, mem: spec_fn(u16) -> u8, addr: u16, w: World, i: int)
    requires
        w.st.pending == 0,
        mem(addr) < 0x40,
        mem(addr) % 8 == 6,
        mem(addr) != 0x36,
        0 <= i < 8,
        i != 6,
    ensures
        ({
            let out = sm83::normal(hw, w, decode::insn_at(mem, addr));
            &&& register(out.st, i) == if i == mem(addr) as int / 8 {
                mem(((addr + 1) % 0x1_0000) as u16)
            } else {
                register(w.st, i)
            }
            &&& out.st.f == w.st.f
            &&& out.st.pending == 8
            &&& out.log == w.log
        }),
{
    law_length(mem(addr));
}

/// The stores and loads of A through a register pair: 02 and 12 write it where BC and DE
/// point, 22 and 32 where HL does, which then goes up or down by one; 0A, 1A, 2A and 3A read
/// it from there likewise. Eight cycles each.
#[verifier::rlimit(40)]
pub proof fn law_indirect(hw: Hardware, mem: spec_fn(u16) -> u8, addr: u16, w: World)
    requires
        w.st.pending == 0,
        mem(addr) < 0x40,
        mem(addr) % 8 == 2,
    ensures
        ({
            let op = mem(addr);
            let out = sm83::normal(hw, w, decode::insn_at(mem, addr));
            let hl = 256 * w.st.h + w.st.l;
            let at = (if op < 0x10 {
                256 * w.st.b + w.st.c
            } else if op < 0x20 {
                256 * w.st.d + w.st.e
            } else {
                hl
            }) as u16;
            let told = w.log.push(Event::Tick(8));
            &&& op % 16 == 2 ==> out.log == told.push(Event::Write(at, w.st.a)) && out.st.a == w.st.a
            &&& op % 16 == 10 ==> out.log == told.push(Event::Read(at)) && out.st.a == (hw.byte)(
                told,
                at,
            )
            &&& 256 * out.st.h + out.st.l == if op / 16 == 2 {
                (hl + 1) % 0x1_0000
            } else if op / 16 == 3 {
                (hl - 1) % 0x1_0000
            } else {
                hl
            }
            &&& out.st.pending == 0
            &&& out.st.f == w.st.f
            &&& out.st.b == w.st.b && out.st.c == w.st.c && out.st.d == w.st.d && out.st.e
                == w.st.e
        }),
{
    law_length(mem(addr));
}

/// The loads and stores of A at a fixed place: E0 and F0 at FF00 plus the byte behind them,
/// E2 and F2 at FF00 plus C, EA and FA at the word behind them.
#[verifier::rlimit(40)]
pub proof fn law_direct(hw: Hardware, mem: spec_fn(u16) -> u8, addr: u16, w: World)
    requires
        w.st.pending == 0,
    ensures
        ({
            let op = mem(addr);
            let out = sm83::normal(hw, w, decode::insn_at(mem, addr));
            let at = (if op == 0xe0 || op == 0xf0 {
                0xff00 + mem(((addr + 1) % 0x1_0000) as u16)
            } else if op == 0xe2 || op == 0xf2 {
                0xff00 + w.st.c
            } else {
                word_behind(mem, addr)
            }) as u16;
            let told = w.log.push(
                Event::Tick(
                    if op == 0xe0 || op == 0xf0 {
                        12
                    } else if op == 0xe2 || op == 0xf2 {
                        8
                    } else {
                        16
                    },
                ),
            );
            &&& op == 0xe0 || op == 0xe2 || op == 0xea ==> out.log == told.push(
                Event::Write(at, w.st.a),
            ) && out.st.a == w.st.a && out.st.pending == 0
            &&& op == 0xf0 || op == 0xf2 || op == 0xfa ==> out.log == told.push(Event::Read(at))
                && out.st.a == (hw.byte)(told, at) && out.st.pending == 0
        }),
{
    law_length(mem(addr));
}

/// Pushing a pair: C5, D5, E5 and F5 put BC, DE, HL and AF below the stack pointer, the high
/// byte first, at a cost of sixteen cycles.
#[verifier::rlimit(40)]
pub proof fn law_push(hw: Hardware, mem: spec_fn(u16) -> u8, addr: u16, w: World)
    requires
        w.st.pending == 0,
        mem(addr) == 0xc5 || mem(addr) == 0xd5 || mem(addr) == 0xe5 || mem(addr) == 0xf5,
    ensures
        ({
            let op = mem(addr);
            let out = sm83::normal(hw, w, decode::insn_at(mem, addr));
            let (hi, lo) = if op == 0xc5 {
                (w.st.b, w.st.c)
            } else if op == 0xd5 {
                (w.st.d, w.st.e)
            } else if op == 0xe5 {
                (w.st.h, w.st.l)
            } else {
                (w.st.a, w.st.f)
            };
            &&& out.st.sp == (w.st.sp - 2) % 0x1_0000
            &&& out.st.pending == 4
            &&& out.log == w.log.push(Event::Tick(8)).push(
                Event::Write(((w.st.sp - 1) % 0x1_0000) as u16, hi),
            ).push(Event::Tick(4)).push(Event::Write(((w.st.sp - 2) % 0x1_0000) as u16, lo))
        }),
{
    law_length(mem(addr));
    let started = w.with(GbState { pending: 4, ..w.st });
    lemma_pushed(hw, started, w.st.b, w.st.c);
    lemma_pushed(hw, started, w.st.d, w.st.e);
    lemma_pushed(hw, started, w.st.h, w.st.l);
    lemma_pushed(hw, started, w.st.a, w.st.f);
}

/// Popping a pair: C1, D1, E1 and F1 take BC, DE, HL and AF from where the stack pointer
/// points, the low byte first, in twelve cycles. The low four bits of F stay clear.
#[verifier::rlimit(40)]
pub proof fn law_pop(hw: Hardware, mem: spec_fn(u16) -> u8, addr: u16, w: World)
    requires
        w.st.pending == 0,
        mem(addr) == 0xc1 || mem(addr) == 0xd1 || mem(addr) == 0xe1 || mem(addr) == 0xf1,
    ensures
        ({
            let op = mem(addr);
            let out = sm83::normal(hw, w, decode::insn_at(mem, addr));
            let low = w.log.push(Event::Tick(8));
            let high = low.push(Event::Read(w.st.sp)).push(Event::Tick(4));
            let next = ((w.st.sp + 1) % 0x1_0000) as u16;
            let lo = (hw.byte)(low, w.st.sp);
            let hi = (hw.byte)(high, next);
            &&& out.st.sp == (w.st.sp + 2) % 0x1_0000
            &&& out.st.pending == 0
            &&& out.log == high.push(Event::Read(next))
            &&& op == 0xc1 ==> out.st.b == hi && out.st.c == lo
            &&& op == 0xd1 ==> out.st.d == hi && out.st.e == lo
            &&& op == 0xe1 ==> out.st.h == hi && out.st.l == lo
            &&& op == 0xf1 ==> out.st.a == hi && out.st.f == lo / 16 * 16
        }),
{
    law_length(mem(addr));
    let low = w.log.push(Event::Tick(8));
    bits::lemma_byte((hw.byte)(low, w.st.sp));
}

/// The four flags of F, from the top: zero, subtract, half carry, carry.
proof fn lemma_flags(z: bool, n: bool, h: bool, c: bool)
    ensures
        ({
            let f = sm83::flags(z, n, h, c);
            &&& f / 128 % 2 == 1 <==> z
            &&& f / 64 % 2 == 1 <==> n
            &&& f / 32 % 2 == 1 <==> h
            &&& f / 16 % 2 == 1 <==> c
            &&& f % 16 == 0
            &&& f >= 128 <==> z
        }),
{
}

} // verus!
