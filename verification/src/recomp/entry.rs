//! How the trampoline gets into translated code and back.
//!
//! A [`Thread`] is what the trampoline works on: the registers it touches and the stack
//! it keeps the host's registers on.
use vstd::prelude::*;
use crate::recomp::translate;
use crate::recomp::x64::{Alu, Op, Rm, RBP, RBX, RCX, RDX, RSP};

verus! {

pub struct Thread {
    pub rsp: int,
    pub rbp: u64,
    pub rbx: u64,
    pub rcx: u64,
    pub rdx: u64,
    /// The stack, by address.
    pub stack: Map<int, u64>,
}

impl Thread {
    pub open spec fn reg(self, r: u8) -> u64 {
        if r == RBP {
            self.rbp
        } else if r == RBX {
            self.rbx
        } else if r == RCX {
            self.rcx
        } else {
            self.rdx
        }
    }

    pub open spec fn with(self, r: u8, v: u64) -> Thread {
        if r == RBP {
            Thread { rbp: v, ..self }
        } else if r == RBX {
            Thread { rbx: v, ..self }
        } else if r == RCX {
            Thread { rcx: v, ..self }
        } else {
            Thread { rdx: v, ..self }
        }
    }
}

/// The effect of the instructions that the trampoline is made of, apart from its call
/// and its return.
pub open spec fn step(op: Op, t: Thread) -> Thread {
    match op {
        Op::Push(r) => Thread {
            rsp: t.rsp - 8,
            stack: t.stack.insert(t.rsp - 8, t.reg(r)),
            ..t
        },
        Op::Pop(r) => Thread { rsp: t.rsp + 8, ..t }.with(r, t.stack[t.rsp]),
        Op::AluImm(Alu::Sub, Rm::R(RSP), v, 8) => Thread { rsp: t.rsp - v, ..t },
        Op::AluImm(Alu::Add, Rm::R(RSP), v, 8) => Thread { rsp: t.rsp + v, ..t },
        Op::MovStore(Rm::R(dst), src, 8) => t.with(dst, t.reg(src)),
        _ => t,
    }
}

/// The first `n` instructions of `ops` one after the other.
pub open spec fn steps(ops: Seq<Op>, n: nat, t: Thread) -> Thread
    decreases n,
{
    if n == 0 {
        t
    } else {
        step(ops[n - 1], steps(ops, (n - 1) as nat, t))
    }
}

/// Which of the trampoline's instructions is the call into translated code.
pub const CALL_AT: usize = 4;

/// The thread as translated code finds it: the call has put its return address on the
/// stack.
pub open spec fn at_entry(t: Thread) -> Thread {
    let before = steps(translate::trampoline_ops(), CALL_AT as nat, t);
    Thread { rsp: before.rsp - 8, ..before }
}

/// Whether translated code may come back with `back` when it was entered with `entry`:
/// the stack is as deep as after the call was popped, what lay on it before is still
/// there, and the other registers may hold anything.
pub open spec fn comes_back(entry: Thread, back: Thread) -> bool {
    &&& back.rsp == entry.rsp + 8
    &&& forall|at: int| at >= entry.rsp + 8 ==> #[trigger] back.stack[at] == entry.stack[at]
}

/// The thread as the host gets it back.
pub open spec fn at_return(back: Thread) -> Thread {
    let ops = translate::trampoline_ops();
    let after = step(ops[7], step(ops[6], step(ops[5], back)));
    Thread { rsp: after.rsp + 8, ..after }
}

/// Called with the state and the code by the Windows convention, the trampoline enters
/// that code with the state behind RBP and the stack where a block's helper calls come
/// out 16-byte aligned.
pub proof fn law_trampoline_enters(t: Thread)
    requires
        t.rsp % 16 == 8,
    ensures
        translate::trampoline_ops()[CALL_AT as int] == Op::CallRm(Rm::R(RDX)),
        at_entry(t).rbp == t.rcx,
        at_entry(t).rdx == t.rdx,
        at_entry(t).rsp % 16 == 8,
{
    reveal_with_fuel(steps, 5);
}

/// However translated code left the registers, the host gets back the ones it relies on
/// and its own stack pointer, past the return address.
pub proof fn law_trampoline_returns(t: Thread, back: Thread)
    requires
        comes_back(at_entry(t), back),
    ensures
        translate::trampoline_ops()[8] == Op::Ret,
        at_return(back).rbp == t.rbp,
        at_return(back).rbx == t.rbx,
        at_return(back).rsp == t.rsp + 8,
{
    reveal_with_fuel(steps, 5);
    let entry = at_entry(t);
    assert(entry.rsp == t.rsp - 32);
    assert(entry.stack[t.rsp - 8] == t.rbp);
    assert(entry.stack[t.rsp - 16] == t.rbx);
    assert(back.stack[t.rsp - 8] == entry.stack[t.rsp - 8]);
    assert(back.stack[t.rsp - 16] == entry.stack[t.rsp - 16]);
}

} // verus!
