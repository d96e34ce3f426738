//! Translated code does what the instruction set says.
//!
//! Each step of the translation is followed on the modelled processor and shown
//! to change the game's registers, and to touch the hardware, exactly as the
//! instruction it stands for.

use vstd::prelude::*;
use crate::recomp::abi::{GbState, OFF_HALT, OFF_PENDING, OFF_READ8, OFF_STOP, OFF_SYNC, OFF_WRITE8};
use crate::recomp::bus;
use crate::recomp::bus::{Hardware, World};
use crate::recomp::program;
use crate::recomp::program::{Gen, CALL_FRAME};
use crate::recomp::sm83;
use crate::recomp::x64;
use crate::recomp::x64::{Alu, Cc, Op, Rm, State, R8, RAX, RBP, RCX, RSP};
use crate::recomp::x86;
use crate::recomp::x86::{Machine, Outcome};

pub mod arith;
pub mod bits;
pub mod block;
pub mod exits;
pub mod insn;
pub mod wide;

verus! {

/// Instructions that always go on to the next.
pub open spec fn straight(op: Op) -> bool {
    !(op is Ret || op is JmpRm || op is Jmp || op is Jcc)
}

/// The program so far runs to its end.
#[verifier::opaque]
pub open spec fn falls(hw: Hardware, g: Gen, m0: Machine) -> bool {
    x86::run(hw, g.ops, 0, m0) is Fell
}

/// The machine at the end of the program so far.
#[verifier::opaque]
pub open spec fn at(hw: Hardware, g: Gen, m0: Machine) -> Machine {
    x86::run(hw, g.ops, 0, m0)->Fell_0
}

pub proof fn lemma_land_push(ops: Seq<Op>, x: Op, i: int, dist: int)
    requires
        0 <= i <= ops.len(),
        x86::land(ops, i, dist) is Some,
        x86::land(ops, i, dist)->0 <= ops.len(),
    ensures
        x86::land(ops.push(x), i, dist) == x86::land(ops, i, dist),
    decreases ops.len() - i,
{
    if dist != 0 && i < ops.len() && dist > 0 {
        lemma_land_push(ops, x, i + 1, dist - ops[i].encode().len());
        assert(ops.push(x)[i] == ops[i]);
    }
}

pub proof fn lemma_run_push(hw: Hardware, ops: Seq<Op>, x: Op, i: int, m: Machine)
    requires
        0 <= i <= ops.len(),
        straight(x),
        x86::run(hw, ops, i, m) is Fell,
    ensures
        x86::run(hw, ops.push(x), i, m) == Outcome::Fell(
            x86::step(hw, x, x86::run(hw, ops, i, m)->Fell_0),
        ),
    decreases ops.len() - i, 0nat,
{
    let longer = ops.push(x);
    if i == ops.len() {
        assert(longer[i] == x);
        assert(x86::run(hw, longer, i + 1, x86::step(hw, x, m)) == Outcome::Fell(
            x86::step(hw, x, m),
        ));
    } else {
        assert(longer[i] == ops[i]);
        match ops[i] {
            Op::Ret => {},
            Op::JmpRm(rm) => {},
            Op::Jmp(rel) => {
                lemma_jump_push(hw, ops, x, i + 1, rel, m);
            },
            Op::Jcc(cc, rel) => {
                let n = m.check(x86::known_cc(cc));
                if x86::holds(cc, m) {
                    lemma_jump_push(hw, ops, x, i + 1, rel, n);
                } else {
                    lemma_run_push(hw, ops, x, i + 1, n);
                }
            },
            op => {
                lemma_run_push(hw, ops, x, i + 1, x86::step(hw, op, m));
            },
        }
    }
}

pub proof fn lemma_jump_push(hw: Hardware, ops: Seq<Op>, x: Op, i: int, rel: u32, m: Machine)
    requires
        0 <= i <= ops.len(),
        straight(x),
        x86::jump(hw, ops, i, rel, m) is Fell,
    ensures
        x86::jump(hw, ops.push(x), i, rel, m) == Outcome::Fell(
            x86::step(hw, x, x86::jump(hw, ops, i, rel, m)->Fell_0),
        ),
    decreases ops.len() - i, 1nat,
{
    let j = x86::land(ops, i, rel as int)->0;
    lemma_land_push(ops, x, i, rel as int);
    lemma_run_push(hw, ops, x, j, m);
}

/// One more instruction is one more step.
pub broadcast proof fn lemma_op(hw: Hardware, g: Gen, x: Op, m0: Machine)
    requires
        falls(hw, g, m0),
        straight(x),
    ensures
        #![trigger at(hw, g.op(x), m0)]
        #![trigger falls(hw, g.op(x), m0)]
        falls(hw, g.op(x), m0),
        at(hw, g.op(x), m0) == x86::step(hw, x, at(hw, g, m0)),
{
    reveal(falls);
    reveal(at);
    lemma_run_push(hw, g.ops, x, 0, m0);
}

pub broadcast proof fn lemma_charge_runs(hw: Hardware, g: Gen, n: int, m0: Machine)
    ensures
        #![trigger at(hw, g.charge(n), m0)]
        #![trigger falls(hw, g.charge(n), m0)]
        at(hw, g.charge(n), m0) == at(hw, g, m0),
        falls(hw, g.charge(n), m0) == falls(hw, g, m0),
{
    reveal(falls);
    reveal(at);
}

pub broadcast group group_follow {
    lemma_op,
    lemma_charge_runs,
    x86::group_steps,
    x86::group_widths,
}

// ---- programs one after another ------------------------------------------

proof fn lemma_land_prefix(a: Seq<Op>, b: Seq<Op>, i: int, dist: int)
    requires
        0 <= i <= a.len(),
        x86::land(a, i, dist) is Some,
        x86::land(a, i, dist)->0 <= a.len(),
    ensures
        x86::land(a + b, i, dist) == x86::land(a, i, dist),
    decreases a.len() - i,
{
    if dist > 0 && i < a.len() {
        lemma_land_prefix(a, b, i + 1, dist - a[i].encode().len());
        assert((a + b)[i] == a[i]);
    }
}

proof fn lemma_land_shift(a: Seq<Op>, b: Seq<Op>, k: int, dist: int)
    requires
        0 <= k <= b.len(),
    ensures
        x86::land(a + b, a.len() + k, dist) == (match x86::land(b, k, dist) {
            Some(j) => Some(a.len() + j),
            None => None,
        }),
    decreases b.len() - k,
{
    if dist > 0 && k < b.len() {
        lemma_land_shift(a, b, k + 1, dist - b[k].encode().len());
        assert((a + b)[a.len() + k] == b[k]);
    }
}

/// A jump over exactly the instructions of `body` lands behind it.
pub proof fn lemma_land_over(pre: Seq<Op>, body: Seq<Op>, post: Seq<Op>)
    ensures
        x86::land(pre + body + post, pre.len() as int, program::code_len(body)) == Some(
            (pre.len() + body.len()) as int,
        ),
    decreases body.len(),
{
    let ops = pre + body + post;
    if body.len() == 0 {
    } else {
        x64::lemma_encode_first(body);
        x64::lemma_encode_nonempty(body[0]);
        assert(ops[pre.len() as int] == body[0]);
        let pre2 = pre.push(body[0]);
        lemma_land_over(pre2, body.skip(1), post);
        assert(pre2 + body.skip(1) + post =~= ops);
    }
}

/// Once the first program has fallen through, the rest goes on from there.
proof fn lemma_run_prefix(hw: Hardware, a: Seq<Op>, b: Seq<Op>, i: int, m: Machine)
    requires
        0 <= i <= a.len(),
        x86::run(hw, a, i, m) is Fell,
    ensures
        x86::run(hw, a + b, i, m) == x86::run(
            hw,
            a + b,
            a.len() as int,
            x86::run(hw, a, i, m)->Fell_0,
        ),
    decreases a.len() - i, 0nat,
{
    if i < a.len() {
        assert((a + b)[i] == a[i]);
        match a[i] {
            Op::Ret => {},
            Op::JmpRm(rm) => {},
            Op::Jmp(rel) => {
                lemma_jump_prefix(hw, a, b, i + 1, rel, m);
            },
            Op::Jcc(cc, rel) => {
                let n = m.check(x86::known_cc(cc));
                if x86::holds(cc, m) {
                    lemma_jump_prefix(hw, a, b, i + 1, rel, n);
                } else {
                    lemma_run_prefix(hw, a, b, i + 1, n);
                }
            },
            op => {
                lemma_run_prefix(hw, a, b, i + 1, x86::step(hw, op, m));
            },
        }
    }
}

proof fn lemma_jump_prefix(hw: Hardware, a: Seq<Op>, b: Seq<Op>, i: int, rel: u32, m: Machine)
    requires
        0 <= i <= a.len(),
        x86::jump(hw, a, i, rel, m) is Fell,
    ensures
        x86::jump(hw, a + b, i, rel, m) == x86::run(
            hw,
            a + b,
            a.len() as int,
            x86::jump(hw, a, i, rel, m)->Fell_0,
        ),
    decreases a.len() - i, 1nat,
{
    let j = x86::land(a, i, rel as int)->0;
    lemma_land_prefix(a, b, i, rel as int);
    lemma_run_prefix(hw, a, b, j, m);
}

/// Where a program stands does not matter to how it runs.
pub proof fn lemma_run_shift(hw: Hardware, a: Seq<Op>, b: Seq<Op>, k: int, m: Machine)
    requires
        0 <= k <= b.len(),
    ensures
        x86::run(hw, a + b, a.len() + k, m) == x86::run(hw, b, k, m),
    decreases b.len() - k, 0nat,
{
    if k < b.len() {
        assert((a + b)[a.len() + k] == b[k]);
        match b[k] {
            Op::Ret => {},
            Op::JmpRm(rm) => {},
            Op::Jmp(rel) => {
                lemma_jump_shift(hw, a, b, k + 1, rel, m);
            },
            Op::Jcc(cc, rel) => {
                let n = m.check(x86::known_cc(cc));
                if x86::holds(cc, m) {
                    lemma_jump_shift(hw, a, b, k + 1, rel, n);
                } else {
                    lemma_run_shift(hw, a, b, k + 1, n);
                }
            },
            op => {
                lemma_run_shift(hw, a, b, k + 1, x86::step(hw, op, m));
            },
        }
    }
}

proof fn lemma_jump_shift(hw: Hardware, a: Seq<Op>, b: Seq<Op>, k: int, rel: u32, m: Machine)
    requires
        0 <= k <= b.len(),
    ensures
        x86::jump(hw, a + b, a.len() + k, rel, m) == x86::jump(hw, b, k, rel, m),
    decreases b.len() - k, 1nat,
{
    lemma_land_shift(a, b, k, rel as int);
    assert((a + b).skip(a.len() + k) =~= b.skip(k));
    match x86::land(b, k, rel as int) {
        Some(j) => {
            if k <= j <= b.len() {
                lemma_run_shift(hw, a, b, j, m);
            }
        },
        None => {},
    }
}

/// A program followed by another runs as the other does from where it got to.
pub proof fn lemma_run_concat(hw: Hardware, a: Seq<Op>, b: Seq<Op>, m: Machine)
    requires
        x86::run(hw, a, 0, m) is Fell,
    ensures
        x86::run(hw, a + b, 0, m) == x86::run(hw, b, 0, x86::run(hw, a, 0, m)->Fell_0),
{
    lemma_run_prefix(hw, a, b, 0, m);
    lemma_run_shift(hw, a, b, 0, x86::run(hw, a, 0, m)->Fell_0);
}

/// A jump over `over` goes on with what follows it.
pub proof fn lemma_jump_over(
    hw: Hardware,
    pre: Seq<Op>,
    over: Seq<Op>,
    post: Seq<Op>,
    rel: u32,
    m: Machine,
)
    requires
        rel == program::code_len(over),
    ensures
        x86::jump(hw, pre + over + post, pre.len() as int, rel, m) == x86::run(hw, post, 0, m),
{
    lemma_land_over(pre, over, post);
    lemma_run_shift(hw, pre + over, post, 0, m);
}

/// What it means for a program to have fallen through.
pub proof fn lemma_falls(hw: Hardware, g: Gen, m0: Machine)
    ensures
        falls(hw, g, m0) == x86::run(hw, g.ops, 0, m0) is Fell,
        falls(hw, g, m0) ==> x86::run(hw, g.ops, 0, m0) == Outcome::Fell(at(hw, g, m0)),
{
    reveal(falls);
    reveal(at);
}

/// An empty program has fallen through already.
pub proof fn lemma_start(hw: Hardware, owed: int, m: Machine)
    ensures
        falls(hw, Gen { ops: seq![], owed }, m),
        at(hw, Gen { ops: seq![], owed }, m) == m,
{
    reveal(falls);
    reveal(at);
}

/// One or two instructions on their own.
pub proof fn lemma_run_few(hw: Hardware, a: Op, b: Op, m: Machine)
    requires
        straight(a),
        straight(b),
    ensures
        x86::run(hw, seq![a], 0, m) == Outcome::Fell(x86::step(hw, a, m)),
        x86::run(hw, seq![a, b], 0, m) == Outcome::Fell(x86::step(hw, b, x86::step(hw, a, m))),
{
    reveal_with_fuel(x86::run, 3);
}

/// Skip `body` if the condition holds, and run it if not.
pub proof fn lemma_unless(hw: Hardware, g: Gen, cc: Cc, body: Seq<Op>, m0: Machine)
    requires
        falls(hw, g, m0),
        x86::known_cc(cc),
        program::code_len(body) < 0x1_0000_0000,
        !x86::holds(cc, at(hw, g, m0)) ==> x86::run(hw, body, 0, at(hw, g, m0)) is Fell,
    ensures
        falls(hw, g.unless(cc, body), m0),
        at(hw, g.unless(cc, body), m0) == (if x86::holds(cc, at(hw, g, m0)) {
            at(hw, g, m0)
        } else {
            x86::run(hw, body, 0, at(hw, g, m0))->Fell_0
        }),
{
    reveal(falls);
    reveal(at);
    let m = at(hw, g, m0);
    reveal(Gen::unless);
    let j = Op::Jcc(cc, program::code_len(body) as u32);
    let tail = seq![j] + body;
    lemma_run_concat(hw, g.ops, tail, m0);
    assert(g.unless(cc, body).ops =~= g.ops + tail);
    assert(m.check(true) == m);
    assert(tail[0] == j);
    if x86::holds(cc, m) {
        lemma_land_over(seq![j], body, seq![]);
        assert(seq![j] + body + seq![] =~= tail);
        assert(x86::run(hw, tail, tail.len() as int, m) == Outcome::Fell(m));
        assert(x86::jump(hw, tail, 1, program::code_len(body) as u32, m) == Outcome::Fell(m));
        assert(x86::run(hw, tail, 0, m) == Outcome::Fell(m));
    } else {
        lemma_run_shift(hw, seq![j], body, 0, m);
        assert(x86::run(hw, tail, 0, m) == x86::run(hw, tail, 1, m));
    }
}

/// Run `yes` if the condition does not hold, and `no` if it does.
pub proof fn lemma_either(hw: Hardware, g: Gen, cc: Cc, yes: Seq<Op>, no: Seq<Op>, m0: Machine)
    requires
        falls(hw, g, m0),
        x86::known_cc(cc),
        program::code_len(yes) + 5 < 0x1_0000_0000,
        program::code_len(no) < 0x1_0000_0000,
        !x86::holds(cc, at(hw, g, m0)) ==> x86::run(hw, yes, 0, at(hw, g, m0)) is Fell,
        x86::holds(cc, at(hw, g, m0)) ==> x86::run(hw, no, 0, at(hw, g, m0)) is Fell,
    ensures
        falls(hw, g.either(cc, yes, no), m0),
        at(hw, g.either(cc, yes, no), m0) == (if x86::holds(cc, at(hw, g, m0)) {
            x86::run(hw, no, 0, at(hw, g, m0))->Fell_0
        } else {
            x86::run(hw, yes, 0, at(hw, g, m0))->Fell_0
        }),
{
    reveal(falls);
    reveal(at);
    let m = at(hw, g, m0);
    reveal(Gen::either);
    let over = Op::Jmp(program::code_len(no) as u32);
    let first = yes.push(over);
    let j = Op::Jcc(cc, (program::code_len(yes) + 5) as u32);
    let tail = seq![j] + first + no;
    lemma_run_concat(hw, g.ops, tail, m0);
    assert(g.either(cc, yes, no).ops =~= g.ops + tail);
    assert(m.check(true) == m);
    assert(tail[0] == j);
    if x86::holds(cc, m) {
        assert(first.drop_last() =~= yes);
        assert(program::code_len(first) == program::code_len(yes) + 5);
        lemma_land_over(seq![j], first, no);
        lemma_run_shift(hw, seq![j] + first, no, 0, m);
        assert(x86::jump(hw, tail, 1, (program::code_len(yes) + 5) as u32, m) == x86::run(
            hw,
            no,
            0,
            m,
        ));
        assert(x86::run(hw, tail, 0, m) == x86::run(hw, no, 0, m));
    } else {
        let rest = seq![over] + no;
        assert(tail =~= seq![j] + (yes + rest));
        lemma_run_shift(hw, seq![j], yes + rest, 0, m);
        lemma_run_concat(hw, yes, rest, m);
        let n = x86::run(hw, yes, 0, m)->Fell_0;
        assert(rest[0] == over);
        lemma_land_over(seq![over], no, seq![]);
        assert(seq![over] + no + seq![] =~= rest);
        assert(x86::run(hw, rest, rest.len() as int, n) == Outcome::Fell(n));
        assert(x86::jump(hw, rest, 1, program::code_len(no) as u32, n) == Outcome::Fell(n));
        assert(x86::run(hw, rest, 0, n) == Outcome::Fell(n));
        assert(x86::run(hw, tail, 0, m) == x86::run(hw, tail, 1, m));
    }
}

/// The program so far has run to its end on modelled forms alone, with the stack
/// as a block finds it: eight bytes short of a 16-byte boundary, with room for a
/// helper call.
pub open spec fn ready(hw: Hardware, g: Gen, m0: Machine) -> bool {
    &&& falls(hw, g, m0)
    &&& at(hw, g, m0).ok
    &&& at(hw, g, m0).rsp == m0.rsp
    &&& m0.rsp % 16 == 8
    &&& m0.rsp >= CALL_FRAME
    &&& 0 <= g.owed < 0x1_0000_0000
}

/// The game's side of a machine that has `owed` cycles still to write down. The
/// scratch word is the translation's own.
pub open spec fn seen(m: Machine, owed: int) -> World {
    World {
        st: GbState { pending: bus::wrap32(m.w.st.pending + owed), scratch: 0, ..m.w.st },
        log: m.w.log,
    }
}

/// The game's side at the end of the program so far.
pub open spec fn here(hw: Hardware, g: Gen, m0: Machine) -> World {
    seen(at(hw, g, m0), g.owed)
}

// ---- cycles and helper calls ---------------------------------------------

pub proof fn lemma_charge(hw: Hardware, g: Gen, n: int, m0: Machine)
    requires
        ready(hw, g, m0),
        0 <= n,
        g.owed + n < 0x1_0000_0000,
    ensures
        ready(hw, g.charge(n), m0),
        here(hw, g.charge(n), m0) == sm83::spend(here(hw, g, m0), n),
{
    broadcast use lemma_charge_runs;

}

pub proof fn lemma_settle(hw: Hardware, g: Gen, m0: Machine)
    requires
        ready(hw, g, m0),
    ensures
        ready(hw, g.settle(), m0),
        here(hw, g.settle(), m0) == here(hw, g, m0),
        at(hw, g.settle(), m0) == (Machine {
            w: at(hw, g.settle(), m0).w,
            zf: at(hw, g.settle(), m0).zf,
            cf: at(hw, g.settle(), m0).cf,
            ..at(hw, g, m0)
        }),
        at(hw, g.settle(), m0).w == at(hw, g, m0).w.with(
            GbState {
                pending: bus::wrap32(at(hw, g, m0).w.st.pending + g.owed),
                ..at(hw, g, m0).w.st
            },
        ),
        g.settle().owed == 0,
{
    broadcast use group_follow;

    reveal(Gen::settle);
    if g.owed != 0 {
        let s = g.op(Op::AluImm(Alu::Add, State(OFF_PENDING), g.owed as u32, 4));
        assert(falls(hw, s, m0));
        assert(falls(hw, g.settle(), m0) && at(hw, g.settle(), m0) == at(hw, s, m0)) by {
            reveal(falls);
            reveal(at);
        }
    }
}

/// A helper call hands over what is owed and does what the helper does.
pub proof fn lemma_call_helper(hw: Hardware, g: Gen, slot: i32, m0: Machine)
    requires
        ready(hw, g, m0),
        slot == OFF_READ8 || slot == OFF_WRITE8 || slot == OFF_SYNC || slot == OFF_HALT || slot
            == OFF_STOP,
    ensures
        ready(hw, g.call_helper(slot), m0),
        g.call_helper(slot).owed == 0,
        ({
            let w = here(hw, g, m0);
            let n = here(hw, g.call_helper(slot), m0);
            let m = at(hw, g, m0);
            let addr = x86::low16(m.rdx);
            &&& slot == OFF_READ8 ==> n == w.read(addr) && x86::low8(
                at(hw, g.call_helper(slot), m0).rax,
            ) == w.read_value(hw, addr)
            &&& slot == OFF_WRITE8 ==> n == w.write(hw, addr, x86::low8(m.r8))
            &&& slot == OFF_SYNC ==> n == w.sync(hw)
            &&& slot == OFF_HALT ==> n == w.halt()
            &&& slot == OFF_STOP ==> n == w.stop(hw)
            &&& n.st.pending == 0
            &&& at(hw, g.call_helper(slot), m0).w.st.pending == 0
            &&& at(hw, g.call_helper(slot), m0).w.st.scratch == m.w.st.scratch
        }),
{
    broadcast use group_follow;

    reveal(Gen::call_helper);
    reveal(x86::call);
    lemma_settle(hw, g, m0);
    let m = at(hw, g, m0);
    let gs = g.settle();
    let ms = at(hw, gs, m0);
    let g1 = gs.op(Op::MovStore(Rm::R(RCX), RBP, 8));
    assert(at(hw, g1, m0) == ms);
    let g2 = g1.op(Op::AluImm(Alu::Sub, Rm::R(RSP), CALL_FRAME, 8));
    let m2 = at(hw, g2, m0);
    assert(m2.rsp == m0.rsp - 40 && m2.ok && m2.w == ms.w && m2.rdx == m.rdx && m2.r8 == m.r8);
    assert(m2.rsp % 16 == 0);
    let g3 = g2.op(Op::CallRm(State(slot)));
    let m3 = at(hw, g3, m0);
    assert(m3 == x86::call(hw, State(slot), m2));
    assert(m3.ok && m3.rsp == m2.rsp);
}

// ---- operands ------------------------------------------------------------

/// Put operand `idx` in AL.
pub proof fn lemma_load_operand(hw: Hardware, g: Gen, idx: u8, m0: Machine)
    requires
        ready(hw, g, m0),
        idx < 8,
    ensures
        ready(hw, g.load_operand(idx), m0),
        here(hw, g.load_operand(idx), m0) == sm83::load(here(hw, g, m0), idx as int),
        x86::low8(at(hw, g.load_operand(idx), m0).rax) == sm83::loaded(
            hw,
            here(hw, g, m0),
            idx as int,
        ),
        g.load_operand(idx).owed <= g.owed,
{
    broadcast use group_follow;

    reveal(Gen::load_operand);
    if idx == 6 {
        let g1 = g.load_addr_hl();
        assert(ready(hw, g1, m0));
        assert(here(hw, g1, m0) == here(hw, g, m0));
        lemma_call_helper(hw, g1, OFF_READ8, m0);
    } else {
        assert(x86::has_field8(program::slot_offset(idx)));
        assert(x86::field8(at(hw, g, m0).w.st, program::slot_offset(idx)) == sm83::reg8(
            at(hw, g, m0).w.st,
            idx as int,
        ));
    }
}

/// Store AL into operand `idx`.
pub proof fn lemma_store_operand(hw: Hardware, g: Gen, idx: u8, m0: Machine)
    requires
        ready(hw, g, m0),
        idx < 8,
    ensures
        ready(hw, g.store_operand(idx), m0),
        here(hw, g.store_operand(idx), m0) == sm83::store(
            hw,
            here(hw, g, m0),
            idx as int,
            x86::low8(at(hw, g, m0).rax),
        ),
        g.store_operand(idx).owed <= g.owed,
{
    broadcast use group_follow;

    reveal(Gen::store_operand);
    if idx == 6 {
        let g1 = g.op(Op::Movzx(R8, Rm::R(RAX), 1)).load_addr_hl();
        assert(ready(hw, g1, m0));
        assert(here(hw, g1, m0) == here(hw, g, m0));
        lemma_call_helper(hw, g1, OFF_WRITE8, m0);
    } else {
        assert(x86::has_field8(program::slot_offset(idx)));
        assert(x86::set_field8(
            at(hw, g, m0).w.st,
            program::slot_offset(idx),
            x86::low8(at(hw, g, m0).rax),
        ) == sm83::set_reg8(at(hw, g, m0).w.st, idx as int, x86::low8(at(hw, g, m0).rax)));
    }
}

} // verus!
