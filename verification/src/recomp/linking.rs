//! Links: where they are in the code of a block, and what filling them in does.

use vstd::prelude::*;
use crate::bytes;
use crate::recomp::abi::{OFF_EXIT, OFF_PC, OFF_STOP};
use crate::recomp::decode;
use crate::recomp::decode::{Flow, Insn};
use crate::recomp::program;
use crate::recomp::program::{Context, Gen, Link, Links};
use crate::recomp::translate;
use crate::recomp::x64;
use crate::recomp::x64::{Alu, Cc, Op, State};

verus! {

/// The program with the open link at instruction `k` filled in.
pub open spec fn linked_at(ops: Seq<Op>, k: int, rel: u32) -> Seq<Op> {
    ops.update(k, Op::Jmp(rel))
}

/// Where the rel32 field of the `jmp` at instruction `k` is.
pub open spec fn jump_site(ops: Seq<Op>, k: int) -> int {
    program::code_len(ops.take(k)) + 1
}

/// An open link at instruction `k`: what filling it in does to the code.
pub proof fn lemma_fill(ops: Seq<Op>, k: int, rel: u32)
    requires
        0 <= k < ops.len(),
        ops[k] == Op::Jmp(0),
    ensures
        x64::encode_all(linked_at(ops, k, rel)) == bytes::splice(
            x64::encode_all(ops),
            jump_site(ops, k),
            bytes::le32(rel),
        ),
        jump_site(ops, k) + 4 + program::code_len(ops.skip(k + 1)) == program::code_len(ops),
{
    let new = linked_at(ops, k, rel);
    translate::lemma_split(ops, k);
    translate::lemma_split(new, k);
    assert(new.take(k) =~= ops.take(k));
    assert(new.skip(k + 1) =~= ops.skip(k + 1));
    assert(x64::encode_all(new) =~= bytes::splice(
        x64::encode_all(ops),
        jump_site(ops, k),
        bytes::le32(rel),
    ));
}

/// The instruction that is the link in a program that leaves.
spec fn direct_link_at(g: Gen, target: u16) -> int {
    program::sync_ops(g.op(Op::MovRmImm(State(OFF_PC), target as u32, 2)), 0).len() as int
}

/// The length of the check for a yield does not depend on how far it jumps.
proof fn lemma_sync_length(g: Gen, skip: int)
    ensures
        program::sync_ops(g, skip).len() == program::sync_ops(g, 0).len(),
        program::code_len(program::sync_ops(g, skip)) == program::code_len(
            program::sync_ops(g, 0),
        ),
{
    reveal(program::sync_ops);
    let a = program::sync_ops(g, skip);
    let b = program::sync_ops(g, 0);
    assert(a.drop_last() =~= b.drop_last());
}

/// How far into a program that leaves for a known address its link is.
pub open spec fn link_depth(g: Gen, target: u16) -> int {
    program::code_len(
        program::sync_ops(g.op(Op::MovRmImm(State(OFF_PC), target as u32, 2)), 0),
    ) + 1
}

/// The link of a program that leaves for a known address.
proof fn lemma_direct_link(g: Gen, target: u16, rel: u32, after: int)
    ensures
        ({
            let open = program::direct_ops(g, target, Some(0), after);
            let k = direct_link_at(g, target);
            &&& 0 <= k < open.len()
            &&& open[k] == Op::Jmp(0)
            &&& program::direct_ops(g, target, Some(rel), after) == linked_at(open, k, rel)
            &&& jump_site(open, k) == link_depth(g, target)
        }),
{
    reveal(program::direct_ops);
    reveal(program::leave_ops);
    let open = program::direct_ops(g, target, Some(0), after);
    let closed = program::direct_ops(g, target, Some(rel), after);
    let k = direct_link_at(g, target);
    let g1 = g.op(Op::MovRmImm(State(OFF_PC), target as u32, 2));
    let skip = program::code_len(program::leave_ops(Some(0))) + after;
    lemma_sync_length(g1, skip);
    let d = program::dispatch_ops();
    x64::lemma_encode_concat(seq![Op::Jmp(0)], d);
    x64::lemma_encode_concat(seq![Op::Jmp(rel)], d);
    x64::lemma_encode_one(Op::Jmp(0));
    x64::lemma_encode_one(Op::Jmp(rel));
    assert(open.take(k) =~= program::sync_ops(g1, skip));
    assert(closed =~= linked_at(open, k, rel));
}

/// The same in the middle of a longer program.
proof fn lemma_piece(a: Seq<Op>, g: Gen, target: u16, rel: u32, after: int, b: Seq<Op>)
    ensures
        ({
            let open = a + program::direct_ops(g, target, Some(0), after) + b;
            let site = program::code_len(a) + link_depth(g, target);
            &&& x64::encode_all(a + program::direct_ops(g, target, Some(rel), after) + b)
                == bytes::splice(x64::encode_all(open), site, bytes::le32(rel))
            &&& 0 <= program::code_len(a) < site
            &&& site + 4 + program::code_len(b) <= program::code_len(open)
            &&& site + 4 <= program::code_len(
                a + program::direct_ops(g, target, Some(0), after),
            )
            &&& program::code_len(program::direct_ops(g, target, Some(rel), after))
                == program::code_len(program::direct_ops(g, target, Some(0), after))
        }),
{
    let d0 = program::direct_ops(g, target, Some(0), after);
    let d1 = program::direct_ops(g, target, Some(rel), after);
    let k = direct_link_at(g, target);
    lemma_direct_link(g, target, rel, after);
    lemma_fill(d0, k, rel);
    let open = a + d0 + b;
    let at = a.len() + k;
    assert(open[at] == d0[k]);
    lemma_fill(open, at, rel);
    assert(a + d1 + b =~= linked_at(open, at, rel));
    assert(open.take(at) =~= a + d0.take(k));
    x64::lemma_encode_concat(a, d0.take(k));
    assert(open.skip(at + 1) =~= d0.skip(k + 1) + b);
    x64::lemma_encode_concat(d0.skip(k + 1), b);
    x64::lemma_encode_concat(a, d0);
    x64::lemma_encode_concat(a + d0, b);
}

/// The code with every link in `ls` filled in from `rels`.
pub open spec fn fill_all(code: Seq<u8>, ls: Seq<Link>, rels: Seq<u32>) -> Seq<u8>
    decreases ls.len(),
{
    if ls.len() == 0 || rels.len() == 0 {
        code
    } else {
        bytes::splice(
            fill_all(code, ls.drop_last(), rels.drop_last()),
            ls.last().site as int,
            bytes::le32(rels.last()),
        )
    }
}

/// The distances for the links of a block, in the order of its links.
pub open spec fn link_rels(insn: Insn, ctx: Context, start: u16, links: Links) -> Seq<u32> {
    let next: Seq<u32> = if program::can_link(ctx, start, decode::next_addr(insn)) {
        seq![links.next]
    } else {
        seq![]
    };
    match insn.flow {
        Flow::Normal | Flow::Stop => next,
        Flow::Jump { target, conditional } => {
            let own: Seq<u32> = if program::can_link(ctx, start, target) {
                seq![links.target]
            } else {
                seq![]
            };
            if conditional {
                next + own
            } else {
                own
            }
        },
        Flow::Call { target, conditional } => {
            let own: Seq<u32> = if program::can_link(ctx, start, target) {
                seq![links.target]
            } else {
                seq![]
            };
            if conditional {
                next + own
            } else {
                own
            }
        },
        Flow::Rst { target } => if program::can_link(ctx, start, target) {
            seq![links.target]
        } else {
            seq![]
        },
        Flow::Ret { conditional, .. } => if conditional {
            next
        } else {
            seq![]
        },
        _ => seq![],
    }
}

/// The links are inside `len` bytes of code, one after another.
pub open spec fn links_inside(ls: Seq<Link>, len: int) -> bool {
    &&& forall|i: int| 0 <= i < ls.len() ==> #[trigger] ls[i].site + 4 <= len
    &&& forall|i: int, j: int|
        0 <= i < j < ls.len() ==> #[trigger] ls[i].site + 4 <= #[trigger] ls[j].site
}

/// Closed is open with the links filled in.
spec fn filled(
    open: Seq<Op>,
    closed: Seq<Op>,
    ls: Seq<Link>,
    rels: Seq<u32>,
) -> bool {
    &&& ls.len() == rels.len()
    &&& links_inside(ls, program::code_len(open))
    &&& x64::encode_all(closed) == fill_all(x64::encode_all(open), ls, rels)
}

/// The length of a program that leaves does not depend on its link.
pub proof fn lemma_link_length(g: Gen, target: u16, possible: bool, rel: u32, after: int)
    ensures
        program::code_len(program::direct_ops(g, target, program::link_if(possible, rel), after))
            == program::code_len(
            program::direct_ops(g, target, program::link_if(possible, 0), after),
        ),
{
    if possible {
        lemma_piece(seq![], g, target, rel, after, seq![]);
    }
}

/// What stands behind the link of a program that leaves: the dispatch, and what follows
/// the program.
pub proof fn lemma_behind_link(
    a: Seq<Op>,
    g: Gen,
    target: u16,
    possible: bool,
    after: int,
    b: Seq<Op>,
)
    requires
        program::code_len(
            a + program::direct_ops(g, target, program::link_if(possible, 0), after) + b,
        ) <= usize::MAX,
    ensures
        ({
            let d = program::direct_ops(g, target, program::link_if(possible, 0), after);
            let ls = program::direct_links(program::code_len(a), g, target, possible);
            forall|i: int|
                0 <= i < ls.len() ==> #[trigger] ls[i].site + 4 + program::code_len(
                    program::dispatch_ops() + b,
                ) == program::code_len(a + d + b)
        }),
{
    reveal(program::direct_links);
    if possible {
        let d0 = program::direct_ops(g, target, Some(0), after);
        let k = direct_link_at(g, target);
        lemma_direct_link(g, target, 0, after);
        lemma_piece(a, g, target, 0, after, b);
        let open = a + d0 + b;
        let at = a.len() + k;
        assert(open[at] == d0[k]);
        lemma_fill(open, at, 0);
        assert(open.take(at) =~= a + d0.take(k));
        x64::lemma_encode_concat(a, d0.take(k));
        assert(d0.skip(k + 1) =~= program::dispatch_ops()) by {
            reveal(program::direct_ops);
            reveal(program::leave_ops);
            let g1 = g.op(Op::MovRmImm(State(OFF_PC), target as u32, 2));
            let skip = program::code_len(program::leave_ops(Some(0))) + after;
            lemma_sync_length(g1, skip);
        }
        assert(open.skip(at + 1) =~= program::dispatch_ops() + b);
    }
}

/// One link or none.
proof fn lemma_filled_one(
    a: Seq<Op>,
    g: Gen,
    target: u16,
    possible: bool,
    rel: u32,
    after: int,
    b: Seq<Op>,
)
    requires
        program::code_len(
            a + program::direct_ops(g, target, program::link_if(possible, 0), after) + b,
        ) <= usize::MAX,
    ensures
        filled(
            a + program::direct_ops(g, target, program::link_if(possible, 0), after) + b,
            a + program::direct_ops(g, target, program::link_if(possible, rel), after) + b,
            program::direct_links(program::code_len(a), g, target, possible),
            if possible {
                seq![rel]
            } else {
                seq![]
            },
        ),
        program::code_len(program::direct_ops(g, target, program::link_if(possible, rel), after))
            == program::code_len(
            program::direct_ops(g, target, program::link_if(possible, 0), after),
        ),
        ({
            let d = program::direct_ops(g, target, program::link_if(possible, 0), after);
            let ls = program::direct_links(program::code_len(a), g, target, possible);
            forall|i: int|
                0 <= i < ls.len() ==> program::code_len(a) < #[trigger] ls[i].site && ls[i].site + 4
                    <= program::code_len(a + d)
        }),
{
    reveal(program::direct_links);
    reveal_with_fuel(fill_all, 2);
    if possible {
        lemma_piece(a, g, target, rel, after, b);
        let ls = program::direct_links(program::code_len(a), g, target, true);
        assert(ls.drop_last() =~= seq![]);
        assert(seq![rel].drop_last() =~= seq![]);
    }
}

/// Filling in one list of links and then another.
proof fn lemma_fill_concat(
    code: Seq<u8>,
    ls1: Seq<Link>,
    rels1: Seq<u32>,
    ls2: Seq<Link>,
    rels2: Seq<u32>,
)
    requires
        ls1.len() == rels1.len(),
        ls2.len() == rels2.len(),
        ls2.len() <= 1,
    ensures
        fill_all(code, ls1 + ls2, rels1 + rels2) == fill_all(
            fill_all(code, ls1, rels1),
            ls2,
            rels2,
        ),
{
    reveal_with_fuel(fill_all, 2);
    if ls2.len() == 0 {
        assert(ls1 + ls2 =~= ls1);
        assert(rels1 + rels2 =~= rels1);
    } else {
        assert((ls1 + ls2).drop_last() =~= ls1);
        assert((rels1 + rels2).drop_last() =~= rels1);
        assert(ls2.drop_last() =~= seq![]);
        assert(rels2.drop_last() =~= seq![]);
    }
}

/// The length of a program that leaves does not depend on what follows it.
pub proof fn lemma_direct_length(g: Gen, target: u16, link: Option<u32>, after: int)
    ensures
        program::code_len(program::direct_ops(g, target, link, after)) == program::code_len(
            program::direct_ops(g, target, link, 0),
        ),
{
    reveal(program::direct_ops);
    let g1 = g.op(Op::MovRmImm(State(OFF_PC), target as u32, 2));
    let leave = program::leave_ops(link);
    let n = program::code_len(leave);
    lemma_sync_length(g1, n + after);
    lemma_sync_length(g1, n);
    x64::lemma_encode_concat(program::sync_ops(g1, n + after), leave);
    x64::lemma_encode_concat(program::sync_ops(g1, n), leave);
}

/// What stands before the way out of a branch.
pub open spec fn branch_front(g: Gen, opcode: u8, out: int) -> Seq<Op> {
    program::test_ops(g, opcode).ops.push(Op::Jcc(program::taken_cc(opcode), out as u32))
}

pub proof fn lemma_branch_front(g: Gen, opcode: u8, out: int)
    ensures
        program::code_len(branch_front(g, opcode, out)) == program::code_len(
            program::test_ops(g, opcode).ops,
        ) + 6,
{
    let f = branch_front(g, opcode, out);
    assert(f.drop_last() =~= program::test_ops(g, opcode).ops);
}

/// The links of a branch whose taken side leaves for a known address.
proof fn lemma_filled_branch(
    g: Gen,
    opcode: u8,
    next: u16,
    next_possible: bool,
    taken: Gen,
    target: u16,
    target_possible: bool,
    links: Links,
    post: Seq<Op>,
)
    requires
        program::code_len(
            program::branch_ops(
                g,
                opcode,
                next,
                program::link_if(next_possible, 0),
                program::direct_ops(taken, target, program::link_if(target_possible, 0), 0),
            ) + post,
        ) <= usize::MAX,
    ensures
        filled(
            program::branch_ops(
                g,
                opcode,
                next,
                program::link_if(next_possible, 0),
                program::direct_ops(taken, target, program::link_if(target_possible, 0), 0),
            ) + post,
            program::branch_ops(
                g,
                opcode,
                next,
                program::link_if(next_possible, links.next),
                program::direct_ops(
                    taken,
                    target,
                    program::link_if(target_possible, links.target),
                    0,
                ),
            ) + post,
            program::branch_links(
                g,
                opcode,
                next,
                next_possible,
                taken,
                target,
                target_possible,
            ),
            (if next_possible {
                seq![links.next]
            } else {
                seq![]
            }) + (if target_possible {
                seq![links.target]
            } else {
                seq![]
            }),
        ),
{
    reveal(program::branch_ops);
    reveal(program::branch_links);
    let r0 = program::direct_ops(taken, target, program::link_if(target_possible, 0), 0);
    let r1 = program::direct_ops(taken, target, program::link_if(target_possible, links.target), 0);
    let after = program::code_len(r0);
    let fresh = program::fresh(0);
    let n0 = program::direct_ops(fresh, next, program::link_if(next_possible, 0), after);
    let n1 = program::direct_ops(fresh, next, program::link_if(next_possible, links.next), after);
    let front = branch_front(g, opcode, program::code_len(n0));
    lemma_branch_front(g, opcode, program::code_len(n0));
    lemma_direct_length(fresh, next, program::link_if(next_possible, 0), after);
    let none: Seq<Op> = seq![];
    let open = front + n0 + (r0 + post);
    assert(program::branch_ops(g, opcode, next, program::link_if(next_possible, 0), r0) + post
        =~= open);
    lemma_filled_one(front, fresh, next, next_possible, links.next, after, r0 + post);
    let half = front + n1 + (r0 + post);
    x64::lemma_encode_concat(front, n0);
    x64::lemma_encode_concat(front, n1);
    x64::lemma_encode_concat(front + n0, r0 + post);
    x64::lemma_encode_concat(front + n1, r0 + post);
    let front2 = front + n1;
    assert(front2 + r0 + post =~= half);
    lemma_filled_one(front2, taken, target, target_possible, links.target, 0, post);
    assert(program::branch_ops(g, opcode, next, program::link_if(next_possible, links.next), r1)
        + post =~= front2 + r1 + post);
    let ls1 = program::direct_links(program::code_len(front), fresh, next, next_possible);
    let ls2 = program::direct_links(
        program::code_len(front2),
        taken,
        target,
        target_possible,
    );
    let rels1: Seq<u32> = if next_possible {
        seq![links.next]
    } else {
        seq![]
    };
    let rels2: Seq<u32> = if target_possible {
        seq![links.target]
    } else {
        seq![]
    };
    assert(ls2.len() <= 1) by {
        reveal(program::direct_links);
    }
    lemma_fill_concat(x64::encode_all(open), ls1, rels1, ls2, rels2);
    let ls = ls1 + ls2;
    assert(links_inside(ls, program::code_len(open)));
}

/// The links of a branch whose taken side leaves for an address popped off the
/// stack.
proof fn lemma_filled_return(
    g: Gen,
    opcode: u8,
    next: u16,
    possible: bool,
    rest: Seq<Op>,
    rel: u32,
    post: Seq<Op>,
)
    requires
        program::code_len(
            program::branch_ops(g, opcode, next, program::link_if(possible, 0), rest) + post,
        ) <= usize::MAX,
    ensures
        filled(
            program::branch_ops(g, opcode, next, program::link_if(possible, 0), rest) + post,
            program::branch_ops(g, opcode, next, program::link_if(possible, rel), rest) + post,
            program::direct_links(
                program::code_len(program::test_ops(g, opcode).ops) + 6,
                program::fresh(0),
                next,
                possible,
            ),
            if possible {
                seq![rel]
            } else {
                seq![]
            },
        ),
{
    reveal(program::branch_ops);
    let after = program::code_len(rest);
    let fresh = program::fresh(0);
    let n0 = program::direct_ops(fresh, next, program::link_if(possible, 0), after);
    let n1 = program::direct_ops(fresh, next, program::link_if(possible, rel), after);
    let front = branch_front(g, opcode, program::code_len(n0));
    lemma_branch_front(g, opcode, program::code_len(n0));
    assert(program::branch_ops(g, opcode, next, program::link_if(possible, 0), rest) + post
        =~= front + n0 + (rest + post));
    lemma_filled_one(front, fresh, next, possible, rel, after, rest + post);
    assert(program::branch_ops(g, opcode, next, program::link_if(possible, rel), rest) + post
        =~= front + n1 + (rest + post));
}

/// The links of a whole block: they are inside its code, and filling them in
/// gives the code of the same block with those links.
pub proof fn law_links(
    mem: spec_fn(u16) -> u8,
    start: u16,
    ctx: Context,
    links: Links,
)
    requires
        program::code_len(program::block_ops(mem, start, ctx, program::unlinked())) <= usize::MAX,
    ensures
        ({
            let code = x64::encode_all(
                program::block_ops(mem, start, ctx, program::unlinked()),
            );
            let ls = program::block_links(mem, start, ctx);
            let insn = program::last_insn(mem, start, start, 1);
            let rels = link_rels(insn, ctx, start, links);
            &&& ls.len() == rels.len()
            &&& links_inside(ls, code.len() as int)
            &&& x64::encode_all(program::block_ops(mem, start, ctx, links)) == fill_all(
                code,
                ls,
                rels,
            )
        }),
{
    let g = program::body(mem, start, start, 1, program::fresh(0));
    let insn = program::last_insn(mem, start, start, 1);
    let a = program::ending_ops(g, insn, ctx, start, program::unlinked());
    let b = program::ending_ops(g, insn, ctx, start, links);
    assert(a + seq![Op::Ret] =~= a.push(Op::Ret));
    assert(b + seq![Op::Ret] =~= b.push(Op::Ret));
    lemma_filled_ending(g, insn, ctx, start, links);
}

proof fn lemma_filled_ending(g: Gen, insn: Insn, ctx: Context, start: u16, links: Links)
    requires
        program::code_len(
            program::ending_ops(g, insn, ctx, start, program::unlinked()) + seq![Op::Ret],
        ) <= usize::MAX,
    ensures
        filled(
            program::ending_ops(g, insn, ctx, start, program::unlinked()) + seq![Op::Ret],
            program::ending_ops(g, insn, ctx, start, links) + seq![Op::Ret],
            program::ending_links(g, insn, ctx, start),
            link_rels(insn, ctx, start, links),
        ),
{
    reveal(program::ending_ops);
    reveal(program::ending_links);
    let next = decode::next_addr(insn);
    let np = program::can_link(ctx, start, next);
    let paid = g.charge(4 * insn.len);
    let post = seq![Op::Ret];
    let none: Seq<Op> = seq![];
    let fresh4 = program::fresh(0).charge(4);
    assert(program::code_len(none) == 0);
    assert forall|d: Seq<Op>| #[trigger] (none + d) + post == d + post by {
        assert(none + d =~= d);
    }
    match insn.flow {
        Flow::Normal => {
            lemma_filled_one(none, g.instruction(insn), next, np, links.next, 0, post);
        },
        Flow::Jump { target, conditional } => {
            let tp = program::can_link(ctx, start, target);
            if conditional {
                lemma_filled_branch(paid, insn.opcode, next, np, fresh4, target, tp, links, post);
            } else {
                lemma_filled_one(none, paid.charge(4), target, tp, links.target, 0, post);
            }
        },
        Flow::Call { target, conditional } => {
            let tp = program::can_link(ctx, start, target);
            if conditional {
                let taken = fresh4.push_imm16(next);
                lemma_filled_branch(paid, insn.opcode, next, np, taken, target, tp, links, post);
            } else {
                let g1 = paid.charge(4).push_imm16(next);
                lemma_filled_one(none, g1, target, tp, links.target, 0, post);
            }
        },
        Flow::Rst { target } => {
            let tp = program::can_link(ctx, start, target);
            let g1 = paid.charge(4).push_imm16(next);
            lemma_filled_one(none, g1, target, tp, links.target, 0, post);
        },
        Flow::Ret { conditional, enable_interrupts } => {
            if conditional {
                let rest = program::indirect_ops(
                    program::resume_ops(fresh4.pop_pc(), enable_interrupts),
                );
                let g1 = paid.charge(4);
                lemma_filled_return(g1, insn.opcode, next, np, rest, links.next, post);
            }
        },
        Flow::Stop => {
            let before = paid.op(Op::MovRmImm(State(OFF_PC), next as u32, 2)).call_helper(
                OFF_STOP,
            ).op(Op::AluImm(Alu::Cmp, State(OFF_EXIT), 0, 1)).ops;
            let n0 = program::direct_ops(program::fresh(0), next, program::link_if(np, 0), 0);
            let n1 = program::direct_ops(
                program::fresh(0),
                next,
                program::link_if(np, links.next),
                0,
            );
            let front = before.push(Op::Jcc(Cc::Ne, program::code_len(n0) as u32));
            assert(front.drop_last() =~= before);
            lemma_filled_one(front, program::fresh(0), next, np, links.next, 0, post);
        },
        _ => {},
    }
}

} // verus!
