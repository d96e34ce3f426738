//! What lies in the arena: every block that was installed, whole but for its links, which
//! lead where the cache has made them lead.
use vstd::prelude::*;
use crate::bytes;
use crate::recomp::abi::{OFF_EXIT, OFF_PC, OFF_STOP};
use crate::recomp::bus::Hardware;
use crate::recomp::decode;
use crate::recomp::decode::{Flow, Insn};
use crate::recomp::exec;
use crate::recomp::exec::{BlockKey, Cached, PendingLink};
use crate::recomp::linking;
use crate::recomp::machine;
use crate::recomp::machine::Game;
use crate::recomp::meaning;
use crate::recomp::meaning::block;
use crate::recomp::meaning::exits;
use crate::recomp::program;
use crate::recomp::program::{Context, Gen, Link, Links};
use crate::recomp::translate;
use crate::recomp::x64;
use crate::recomp::x64::{Alu, Cc, Op, State};
use crate::recomp::x86;
use crate::recomp::x86::Machine;

verus! {

/// Whether the jump whose rel32 field is at `site` of `bytes` is open, or leads out of the
/// block that ends at `end`: back to where an earlier block or this one starts, or on
/// beyond the block.
pub open spec fn leads_out(bytes: Seq<u8>, site: int, end: int) -> bool {
    let rel = x86::signed32(bytes::from_le32(bytes, site));
    rel <= 0 || rel >= end - (site + 4)
}

/// Whether the block with machine code `code` and links `links` lies at `at`: every byte
/// of it that is not in a link is there, its links are open or lead out of it, and what
/// waits inside it is one of its links.
pub open spec fn lies_at(s: Cached, at: int, code: Seq<u8>, links: Seq<Link>) -> bool {
    &&& 0 <= at
    &&& at + code.len() <= s.used
    &&& linking::links_inside(links, code.len() as int)
    &&& forall|p: int|
        0 <= p < code.len() && !exec::in_links(links, at, at + p) ==> s.bytes[at + p]
            == #[trigger] code[p]
    &&& forall|i: int|
        0 <= i < links.len() ==> leads_out(
            s.bytes,
            at + (#[trigger] links[i]).site,
            at + code.len(),
        )
    &&& forall|i: int|
        0 <= i < s.waiting.len() && at - 4 < (#[trigger] s.waiting[i]).site < at + code.len()
            ==> exec::is_link_site(links, at, s.waiting[i].site as int)
}

/// Whether nothing waits for a block that is there, and every block starts in code that is
/// in use.
pub open spec fn settled(s: Cached) -> bool {
    &&& forall|i: int|
        0 <= i < s.waiting.len() ==> !s.blocks.contains_key((#[trigger] s.waiting[i]).to)
    &&& forall|k: BlockKey| #[trigger]
        s.blocks.contains_key(k) ==> s.blocks[k].offset <= s.used
}

/// Whether every link of `code` is open.
pub open spec fn open_links(code: Seq<u8>, links: Seq<Link>) -> bool {
    forall|i: int|
        0 <= i < links.len() ==> code.subrange(
            (#[trigger] links[i]).site as int,
            links[i].site + 4,
        ) == bytes::le32(0)
}

/// A jump that aims at `target` leads there.
proof fn lemma_aim(bytes: Seq<u8>, site: int, target: int)
    requires
        0 <= site,
        site + 4 <= bytes.len(),
        exec::spans(site, target),
        exec::aims(bytes, site, target),
    ensures
        x86::signed32(bytes::from_le32(bytes, site)) == target - (site + 4),
{
    bytes::lemma_le32_round_trip(bytes, site, exec::displacement(site, target));
}

/// The links of a block that has just been installed.
proof fn lemma_new_links(s: Cached, key: BlockKey, code: Seq<u8>, links: Seq<Link>, end: u16, i: int)
    requires
        exec::sound(s),
        settled(s),
        s.fits(key, code.len() as int, links),
        linking::links_inside(links, code.len() as int),
        open_links(code, links),
        0 <= i < links.len(),
    ensures
        leads_out(
            s.install(key, code, links, end).bytes,
            s.next_offset() + links[i].site,
            s.next_offset() + code.len(),
        ),
{
    exec::law_install(s, key, code, links, end);
    let n = s.install(key, code, links, end);
    let at = s.next_offset();
    let site = at + links[i].site;
    let to = BlockKey { bank: key.bank, addr: links[i].target };
    assert(links[i].site + 4 <= code.len());
    if n.blocks.contains_key(to) {
        if to != key {
            assert(s.blocks.contains_key(to));
        }
        assert(s.aim(key, to) == Some(n.blocks[to].offset as int));
        lemma_aim(n.bytes, site, n.blocks[to].offset as int);
    } else {
        bytes::lemma_le32_round_trip(n.bytes, site, 0);
    }
}

/// The links of a block that was there before another one was installed.
proof fn lemma_old_links(
    s: Cached,
    key: BlockKey,
    code: Seq<u8>,
    links: Seq<Link>,
    end: u16,
    at: int,
    other: Seq<u8>,
    its: Seq<Link>,
    i: int,
)
    requires
        exec::sound(s),
        settled(s),
        s.fits(key, code.len() as int, links),
        linking::links_inside(links, code.len() as int),
        lies_at(s, at, other, its),
        0 <= i < its.len(),
    ensures
        leads_out(s.install(key, code, links, end).bytes, at + its[i].site, at + other.len()),
{
    exec::law_install(s, key, code, links, end);
    let n = s.install(key, code, links, end);
    let here = s.next_offset();
    let site = at + its[i].site;
    assert(its[i].site + 4 <= other.len());
    assert(leads_out(s.bytes, site, at + other.len()));
    if exists|w: int|
        0 <= w < s.waiting.len() && (#[trigger] s.waiting[w]).to == key && s.waiting[w].site
            == site {
        let w = choose|w: int|
            0 <= w < s.waiting.len() && (#[trigger] s.waiting[w]).to == key && s.waiting[w].site
                == site;
        assert(exec::aims(n.bytes, s.waiting[w].site as int, here));
        lemma_aim(n.bytes, site, here);
    } else {
        assert forall|p: int| site <= p < site + 4 implies #[trigger] n.bytes[p] == s.bytes[p] by {
            if exec::waits_at(s.waiting, key, p) {
                let w = choose|w: int|
                    0 <= w < s.waiting.len() && (#[trigger] s.waiting[w]).to == key
                        && s.waiting[w].site <= p < s.waiting[w].site + 4;
                assert(exec::is_link_site(its, at, s.waiting[w].site as int));
                let j = choose|j: int|
                    0 <= j < its.len() && s.waiting[w].site == at + (#[trigger] its[j]).site;
                if j < i {
                    assert(its[j].site + 4 <= its[i].site);
                } else if i < j {
                    assert(its[i].site + 4 <= its[j].site);
                }
            }
        }
    }
}

/// A block that is installed lies where the cache says, and every block that lay in the
/// arena before goes on lying there.
pub proof fn law_install_lays_down(
    s: Cached,
    key: BlockKey,
    code: Seq<u8>,
    links: Seq<Link>,
    end: u16,
)
    requires
        exec::sound(s),
        settled(s),
        s.fits(key, code.len() as int, links),
        linking::links_inside(links, code.len() as int),
        open_links(code, links),
    ensures
        ({
            let n = s.install(key, code, links, end);
            &&& exec::sound(n)
            &&& settled(n)
            &&& n.blocks[key].offset == s.next_offset()
            &&& lies_at(n, s.next_offset(), code, links)
            &&& forall|at: int, other: Seq<u8>, its: Seq<Link>| #[trigger]
                lies_at(s, at, other, its) ==> lies_at(n, at, other, its)
        }),
{
    exec::law_install(s, key, code, links, end);
    let n = s.install(key, code, links, end);
    let here = s.next_offset();
    assert forall|k: BlockKey| #[trigger] n.blocks.contains_key(k) implies n.blocks[k].offset
        <= n.used by {
        if k != key {
            assert(s.blocks.contains_key(k));
        }
    }
    assert forall|i: int| 0 <= i < links.len() implies leads_out(
        n.bytes,
        here + (#[trigger] links[i]).site,
        here + code.len(),
    ) by {
        lemma_new_links(s, key, code, links, end, i);
    }
    assert forall|i: int|
        0 <= i < n.waiting.len() && here - 4 < (#[trigger] n.waiting[i]).site < here
            + code.len() implies exec::is_link_site(links, here, n.waiting[i].site as int) by {
        if s.waiting.contains(n.waiting[i]) {
            let w = choose|w: int| 0 <= w < s.waiting.len() && s.waiting[w] == n.waiting[i];
            assert(s.waiting[w].site + 4 <= s.used);
        }
    }
    assert forall|at: int, other: Seq<u8>, its: Seq<Link>| #[trigger]
        lies_at(s, at, other, its) implies lies_at(n, at, other, its) by {
        assert forall|p: int|
            0 <= p < other.len() && !exec::in_links(its, at, at + p) implies n.bytes[at + p]
            == #[trigger] other[p] by {
            if exec::waits_at(s.waiting, key, at + p) {
                let w = choose|w: int|
                    0 <= w < s.waiting.len() && (#[trigger] s.waiting[w]).to == key
                        && s.waiting[w].site <= at + p < s.waiting[w].site + 4;
                assert(exec::is_link_site(its, at, s.waiting[w].site as int));
            }
            assert(n.bytes[at + p] == s.bytes[at + p]);
        }
        assert forall|i: int| 0 <= i < its.len() implies leads_out(
            n.bytes,
            at + (#[trigger] its[i]).site,
            at + other.len(),
        ) by {
            lemma_old_links(s, key, code, links, end, at, other, its, i);
        }
        assert forall|i: int|
            0 <= i < n.waiting.len() && at - 4 < (#[trigger] n.waiting[i]).site < at
                + other.len() implies exec::is_link_site(its, at, n.waiting[i].site as int) by {
            if s.waiting.contains(n.waiting[i]) {
                let w = choose|w: int| 0 <= w < s.waiting.len() && s.waiting[w] == n.waiting[i];
                assert(at - 4 < s.waiting[w].site < at + other.len());
            }
        }
    }
}

proof fn lemma_waiting_outside(waiting: Seq<PendingLink>, page: u8)
    ensures
        forall|i: int|
            0 <= i < exec::waiting_outside(waiting, page).len() ==> waiting.contains(
                #[trigger] exec::waiting_outside(waiting, page)[i],
            ),
    decreases waiting.len(),
{
    if waiting.len() > 0 {
        let fewer = waiting.drop_last();
        lemma_waiting_outside(fewer, page);
        let out = exec::waiting_outside(waiting, page);
        let rest = exec::waiting_outside(fewer, page);
        assert forall|i: int| 0 <= i < out.len() implies waiting.contains(#[trigger] out[i]) by {
            if i < rest.len() {
                assert(fewer.contains(rest[i]));
                let w = choose|w: int| 0 <= w < fewer.len() && fewer[w] == rest[i];
                assert(waiting[w] == out[i]);
            } else {
                assert(waiting[waiting.len() - 1] == out[i]);
            }
        }
    }
}

/// Nothing links into code in RAM, nor out of it, so no jump is left that leads to a
/// translation which was thrown away.
pub proof fn law_nothing_links_into_ram(mem: spec_fn(u16) -> u8, start: u16, ctx: Context)
    ensures
        forall|i: int|
            0 <= i < program::block_links(mem, start, ctx).len() ==> program::region_of(
                (#[trigger] program::block_links(mem, start, ctx)[i]).target,
            ) != 2,
        program::region_of(start) == 2 ==> program::block_links(mem, start, ctx).len() == 0,
{
    reveal(program::ending_links);
    reveal(program::direct_links);
    reveal(program::branch_links);
}

/// Forgetting the blocks of a page moves nothing in the arena.
pub proof fn law_forgetting_moves_nothing(
    s: Cached,
    page: u8,
    at: int,
    code: Seq<u8>,
    links: Seq<Link>,
)
    requires
        lies_at(s, at, code, links),
    ensures
        lies_at(s.invalidate(page), at, code, links),
{
    lemma_waiting_outside(s.waiting, page);
    let n = s.invalidate(page);
    assert forall|i: int|
        0 <= i < n.waiting.len() && at - 4 < (#[trigger] n.waiting[i]).site < at
            + code.len() implies exec::is_link_site(links, at, n.waiting[i].site as int) by {
        let w = choose|w: int| 0 <= w < s.waiting.len() && s.waiting[w] == n.waiting[i];
        assert(at - 4 < s.waiting[w].site < at + code.len());
    }
}

// ---- the program in the arena --------------------------------------------

proof fn lemma_fill_len(code: Seq<u8>, ls: Seq<Link>, rels: Seq<u32>)
    requires
        ls.len() == rels.len(),
        linking::links_inside(ls, code.len() as int),
    ensures
        linking::fill_all(code, ls, rels).len() == code.len(),
    decreases ls.len(),
{
    if ls.len() > 0 {
        lemma_inside_fewer(ls, code.len() as int);
        lemma_fill_len(code, ls.drop_last(), rels.drop_last());
        assert(ls[ls.len() - 1].site + 4 <= code.len());
    }
}

proof fn lemma_inside_fewer(ls: Seq<Link>, len: int)
    requires
        ls.len() > 0,
        linking::links_inside(ls, len),
    ensures
        linking::links_inside(ls.drop_last(), len),
{
    let fewer = ls.drop_last();
    assert forall|i: int| 0 <= i < fewer.len() implies #[trigger] fewer[i].site + 4 <= len by {
        assert(ls[i].site + 4 <= len);
    }
    assert forall|i: int, j: int| 0 <= i < j < fewer.len() implies #[trigger] fewer[i].site + 4
        <= #[trigger] fewer[j].site by {
        assert(ls[i].site + 4 <= ls[j].site);
    }
}

/// Code whose links are filled in with what `bytes` holds there is what `bytes` holds.
proof fn lemma_filled_from(code: Seq<u8>, bytes: Seq<u8>, at: int, ls: Seq<Link>, rels: Seq<u32>)
    requires
        0 <= at,
        at + code.len() <= bytes.len(),
        ls.len() == rels.len(),
        linking::links_inside(ls, code.len() as int),
        forall|i: int|
            0 <= i < ls.len() ==> #[trigger] rels[i] == bytes::from_le32(bytes, at + ls[i].site),
    ensures
        forall|p: int|
            0 <= p < code.len() ==> #[trigger] linking::fill_all(code, ls, rels)[p]
                == if exec::in_links(ls, at, at + p) {
                bytes[at + p]
            } else {
                code[p]
            },
    decreases ls.len(),
{
    if ls.len() > 0 {
        let (fewer, less) = (ls.drop_last(), rels.drop_last());
        let k = ls.len() - 1;
        let site = ls[k].site as int;
        lemma_inside_fewer(ls, code.len() as int);
        assert forall|i: int| 0 <= i < fewer.len() implies #[trigger] less[i] == bytes::from_le32(
            bytes,
            at + fewer[i].site,
        ) by {
            assert(rels[i] == bytes::from_le32(bytes, at + ls[i].site));
        }
        lemma_filled_from(code, bytes, at, fewer, less);
        lemma_fill_len(code, fewer, less);
        lemma_fill_len(code, ls, rels);
        assert(ls[k].site + 4 <= code.len());
        assert(rels[k] == bytes::from_le32(bytes, at + ls[k].site));
        bytes::lemma_le32_reads_back(bytes, at + site);
        let field = bytes::le32(rels[k]);
        let before = linking::fill_all(code, fewer, less);
        let out = linking::fill_all(code, ls, rels);
        assert(out == bytes::splice(before, site, field));
        assert forall|p: int| 0 <= p < code.len() implies #[trigger] out[p] == if exec::in_links(
            ls,
            at,
            at + p,
        ) {
            bytes[at + p]
        } else {
            code[p]
        } by {
            if site <= p < site + 4 {
                assert(exec::in_links(ls, at, at + p)) by {
                    assert(at + ls[k].site <= at + p < at + ls[k].site + 4);
                }
                assert(field[p - site] == bytes.subrange(at + site, at + site + 4)[p - site]);
                assert(out[p] == field[p - site]);
            } else {
                assert(out[p] == before[p]);
                if exec::in_links(ls, at, at + p) {
                    let i = choose|i: int|
                        0 <= i < ls.len() && at + (#[trigger] ls[i]).site <= at + p < at
                            + ls[i].site + 4;
                    assert(fewer[i] == ls[i]);
                    assert(exec::in_links(fewer, at, at + p));
                } else if exec::in_links(fewer, at, at + p) {
                    let i = choose|i: int|
                        0 <= i < fewer.len() && at + (#[trigger] fewer[i]).site <= at + p < at
                            + fewer[i].site + 4;
                    assert(ls[i] == fewer[i]);
                }
            }
        }
    }
}

/// Whether an instruction has a link for falling through.
spec fn falls(flow: Flow) -> bool {
    match flow {
        Flow::Normal | Flow::Stop => true,
        _ => exits::is_conditional(flow),
    }
}

/// The links whose distances are `rels`, in the order of a block's links.
spec fn links_from(insn: Insn, ctx: Context, start: u16, rels: Seq<u32>) -> Links {
    Links {
        next: if falls(insn.flow) && program::can_link(ctx, start, decode::next_addr(insn)) {
            rels[0]
        } else {
            0
        },
        target: if exits::target_link(insn, ctx, start, program::unlinked()) is Some {
            rels.last()
        } else {
            0
        },
    }
}

proof fn lemma_links_from(insn: Insn, ctx: Context, start: u16, rels: Seq<u32>)
    requires
        rels.len() == linking::link_rels(insn, ctx, start, program::unlinked()).len(),
    ensures
        linking::link_rels(insn, ctx, start, links_from(insn, ctx, start, rels)) == rels,
{
    assert(linking::link_rels(insn, ctx, start, links_from(insn, ctx, start, rels)) =~= rels);
}

/// How many bytes of a block stand behind each of its links, in their order.
spec fn pasts(insn: Insn, ctx: Context, start: u16) -> Seq<int> {
    let next: Seq<int> = if falls(insn.flow) && program::can_link(
        ctx,
        start,
        decode::next_addr(insn),
    ) {
        seq![exits::past_link(exits::behind_next(insn, ctx, start, program::unlinked()))]
    } else {
        seq![]
    };
    if exits::target_link(insn, ctx, start, program::unlinked()) is Some {
        next.push(exits::past_link(seq![Op::Ret]))
    } else {
        next
    }
}

/// Where the links of a branch are, whose taken side leaves for a known address.
proof fn lemma_branch_pasts(
    g: Gen,
    opcode: u8,
    next: u16,
    np: bool,
    taken: Gen,
    target: u16,
    tp: bool,
)
    requires
        program::code_len(
            program::branch_ops(
                g,
                opcode,
                next,
                program::link_if(np, 0),
                program::direct_ops(taken, target, program::link_if(tp, 0), 0),
            ) + seq![Op::Ret],
        ) <= usize::MAX,
    ensures
        ({
            let rest = program::direct_ops(taken, target, program::link_if(tp, 0), 0);
            let all = program::branch_ops(g, opcode, next, program::link_if(np, 0), rest)
                + seq![Op::Ret];
            let ls = program::branch_links(g, opcode, next, np, taken, target, tp);
            let ps = (if np {
                seq![exits::past_link(rest + seq![Op::Ret])]
            } else {
                seq![]
            }) + (if tp {
                seq![exits::past_link(seq![Op::Ret])]
            } else {
                seq![]
            });
            &&& ls.len() == ps.len()
            &&& forall|i: int|
                0 <= i < ls.len() ==> #[trigger] ls[i].site + 4 + ps[i] == program::code_len(all)
        }),
{
    reveal(program::branch_ops);
    reveal(program::branch_links);
    let post = seq![Op::Ret];
    let rest = program::direct_ops(taken, target, program::link_if(tp, 0), 0);
    let after = program::code_len(rest);
    let fresh = program::fresh(0);
    let n0 = program::direct_ops(fresh, next, program::link_if(np, 0), after);
    let front = linking::branch_front(g, opcode, program::code_len(n0));
    let all = program::branch_ops(g, opcode, next, program::link_if(np, 0), rest) + post;
    linking::lemma_branch_front(g, opcode, program::code_len(n0));
    linking::lemma_direct_length(fresh, next, program::link_if(np, 0), after);
    assert(all =~= front + n0 + (rest + post));
    assert(all =~= (front + n0) + rest + post);
    x64::lemma_encode_concat(front, n0);
    linking::lemma_behind_link(front, fresh, next, np, after, rest + post);
    linking::lemma_behind_link(front + n0, taken, target, tp, 0, post);
    let one = program::direct_links(program::code_len(front), fresh, next, np);
    let two = program::direct_links(program::code_len(front + n0), taken, target, tp);
    assert(one.len() == if np { 1int } else { 0 } && two.len() == if tp { 1int } else { 0 }) by {
        reveal(program::direct_links);
    }
    let ls = program::branch_links(g, opcode, next, np, taken, target, tp);
    assert(ls =~= one + two);
    assert forall|i: int| 0 <= i < ls.len() implies #[trigger] ls[i].site + 4 + ((if np {
        seq![exits::past_link(rest + post)]
    } else {
        seq![]
    }) + (if tp {
        seq![exits::past_link(post)]
    } else {
        seq![]
    }))[i] == program::code_len(all) by {
        if i < one.len() {
            assert(ls[i] == one[i]);
            assert(one[i].site + 4 + program::code_len(program::dispatch_ops() + (rest + post))
                == program::code_len(all));
        } else {
            assert(ls[i] == two[i - one.len()]);
            assert(two[i - one.len()].site + 4 + program::code_len(program::dispatch_ops() + post)
                == program::code_len(all));
        }
    }
}

proof fn lemma_pasts(g: Gen, insn: Insn, ctx: Context, start: u16)
    requires
        program::code_len(
            program::ending_ops(g, insn, ctx, start, program::unlinked()) + seq![Op::Ret],
        ) <= usize::MAX,
    ensures
        ({
            let all = program::ending_ops(g, insn, ctx, start, program::unlinked()) + seq![Op::Ret];
            let ls = program::ending_links(g, insn, ctx, start);
            let ps = pasts(insn, ctx, start);
            &&& ls.len() == ps.len()
            &&& forall|i: int|
                0 <= i < ls.len() ==> #[trigger] ls[i].site + 4 + ps[i] == program::code_len(all)
        }),
{
    reveal(program::ending_ops);
    reveal(program::ending_links);
    let next = decode::next_addr(insn);
    let np = program::can_link(ctx, start, next);
    let paid = g.charge(4 * insn.len);
    let post = seq![Op::Ret];
    let none: Seq<Op> = seq![];
    let fresh4 = program::fresh(0).charge(4);
    assert(program::code_len(none) == 0);
    assert forall|d: Seq<Op>| #[trigger] (none + d) + post == d + post by {
        assert(none + d =~= d);
    }
    assert(forall|base: int, g1: Gen, t: u16, p: bool| (#[trigger] program::direct_links(
        base,
        g1,
        t,
        p,
    )).len() == if p {
        1int
    } else {
        0
    }) by {
        reveal(program::direct_links);
    }
    match insn.flow {
        Flow::Normal => {
            linking::lemma_behind_link(none, g.instruction(insn), next, np, 0, post);
        },
        Flow::Jump { target, conditional } => {
            let tp = program::can_link(ctx, start, target);
            if conditional {
                lemma_branch_pasts(paid, insn.opcode, next, np, fresh4, target, tp);
            } else {
                linking::lemma_behind_link(none, paid.charge(4), target, tp, 0, post);
            }
        },
        Flow::Call { target, conditional } => {
            let tp = program::can_link(ctx, start, target);
            if conditional {
                let taken = fresh4.push_imm16(next);
                lemma_branch_pasts(paid, insn.opcode, next, np, taken, target, tp);
            } else {
                let g1 = paid.charge(4).push_imm16(next);
                linking::lemma_behind_link(none, g1, target, tp, 0, post);
            }
        },
        Flow::Rst { target } => {
            let tp = program::can_link(ctx, start, target);
            let g1 = paid.charge(4).push_imm16(next);
            linking::lemma_behind_link(none, g1, target, tp, 0, post);
        },
        Flow::Ret { conditional, enable_interrupts } => {
            if conditional {
                reveal(program::branch_ops);
                let rest = program::indirect_ops(
                    program::resume_ops(fresh4.pop_pc(), enable_interrupts),
                );
                let g1 = paid.charge(4);
                let after = program::code_len(rest);
                let n0 = program::direct_ops(
                    program::fresh(0),
                    next,
                    program::link_if(np, 0),
                    after,
                );
                let front = linking::branch_front(g1, insn.opcode, program::code_len(n0));
                linking::lemma_branch_front(g1, insn.opcode, program::code_len(n0));
                assert(program::branch_ops(g1, insn.opcode, next, program::link_if(np, 0), rest)
                    + post =~= front + n0 + (rest + post));
                linking::lemma_behind_link(front, program::fresh(0), next, np, after, rest + post);
            }
        },
        Flow::Stop => {
            let before = paid.op(Op::MovRmImm(State(OFF_PC), next as u32, 2)).call_helper(
                OFF_STOP,
            ).op(Op::AluImm(Alu::Cmp, State(OFF_EXIT), 0, 1)).ops;
            let n0 = program::direct_ops(program::fresh(0), next, program::link_if(np, 0), 0);
            let front = before.push(Op::Jcc(Cc::Ne, program::code_len(n0) as u32));
            assert(front.drop_last() =~= before);
            assert(program::code_len(front) == program::code_len(before) + 6);
            assert(front + n0 + post =~= program::ending_ops(
                g,
                insn,
                ctx,
                start,
                program::unlinked(),
            ) + post);
            linking::lemma_behind_link(front, program::fresh(0), next, np, 0, post);
        },
        _ => {},
    }
}

/// How far the end of the block is behind its link for falling through does not depend on
/// its links.
proof fn lemma_behind_length(insn: Insn, ctx: Context, start: u16, links: Links)
    ensures
        exits::past_link(exits::behind_next(insn, ctx, start, links)) == exits::past_link(
            exits::behind_next(insn, ctx, start, program::unlinked()),
        ),
{
    let next = decode::next_addr(insn);
    let post = seq![Op::Ret];
    let d = program::dispatch_ops();
    let fresh4 = program::fresh(0).charge(4);
    let a = exits::taken_ops(insn, ctx, start, links);
    let b = exits::taken_ops(insn, ctx, start, program::unlinked());
    match insn.flow {
        Flow::Jump { target, .. } => {
            let tp = program::can_link(ctx, start, target);
            linking::lemma_link_length(fresh4, target, tp, links.target, 0);
        },
        Flow::Call { target, .. } => {
            let tp = program::can_link(ctx, start, target);
            linking::lemma_link_length(fresh4.push_imm16(next), target, tp, links.target, 0);
        },
        _ => {},
    }
    x64::lemma_encode_concat(a, post);
    x64::lemma_encode_concat(b, post);
    x64::lemma_encode_concat(d, a + post);
    x64::lemma_encode_concat(d, b + post);
}

/// A block that lies in the arena is, byte for byte, the program that stands for its
/// code, with links that are open or lead out of it: the program whose meaning is that of
/// the game's own instructions.
pub proof fn law_arena_holds_the_program(
    s: Cached,
    at: int,
    mem: spec_fn(u16) -> u8,
    start: u16,
    ctx: Context,
)
    requires
        s.wf(),
        program::code_len(program::block_ops(mem, start, ctx, program::unlinked())) <= usize::MAX,
        lies_at(
            s,
            at,
            x64::encode_all(program::block_ops(mem, start, ctx, program::unlinked())),
            program::block_links(mem, start, ctx),
        ),
    ensures
        exists|links: Links| {
            let program = x64::encode_all(#[trigger] program::block_ops(mem, start, ctx, links));
            &&& s.bytes.subrange(at, at + program.len()) == program
            &&& exits::links_fit(program::last_insn(mem, start, start, 1), ctx, start, links)
        },
{
    let code = x64::encode_all(program::block_ops(mem, start, ctx, program::unlinked()));
    let ls = program::block_links(mem, start, ctx);
    let insn = program::last_insn(mem, start, start, 1);
    let g = program::body(mem, start, start, 1, program::fresh(0));
    linking::law_links(mem, start, ctx, program::unlinked());
    let rels = Seq::new(ls.len(), |i: int| bytes::from_le32(s.bytes, at + ls[i].site));
    let links = links_from(insn, ctx, start, rels);
    lemma_links_from(insn, ctx, start, rels);
    linking::law_links(mem, start, ctx, links);
    lemma_filled_from(code, s.bytes, at, ls, rels);
    lemma_fill_len(code, ls, rels);
    let program = x64::encode_all(program::block_ops(mem, start, ctx, links));
    assert(s.bytes.subrange(at, at + program.len()) =~= program);
    let ending = program::ending_ops(g, insn, ctx, start, program::unlinked());
    assert(ending + seq![Op::Ret] =~= ending.push(Op::Ret));
    lemma_pasts(g, insn, ctx, start);
    lemma_behind_length(insn, ctx, start, links);
    let ps = pasts(insn, ctx, start);
    assert forall|i: int| 0 <= i < ls.len() implies {
        let rel = x86::signed32(#[trigger] rels[i]);
        rel <= 0 || rel >= ps[i]
    } by {
        assert(leads_out(s.bytes, at + ls[i].site, at + code.len()));
        assert(ls[i].site + 4 + ps[i] == code.len());
    }
    assert(exits::links_fit(insn, ctx, start, links));
}

/// A freshly translated block has open links.
pub proof fn law_new_blocks_are_open(mem: spec_fn(u16) -> u8, start: u16, ctx: Context)
    requires
        program::code_len(program::block_ops(mem, start, ctx, program::unlinked())) <= usize::MAX,
    ensures
        open_links(
            x64::encode_all(program::block_ops(mem, start, ctx, program::unlinked())),
            program::block_links(mem, start, ctx),
        ),
{
    let code = x64::encode_all(program::block_ops(mem, start, ctx, program::unlinked()));
    let ls = program::block_links(mem, start, ctx);
    let insn = program::last_insn(mem, start, start, 1);
    linking::law_links(mem, start, ctx, program::unlinked());
    let rels = linking::link_rels(insn, ctx, start, program::unlinked());
    assert forall|i: int| 0 <= i < ls.len() implies code.subrange(
        (#[trigger] ls[i]).site as int,
        ls[i].site + 4,
    ) == bytes::le32(0) by {
        lemma_filled_field(code, ls, rels, i);
    }
}

/// A link that is filled in holds its distance.
proof fn lemma_filled_field(code: Seq<u8>, ls: Seq<Link>, rels: Seq<u32>, i: int)
    requires
        ls.len() == rels.len(),
        linking::links_inside(ls, code.len() as int),
        0 <= i < ls.len(),
    ensures
        linking::fill_all(code, ls, rels).subrange(ls[i].site as int, ls[i].site + 4)
            == bytes::le32(rels[i]),
    decreases ls.len(),
{
    let k = ls.len() - 1;
    let (fewer, less) = (ls.drop_last(), rels.drop_last());
    lemma_inside_fewer(ls, code.len() as int);
    lemma_fill_len(code, fewer, less);
    lemma_fill_len(code, ls, rels);
    assert(ls[k].site + 4 <= code.len());
    assert(ls[i].site + 4 <= code.len());
    let before = linking::fill_all(code, fewer, less);
    let out = linking::fill_all(code, ls, rels);
    assert(out == bytes::splice(before, ls[k].site as int, bytes::le32(rels[k])));
    if i < k {
        lemma_filled_field(code, fewer, less, i);
        assert(ls[i].site + 4 <= ls[k].site);
        assert(fewer[i] == ls[i]);
        assert(out.subrange(ls[i].site as int, ls[i].site + 4) =~= before.subrange(
            ls[i].site as int,
            ls[i].site + 4,
        ));
    } else {
        assert(out.subrange(ls[k].site as int, ls[k].site + 4) =~= bytes::le32(rels[k]));
    }
}

// ---- from the cache to the game ------------------------------------------

/// A block that lies in the arena does, when the host runs it, what the game's code does:
/// it takes the game through the same instructions, against any hardware, and out of the
/// block the same way.
pub proof fn law_arena_runs_the_game(
    hw: Hardware,
    s: Cached,
    at: int,
    mem: spec_fn(u16) -> u8,
    start: u16,
    ctx: Context,
    m0: Machine,
)
    requires
        s.wf(),
        program::code_len(program::block_ops(mem, start, ctx, program::unlinked())) <= usize::MAX,
        lies_at(
            s,
            at,
            x64::encode_all(program::block_ops(mem, start, ctx, program::unlinked())),
            program::block_links(mem, start, ctx),
        ),
        block::enterable(m0),
        exits::table_ready(hw),
    ensures
        exists|links: Links| {
            let ops = #[trigger] program::block_ops(mem, start, ctx, links);
            let program = x64::encode_all(ops);
            &&& s.bytes.subrange(at, at + program.len()) == program
            &&& exits::ended(
                hw,
                block::walk(hw, mem, start, start, 1, meaning::seen(m0, 0)),
                program::last_insn(mem, start, start, 1),
                ctx,
                start,
                links,
                m0.rsp,
                x86::run(hw, ops, 0, m0),
            )
        },
{
    law_arena_holds_the_program(s, at, mem, start, ctx);
    let links = choose|links: Links| {
        let program = x64::encode_all(#[trigger] program::block_ops(mem, start, ctx, links));
        &&& s.bytes.subrange(at, at + program.len()) == program
        &&& exits::links_fit(program::last_insn(mem, start, start, 1), ctx, start, links)
    };
    block::law_block(hw, mem, start, ctx, links, m0);
}

/// A game that has just been switched on has an arena in which nothing waits.
pub proof fn law_arena_at_start(arena: nat)
    requires
        x64::encode_all(translate::trampoline_ops()).len() <= arena <= usize::MAX,
    ensures
        exec::sound(exec::empty_cache(arena)),
        settled(exec::empty_cache(arena)),
{
}

/// A block that the game reaches for the first time lies in the arena where it is then
/// entered, and stands for the memory that the game sees; no other block moves.
pub proof fn law_translation_lies(game: Game, key: BlockKey)
    requires
        exec::sound(game.host.cache),
        settled(game.host.cache),
        !game.host.cache.blocks.contains_key(key),
        game.ensured(key) is Some,
    ensures
        ({
            let (next, info) = game.ensured(key)->0;
            let (code, links, end) = machine::translation(game.memory(), key.addr, game.ctx);
            &&& exec::sound(next.host.cache)
            &&& settled(next.host.cache)
            &&& lies_at(next.host.cache, info.offset as int, code, links)
            &&& forall|at: int, other: Seq<u8>, its: Seq<Link>| #[trigger]
                lies_at(game.host.cache, at, other, its) ==> lies_at(
                    next.host.cache,
                    at,
                    other,
                    its,
                )
        }),
{
    let (code, links, end) = machine::translation(game.memory(), key.addr, game.ctx);
    assert(game.host.cache.fits(key, code.len() as int, links));
    linking::law_links(game.memory(), key.addr, game.ctx, program::unlinked());
    law_new_blocks_are_open(game.memory(), key.addr, game.ctx);
    law_install_lays_down(game.host.cache, key, code, links, end);
}

} // verus!
