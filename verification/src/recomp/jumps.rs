//! The inline jump cache: what a hit promises, and what keeps the promise.
use vstd::prelude::*;
use crate::hw::memory;
use crate::hw::Config;
use crate::recomp::abi::{JumpEntry, JUMP_CACHE_SLOTS};
use crate::recomp::exec::BlockKey;
use crate::recomp::hosting;
use crate::recomp::machine;
use crate::recomp::machine::{Game, HostState};

verus! {

/// Whether `entry` leads to the translation of the code that its address shows now.
pub open spec fn leads(host: HostState, entry: JumpEntry) -> bool {
    let addr = entry.pc as u16;
    let key = BlockKey { bank: host.mmu.bank_at(addr), addr };
    &&& host.cache.blocks.contains_key(key)
    &&& entry.target == host.base.wrapping_add(host.cache.blocks[key].offset as u64)
}

/// Whether every entry that translated code would take at bank generation `gen` leads
/// where it should. An entry whose address no program counter can have is never taken.
pub open spec fn jumps_known(host: HostState, gen: u32) -> bool {
    &&& host.jump_table.len() == JUMP_CACHE_SLOTS
    &&& forall|k: int|
        0 <= k < JUMP_CACHE_SLOTS && (#[trigger] host.jump_table[k]).gen == gen
            && host.jump_table[k].pc <= 0xffff ==> leads(host, host.jump_table[k])
}

/// A game that has just been switched on has an empty jump cache.
pub proof fn law_jumps_known_at_start(rom: Seq<u8>, config: Config, arena: usize, now: u64, gen: u32)
    ensures
        jumps_known(machine::switched_on(rom, config, arena, now).host, gen),
{
}

/// Looking up the code at the program counter leaves an entry for it that leads there, and
/// takes no other entry astray.
pub proof fn law_jump_is_primed(game: Game)
    requires
        jumps_known(game.host, game.state.bank_gen),
        game.entered() is Some,
    ensures
        ({
            let (next, offset) = game.entered()->0;
            let entry = next.host.jump_table[game.state.pc as int % JUMP_CACHE_SLOTS as int];
            &&& jumps_known(next.host, next.state.bank_gen)
            &&& entry.pc == game.state.pc
            &&& entry.gen == next.state.bank_gen
            &&& entry.target == next.host.base.wrapping_add(offset as u64)
            &&& leads(next.host, entry)
        }),
{
    let pc = game.state.pc;
    let key = BlockKey { bank: game.host.mmu.bank_at(pc), addr: pc };
    let cache = game.host.cache;
    let (next, offset) = game.entered()->0;
    let (code, links, end) = machine::translation(game.memory(), key.addr, game.ctx);
    hosting::lemma_install_blocks(cache, key, code, links, end);
    let table = next.host.jump_table;
    let slot = pc as int % JUMP_CACHE_SLOTS as int;
    assert forall|k: int|
        0 <= k < JUMP_CACHE_SLOTS && (#[trigger] table[k]).gen == next.state.bank_gen
            && table[k].pc <= 0xffff implies leads(next.host, table[k]) by {
        if k != slot {
            assert(table[k] == game.host.jump_table[k]);
            assert(leads(game.host, table[k]));
        }
    }
}

/// Time passing takes no entry astray.
pub proof fn law_jumps_last(host: HostState, gen: u32, t: u32)
    requires
        jumps_known(host, gen),
    ensures
        jumps_known(host.told(t), gen),
{
    memory::law_time_keeps_work_ram(host.mmu, t);
    assert forall|k: int|
        0 <= k < JUMP_CACHE_SLOTS && (#[trigger] host.jump_table[k]).gen == gen
            && host.jump_table[k].pc <= 0xffff implies leads(
        host.told(t),
        host.jump_table[k],
    ) by {
        assert(leads(host, host.jump_table[k]));
    }
}

/// A write that could make an entry lead astray moves the bank generation on, and then no
/// entry is taken until it is proved anew. A generation that has come round to one that an
/// entry still carries is left out.
pub proof fn law_jumps_survive_writes(host: HostState, addr: u16, value: u8, now: u64, gen: u32)
    requires
        jumps_known(host, gen),
        forall|k: int|
            0 <= k < JUMP_CACHE_SLOTS ==> (#[trigger] host.jump_table[k]).gen != gen.wrapping_add(1),
    ensures
        jumps_known(host.stored(addr, value, now), host.generation(addr, gen)),
        host.stored(addr, value, now).jump_table == host.jump_table,
{
    let after = host.stored(addr, value, now);
    hosting::lemma_stored(host, addr, value, now);
    if host.generation(addr, gen) == gen {
        assert forall|k: int|
            0 <= k < JUMP_CACHE_SLOTS && (#[trigger] after.jump_table[k]).gen == gen
                && after.jump_table[k].pc <= 0xffff implies leads(after, after.jump_table[k]) by {
            let entry = host.jump_table[k];
            assert(leads(host, entry));
            memory::law_banks_stay(host.mmu, addr, value, now, entry.pc as u16);
        }
    }
}

/// Taking an interrupt keeps every promise of the jump cache and of the marked pages: what
/// it pushes is a write like any other. Generations that have come round are left out.
pub proof fn law_jumps_survive_interrupts(game: Game, now: u64)
    requires
        jumps_known(game.host, game.state.bank_gen),
        hosting::pages_known(game.host),
        forall|k: int|
            0 <= k < JUMP_CACHE_SLOTS ==> {
                &&& (#[trigger] game.host.jump_table[k]).gen != game.state.bank_gen.wrapping_add(1)
                &&& game.host.jump_table[k].gen != game.state.bank_gen.wrapping_add(2)
            },
    ensures
        jumps_known(game.serviced(now).host, game.serviced(now).state.bank_gen),
        hosting::pages_known(game.serviced(now).host),
{
    reveal(Game::vectored);
    let gen = game.state.bank_gen;
    let pending = game.host.mmu.pending();
    if pending != 0 && game.state.ime != 0 {
        let bit = machine::lowest(pending);
        let pc = game.state.pc;
        let high = game.state.sp.wrapping_sub(1);
        let low = high.wrapping_sub(1);
        let m = game.host.mmu.acknowledged(bit);
        let start = HostState { mmu: m, ..game.host };
        let h0 = HostState { mmu: m.ticked(8).ticked(4), ..game.host };
        let h1 = h0.stored(high, (pc / 256) as u8, now);
        let h2 = HostState { mmu: h1.mmu.ticked(4), ..h1 };
        let h3 = h2.stored(low, (pc % 256) as u8, now);
        lemma_same_banks(game.host, start, gen);
        law_jumps_last(start, gen, 8);
        law_jumps_last(start.told(8), gen, 4);
        assert(h0 == start.told(8).told(4));
        hosting::lemma_pages_by_code(game.host, h0);
        law_jumps_survive_writes(h0, high, (pc / 256) as u8, now, gen);
        hosting::lemma_store_keeps_pages(h0, high, (pc / 256) as u8, now);
        let mid = h0.generation(high, gen);
        law_jumps_last(h1, mid, 4);
        hosting::lemma_pages_by_code(h1, h2);
        law_jumps_survive_writes(h2, low, (pc % 256) as u8, now, mid);
        hosting::lemma_store_keeps_pages(h2, low, (pc % 256) as u8, now);
        law_jumps_last(h3, h2.generation(low, mid), 4);
        hosting::lemma_pages_by_code(h3, HostState { mmu: h3.mmu.ticked(4), ..h3 });
        assert(game.serviced(now).host == h3.told(4));
    } else {
        hosting::lemma_pages_by_code(game.host, game.serviced(now).host);
    }
}

/// The jump cache looks at nothing but which banks show.
proof fn lemma_same_banks(host: HostState, next: HostState, gen: u32)
    requires
        jumps_known(host, gen),
        next == (HostState { mmu: next.mmu, ..host }),
        forall|a: u16| #[trigger] next.mmu.bank_at(a) == host.mmu.bank_at(a),
    ensures
        jumps_known(next, gen),
{
    assert forall|k: int|
        0 <= k < JUMP_CACHE_SLOTS && (#[trigger] next.jump_table[k]).gen == gen
            && next.jump_table[k].pc <= 0xffff implies leads(next, next.jump_table[k]) by {
        assert(leads(host, host.jump_table[k]));
    }
}

} // verus!
