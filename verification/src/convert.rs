//! The conversion itself: everything that can be translated before the game runs.
use vstd::prelude::*;
use crate::cli::Aot;
use crate::hw::cartridge;
use crate::hw::cartridge::Cartridge;
use crate::payload;
use crate::payload::BlockEntry;
use crate::recomp::decode;
use crate::recomp::discover;
use crate::recomp::discover::Report;
use crate::recomp::exec;
use crate::recomp::exec::{BlockKey, Cached, CodeCache, DEFAULT_ARENA};
use crate::recomp::linking;
use crate::recomp::machine;
use crate::recomp::machine::Game;
use crate::recomp::program;
use crate::recomp::program::{Context, Gen};
use crate::recomp::translate;
use crate::recomp::translate::Block;
use crate::recomp::x64;

verus! {

/// How many blocks of each switchable bank are tried, beyond what the fixed bank reaches.
#[verifier::allow_in_spec]
pub fn per_bank(aot: Aot) -> usize
    returns
        (if aot == Aot::Full {
            4096usize
        } else {
            0usize
        }),
{
    if aot == Aot::Full {
        4096
    } else {
        0
    }
}

/// The cache with the blocks of `keys` translated and installed one after the other;
/// nothing, where one does not fit.
pub open spec fn installed(cache: Cached, rom: Seq<u8>, ctx: Context, keys: Seq<BlockKey>) -> Option<
    Cached,
>
    decreases keys.len(),
{
    if keys.len() == 0 {
        Some(cache)
    } else {
        match installed(cache, rom, ctx, keys.drop_last()) {
            Some(so_far) => {
                let key = keys.last();
                let mem = discover::rom_image(rom, key.bank);
                let (code, links, end) = machine::translation(mem, key.addr, ctx);
                if so_far.fits(key, code.len() as int, links) {
                    Some(so_far.install(key, code, links, end))
                } else {
                    None
                }
            },
            None => None,
        }
    }
}

/// Once a block did not fit, nothing comes of the ones after it.
proof fn lemma_installed_stays_none(
    cache: Cached,
    rom: Seq<u8>,
    ctx: Context,
    keys: Seq<BlockKey>,
    n: int,
)
    requires
        0 <= n <= keys.len(),
        installed(cache, rom, ctx, keys.take(n)) is None,
    ensures
        installed(cache, rom, ctx, keys) is None,
    decreases keys.len() - n,
{
    if n == keys.len() {
        assert(keys.take(n) =~= keys);
    } else {
        assert(keys.take(n + 1).drop_last() =~= keys.take(n));
        lemma_installed_stays_none(cache, rom, ctx, keys, n + 1);
    }
}

fn translate_at(rom: &[u8], bank: u16, addr: u16, ctx: Context) -> (block: Block)
    ensures
        translate::translates(block, discover::rom_image(rom@, bank), addr, ctx),
{
    let ghost mem = discover::rom_image(rom@, bank);
    let fetch = |a: u16| -> (b: u8)
        ensures
            b == discover::rom_byte(rom@, bank, a),
        { discover::peek(rom, bank, a) };
    translate::translate_in(addr, ctx, &fetch, Ghost(mem))
}

/// Translates the blocks of `keys`, one after the other, into a fresh cache with
/// `arena_bytes` of room, of which the trampoline takes its share. Nothing comes back
/// when they do not all fit.
pub fn translate_all(
    rom: &[u8],
    ctx: Context,
    keys: &[BlockKey],
    arena_bytes: usize,
) -> (result: Option<CodeCache>)
    requires
        arena_bytes == 0 || x64::encode_all(translate::trampoline_ops()).len() <= arena_bytes,
    ensures
        match result {
            Some(cache) => {
                &&& arena_bytes > 0
                &&& installed(exec::empty_cache(arena_bytes as nat), rom@, ctx, keys@) == Some(
                    cache@,
                )
                &&& cache@.wf()
            },
            None => arena_bytes == 0 || installed(
                exec::empty_cache(arena_bytes as nat),
                rom@,
                ctx,
                keys@,
            ) is None,
        },
{
    let mut cache = match CodeCache::new(arena_bytes) {
        Some(cache) => cache,
        None => return None,
    };
    let ghost empty = exec::empty_cache(arena_bytes as nat);
    assert(keys@.take(0) =~= seq![]);
    for i in 0..keys.len()
        invariant
            cache@.wf(),
            installed(empty, rom@, ctx, keys@.take(i as int)) == Some(cache@),
            empty == exec::empty_cache(arena_bytes as nat),
    {
        let key = keys[i];
        let ghost mem = discover::rom_image(rom@, key.bank);
        let block = translate_at(rom, key.bank, key.addr, ctx);
        proof {
            assert(keys@.take(i + 1).drop_last() =~= keys@.take(i as int));
            assert(keys@.take(i + 1).last() == key);
            let unlinked = program::unlinked();
            assert(program::code_len(program::block_ops(mem, key.addr, ctx, unlinked))
                == block.code.len());
            linking::law_links(mem, key.addr, ctx, unlinked);
        }
        if !cache.has_room(key, &block) {
            proof {
                lemma_installed_stays_none(empty, rom@, ctx, keys@, i + 1);
            }
            return None;
        }
        cache.install(key, block);
    }
    assert(keys@.take(keys@.len() as int) =~= keys@);
    Some(cache)
}

/// What was translated ahead of time.
pub struct Ahead {
    /// What discovery found.
    pub report: Report,
    /// The machine code of it.
    pub code: Vec<u8>,
    /// Where in the code each block is.
    pub blocks: Vec<BlockEntry>,
}

/// What a cache holds, in the form that is stamped: the code, and a block map that lists
/// every block once.
pub open spec fn stamped_form(code: Seq<u8>, blocks: Seq<BlockEntry>, cache: Cached) -> bool {
    &&& code == cache.bytes.take(cache.used as int)
    &&& exists|map: Seq<(BlockKey, u32, u32)>| #[trigger]
        exec::is_block_map(map, cache.blocks) && blocks == payload::export_map(map)
}

/// Discover and translate everything reachable without running the game. Nothing comes
/// back when it does not fit the arena.
pub fn translate_ahead_of_time(
    rom: &[u8],
    cart: &Cartridge,
    budget: usize,
    per_bank: usize,
) -> (result: Option<Ahead>)
    ensures
        match result {
            Some(ahead) => {
                &&& discover::reports(ahead.report, rom@, budget as nat, per_bank as nat)
                &&& installed(
                    exec::empty_cache(DEFAULT_ARENA as nat),
                    rom@,
                    Context { lower_window_fixed: machine::lower_fixed(cart@.header) },
                    ahead.report.blocks@,
                ) matches Some(cache) && stamped_form(ahead.code@, ahead.blocks@, cache)
            },
            None => exists|report: Report| #[trigger]
                discover::reports(report, rom@, budget as nat, per_bank as nat) && installed(
                    exec::empty_cache(DEFAULT_ARENA as nat),
                    rom@,
                    Context { lower_window_fixed: machine::lower_fixed(cart@.header) },
                    report.blocks@,
                ) is None,
        },
{
    let report = discover::discover_with(rom, budget, per_bank);
    let ctx = Context { lower_window_fixed: machine::lower_window_is_fixed(cart) };
    proof {
        x64::lemma_encode_all_short(translate::trampoline_ops());
    }
    let cache = match translate_all(rom, ctx, report.blocks.as_slice(), DEFAULT_ARENA) {
        Some(cache) => cache,
        None => return None,
    };
    let (code, map) = cache.export();
    let blocks = payload::from_export(map.as_slice());
    assert(exec::is_block_map(map@, cache@.blocks));
    Some(Ahead { report, code, blocks })
}

// ---- ahead of time or on demand ------------------------------------------

/// An instruction is decoded the same out of two memories that agree on its bytes.
proof fn lemma_same_insn(a: spec_fn(u16) -> u8, b: spec_fn(u16) -> u8, pc: u16)
    requires
        a(pc) == b(pc),
        decode::insn_at(a, pc).len >= 2 ==> a(decode::wrap16(pc + 1)) == b(decode::wrap16(pc + 1)),
        decode::insn_at(a, pc).len >= 3 ==> a(decode::wrap16(pc + 2)) == b(decode::wrap16(pc + 2)),
    ensures
        decode::insn_at(a, pc) == decode::insn_at(b, pc),
{
}

/// What translating a block reads: two memories that agree on the block's window, and on
/// what its last instruction reads beyond it, give the same block.
proof fn lemma_same_block(
    a: spec_fn(u16) -> u8,
    b: spec_fn(u16) -> u8,
    start: u16,
    pc: u16,
    count: nat,
    g: Gen,
)
    requires
        start < 0x8000,
        program::region_of(pc) == program::region_of(start),
        forall|x: u16| program::region_of(x) == program::region_of(start) ==> #[trigger] a(x) == b(x),
        start >= 0x4000 ==> a(0x8000) == b(0x8000) && a(0x8001) == b(0x8001),
        start < 0x4000 ==> decode::next_addr(program::last_insn(a, start, pc, count)) <= 0x4000,
    ensures
        program::last_insn(a, start, pc, count) == program::last_insn(b, start, pc, count),
        program::body(a, start, pc, count, g) == program::body(b, start, pc, count, g),
    decreases program::MAX_INSTRUCTIONS - count,
{
    let insn = decode::insn_at(a, pc);
    let next = decode::next_addr(insn);
    decode::law_lengths(insn.opcode);
    assert(next == pc + insn.len);
    if start < 0x4000 {
        assert(next <= 0x4000);
    }
    assert(a(pc) == b(pc));
    if insn.len >= 2 {
        let x = decode::wrap16(pc + 1);
        assert(x == pc + 1);
        assert(a(x) == b(x));
    }
    if insn.len >= 3 {
        let x = decode::wrap16(pc + 2);
        assert(x == pc + 2);
        assert(a(x) == b(x));
    }
    lemma_same_insn(a, b, pc);
    if !program::ends_with(insn, start, count) {
        lemma_same_block(a, b, start, next, count + 1, g.instruction(insn));
    }
}

/// Whether the block at `key` keeps to its window: no instruction of it starts in the
/// lower window and ends in the upper one.
pub open spec fn keeps_to_window(rom: Seq<u8>, key: BlockKey) -> bool {
    let mem = discover::rom_image(rom, key.bank);
    key.addr >= 0x4000 || decode::next_addr(program::last_insn(mem, key.addr, key.addr, 1))
        <= 0x4000
}

/// Code that is translated ahead of time is the code that the running game would have
/// translated on demand, whenever the bank it was translated for is the one that is
/// mapped. An instruction across the two windows is left out: ahead of time nobody knows
/// which bank it continues in.
pub proof fn law_ahead_is_on_demand(game: Game, key: BlockKey)
    requires
        game.host.mmu.wf(),
        key.addr < 0x8000,
        key == discover::key_at(game.host.mmu.bank_at(key.addr), key.addr),
        key.bank == game.host.mmu.bank_at(key.addr),
        keeps_to_window(game.host.mmu.cart.rom, key),
    ensures
        machine::translation(
            discover::rom_image(game.host.mmu.cart.rom, key.bank),
            key.addr,
            game.ctx,
        ) == machine::translation(game.memory(), key.addr, game.ctx),
{
    let board = game.host.mmu.cart;
    let image = discover::rom_image(board.rom, key.bank);
    let memory = game.memory();
    cartridge::law_bank_fits_its_key(board);
    assert forall|x: u16| program::region_of(x) == program::region_of(key.addr) implies #[trigger] image(x)
        == memory(x) by {}
    lemma_same_block(image, memory, key.addr, key.addr, 1, program::fresh(0));
}

} // verus!
