//! Blocks, the arena they are installed in, and what travels with a converted game.

use gbtoexe::convert::{translate_ahead_of_time, translate_all};
use gbtoexe::hw::Cartridge;
use gbtoexe::payload::to_import;
use gbtoexe::recomp::discover::{discover, discover_with, peek};
use gbtoexe::recomp::exec::{BlockKey, CodeCache, ExecMem};
use gbtoexe::recomp::machine::lower_window_is_fixed;
use gbtoexe::recomp::program::Context;
use gbtoexe::recomp::translate::{build_trampoline, region, translate_block};
use gbtoexe::recomp::x64::{Alu, Asm, Cc, Rm, Shift, RAX, RCX, RDX};

fn fixed() -> Context {
    Context { lower_window_fixed: true }
}

fn block_at(program: &[u8], at: u16, ctx: Context) -> gbtoexe::recomp::Block {
    let bytes = program.to_vec();
    translate_block(at, ctx, &move |a: u16| {
        bytes.get(a.wrapping_sub(at) as usize).copied().unwrap_or(0)
    })
}

#[test]
fn an_encoder_emits_the_documented_bytes() {
    let mut buf = Asm::new();
    assert!(buf.is_empty());
    buf.mov_imm32(RAX, 0x1234_5678);
    buf.mov_store(Rm::Mem { base: 3, disp: 0x10 }, RAX, 4);
    buf.alu_imm(Alu::Add, Rm::R(RCX), 5, 4);
    buf.shift_imm(Shift::Shl, Rm::R(RDX), 3, 1);
    buf.setcc(Cc::E, Rm::R(RAX));
    buf.ret();
    assert_eq!(
        buf.code,
        [
            0xb8, 0x78, 0x56, 0x34, 0x12, // mov eax, 0x12345678
            0x89, 0x43, 0x10, // mov [rbx+0x10], eax
            0x83, 0xc1, 0x05, // add ecx, 5
            0x40, 0xc0, 0xe2, 0x03, // shl dl, 3
            0x0f, 0x94, 0xc0, // sete al
            0xc3, // ret
        ]
    );
    assert_eq!(buf.len(), 19);
}

#[test]
fn a_jump_is_bound_to_where_it_leads() {
    let mut buf = Asm::new();
    let over = buf.jcc_placeholder(Cc::Ne);
    buf.ret();
    buf.bind(over);
    assert_eq!(buf.code, [0x0f, 0x85, 1, 0, 0, 0, 0xc3]);
}

#[test]
fn regions_follow_the_memory_map() {
    assert_eq!(region(0x0000), region(0x3fff));
    assert_ne!(region(0x3fff), region(0x4000));
    assert_ne!(region(0x7fff), region(0xc000));
}

#[test]
fn a_block_ends_behind_its_last_instruction() {
    let block = block_at(&[0x3e, 0x01, 0x04, 0xc3, 0x00, 0x02], 0x0150, fixed());
    assert_eq!(block.start, 0x0150);
    assert_eq!(block.end, 0x0156);
    assert_eq!(block.links.len(), 1);
    assert_eq!(block.links[0].target, 0x0200);
}

#[test]
fn blocks_lie_aligned_behind_the_trampoline() {
    let mut cache = CodeCache::new(0x1_0000).expect("an arena");
    assert_eq!(cache.trampoline(), 0);
    let tramp = build_trampoline();
    assert_eq!(&cache.arena()[..tramp.len()], &tramp[..]);
    assert_eq!(cache.used(), tramp.len());

    let key = BlockKey { bank: 0, addr: 0x0150 };
    assert_eq!(cache.lookup(key), None);
    let block = block_at(&[0x76], 0x0150, fixed());
    let code = block.code.clone();
    let info = cache.install(key, block);
    assert_eq!(info.offset % 16, 0);
    assert!(info.offset >= tramp.len());
    assert_eq!(&cache.arena()[info.offset..info.offset + code.len()], &code[..]);
    assert_eq!(cache.lookup(key), Some(info));
    assert_eq!(cache.block_count(), 1);
}

#[test]
fn a_link_is_joined_once_its_target_is_there() {
    let mut cache = CodeCache::new(0x1_0000).expect("an arena");
    let from = BlockKey { bank: 0, addr: 0x0150 };
    let to = BlockKey { bank: 0, addr: 0x0200 };
    let jump = block_at(&[0xc3, 0x00, 0x02], 0x0150, fixed());
    let site = jump.links[0].site;
    let first = cache.install(from, jump);
    let second = cache.install(to, block_at(&[0x76], 0x0200, fixed()));
    let at = first.offset + site;
    let rel = i32::from_le_bytes([
        cache.arena()[at],
        cache.arena()[at + 1],
        cache.arena()[at + 2],
        cache.arena()[at + 3],
    ]);
    assert_eq!(at as i64 + 4 + rel as i64, second.offset as i64);
}

#[test]
fn writing_to_a_page_drops_its_blocks() {
    let mut cache = CodeCache::new(0x1_0000).expect("an arena");
    let here = BlockKey { bank: 0, addr: 0xc000 };
    let there = BlockKey { bank: 0, addr: 0xc200 };
    cache.install(here, block_at(&[0xc9], 0xc000, fixed()));
    cache.install(there, block_at(&[0xc9], 0xc200, fixed()));
    cache.invalidate_page(0xc0);
    assert_eq!(cache.lookup(here), None);
    assert!(cache.lookup(there).is_some());
}

#[test]
fn an_exported_cache_comes_back_whole() {
    let mut cache = CodeCache::new(0x1_0000).expect("an arena");
    let key = BlockKey { bank: 2, addr: 0x4123 };
    let info = cache.install(key, block_at(&[0x3c, 0xc9], 0x4123, fixed()));
    let (blob, map) = cache.export();
    assert_eq!(blob.len(), cache.used());
    assert_eq!(map, vec![(key, info.offset as u32, info.end as u32)]);

    let mut fresh = CodeCache::new(0x2_0000).expect("an arena");
    fresh.import(&blob, &map);
    assert_eq!(fresh.used(), cache.used());
    let found = fresh.lookup(key).expect("the block");
    assert_eq!(found.offset, info.offset);
    assert_eq!(found.end, info.end);
    assert_eq!(&fresh.arena()[..blob.len()], &blob[..]);
}

#[test]
fn there_is_no_arena_of_no_bytes() {
    assert!(ExecMem::new(0).is_none());
    assert!(CodeCache::new(0).is_none());
    let mut mem = ExecMem::new(8).expect("eight bytes");
    mem.write(2, &[1, 2, 3]);
    assert_eq!(mem.read(0, 8), [0, 0, 1, 2, 3, 0, 0, 0]);
    assert_eq!(mem.capacity(), 8);
}

fn small_game() -> Vec<u8> {
    let mut rom = vec![0u8; 0x8000];
    rom[0x100..0x104].copy_from_slice(&[0x00, 0xc3, 0x50, 0x01]);
    rom[0x150..0x156].copy_from_slice(&[0xcd, 0x00, 0x02, 0x76, 0x18, 0xfd]);
    rom[0x200..0x203].copy_from_slice(&[0x3e, 0x42, 0xc9]);
    rom
}

#[test]
fn everything_reachable_is_translated_ahead_of_time() {
    let rom = small_game();
    let cart = Cartridge::new(rom.clone()).ok().expect("a whole cartridge");
    let ahead = translate_ahead_of_time(&rom, &cart, 1000, 0).expect("room for everything");
    assert!(!ahead.report.truncated);
    assert_eq!(ahead.blocks.len(), ahead.report.blocks.len());
    for addr in [0x0100, 0x0150, 0x0200] {
        assert!(ahead.blocks.iter().any(|b| b.addr == addr), "{addr:#06x}");
    }
    let mut cache = CodeCache::new(0x10_0000).expect("an arena");
    cache.import(&ahead.code, &to_import(&ahead.blocks));
    assert_eq!(cache.block_count(), ahead.blocks.len());
}

#[test]
fn what_does_not_fit_the_arena_is_refused() {
    let rom = small_game();
    let report = discover(&rom, 1000);
    let tramp = build_trampoline().len();
    assert!(translate_all(&rom, fixed(), &report.blocks, tramp).is_none());
    assert!(translate_all(&rom, fixed(), &report.blocks, 0).is_none());
    let cache = translate_all(&rom, fixed(), &report.blocks, 0x10_0000).expect("room");
    assert_eq!(cache.block_count(), report.blocks.len());
}

#[test]
fn discovery_finds_nothing_twice() {
    let report = discover(&small_game(), 1000);
    let mut seen = report.blocks.clone();
    seen.sort();
    seen.dedup();
    assert_eq!(seen.len(), report.blocks.len());
}

#[test]
fn the_budget_bounds_what_is_found() {
    let rom = vec![0u8; 0x2_0000];
    let report = discover_with(&rom, 10, 4096);
    assert!(report.truncated);
    assert!(report.blocks.len() <= 10);
    let whole = discover_with(&small_game(), 200_000, 0);
    assert!(!whole.truncated);
}

#[test]
fn a_bank_is_seen_through_its_window() {
    let mut rom = vec![0u8; 0x1_0000];
    rom[0x8123] = 0x77;
    assert_eq!(peek(&rom, 2, 0x4123), 0x77);
    assert_eq!(peek(&rom, 1, 0x4123), 0x00);
    assert_eq!(peek(&rom, 9, 0x4123), 0xff);
}

#[test]
fn only_a_large_mbc1_moves_its_lower_window() {
    for (kind, banks, is_fixed) in [(0x01, 64, false), (0x01, 32, true), (0x19, 64, true)] {
        let mut rom = vec![0u8; banks * 0x4000];
        rom[0x147] = kind;
        let cart = Cartridge::new(rom).ok().expect("a whole cartridge");
        assert_eq!(lower_window_is_fixed(&cart), is_fixed);
    }
}

#[test]
fn a_block_is_the_same_ahead_of_time_and_on_demand() {
    let rom = small_game();
    let cart = Cartridge::new(rom.clone()).ok().expect("a whole cartridge");
    for addr in [0x0100u16, 0x0150, 0x0200, 0x4000] {
        let bank = cart.bank_at(addr);
        let ahead = translate_block(addr, fixed(), &|a: u16| peek(&rom, bank, a));
        let demand = translate_block(addr, fixed(), &|a: u16| {
            if a < 0x8000 {
                cart.read_rom(a)
            } else {
                0xff
            }
        });
        assert_eq!(ahead.code, demand.code);
        assert_eq!(ahead.links, demand.links);
        assert_eq!(ahead.end, demand.end);
    }
}

#[test]
fn code_in_ram_is_never_linked() {
    // CALL 0x0150 out of RAM, and a jump from ROM into RAM.
    assert!(block_at(&[0xcd, 0x50, 0x01], 0xc000, fixed()).links.is_empty());
    assert!(block_at(&[0xc3, 0x00, 0xc0], 0x0150, fixed()).links.is_empty());
    // A conditional branch in ROM has a link for each side.
    assert_eq!(block_at(&[0x20, 0x02], 0x0150, fixed()).links.len(), 2);
}

#[test]
fn installing_a_block_leaves_the_others_where_they_are() {
    let mut cache = CodeCache::new(0x1_0000).expect("an arena");
    let first = block_at(&[0x3e, 0x01, 0x20, 0x02], 0x0150, fixed());
    let (code, links) = (first.code.clone(), first.links.clone());
    let at = cache.install(BlockKey { bank: 0, addr: 0x0150 }, first).offset;
    for link in &links {
        assert_eq!(&code[link.site..link.site + 4], &[0, 0, 0, 0], "a new link is open");
    }
    for target in links.iter().map(|l| l.target) {
        let key = BlockKey { bank: 0, addr: target };
        cache.install(key, block_at(&[0x76], target, fixed()));
    }
    for (p, &byte) in code.iter().enumerate() {
        let linked = links.iter().any(|l| l.site <= p && p < l.site + 4);
        if !linked {
            assert_eq!(cache.arena()[at + p], byte);
        }
    }
    cache.invalidate_page(0xc0);
    assert!(cache.lookup(BlockKey { bank: 0, addr: 0x0150 }).is_some());
}

#[test]
fn every_byte_of_a_block_is_read_once() {
    // A source that never answers alike still gives one block.
    let asked = std::cell::RefCell::new(Vec::new());
    let code = [0x3eu8, 0x12, 0x06, 0x34, 0xc3, 0x00, 0x02];
    let block = translate_block(0xc000, fixed(), &|a: u16| {
        asked.borrow_mut().push(a);
        code[(a - 0xc000) as usize]
    });
    assert_eq!(*asked.borrow(), (0xc000..0xc007).collect::<Vec<u16>>());
    assert_eq!(block.end, 0xc007);
    assert_eq!(block.instructions, 3);
}

#[test]
fn an_exported_cache_fits_a_smaller_arena() {
    let mut cache = CodeCache::new(0x1_0000).expect("an arena");
    let key = BlockKey { bank: 0, addr: 0x0150 };
    cache.install(key, block_at(&[0x3c, 0xc9], 0x0150, fixed()));
    let (blob, map) = cache.export();
    assert!(map.iter().all(|&(_, offset, _)| offset as usize <= blob.len()));
    let mut small = CodeCache::new(blob.len()).expect("an arena");
    small.import(&blob, &map);
    assert_eq!(small.arena(), &blob[..]);
    assert!(small.lookup(key).is_some());
}

#[test]
fn an_arena_larger_than_a_branch_spans_takes_blocks() {
    let mut cache = CodeCache::new(0x8000_0001).expect("an arena");
    let key = BlockKey { bank: 0, addr: 0x0150 };
    let block = block_at(&[0x3c, 0x18, 0xfd], 0x0150, fixed());
    assert!(cache.has_room(key, &block));
    let info = cache.install(key, block);
    assert_eq!(cache.lookup(key).map(|found| found.offset), Some(info.offset));
}

#[test]
fn a_block_that_does_not_fit_has_no_room() {
    let block = || block_at(&[0x3c, 0xc9], 0x0150, fixed());
    let key = BlockKey { bank: 0, addr: 0x0150 };
    let start = CodeCache::new(0x1000).expect("an arena").used().next_multiple_of(16);
    let exact = start + block().code.len();
    assert!(CodeCache::new(exact).expect("an arena").has_room(key, &block()));
    assert!(!CodeCache::new(exact - 1).expect("an arena").has_room(key, &block()));
}
