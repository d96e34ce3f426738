//! What the bus promises: memory reads back what was written, DMA copies what it was
//! pointed at, and the translator sees the code that the processor would.
use vstd::prelude::*;
use crate::hw::cartridge::Board;
use crate::hw::console::{Console, HdmaMode};
use crate::hw::picture::Picture;

verus! {

/// Work RAM reads back what was written, at the address and at its echo, and nothing else
/// in it changes.
pub proof fn law_work_ram(console: Console, addr: u16, value: u8, now: u64)
    requires
        console.wf(),
        0xc000 <= addr <= 0xfdff,
    ensures
        ({
            let next = console.written(addr, value, now);
            &&& next.byte(addr) == value
            &&& next.code_byte(addr) == value
            &&& addr <= 0xddff ==> next.byte((addr + 0x2000) as u16) == value
            &&& addr >= 0xe000 ==> next.byte((addr - 0x2000) as u16) == value
            &&& forall|other: u16|
                0xc000 <= other <= 0xfdff && console.wram_index(other) != console.wram_index(addr)
                    ==> #[trigger] next.byte(other) == console.byte(other)
        }),
{
    reveal(Console::written);
}

/// High RAM reads back what was written, and nothing else in it changes.
pub proof fn law_high_ram(console: Console, addr: u16, value: u8, now: u64)
    requires
        console.wf(),
        0xff80 <= addr <= 0xfffe,
    ensures
        ({
            let next = console.written(addr, value, now);
            &&& next.byte(addr) == value
            &&& next.code_byte(addr) == value
            &&& forall|other: u16|
                0xff80 <= other <= 0xfffe && other != addr ==> #[trigger] next.byte(other)
                    == console.byte(other)
        }),
{
    reveal(Console::written);
}

/// Writing to RAM of any kind, the cartridge's included, moves the version of its page on,
/// and of no other page.
pub proof fn law_page_version(console: Console, addr: u16, value: u8, now: u64)
    requires
        console.wf(),
        0xa000 <= addr <= 0xfdff || 0xff80 <= addr <= 0xfffe,
    ensures
        ({
            let next = console.written(addr, value, now);
            let page = addr as int / 256;
            &&& next.code_version[page] == console.code_version[page].wrapping_add(1)
            &&& forall|other: int|
                0 <= other < 256 && other != page ==> #[trigger] next.code_version[other]
                    == console.code_version[other]
        }),
{
    reveal(Console::written);
}

/// Wherever code can run from, the translator sees what the processor would read.
pub proof fn law_code_is_memory(console: Console, addr: u16)
    requires
        addr <= 0x7fff || 0xa000 <= addr <= 0xfdff || 0xff80 <= addr <= 0xfffe,
    ensures
        console.code_byte(addr) == console.byte(addr),
{
}

/// OAM reads as 0xff and ignores writes while DMA fills it.
pub proof fn law_oam_is_busy(console: Console, addr: u16, value: u8, now: u64)
    requires
        console.dma_active,
        0xfe00 <= addr <= 0xfe9f,
    ensures
        console.byte(addr) == 0xff,
        console.written(addr, value, now) == console,
{
    reveal(Console::written);
}

/// The console with a part of OAM filled in and DMA that far.
pub open spec fn filled(console: Console, oam: Seq<u8>, index: int, timer: int) -> Console {
    Console {
        ppu: Picture { oam, ..console.ppu },
        dma_index: index as usize,
        dma_timer: timer as u32,
        dma_active: index < 0xa0,
        ..console
    }
}

proof fn lemma_dma(console: Console, oam: Seq<u8>, index: int, timer: int)
    requires
        oam.len() == 0xa0,
        0 <= index <= 0xa0,
        (0xa0 - index) * 4 <= timer <= u32::MAX,
        forall|i: int|
            0 <= i < index ==> #[trigger] oam[i] == console.dma_byte(
                (console.dma_source * 256 + i) as u16,
            ),
    ensures
        ({
            let done = filled(console, oam, index, timer).dma_caught_up();
            &&& !done.dma_active
            &&& done.ppu.oam.len() == 0xa0
            &&& forall|i: int|
                0 <= i < 0xa0 ==> #[trigger] done.ppu.oam[i] == console.dma_byte(
                    (console.dma_source * 256 + i) as u16,
                )
        }),
    decreases 0xa0 - index,
{
    let here = filled(console, oam, index, timer);
    if index < 0xa0 {
        let src = (console.dma_source * 256 + index) as u16;
        let byte = here.dma_byte(src);
        assert(byte == console.dma_byte(src));
        lemma_dma(console, oam.update(index, byte), index + 1, timer - 4);
        assert(here.dma_caught_up() == filled(
            console,
            oam.update(index, byte),
            index + 1,
            timer - 4,
        ).dma_caught_up());
    }
}

/// OAM DMA started from page `page` has copied its 160 bytes once 640 clocks have
/// passed: OAM then holds what the page did, and is readable again.
pub proof fn law_oam_dma(console: Console, page: u8, now: u64, t: u32)
    requires
        console.wf(),
        t >= 640,
    ensures
        ({
            let done = console.written(0xff46, page, now).dma_stepped(t);
            &&& !done.dma_active
            &&& forall|i: int|
                0 <= i < 0xa0 ==> #[trigger] done.ppu.oam[i] == console.dma_byte(
                    (page * 256 + i) as u16,
                )
        }),
{
    reveal(Console::written);
    reveal(Console::io_written);
    let started = console.written(0xff46, page, now);
    let timed = Console { dma_timer: t, ..started };
    assert(timed == filled(started, console.ppu.oam, 0, t as int));
    lemma_dma(started, console.ppu.oam, 0, t as int);
    assert forall|i: int| 0 <= i < 0xa0 implies #[trigger] started.dma_byte((page * 256 + i) as u16)
        == console.dma_byte((page * 256 + i) as u16) by {}
}

/// STOP switches a CGB's speed exactly when a switch was asked for, once, and resets DIV.
pub proof fn law_speed_switch(console: Console)
    ensures
        console.stopped().double_speed == (console.double_speed != console.switches_speed()),
        console.switches_speed() ==> !console.stopped().switches_speed(),
        console.switches_speed() ==> console.stopped().timer.reads(0xff04) == 0,
        !console.switches_speed() ==> console.stopped() == console,
{
    crate::hw::bits::lemma_word(0);
}

proof fn lemma_dma_keeps(console: Console)
    ensures
        console.dma_caught_up().clock == console.clock,
        console.dma_caught_up().elapsed == console.elapsed,
        console.dma_caught_up().double_speed == console.double_speed,
        console.dma_caught_up().cgb == console.cgb,
        console.dma_caught_up().wram == console.wram,
        console.dma_caught_up().wram_bank == console.wram_bank,
        console.dma_caught_up().hram == console.hram,
        console.dma_caught_up().cart == console.cart,
    decreases console.dma_timer,
{
    if console.dma_active && console.dma_timer >= 4 {
        let byte = console.dma_byte((console.dma_source * 256 + console.dma_index) as u16);
        lemma_dma_keeps(
            Console {
                ppu: Picture {
                    oam: console.ppu.oam.update(console.dma_index as int, byte),
                    ..console.ppu
                },
                dma_timer: (console.dma_timer - 4) as u32,
                dma_index: (console.dma_index + 1) as usize,
                dma_active: console.dma_index + 1 != 0xa0,
                ..console
            },
        );
    }
}

proof fn lemma_hdma_keeps(console: Console, n: nat)
    ensures
        console.hdma_moved(n).clock == console.clock,
        console.hdma_moved(n).elapsed == console.elapsed,
        console.hdma_moved(n).cgb == console.cgb,
        console.hdma_moved(n).wram == console.wram,
        console.hdma_moved(n).wram_bank == console.wram_bank,
        console.hdma_moved(n).hram == console.hram,
        console.hdma_moved(n).cart == console.cart,
    decreases n,
{
    if n > 0 {
        lemma_hdma_keeps(console, (n - 1) as nat);
    }
}

/// Every clock is counted, both in the count since power-on and in the count that pacing
/// takes.
pub proof fn law_clock(console: Console, t: u32)
    ensures
        console.ticked(t).clock == console.clock.wrapping_add(t as u64),
        console.ticked(t).elapsed == console.elapsed.wrapping_add(t as u64),
{
    lemma_tick_keeps(console, t);
}

/// The passing of time changes neither work RAM nor high RAM nor the cartridge, nor which
/// model the console is.
pub proof fn law_time_keeps_work_ram(console: Console, t: u32)
    ensures
        console.ticked(t).cgb == console.cgb,
        console.ticked(t).wram == console.wram,
        console.ticked(t).wram_bank == console.wram_bank,
        console.ticked(t).hram == console.hram,
        console.ticked(t).cart == console.cart,
{
    lemma_tick_keeps(console, t);
}

/// What a write to high RAM comes to.
pub proof fn lemma_high_write(console: Console, addr: u16, value: u8, now: u64)
    requires
        0xff80 <= addr <= 0xfffe,
    ensures
        console.written(addr, value, now).hram == console.hram.update(addr - 0xff80, value),
{
    reveal(Console::written);
}

/// What a write to work RAM comes to.
pub proof fn lemma_work_write(console: Console, addr: u16, value: u8, now: u64)
    requires
        0xc000 <= addr <= 0xfdff,
    ensures
        console.written(addr, value, now).wram == console.wram.update(
            console.wram_index(addr),
            value,
        ),
        console.written(addr, value, now).wram_bank == console.wram_bank,
{
    reveal(Console::written);
}

proof fn lemma_tick_keeps(console: Console, t: u32)
    ensures
        console.ticked(t).clock == console.clock.wrapping_add(t as u64),
        console.ticked(t).elapsed == console.elapsed.wrapping_add(t as u64),
        console.ticked(t).cgb == console.cgb,
        console.ticked(t).wram == console.wram,
        console.ticked(t).wram_bank == console.wram_bank,
        console.ticked(t).hram == console.hram,
        console.ticked(t).cart == console.cart,
{
    reveal(Console::ticked);
    reveal(Console::hdma_block);
    let counted = Console {
        elapsed: console.elapsed.wrapping_add(t as u64),
        clock: console.clock.wrapping_add(t as u64),
        timer: console.timer.after(t as nat),
        ..console
    };
    lemma_dma_keeps(Console { dma_timer: counted.dma_timer.wrapping_add(t), ..counted });
    let moved = counted.dma_stepped(t).serial_stepped(t);
    let dots = moved.video_clocks(t);
    lemma_hdma_keeps(Console { ppu: moved.ppu.stepped(dots), ..moved }, 0x10);
}

// ---- video DMA -----------------------------------------------------------

proof fn lemma_ticks_keep_vram(pic: Picture, n: nat)
    ensures
        pic.ticks(n).vram == pic.vram,
    decreases n,
{
    if n > 0 {
        lemma_ticks_keep_vram(pic, (n - 1) as nat);
    }
}

proof fn lemma_dma_keeps_vram(console: Console)
    ensures
        console.dma_caught_up().ppu.vram == console.ppu.vram,
        console.dma_caught_up().hdma_mode == console.hdma_mode,
        console.dma_caught_up().hdma_len == console.hdma_len,
    decreases console.dma_timer,
{
    if console.dma_active && console.dma_timer >= 4 {
        let byte = console.dma_byte((console.dma_source * 256 + console.dma_index) as u16);
        lemma_dma_keeps_vram(
            Console {
                ppu: Picture {
                    oam: console.ppu.oam.update(console.dma_index as int, byte),
                    ..console.ppu
                },
                dma_timer: (console.dma_timer - 4) as u32,
                dma_index: (console.dma_index + 1) as usize,
                dma_active: console.dma_index + 1 != 0xa0,
                ..console
            },
        );
    }
}

/// The passing of time leaves video memory alone while no HBlank DMA runs.
pub proof fn law_time_keeps_video_ram(console: Console, t: u32)
    requires
        console.hdma_mode != HdmaMode::HBlank,
    ensures
        console.ticked(t).ppu.vram == console.ppu.vram,
        console.ticked(t).hdma_mode == console.hdma_mode,
        console.ticked(t).hdma_len == console.hdma_len,
{
    reveal(Console::ticked);
    let counted = Console {
        elapsed: console.elapsed.wrapping_add(t as u64),
        clock: console.clock.wrapping_add(t as u64),
        timer: console.timer.after(t as nat),
        ..console
    };
    lemma_dma_keeps_vram(Console { dma_timer: counted.dma_timer.wrapping_add(t), ..counted });
    let moved = counted.dma_stepped(t).serial_stepped(t);
    lemma_ticks_keep_vram(moved.ppu, (moved.video_clocks(t) / 4) as nat);
}

/// Where in video memory byte `i` of a transfer to `dst` lands: the transfer wraps inside
/// the selected bank.
pub open spec fn landing(bank: usize, dst: u16, i: int) -> int {
    bank * 0x2000 + (dst + i) % 0x2000
}

/// Whether the first `n` bytes that a video DMA transfer reads lie outside video memory.
pub open spec fn reads_elsewhere(src: u16, n: int) -> bool {
    forall|i: int|
        0 <= i < n ==> !(0x8000 <= #[trigger] src.wrapping_add(i as u16) <= 0x9fff)
}

/// `console` with other video memory.
pub open spec fn with_vram(console: Console, vram: Seq<u8>) -> Console {
    Console { ppu: Picture { vram, ..console.ppu }, ..console }
}

/// Whether `vram` holds the first `n` bytes of the transfer that `from` is set up for.
#[verifier::opaque]
pub open spec fn carried(from: Console, vram: Seq<u8>, n: int) -> bool {
    forall|i: int|
        0 <= i < n ==> vram[#[trigger] landing(from.ppu.vram_bank, from.hdma_dst, i)]
            == from.dma_byte(from.hdma_src.wrapping_add(i as u16))
}

/// Whether `new` is `old` but for where the next `n` bytes of a transfer to `dst` land.
#[verifier::opaque]
spec fn spared(bank: usize, dst: u16, old: Seq<u8>, new: Seq<u8>, n: int) -> bool {
    forall|p: int|
        0 <= p < 0x4000 && (forall|i: int| 0 <= i < n ==> p != #[trigger] landing(bank, dst, i))
            ==> #[trigger] new[p] == old[p]
}

proof fn lemma_hdma_moved(console: Console, n: nat)
    requires
        console.ppu.vram.len() == 0x4000,
        console.ppu.vram_bank <= 1,
        n <= 0x10,
        reads_elsewhere(console.hdma_src, n as int),
    ensures
        ({
            let vram = console.hdma_moved(n).ppu.vram;
            let bank = console.ppu.vram_bank;
            &&& console.hdma_moved(n) == with_vram(console, vram)
            &&& vram.len() == 0x4000
            &&& carried(console, vram, n as int)
            &&& spared(bank, console.hdma_dst, console.ppu.vram, vram, n as int)
        }),
    decreases n,
{
    reveal(carried);
    reveal(spared);
    if n > 0 {
        let k = (n - 1) as nat;
        lemma_hdma_moved(console, k);
        let before = console.hdma_moved(k);
        let vram = console.hdma_moved(n).ppu.vram;
        let bank = console.ppu.vram_bank;
        let dst = console.hdma_dst;
        let here = landing(bank, dst, k as int);
        let from = console.hdma_src.wrapping_add(k as u16);
        assert(dst.wrapping_add(k as u16) % 0x2000 == (dst + k) % 0x2000);
        assert(before.dma_byte(from) == console.dma_byte(from));
        assert(vram == before.ppu.vram.update(here, console.dma_byte(from)));
        assert forall|i: int| 0 <= i < n implies vram[#[trigger] landing(bank, dst, i)]
            == console.dma_byte(console.hdma_src.wrapping_add(i as u16)) by {
            if i < k {
                assert(landing(bank, dst, i) != here);
            }
        }
    }
}

/// Addresses that are advanced a block at a time.
proof fn lemma_advanced(bank: usize, from: u16, later: u16, k: int, j: int)
    requires
        0 <= k < 128,
        0 <= j < 16,
        later == (from + 16 * k) % 0x1_0000,
    ensures
        later.wrapping_add(j as u16) == from.wrapping_add((16 * k + j) as u16),
        landing(bank, later, j) == landing(bank, from, 16 * k + j),
{
}

/// A transfer with one more block carried.
proof fn lemma_carried_on(console: Console, before: Console, k: int, new: Seq<u8>)
    requires
        0 <= k < 128,
        console.ppu.vram_bank <= 1,
        before.ppu.vram_bank == console.ppu.vram_bank,
        before.hdma_src == (console.hdma_src + 16 * k) % 0x1_0000,
        before.hdma_dst == (console.hdma_dst + 16 * k) % 0x1_0000,
        before.cart == console.cart,
        before.wram == console.wram,
        before.wram_bank == console.wram_bank,
        reads_elsewhere(console.hdma_src, 16 * (k + 1)),
        carried(console, before.ppu.vram, 16 * k),
        carried(before, new, 16),
        spared(console.ppu.vram_bank, before.hdma_dst, before.ppu.vram, new, 16),
    ensures
        carried(console, new, 16 * (k + 1)),
{
    reveal(carried);
    reveal(spared);
    let bank = console.ppu.vram_bank;
    let (src, dst) = (console.hdma_src, console.hdma_dst);
    assert forall|i: int| 0 <= i < 16 * (k + 1) implies new[#[trigger] landing(bank, dst, i)]
        == console.dma_byte(src.wrapping_add(i as u16)) by {
        let p = landing(bank, dst, i);
        if i < 16 * k {
            assert forall|j: int| 0 <= j < 16 implies p != #[trigger] landing(
                bank,
                before.hdma_dst,
                j,
            ) by {
                lemma_advanced(bank, dst, before.hdma_dst, k, j);
            }
            assert(new[p] == before.ppu.vram[p]);
        } else {
            let j = i - 16 * k;
            lemma_advanced(bank, dst, before.hdma_dst, k, j);
            lemma_advanced(bank, src, before.hdma_src, k, j);
            let from = src.wrapping_add(i as u16);
            assert(before.dma_byte(from) == console.dma_byte(from));
        }
    }
}

/// What one block does while no HBlank DMA runs.
proof fn lemma_hdma_block(console: Console)
    requires
        console.ppu.vram.len() == 0x4000,
        console.ppu.vram_bank <= 1,
        reads_elsewhere(console.hdma_src, 16),
        console.hdma_mode == HdmaMode::Off,
    ensures
        ({
            let done = console.hdma_block();
            &&& done.ppu.vram.len() == 0x4000
            &&& done.ppu.vram_bank == console.ppu.vram_bank
            &&& done.hdma_mode == HdmaMode::Off
            &&& done.hdma_src == (console.hdma_src + 16) % 0x1_0000
            &&& done.hdma_dst == (console.hdma_dst + 16) % 0x1_0000
            &&& done.cart == console.cart
            &&& done.wram == console.wram
            &&& done.wram_bank == console.wram_bank
            &&& carried(console, done.ppu.vram, 16)
            &&& spared(
                console.ppu.vram_bank,
                console.hdma_dst,
                console.ppu.vram,
                done.ppu.vram,
                16,
            )
        }),
{
    lemma_hdma_moved(console, 0x10);
    reveal(Console::hdma_block);
}

proof fn lemma_hdma_blocks(console: Console, n: nat)
    requires
        console.ppu.vram.len() == 0x4000,
        console.ppu.vram_bank <= 1,
        n <= 128,
        reads_elsewhere(console.hdma_src, 16 * n as int),
        console.hdma_mode == HdmaMode::Off,
    ensures
        ({
            let done = console.hdma_blocks(n);
            &&& done.ppu.vram.len() == 0x4000
            &&& done.ppu.vram_bank == console.ppu.vram_bank
            &&& done.hdma_mode == HdmaMode::Off
            &&& done.hdma_src == (console.hdma_src + 16 * n) % 0x1_0000
            &&& done.hdma_dst == (console.hdma_dst + 16 * n) % 0x1_0000
            &&& done.cart == console.cart
            &&& done.wram == console.wram
            &&& done.wram_bank == console.wram_bank
            &&& carried(console, done.ppu.vram, 16 * n as int)
        }),
    decreases n,
{
    if n == 0 {
        reveal(carried);
    } else {
        let k = n - 1;
        lemma_hdma_blocks(console, k as nat);
        let before = console.hdma_blocks(k as nat);
        assert forall|j: int| 0 <= j < 16 implies !(0x8000
            <= #[trigger] before.hdma_src.wrapping_add(j as u16) <= 0x9fff) by {
            lemma_advanced(0, console.hdma_src, before.hdma_src, k, j);
        }
        lemma_hdma_block(before);
        lemma_carried_on(console, before, k, before.hdma_block().ppu.vram);
    }
}

/// General-purpose video DMA is done by the time the write that starts it returns: video
/// memory holds what the source did, sixteen bytes for every unit of the length, and the
/// length register reads as finished. A source inside video memory is left out, since the
/// transfer may overwrite it.
pub proof fn law_general_dma(console: Console, value: u8, now: u64, i: int)
    requires
        console.wf(),
        console.cgb,
        console.hdma_mode != HdmaMode::HBlank,
        value & 0x80 == 0,
        reads_elsewhere(console.hdma_src, 16 * (value % 128 + 1)),
        0 <= i < 16 * (value % 128 + 1),
    ensures
        ({
            let done = console.written(0xff55, value, now);
            &&& done.ppu.vram[landing(console.ppu.vram_bank, console.hdma_dst, i)]
                == console.dma_byte(console.hdma_src.wrapping_add(i as u16))
            &&& done.cgb_byte(0xff55) == 0xff
        }),
{
    reveal(Console::written);
    reveal(Console::io_written);
    reveal(Console::cgb_written);
    reveal(Console::hdma_started);
    let blocks = (value % 128 + 1) as nat;
    let begun = Console { hdma_len: value % 128, hdma_mode: HdmaMode::Off, ..console };
    lemma_hdma_blocks(begun, blocks);
    let done = Console { hdma_len: 0xff, ..begun.hdma_blocks(blocks) };
    let stall = blocks * 32 * (if console.double_speed {
        2int
    } else {
        1
    });
    law_time_keeps_video_ram(done, stall as u32);
    reveal(carried);
    let from = console.hdma_src.wrapping_add(i as u16);
    assert(begun.dma_byte(from) == console.dma_byte(from));
    assert(done.ppu.vram[landing(console.ppu.vram_bank, console.hdma_dst, i)] == console.dma_byte(
        from,
    ));
    assert(0xffu8 | 0x80u8 == 0xffu8) by {
        crate::hw::bits::lemma_byte(0xff);
    }
}

// ---- banks ---------------------------------------------------------------

proof fn lemma_hdma_blocks_keep(console: Console, n: nat)
    ensures
        console.hdma_blocks(n).cart == console.cart,
        console.hdma_blocks(n).wram_bank == console.wram_bank,
    decreases n,
{
    if n > 0 {
        lemma_hdma_blocks_keep(console, (n - 1) as nat);
        reveal(Console::hdma_block);
        lemma_hdma_keeps(console.hdma_blocks((n - 1) as nat), 0x10);
    }
}

proof fn lemma_hdma_started_keeps(console: Console, value: u8)
    ensures
        console.hdma_started(value).cart == console.cart,
        console.hdma_started(value).wram_bank == console.wram_bank,
{
    reveal(Console::hdma_started);
    reveal(Console::hdma_block);
    lemma_hdma_keeps(
        Console { hdma_len: value % 128, hdma_mode: HdmaMode::HBlank, ..console },
        0x10,
    );
    let blocks = value % 128 + 1;
    let begun = Console { hdma_len: value % 128, hdma_mode: HdmaMode::Off, ..console };
    lemma_hdma_blocks_keep(begun, blocks as nat);
    let done = Console { hdma_len: 0xff, ..begun.hdma_blocks(blocks as nat) };
    let stall = blocks * 32 * (if console.double_speed {
        2int
    } else {
        1
    });
    law_time_keeps_work_ram(done, stall as u32);
}

proof fn lemma_io_keeps_banks(console: Console, addr: u16, value: u8)
    requires
        addr != 0xff70 || !console.cgb,
    ensures
        console.io_written(addr, value).cart == console.cart,
        console.io_written(addr, value).wram_bank == console.wram_bank,
{
    reveal(Console::io_written);
    reveal(Console::cgb_written);
    lemma_hdma_started_keeps(console, value);
}

/// No write above the cartridge's windows reaches the cartridge.
pub proof fn lemma_upper_write(console: Console, addr: u16, value: u8, now: u64)
    requires
        addr >= 0xc000,
    ensures
        console.written(addr, value, now).cart == console.cart,
{
    reveal(Console::written);
    reveal(Console::io_written);
    reveal(Console::cgb_written);
    lemma_hdma_started_keeps(console, value);
}

/// Which bank an address shows changes with a write to the mapper's registers, or to a
/// CGB's work RAM bank register, and with no other.
pub proof fn law_banks_stay(console: Console, addr: u16, value: u8, now: u64, a: u16)
    requires
        addr >= 0x8000,
        addr != 0xff70 || !console.cgb,
    ensures
        console.written(addr, value, now).bank_at(a) == console.bank_at(a),
{
    reveal(Console::written);
    reveal(Board::ram_written);
    lemma_io_keeps_banks(console, addr, value);
}

} // verus!
