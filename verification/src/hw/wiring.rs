//! How the parts of the console are wired together: what every address is, which bit of a
//! register is which, and how long the slow operations take.
use vstd::prelude::*;
use crate::hw::bits;
use crate::hw::console::{Console, HdmaMode};
use crate::hw::joypad::{Button, Joypad};
use crate::hw::picture::Picture;
use crate::hw::rtc::RtcState;
use crate::hw::timer::Timer;

verus! {

// ---- memory --------------------------------------------------------------

/// What reading an address gives: ROM below 0x8000, then 8 KiB each of video memory and
/// cartridge RAM, 4 KiB of work RAM that is always the same and 4 KiB that are one of seven,
/// the same again 8 KiB higher, OAM, nothing, and high RAM at the top.
#[verifier::rlimit(40)]
pub proof fn law_map(console: Console, addr: u16)
    requires
        console.wf(),
    ensures
        addr < 0x8000 ==> console.byte(addr) == console.cart.rom_byte(addr),
        0x8000 <= addr < 0xa000 ==> console.byte(addr) == console.ppu.vram[console.ppu.vram_bank
            * 0x2000 + addr - 0x8000],
        0xa000 <= addr < 0xc000 ==> console.byte(addr) == console.cart.ram_byte(addr),
        0xc000 <= addr < 0xd000 ==> console.byte(addr) == console.wram[addr - 0xc000],
        0xd000 <= addr < 0xe000 ==> console.byte(addr) == console.wram[console.wram_bank * 0x1000
            + addr - 0xd000],
        0xe000 <= addr < 0xfe00 ==> console.byte(addr) == console.byte((addr - 0x2000) as u16),
        0xfe00 <= addr < 0xfea0 && !console.dma_active ==> console.byte(addr)
            == console.ppu.oam[addr - 0xfe00],
        0xfe00 <= addr < 0xfea0 && console.dma_active ==> console.byte(addr) == 0xff,
        0xfea0 <= addr < 0xff00 ==> console.byte(addr) == 0,
        0xff80 <= addr < 0xffff ==> console.byte(addr) == console.hram[addr - 0xff80],
        addr == 0xffff ==> console.byte(addr) == console.ie,
{
}

/// Which part answers for each register.
pub proof fn law_ports(console: Console, addr: u16)
    ensures
        console.byte(0xff00) == console.joypad.reads(),
        console.byte(0xff01) == console.sb,
        0xff04 <= addr <= 0xff07 ==> console.byte(addr) == console.timer.reads(addr),
        0xff10 <= addr <= 0xff3f ==> console.byte(addr) == console.apu.reads(addr),
        0xff40 <= addr <= 0xff4b ==> console.byte(addr) == console.ppu.reads(addr),
        addr == 0xff4f || 0xff68 <= addr <= 0xff6c ==> console.byte(addr) == console.ppu.reads(
            addr,
        ),
        console.byte(0xff46) == 0xff,
        addr == 0xff03 || 0xff08 <= addr <= 0xff0e || 0xff71 <= addr <= 0xff7f ==> console.byte(
            addr,
        ) == 0xff,
        !console.cgb && 0xff4c <= addr <= 0xff7f && !(addr == 0xff4f || 0xff68 <= addr <= 0xff6c)
            ==> console.byte(addr) == 0xff,
{
}

/// Which part a register's write goes to, and that it goes to no other.
#[verifier::rlimit(40)]
pub proof fn law_port_writes(console: Console, addr: u16, value: u8, now: u64)
    ensures
        0xff04 <= addr <= 0xff07 ==> console.written(addr, value, now) == (Console {
            timer: console.timer.written(addr, value),
            ..console
        }),
        0xff10 <= addr <= 0xff3f ==> console.written(addr, value, now) == (Console {
            apu: console.apu.written(addr, value),
            ..console
        }),
        0xff40 <= addr <= 0xff4b && addr != 0xff46 || addr == 0xff4f || 0xff68 <= addr <= 0xff6c
            ==> console.written(addr, value, now) == (Console {
            ppu: console.ppu.written(addr, value),
            ..console
        }),
        addr < 0x8000 ==> console.written(addr, value, now) == (Console {
            cart: console.cart.rom_written(addr, value, now),
            ..console
        }),
        0x8000 <= addr < 0xa000 ==> console.written(addr, value, now) == (Console {
            ppu: Picture {
                vram: console.ppu.vram.update(
                    console.ppu.vram_bank * 0x2000 + addr - 0x8000,
                    value,
                ),
                ..console.ppu
            },
            ..console
        }),
        0xa000 <= addr < 0xc000 ==> console.written(addr, value, now).cart
            == console.cart.ram_written(addr, value, now),
        0xfe00 <= addr < 0xfea0 && !console.dma_active ==> console.written(addr, value, now) == (
        Console {
            ppu: Picture {
                oam: console.ppu.oam.update(addr - 0xfe00, value),
                ..console.ppu
            },
            ..console
        }),
        addr == 0xff01 ==> console.written(addr, value, now) == (Console { sb: value, ..console }),
        0xfea0 <= addr < 0xff00 ==> console.written(addr, value, now) == console,
        !console.cgb && (0xff4c <= addr <= 0xff7f) && !(addr == 0xff4f || 0xff68 <= addr <= 0xff6c)
            ==> console.written(addr, value, now) == console,
{
    reveal(Console::written);
    reveal(Console::io_written);
}

/// A colour console's work RAM register shows at 0xd000 the bank of its low three bits, and
/// bank 1 for 0; it reads back that bank, with ones above.
pub proof fn law_work_bank(console: Console, value: u8, now: u64, addr: u16)
    requires
        console.wf(),
        console.cgb,
        0xd000 <= addr < 0xe000,
    ensures
        ({
            let bank: int = if value % 8 == 0 {
                1
            } else {
                (value % 8) as int
            };
            let next = console.written(0xff70, value, now);
            &&& next.byte(addr) == console.wram[bank * 0x1000 + addr - 0xd000]
            &&& next.byte(0xff70) == 0xf8 + bank
            &&& next.wram == console.wram
        }),
{
    reveal(Console::written);
    reveal(Console::io_written);
    reveal(Console::cgb_written);
}

/// A colour console's speed register: its low bit asks for the speed to change at the next
/// STOP, its top bit tells which speed it is, and the rest are ones.
pub proof fn law_speed_register(console: Console, value: u8, now: u64)
    requires
        console.cgb,
    ensures
        ({
            let next = console.written(0xff4d, value, now);
            &&& next.switches_speed() == (value % 2 == 1)
            &&& next.double_speed == console.double_speed
            &&& next.byte(0xff4d) % 2 == value % 2
            &&& next.byte(0xff4d) / 128 == 1 <==> console.double_speed
            &&& next.byte(0xff4d) / 2 % 64 == 63
        }),
{
    reveal(Console::written);
    reveal(Console::io_written);
    reveal(Console::cgb_written);
}

// ---- interrupts ----------------------------------------------------------

proof fn lemma_requests(a: u8, b: u8, c: u8, d: u8, i: u8)
    by (bit_vector)
    requires
        i < 8,
    ensures
        ((a | (b | c | d)) >> i) & 1 == 1 <==> (a >> i) & 1 == 1 || (b >> i) & 1 == 1 || (c >> i)
            & 1 == 1 || (d >> i) & 1 == 1,
        ((a & b & 0x1f) >> i) & 1 == 1 <==> i < 5 && (a >> i) & 1 == 1 && (b >> i) & 1 == 1,
        (a & !(1u8 << i)) >> i & 1 == 0,
        ((a & !(1u8 << i)) | (1u8 << i)) == a | (1u8 << i),
        c < 8 && c != i ==> ((a & !(1u8 << i)) >> c) & 1 == (a >> c) & 1,
        a & 0x1f == a % 32,
        a | 0xe0 == a % 32 + 0xe0,
        a >= 128 && a % 2 == 1 <==> (a & 0x83) & 0x81 == 0x81,
        a >= 128 ==> (a & 0x83) & 0x80 != 0 && a & 0x83 >= 128,
        a % 2 == 1 ==> (a & 0x83) & 0x01 != 0,
        (a & 0x83) & !0x80u8 < 128,
        a & 0x02 != 0 <==> a / 2 % 2 == 1,
{
}

/// Bit `i` of a byte is set.
pub open spec fn is_set(b: u8, i: u8) -> bool {
    (b >> i) & 1 == 1
}

/// An interrupt is requested when any part asks for it, and stays so.
pub proof fn law_requests(console: Console, i: u8)
    requires
        i < 8,
    ensures
        is_set(console.irqs_collected().iflag, i) <==> is_set(console.iflag, i) || is_set(console.ppu.irq, i)
            || is_set(console.timer.irq, i) || is_set(console.joypad.irq, i),
        console.irqs_collected().ppu.irq == 0,
        console.irqs_collected().timer.irq == 0,
        console.irqs_collected().joypad.irq == 0,
{
    lemma_requests(console.iflag, console.ppu.irq, console.timer.irq, console.joypad.irq, i);
}

/// One of the five interrupts is pending when it is both requested and enabled; taking it
/// clears its request and no other's.
pub proof fn law_pending(console: Console, i: u8, j: u8)
    requires
        i < 8,
        j < 8,
        i != j,
    ensures
        is_set(console.pending(), i) <==> i < 5 && is_set(console.ie, i) && is_set(console.iflag, i),
        !is_set(console.acknowledged(i).iflag, i),
        is_set(console.acknowledged(i).iflag, j) == is_set(console.iflag, j),
        console.acknowledged(i).ie == console.ie,
{
    lemma_requests(console.ie, console.iflag, 0, 0, i);
    lemma_requests(console.iflag, 0, j, 0, i);
}

/// The request register holds five bits and reads with ones above them; so the enable
/// register holds five.
pub proof fn law_interrupt_registers(console: Console, value: u8, now: u64)
    ensures
        console.written(0xff0f, value, now).byte(0xff0f) == 0xe0 + value % 32,
        console.written(0xff0f, value, now).iflag == value % 32,
        console.written(0xffff, value, now).byte(0xffff) == value % 32,
        console.byte(0xff0f) == 0xe0 + console.iflag % 32,
{
    reveal(Console::written);
    reveal(Console::io_written);
    lemma_requests(value, 0, 0, 0, 0);
    lemma_requests(value & 0x1f, 0, 0, 0, 0);
    lemma_requests(console.iflag, 0, 0, 0, 0);
}

// ---- the joypad ----------------------------------------------------------

/// The register of the joypad, read after a write that selects one row: a clear bit is a
/// held button. Bits 0 to 3 are right, left, up and down while bit 4 was written clear, and
/// A, B, select and start while bit 5 was.
#[verifier::rlimit(40)]
pub proof fn law_joypad(console: Console, value: u8, now: u64)
    ensures
        ({
            let read = console.written(0xff00, value, now).byte(0xff00);
            let pad = console.joypad;
            &&& value / 16 % 4 == 2 ==> {
                &&& (is_set(read, 0) <==> !pad.holds(Button::Right))
                &&& (is_set(read, 1) <==> !pad.holds(Button::Left))
                &&& (is_set(read, 2) <==> !pad.holds(Button::Up))
                &&& (is_set(read, 3) <==> !pad.holds(Button::Down))
            }
            &&& value / 16 % 4 == 1 ==> {
                &&& (is_set(read, 0) <==> !pad.holds(Button::A))
                &&& (is_set(read, 1) <==> !pad.holds(Button::B))
                &&& (is_set(read, 2) <==> !pad.holds(Button::Select))
                &&& (is_set(read, 3) <==> !pad.holds(Button::Start))
            }
            &&& value / 16 % 4 == 3 ==> read % 16 == 15
            &&& read / 16 == 12 + value / 16 % 4
        }),
{
    reveal(Console::written);
    reveal(Console::io_written);
    lemma_joypad(console.joypad.directions, console.joypad.actions, value);
}

proof fn lemma_joypad(d: u8, a: u8, value: u8)
    by (bit_vector)
    ensures
        ({
            let s = value & 0x30;
            let first = if s & 0x10 == 0 {
                0x0fu8 & !d
            } else {
                0x0fu8
            };
            let low = if s & 0x20 == 0 {
                first & !a
            } else {
                first
            };
            let read = 0xc0 | s | low;
            &&& value / 16 % 4 == 2 ==> {
                &&& ((read >> 0) & 1 == 1 <==> d & 1 == 0)
                &&& ((read >> 1) & 1 == 1 <==> d & 2 == 0)
                &&& ((read >> 2) & 1 == 1 <==> d & 4 == 0)
                &&& ((read >> 3) & 1 == 1 <==> d & 8 == 0)
            }
            &&& value / 16 % 4 == 1 ==> {
                &&& ((read >> 0) & 1 == 1 <==> a & 1 == 0)
                &&& ((read >> 1) & 1 == 1 <==> a & 2 == 0)
                &&& ((read >> 2) & 1 == 1 <==> a & 4 == 0)
                &&& ((read >> 3) & 1 == 1 <==> a & 8 == 0)
            }
            &&& value / 16 % 4 == 3 ==> read % 16 == 15
            &&& read / 16 == 12 + value / 16 % 4
        }),
{
}

proof fn lemma_other_bit(row: u8, bit: u8, other: u8)
    by (bit_vector)
    requires
        bit == 1 || bit == 2 || bit == 4 || bit == 8,
        other == 1 || other == 2 || other == 4 || other == 8,
        bit != other,
    ensures
        (row | bit) & other == row & other,
        (row & !bit) & other == row & other,
{
}

/// Pressing or letting go one button leaves every other as it was, and asks for the
/// interrupt of bit 4 or for none.
#[verifier::rlimit(40)]
pub proof fn law_one_button(pad: Joypad, button: Button, other: Button, pressed: bool)
    requires
        button != other,
    ensures
        pad.with(button, pressed).holds(other) == pad.holds(other),
        pad.with(button, pressed).holds(button) == pressed,
        pad.with(button, pressed).irq == pad.irq || pad.with(button, pressed).irq == pad.irq | 0x10,
        !pressed ==> pad.with(button, pressed).irq == pad.irq,
        pad.with(button, pressed).select == pad.select,
        pressed && !pad.holds(button) && (button == Button::Right || button == Button::Left
            || button == Button::Up || button == Button::Down) ==> pad.with(button, pressed).irq
            == if pad.select / 16 % 2 == 0 {
            pad.irq | 0x10
        } else {
            pad.irq
        },
        pressed && !pad.holds(button) && (button == Button::A || button == Button::B || button
            == Button::Select || button == Button::Start) ==> pad.with(button, pressed).irq
            == if pad.select / 32 % 2 == 0 {
            pad.irq | 0x10
        } else {
            pad.irq
        },
        pressed && pad.holds(button) ==> pad.with(button, pressed).irq == pad.irq,
{
    bits::lemma_byte(pad.select);
    crate::hw::joypad::law_set(pad, button, pressed);
    if button.bit() != other.bit() {
        lemma_other_bit(pad.row(button), button.bit(), other.bit());
    }
}

// ---- transfers -----------------------------------------------------------

/// How far OAM DMA gets: one byte for every four clocks, 160 of them.
proof fn lemma_dma_pace(console: Console)
    requires
        console.dma_active,
        console.dma_index < 160,
    ensures
        console.dma_index + console.dma_timer / 4 < 160 ==> console.dma_caught_up().dma_active
            && console.dma_caught_up().dma_index == console.dma_index + console.dma_timer / 4,
        console.dma_index + console.dma_timer / 4 >= 160 ==> !console.dma_caught_up().dma_active,
    decreases console.dma_timer,
{
    if console.dma_timer >= 4 {
        let byte = console.dma_byte((console.dma_source * 256 + console.dma_index) as u16);
        let next = Console {
            ppu: Picture {
                oam: console.ppu.oam.update(console.dma_index as int, byte),
                ..console.ppu
            },
            dma_timer: (console.dma_timer - 4) as u32,
            dma_index: (console.dma_index + 1) as usize,
            dma_active: console.dma_index + 1 != 0xa0,
            ..console
        };
        assert(console.dma_caught_up() == next.dma_caught_up());
        if next.dma_active {
            lemma_dma_pace(next);
        }
    }
}

/// OAM DMA takes 640 clocks: it is under way for all of those before, and over from then on.
pub proof fn law_dma_pace(console: Console, page: u8, now: u64, t: u32)
    ensures
        console.written(0xff46, page, now).dma_stepped(t).dma_active <==> t < 640,
{
    reveal(Console::written);
    reveal(Console::io_written);
    let started = console.written(0xff46, page, now);
    lemma_dma_pace(Console { dma_timer: t, ..started });
}

/// DMA reads what the processor would, up to the end of work RAM, and nothing above.
pub proof fn law_dma_source(console: Console, addr: u16)
    ensures
        addr < 0xe000 ==> console.dma_byte(addr) == console.byte(addr),
        addr >= 0xe000 ==> console.dma_byte(addr) == 0xff,
{
}

/// The addresses of video DMA: the first two registers are the high and the low byte of the
/// source, the next two those of the destination, of whose high byte only five bits count;
/// of either low byte the last four bits are taken as clear.
#[verifier::rlimit(40)]
pub proof fn law_video_dma_addresses(console: Console, value: u8, now: u64)
    requires
        console.cgb,
    ensures
        console.written(0xff51, value, now).hdma_src / 256 == value,
        console.written(0xff51, value, now).hdma_src % 256 == console.hdma_src % 256,
        console.written(0xff51, value, now).hdma_dst == console.hdma_dst,
        console.written(0xff52, value, now).hdma_src / 256 == console.hdma_src / 256,
        console.written(0xff52, value, now).hdma_src % 256 == value / 16 * 16,
        console.written(0xff52, value, now).hdma_dst == console.hdma_dst,
        console.written(0xff53, value, now).hdma_dst / 256 == value % 32,
        console.written(0xff53, value, now).hdma_dst % 256 == console.hdma_dst % 256,
        console.written(0xff53, value, now).hdma_src == console.hdma_src,
        console.written(0xff54, value, now).hdma_dst / 256 == console.hdma_dst / 256,
        console.written(0xff54, value, now).hdma_dst % 256 == value / 16 * 16,
        console.written(0xff54, value, now).hdma_src == console.hdma_src,
{
    reveal(Console::written);
    reveal(Console::io_written);
    reveal(Console::cgb_written);
}

/// Video DMA in the horizontal blank moves sixteen bytes each time the screen gets there,
/// counts its length down, and is off after the last.
#[verifier::rlimit(40)]
pub proof fn law_blank_dma(console: Console, t: u32)
    requires
        console.hdma_mode == HdmaMode::HBlank,
    ensures
        ({
            let next = console.video_stepped(t);
            let reached = !console.ppu.in_hblank() && console.ppu.stepped(t).in_hblank();
            &&& !reached ==> next == (Console { ppu: console.ppu.stepped(t), ..console })
            &&& reached ==> {
                &&& next.hdma_src == (console.hdma_src + 16) % 0x1_0000
                &&& next.hdma_dst == (console.hdma_dst + 16) % 0x1_0000
                &&& console.hdma_len > 0 ==> next.hdma_len == console.hdma_len - 1
                    && next.hdma_mode == HdmaMode::HBlank
                &&& console.hdma_len == 0 ==> next.hdma_len == 0xff && next.hdma_mode
                    == HdmaMode::Off
            }
        }),
{
    reveal(Console::hdma_block);
    lemma_moved_keeps(Console { ppu: console.ppu.stepped(t), ..console }, 0x10);
}

proof fn lemma_moved_keeps(console: Console, n: nat)
    ensures
        console.hdma_moved(n).hdma_src == console.hdma_src,
        console.hdma_moved(n).hdma_dst == console.hdma_dst,
        console.hdma_moved(n).hdma_len == console.hdma_len,
        console.hdma_moved(n).hdma_mode == console.hdma_mode,
    decreases n,
{
    if n > 0 {
        lemma_moved_keeps(console, (n - 1) as nat);
    }
}

/// A byte sent over the link with nobody at the other end: 4096 clocks after the transfer
/// was started with the console's own clock, or 512 on a colour console's fast clock, 0xff
/// has come in, the transfer is marked as done and interrupt 3 is requested; not before.
#[verifier::rlimit(40)]
pub proof fn law_serial(console: Console, value: u8, now: u64, t: u32)
    requires
        value >= 128,
        value % 2 == 1,
        t <= 0x1_0000,
    ensures
        ({
            let whole: int = if console.cgb && value / 2 % 2 == 1 {
                512
            } else {
                4096
            };
            let next = console.written(0xff02, value, now).serial_stepped(t);
            &&& t < whole ==> next.sb == console.sb && next.sc >= 128 && next.iflag == console.iflag
            &&& t >= whole ==> next.sb == 0xff && next.sc < 128 && next.iflag == console.iflag | 8
        }),
{
    reveal(Console::written);
    reveal(Console::io_written);
    lemma_requests(value, 0, 0, 0, 0);
}

/// Writing to the length of video DMA with the top bit clear stops one that runs in the
/// horizontal blank, and moves nothing; with it set it starts one, of as many sixteens as the
/// other bits say and one more, that waits for the blank.
#[verifier::rlimit(40)]
pub proof fn law_blank_dma_switch(console: Console, value: u8, now: u64)
    requires
        console.cgb,
        !console.ppu.in_hblank(),
    ensures
        ({
            let next = console.written(0xff55, value, now);
            &&& value < 128 && console.hdma_mode == HdmaMode::HBlank ==> {
                &&& next.hdma_mode == HdmaMode::Off
                &&& next.byte(0xff55) >= 128
                &&& next.ppu == console.ppu
                &&& next.elapsed == console.elapsed
            }
            &&& value >= 128 ==> {
                &&& next.hdma_mode == HdmaMode::HBlank
                &&& next.byte(0xff55) == value - 128
                &&& next.ppu == console.ppu
                &&& next.elapsed == console.elapsed
            }
        }),
{
    reveal(Console::written);
    reveal(Console::io_written);
    reveal(Console::cgb_written);
    reveal(Console::hdma_started);
    let kept = (value % 128) as u8;
    let shut = console.hdma_len | 0x80;
    assert((value & 0x80 != 0) == (value >= 128)) by {
        bits::lemma_byte(value);
    }
    assert(shut | 0x80 >= 128) by {
        bits::lemma_byte(shut);
    }
    assert(kept | 0u8 == kept) by {
        bits::lemma_byte(kept);
    }
}

/// Video DMA at once holds the processor up for 32 clocks for every sixteen bytes, twice as
/// many of the faster ones at double speed.
pub proof fn law_general_dma_takes_time(console: Console, value: u8, now: u64)
    requires
        console.cgb,
        console.hdma_mode == HdmaMode::Off,
        value < 128,
        console.elapsed < 0x1000_0000_0000,
    ensures
        console.written(0xff55, value, now).elapsed == console.elapsed + 32 * (value + 1) * (
        if console.double_speed {
            2int
        } else {
            1
        }),
{
    let blocks = (value + 1) as nat;
    let begun = Console { hdma_len: value, hdma_mode: HdmaMode::Off, ..console };
    let done = Console { hdma_len: 0xff, ..begun.hdma_blocks(blocks) };
    let stall: int = if console.double_speed {
        64 * (value + 1)
    } else {
        32 * (value + 1)
    };
    lemma_general_dma(console, value, now);
    lemma_blocks_keep_time(begun, blocks);
    crate::hw::memory::law_clock(done, stall as u32);
}

proof fn lemma_general_dma(console: Console, value: u8, now: u64)
    requires
        console.cgb,
        console.hdma_mode == HdmaMode::Off,
        value < 128,
    ensures
        ({
            let begun = Console { hdma_len: value, hdma_mode: HdmaMode::Off, ..console };
            let done = Console { hdma_len: 0xff, ..begun.hdma_blocks((value + 1) as nat) };
            let stall: int = if console.double_speed {
                64 * (value + 1)
            } else {
                32 * (value + 1)
            };
            console.written(0xff55, value, now) == done.ticked(stall as u32)
        }),
{
    assert(console.written(0xff55, value, now) == console.hdma_started(value)) by {
        reveal(Console::written);
        reveal(Console::io_written);
        reveal(Console::cgb_written);
    }
    assert((value & 0x80 != 0) == (value >= 128)) by {
        bits::lemma_byte(value);
    }
    lemma_hdma_at_once(console, value);
}

proof fn lemma_hdma_at_once(console: Console, value: u8)
    requires
        console.hdma_mode == HdmaMode::Off,
        value & 0x80 == 0,
        value < 128,
    ensures
        ({
            let begun = Console { hdma_len: value, hdma_mode: HdmaMode::Off, ..console };
            let done = Console { hdma_len: 0xff, ..begun.hdma_blocks((value + 1) as nat) };
            let stall: int = if console.double_speed {
                64 * (value + 1)
            } else {
                32 * (value + 1)
            };
            console.hdma_started(value) == done.ticked(stall as u32)
        }),
{
    reveal(Console::hdma_started);
    let kept = value % 128;
    assert(kept == value);
    let blocks = kept + 1;
    let times: int = if console.double_speed {
        2
    } else {
        1
    };
    assert(blocks * 32 * times == if console.double_speed {
        64 * (value + 1)
    } else {
        32 * (value + 1)
    });
}

proof fn lemma_blocks_keep_time(console: Console, n: nat)
    ensures
        console.hdma_blocks(n).elapsed == console.elapsed,
        console.hdma_blocks(n).double_speed == console.double_speed,
    decreases n,
{
    if n > 0 {
        lemma_blocks_keep_time(console, (n - 1) as nat);
        reveal(Console::hdma_block);
        lemma_moved_keeps_time(console.hdma_blocks((n - 1) as nat), 0x10);
    }
}

proof fn lemma_moved_keeps_time(console: Console, n: nat)
    ensures
        console.hdma_moved(n).elapsed == console.elapsed,
        console.hdma_moved(n).double_speed == console.double_speed,
    decreases n,
{
    if n > 0 {
        lemma_moved_keeps_time(console, (n - 1) as nat);
    }
}

/// The link's control register keeps the start bit and the clock bit, and on a colour console
/// the speed bit between them; the others read as ones. Without the start bit, or with the
/// clock of a console that is not there, nothing is sent, however long it is waited for.
pub proof fn law_serial_register(console: Console, value: u8, now: u64, t: u32)
    ensures
        !console.cgb ==> console.written(0xff02, value, now).byte(0xff02) == value / 128 * 128 + 0x7e
            + value % 2,
        console.cgb ==> console.written(0xff02, value, now).byte(0xff02) == value / 128 * 128 + 0x7c
            + value % 4,
        value < 128 || value % 2 == 0 ==> console.written(0xff02, value, now).serial_stepped(t)
            == console.written(0xff02, value, now),
{
    reveal(Console::written);
    reveal(Console::io_written);
    lemma_serial_bits(value);
}

proof fn lemma_serial_bits(value: u8)
    by (bit_vector)
    ensures
        (value & 0x83) | 0x7e == value / 128 * 128 + 0x7e + value % 2,
        (value & 0x83) | 0x7c == value / 128 * 128 + 0x7c + value % 4,
        value < 128 ==> (value & 0x83) & 0x80 == 0,
        value % 2 == 0 ==> (value & 0x83) & 0x01 == 0,
{
}

// ---- time ----------------------------------------------------------------

/// A stretch of clocks: the timer runs for all of them at either speed, the picture and the
/// sound for half as many at double speed.
#[verifier::rlimit(40)]
pub proof fn law_speeds(console: Console, t: u32)
    requires
        console.hdma_mode == HdmaMode::Off,
        !console.dma_active,
    ensures
        ({
            let next = console.ticked(t);
            let slow: u32 = if console.double_speed {
                t / 2
            } else {
                t
            };
            &&& next.timer == (Timer { irq: 0, ..console.timer.after(t as nat) })
            &&& next.apu == console.apu.stepped(slow)
            &&& next.ppu == (Picture { irq: 0, ..console.ppu.stepped(slow) })
            &&& next.elapsed == (console.elapsed + t) % 0x1_0000_0000_0000_0000
        }),
{
    reveal(Console::ticked);
}

// ---- the cartridge's clock -----------------------------------------------

/// The clock's registers: seconds, minutes, hours, and nine bits of days, which make up the
/// time; then whether it is halted, and whether the days have run over.
#[verifier::rlimit(40)]
pub proof fn law_clock_registers(rtc: RtcState, now: u64)
    ensures
        ({
            let r = rtc.registers(now);
            let time = rtc.elapsed(now);
            &&& r.len() == 5
            &&& r[0] < 60
            &&& r[1] < 60
            &&& r[2] < 24
            &&& r[0] + 60 * r[1] + 3600 * r[2] + 86_400 * (r[3] + 256 * (r[4] % 2)) == time as int
                % 44_236_800
            &&& r[4] / 64 % 2 == 1 <==> rtc.halted
            &&& r[4] / 128 == 1 <==> rtc.day_carry || time >= 44_236_800
            &&& r[4] / 2 % 32 == 0
        }),
{
    let secs = rtc.elapsed(now) as int;
    let days = secs / 86_400;
    let day = secs % 86_400;
    lemma_days(secs);
    lemma_day(day);
    assert(secs % 60 == day % 60 && secs / 60 % 60 == day / 60 % 60 && secs / 3600 % 24 == day
        / 3600) by {
        lemma_in_day(days, day);
    }
}

proof fn lemma_days(secs: int)
    requires
        secs >= 0,
    ensures
        ({
            let days = secs / 86_400;
            86_400 * (days % 256 + 256 * (days / 256 % 2)) + secs % 86_400 == secs % 44_236_800
        }),
{
    let days = secs / 86_400;
    let rest = secs % 86_400;
    let (page, low) = (days / 256, days % 256);
    let (over, bit) = (page / 2, page % 2);
    assert(days == 512 * over + 256 * bit + low);
    assert(secs == 86_400 * days + rest);
    vstd::arithmetic::div_mod::lemma_fundamental_div_mod_converse(
        secs,
        44_236_800,
        over,
        86_400 * (low + 256 * bit) + rest,
    );
}

proof fn lemma_day(day: int)
    requires
        0 <= day < 86_400,
    ensures
        day % 60 + 60 * (day / 60 % 60) + 3600 * (day / 3600) == day,
{
}

proof fn lemma_in_day(days: int, day: int)
    requires
        days >= 0,
        0 <= day < 86_400,
    ensures
        ({
            let secs = days * 86_400 + day;
            &&& secs % 60 == day % 60
            &&& secs / 60 % 60 == day / 60 % 60
            &&& secs / 3600 % 24 == day / 3600
        }),
{
    let secs = days * 86_400 + day;
    let (m, h) = (day / 60, day / 3600);
    vstd::arithmetic::div_mod::lemma_fundamental_div_mod_converse(
        secs,
        60,
        days * 1440 + m,
        day % 60,
    );
    assert(m / 60 == h);
    vstd::arithmetic::div_mod::lemma_fundamental_div_mod_converse(
        days * 1440 + m,
        60,
        days * 24 + h,
        m % 60,
    );
    vstd::arithmetic::div_mod::lemma_fundamental_div_mod_converse(
        secs,
        3600,
        days * 24 + h,
        day % 3600,
    );
    vstd::arithmetic::div_mod::lemma_fundamental_div_mod_converse(days * 24 + h, 24, days, h);
}

/// Writing 0 and then 1 to the latch takes the time over into what the game reads; any other
/// write leaves what it reads alone.
pub proof fn law_latch(rtc: RtcState, value: u8, now: u64, then: u64)
    ensures
        rtc.latch_written(0, then).latch_written(1, now).latched == rtc.registers(now),
        value != 1 ==> rtc.latch_written(value, now).latched == rtc.latched,
        rtc.latch_written(1, then).latch_written(value, now).latched == rtc.latch_written(
            1,
            then,
        ).latched,
        rtc.latch_written(value, now).elapsed(now) == rtc.elapsed(now),
{
}

/// The clock in a save: the time in eight bytes, the lowest first, the five registers as the
/// game last took them over, whether it is halted and whether its days have run over, and
/// the moment of saving in eight bytes.
pub proof fn law_clock_save(rtc: RtcState, now: u64)
    requires
        rtc.latched.len() == 5,
    ensures
        ({
            let s = rtc.saved(now);
            &&& s.len() == 23
            &&& s.subrange(0, 8) == crate::bytes::le64(rtc.elapsed(now))
            &&& s.subrange(8, 13) == rtc.latched
            &&& s[13] == (if rtc.halted { 1u8 } else { 0u8 })
            &&& s[14] == (if rtc.day_carry { 1u8 } else { 0u8 })
            &&& s.subrange(15, 23) == crate::bytes::le64(now)
        }),
{
    let s = rtc.saved(now);
    assert(s.subrange(0, 8) =~= crate::bytes::le64(rtc.elapsed(now)));
    assert(s.subrange(8, 13) =~= rtc.latched);
    assert(s.subrange(15, 23) =~= crate::bytes::le64(now));
}

/// Eight bytes, the lowest first, are the number they were made of.
pub proof fn law_eight_bytes(x: u64)
    ensures
        ({
            let s = crate::bytes::le64(x);
            &&& s.len() == 8
            &&& x == s[0] + 0x100 * s[1] + 0x1_0000 * s[2] + 0x100_0000 * s[3] + 0x1_0000_0000 * (
            s[4] + 0x100 * s[5] + 0x1_0000 * s[6] + 0x100_0000 * s[7])
        }),
{
    let lo = (x % 0x1_0000_0000) as u32;
    let hi = (x / 0x1_0000_0000) as u32;
    lemma_four_bytes(lo);
    lemma_four_bytes(hi);
}

proof fn lemma_four_bytes(x: u32)
    ensures
        ({
            let s = crate::bytes::le32(x);
            x == s[0] + 0x100 * s[1] + 0x1_0000 * s[2] + 0x100_0000 * s[3]
        }),
{
}

/// Halting the clock holds the time it is at, and letting it go on counts from there.
#[verifier::rlimit(40)]
pub proof fn law_halt(rtc: RtcState, now: u64, later: u64, k: u64)
    requires
        !rtc.halted,
        rtc.elapsed(now) < 44_236_800,
        rtc.base <= now <= later,
        later + k <= i64::MAX,
    ensures
        ({
            let held = rtc.written(0x0c, (rtc.registers(now)[4] + 0x40) as u8, now);
            &&& held.halted
            &&& held.elapsed(later) == rtc.elapsed(now)
        }),
{
    law_clock_registers(rtc, now);
    let r4 = rtc.registers(now)[4];
    bits::lemma_byte((r4 + 0x40) as u8);
    let held = rtc.written(0x0c, (r4 + 0x40) as u8, now);
    assert(RtcState::seconds_of(rtc.registers(now).update(4, (r4 + 0x40) as u8)) == rtc.elapsed(
        now,
    ));
}

/// A clock that was saved without the moment of saving goes on from the time it was saved
/// at.
pub proof fn law_unstamped_clock(rtc: RtcState, data: Seq<u8>, now: u64)
    requires
        15 <= data.len() < 23,
        crate::bytes::from_le64(data, 0) <= i64::MAX,
    ensures
        ({
            let back = rtc.restored(data, now);
            &&& now <= i64::MAX ==> back.elapsed(now) == crate::bytes::from_le64(data, 0)
            &&& back.latched == data.subrange(8, 13)
            &&& back.halted <==> data[13] != 0
            &&& back.day_carry <==> data[14] != 0
        }),
{
}

/// Letting a halted clock go on counts from the time it was held at.
#[verifier::rlimit(40)]
pub proof fn law_resume(rtc: RtcState, value: u8, now: u64, k: u64)
    requires
        rtc.halted,
        rtc.elapsed(now) < 44_236_800,
        value % 2 == rtc.registers(now)[4] % 2,
        value / 64 % 2 == 0,
        now + k <= i64::MAX,
        rtc.elapsed(now) + k <= i64::MAX,
    ensures
        ({
            let on = rtc.written(0x0c, value, now);
            &&& !on.halted
            &&& on.elapsed((now + k) as u64) == rtc.elapsed(now) + k
        }),
{
    law_clock_registers(rtc, now);
    assert((value & 0x40 != 0) == (value / 64 % 2 == 1)) by {
        bits::lemma_byte(value);
    }
    let regs = rtc.registers(now).update(4, value);
    assert(RtcState::seconds_of(regs) == rtc.elapsed(now));
}

} // verus!
