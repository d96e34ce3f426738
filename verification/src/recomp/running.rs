//! A game under way: how it is started, what interrupts it, and when a frame is over.
use vstd::prelude::*;
use crate::hw;
use crate::hw::bits;
use crate::hw::cartridge;
use crate::hw::cartridge::Board;
use crate::hw::console::Console;
use crate::hw::{Config, Model};
use crate::recomp::abi::GbState;
use crate::recomp::bus;
use crate::recomp::bus::{Event, Hardware, World};
use crate::recomp::hosting;
use crate::recomp::machine;
use crate::recomp::machine::{Game, HostState};

verus! {

/// Where an interrupt leads: of those that are both enabled and requested the lowest bit
/// wins, and bits 0 to 4 lead to 40, 48, 50, 58 and 60. The interrupts are off afterwards
/// and the processor runs, with two bytes more on its stack.
#[verifier::rlimit(40)]
pub proof fn law_vectors(game: Game, now: u64)
    requires
        game.host.mmu.wf(),
        game.state.ime != 0,
    ensures
        ({
            let both = game.host.mmu.ie & game.host.mmu.iflag;
            let after = game.serviced(now);
            &&& both % 2 == 1 ==> after.state.pc == 0x40
            &&& both % 4 == 2 ==> after.state.pc == 0x48
            &&& both % 8 == 4 ==> after.state.pc == 0x50
            &&& both % 16 == 8 ==> after.state.pc == 0x58
            &&& both % 32 == 16 ==> after.state.pc == 0x60
            &&& both % 32 == 0 ==> after == game
            &&& both % 32 != 0 ==> after.state.ime == 0 && after.state.halted == 0
                && !after.stopped && after.state.sp == (game.state.sp - 2) % 0x1_0000
        }),
{
    let both = game.host.mmu.ie & game.host.mmu.iflag;
    let pending = game.host.mmu.pending();
    assert(pending == both % 32) by {
        bits::lemma_byte(both);
    }
    bits::lemma_byte(pending);
    if pending != 0 {
        hosting::law_interrupt_is_taken(game, now);
    }
}

/// Taking an interrupt costs twenty cycles.
pub proof fn law_interrupt_time(game: Game, now: u64)
    requires
        game.host.mmu.wf(),
        game.state.ime != 0,
        (game.host.mmu.ie & game.host.mmu.iflag) % 32 != 0,
        0xc002 <= game.state.sp <= 0xfe00,
        game.host.mmu.clock < 0x1000_0000_0000,
    ensures
        game.serviced(now).host.mmu.clock == game.host.mmu.clock + 20,
{
    bits::lemma_byte(game.host.mmu.ie & game.host.mmu.iflag);
    hosting::lemma_vectored(game, now);
    let bit = machine::lowest(game.host.mmu.pending());
    let pc = game.state.pc;
    let high = game.state.sp.wrapping_sub(1);
    let low = high.wrapping_sub(1);
    let m0 = game.host.mmu.acknowledged(bit);
    let m1 = m0.ticked(8);
    let m2 = m1.ticked(4);
    let m3 = m2.written(high, (pc / 256) as u8, now);
    let m4 = m3.ticked(4);
    let m5 = m4.written(low, (pc % 256) as u8, now);
    hw::memory::law_clock(m0, 8);
    hw::memory::law_clock(m1, 4);
    hw::memory::law_clock(m3, 4);
    hw::memory::law_clock(m5, 4);
    lemma_write_keeps_time(m2, high, (pc / 256) as u8, now);
    lemma_write_keeps_time(m4, low, (pc % 256) as u8, now);
}

proof fn lemma_write_keeps_time(console: Console, addr: u16, value: u8, now: u64)
    requires
        0xc000 <= addr < 0xfe00,
    ensures
        console.written(addr, value, now).clock == console.clock,
{
    reveal(Console::written);
}

/// With interrupts off, one that is enabled and requested wakes the processor and does
/// nothing else.
pub proof fn law_wakes(game: Game, now: u64)
    requires
        game.state.ime == 0,
    ensures
        ({
            let both = game.host.mmu.ie & game.host.mmu.iflag;
            &&& both % 32 == 0 ==> game.serviced(now) == game
            &&& both % 32 != 0 ==> game.serviced(now) == (Game {
                state: GbState { halted: 0, ..game.state },
                stopped: false,
                ..game
            })
        }),
{
    bits::lemma_byte(game.host.mmu.ie & game.host.mmu.iflag);
}

/// When the hardware wants the processor to stop and look: an interrupt that is enabled and
/// requested while interrupts are on, or a frame to show.
pub proof fn law_wants(host: HostState)
    ensures
        host.wants(true) <==> (host.mmu.ie & host.mmu.iflag) % 32 != 0 || host.mmu.ppu.frame_ready,
        host.wants(false) <==> host.mmu.ppu.frame_ready,
{
    bits::lemma_byte(host.mmu.ie & host.mmu.iflag);
}

/// Interrupts that were let in one instruction ago come on as that instruction ends.
pub proof fn law_delayed_enable(st: GbState)
    ensures
        st.ime_delay == 1 ==> bus::sync_ime(st).ime == 1 && bus::sync_ime(st).ime_delay == 0,
        st.ime_delay == 0 ==> bus::sync_ime(st) == st,
        st.ime_delay > 1 ==> bus::sync_ime(st).ime == st.ime && bus::sync_ime(st).ime_delay
            == st.ime_delay - 1,
{
}

/// Time is told before anything else is: what is owed, and what the access itself takes, in
/// one piece, and nothing where nothing is owed.
pub proof fn law_time_comes_first(w: World, extra: u32)
    requires
        w.st.pending + extra < 0x1_0000_0000,
    ensures
        ({
            let owed = w.st.pending + extra;
            let out = w.settle(extra as int);
            &&& out.st == (GbState { pending: 0, ..w.st })
            &&& owed == 0 ==> out.log == w.log
            &&& owed > 0 ==> out.log == w.log.push(Event::Tick(owed as u32))
        }),
{
}

/// HALT stops the processor, with the time told first; STOP leaves it running where the
/// hardware goes on, having changed its speed.
pub proof fn law_halt_and_stop(hw: Hardware, w: World)
    requires
        w.st.pending == 0,
    ensures
        w.halt().log == w.log.push(Event::Halt),
        w.halt().st.halted == 1,
        w.halt().st.exit != 0,
        w.halt().st.pc == w.st.pc,
        w.stop(hw).log == w.log.push(Event::Stop),
        w.stop(hw).st.halted == w.st.halted,
        w.stop(hw).st.exit == 0 <==> (hw.resumes)(w.log.push(Event::Stop)),
        w.stop(hw).st.exit != w.halt().st.exit,
{
}

/// Between blocks the hardware is asked whether it wants the processor to come back, told
/// whether interrupts are on as they now are.
pub proof fn law_asks_between_blocks(hw: Hardware, w: World)
    requires
        w.st.pending == 0,
        w.st.exit == 0,
    ensures
        ({
            let asked = w.log.push(Event::Sync);
            let on = w.st.ime != 0 || w.st.ime_delay == 1;
            let out = w.sync(hw);
            &&& out.log == asked
            &&& out.st.exit != 0 <==> (hw.wants)(asked, on)
            &&& out.st.ime != 0 <==> on
            &&& out.st.pc == w.st.pc
        }),
{
}

/// A processor that stands still lets the hardware go on by four cycles a turn.
pub proof fn law_idle_turn(game: Game, now: u64)
    requires
        game.state.pending == 0,
        (game.host.mmu.ie & game.host.mmu.iflag) % 32 == 0,
        game.state.halted != 0 || game.stopped || game.fault is Some,
    ensures
        game.begun(now).0 == game.with_mmu(game.host.mmu.ticked(4)),
        game.begun(now).1 is Idle,
{
    bits::lemma_byte(game.host.mmu.ie & game.host.mmu.iflag);
    assert(game.flushed() == game);
}

/// A frame is over when the screen has finished one, or else after four frames' worth of
/// clocks.
pub proof fn law_frame_over(game: Game, start: u64)
    requires
        start <= game.host.mmu.clock,
    ensures
        game.frame_over(start) <==> game.host.mmu.ppu.frame_ready || game.host.mmu.clock - start > 4
            * 70_224,
{
}

/// How a game starts, whatever it is: at 0x100 with the stack at 0xfffe, interrupts off, and
/// in A what tells it which console it is on: 0x01 for a monochrome one and 0x11 for a
/// colour one.
pub proof fn law_start(rom: Seq<u8>, config: Config, arena: usize, now: u64)
    ensures
        ({
            let game = machine::switched_on(rom, config, arena, now);
            &&& game.state.pc == 0x100
            &&& game.state.sp == 0xfffe
            &&& game.state.ime == 0
            &&& game.state.ime_delay == 0
            &&& game.state.halted == 0
            &&& game.state.a == (if game.cgb {
                0x11int
            } else {
                0x01
            })
            &&& game.cgb == game.host.mmu.cgb
            &&& !game.stopped
            &&& game.fault is None
        }),
{
}

/// What the hardware's registers read as when a game starts, whatever the game is: the
/// screen is on and shows the background, in the usual shades; the sound is on; DIV is where
/// the boot process leaves it; the vertical blank has been requested and nothing is enabled.
#[verifier::rlimit(40)]
pub proof fn law_hardware_at_start(rom: Seq<u8>, config: Config, now: u64)
    ensures
        ({
            let console = hw::built(rom, config, now);
            &&& console.byte(0xff40) == 0x91
            &&& console.byte(0xff41) == 0x85
            &&& console.byte(0xff42) == 0
            &&& console.byte(0xff43) == 0
            &&& console.byte(0xff44) == 0
            &&& console.byte(0xff47) == 0xfc
            &&& console.byte(0xff4a) == 0
            &&& console.byte(0xff4b) == 0
            &&& console.byte(0xff04) == 0xab
            &&& console.byte(0xff05) == 0
            &&& console.byte(0xff06) == 0
            &&& console.byte(0xff07) == 0xf8
            &&& console.byte(0xff0f) == 0xe1
            &&& console.byte(0xffff) == 0
            &&& console.byte(0xff24) == 0x77
            &&& console.byte(0xff25) == 0xf3
            &&& console.byte(0xff26) == 0xf0
            &&& !console.double_speed
            &&& !console.dma_active
        }),
{
    let console = hw::built(rom, config, now);
    assert(0x85u8 | 0x80 == 0x85 && 0xf8u8 | 0xf8 == 0xf8) by {
        bits::lemma_byte(0x85);
        bits::lemma_byte(0xf8);
    }
    assert((0xabccu16 >> 8) as u8 == 0xab) by {
        bits::lemma_word(0xabcc);
    }
    hw::wiring::law_ports(console, 0xff40);
    lemma_requests_at_start();
}

proof fn lemma_requests_at_start()
    ensures
        0xe1u8 | 0xe0u8 == 0xe1u8,
{
    bits::lemma_byte(0xe1);
}

/// Code below 0x4000 is linked to as if it could never change exactly where it cannot: with
/// any mapper but an MBC1 of more than 32 banks, that window shows bank 0 whatever is
/// written.
pub proof fn law_fixed_window(board: Board, addr: u16)
    requires
        board.wf(),
        addr < 0x4000,
    ensures
        machine::lower_fixed(board.header) ==> board.bank_at(addr) == 0,
        machine::lower_fixed(board.header) <==> !(0x01 <= board.rom[0x147] <= 0x03
            && board.rom.len() > 32 * 0x4000),
{
    reveal(cartridge::says);
}

/// Which console a cartridge runs on: the one that was asked for, and by itself a colour one
/// if the byte at 0x143 is 0x80 or 0xc0. One with 0xc0 there is refused on a monochrome one.
pub proof fn law_model(rom: Seq<u8>, config: Config, arena: usize, now: u64)
    requires
        cartridge::refusal(rom) is None,
    ensures
        ({
            let colour = machine::switched_on(rom, config, arena, now).cgb;
            &&& config.model == Model::Dmg ==> !colour
            &&& config.model == Model::Cgb ==> colour
            &&& config.model == Model::Auto ==> (colour <==> rom[0x143] == 0x80 || rom[0x143]
                == 0xc0)
            &&& machine::start_refusal(rom, config, arena) is Some <==> arena == 0 || config.model
                == Model::Dmg && rom[0x143] == 0xc0
        }),
{
}

/// A monochrome game on a colour console is shown in the four shades that were asked for:
/// each of the eight palettes of either kind holds them, in five bits each of red, green and
/// blue from the lowest, the low byte first.
pub proof fn law_shades_on_colour(
    rom: Seq<u8>,
    config: Config,
    now: u64,
    palette: int,
    colour: int,
    r: int,
    g: int,
    b: int,
)
    requires
        cartridge::refusal(rom) is None,
        rom[0x143] != 0x80,
        rom[0x143] != 0xc0,
        config.model == Model::Cgb,
        0 <= palette < 8,
        0 <= colour < 4,
        0 <= r < 256,
        0 <= g < 256,
        0 <= b < 256,
        config.dmg_palette@[colour] == 0x1_0000 * r + 0x100 * g + b,
    ensures
        ({
            let ppu = hw::built(rom, config, now).ppu;
            let at = 8 * palette + 2 * colour;
            &&& ppu.bg_pal[at] + 256 * ppu.bg_pal[at + 1] == r / 8 + 32 * (g / 8) + 1024 * (b / 8)
            &&& ppu.obj_pal == ppu.bg_pal
            &&& ppu.cgb
        }),
{
    let at = 8 * palette + 2 * colour;
    assert(at / 2 % 4 == colour && (at + 1) / 2 % 4 == colour && at % 2 == 0 && (at + 1) % 2 == 1);
    let rgb = config.dmg_palette@[colour];
    assert(rgb as int / 0x1_0000 % 256 == r && rgb as int / 0x100 % 256 == g && rgb as int % 256
        == b);
    assert(hw::packed(rgb) == r / 8 + 32 * (g / 8) + 1024 * (b / 8));
}

} // verus!
