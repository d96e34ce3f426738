//! The host side of a converted game: hardware, code cache, and the turns that
//! hand control to translated code and take it back.
//!
//! Running the machine code itself is left to the program around this library. It
//! calls [`Emu::begin`], runs the code at the offset it is given, lets that code
//! reach the hardware through [`Host`]'s helpers, and calls [`Emu::finish`].
use vstd::prelude::*;
use crate::hw;
use crate::hw::apu::{Mix, Sound};
use crate::hw::cartridge::{Cartridge, CartridgeError, CartridgeInfo, MbcKind};
use crate::hw::console::Console;
use crate::hw::joypad::Button;
use crate::hw::memory;
use crate::hw::mmu::Mmu;
use crate::hw::picture::Picture;
use crate::hw::rtc;
use crate::hw::Config;
use crate::recomp::abi;
use crate::recomp::abi::{
    GbState, JumpEntry, EXIT_HALT, EXIT_ILLEGAL, EXIT_NONE, EXIT_STOP, EXIT_YIELD,
    JUMP_CACHE_SLOTS,
};
use crate::recomp::bus;
use crate::recomp::exec;
use crate::recomp::exec::{BlockInfo, BlockKey, Cached, CodeCache, DEFAULT_ARENA};
use crate::recomp::hosting;
use crate::recomp::linking;
use crate::recomp::program;
use crate::recomp::program::{Context, Link};
use crate::recomp::translate;
use crate::recomp::translate::Block;
use crate::recomp::x64;
use crate::text;

verus! {

/// Everything the helpers reach beside the registers.
pub struct Host {
    pub mmu: Mmu,
    pub cache: CodeCache,
    pub jump_table: Vec<JumpEntry>,
    /// Pages outside ROM that some translated block was built from.
    pub code_pages: [bool; 256],
    /// Where the arena lies in host memory.
    pub base: u64,
}

/// What a [`Host`] holds.
pub struct HostState {
    pub mmu: Console,
    pub cache: Cached,
    pub jump_table: Seq<JumpEntry>,
    pub code_pages: Seq<bool>,
    pub base: u64,
}

impl View for Host {
    type V = HostState;

    open spec fn view(&self) -> HostState {
        HostState {
            mmu: self.mmu@,
            cache: self.cache@,
            jump_table: self.jump_table@,
            code_pages: self.code_pages@,
            base: self.base,
        }
    }
}

// ---- helpers called from translated code ---------------------------------

/// The cycles that `st` owes the hardware, and `extra` more.
pub open spec fn owed(st: GbState, extra: int) -> u32 {
    bus::wrap32(st.pending + extra)
}

/// The page that shows the memory of `page` once more: work RAM shows again in its echo.
/// Where there is none, the page itself.
pub open spec fn echo_of(page: int) -> int {
    if 0xc0 <= page <= 0xdd {
        page + 0x20
    } else if 0xe0 <= page <= 0xfd {
        page - 0x20
    } else {
        page
    }
}

impl HostState {
    /// The hardware told of `t` cycles, if there are any.
    pub open spec fn told(self, t: u32) -> HostState {
        if t != 0 {
            HostState { mmu: self.mmu.ticked(t), ..self }
        } else {
            self
        }
    }

    /// Whether a write to `addr` changes code that has been translated, there or where the
    /// same memory shows once more.
    pub open spec fn holds_code(self, addr: u16) -> bool {
        let page = addr as int / 256;
        addr >= 0xa000 && (self.code_pages[page] || self.code_pages[echo_of(page)])
    }

    /// The host without the translations that were built from `page`.
    pub open spec fn forgotten(self, page: int) -> HostState {
        if self.code_pages[page] {
            HostState {
                cache: self.cache.invalidate(page as u8),
                code_pages: self.code_pages.update(page, false),
                ..self
            }
        } else {
            self
        }
    }

    /// The effect of a write on the hardware and on the translations it makes stale.
    #[verifier::opaque]
    pub open spec fn stored(self, addr: u16, value: u8, now: u64) -> HostState {
        let page = addr as int / 256;
        let next = HostState { mmu: self.mmu.written(addr, value, now), ..self };
        if addr >= 0xa000 {
            next.forgotten(page).forgotten(echo_of(page))
        } else {
            next
        }
    }

    /// Whether a write to `addr` can change what an address means: the mapper's registers
    /// can, and a CGB's work RAM bank register.
    pub open spec fn remaps(self, addr: u16) -> bool {
        addr < 0x8000 || (addr == 0xff70 && self.mmu.cgb)
    }

    /// The bank generation after a write: every cached indirect-jump target has to be
    /// proved anew when the mapping may have changed or a translation was dropped.
    pub open spec fn generation(self, addr: u16, gen: u32) -> u32 {
        if self.remaps(addr) || self.holds_code(addr) {
            gen.wrapping_add(1)
        } else {
            gen
        }
    }

    /// Whether the hardware wants control back: an interrupt that can be taken, or a
    /// finished frame.
    pub open spec fn wants(self, interrupts: bool) -> bool {
        interrupts && self.mmu.pending() != 0 || self.mmu.ppu.frame_ready
    }
}

impl Host {
    /// The invariant of the type.
    pub open spec fn wf(self) -> bool {
        &&& self.mmu.wf()
        &&& self.cache@.wf()
        &&& self.jump_table@.len() == JUMP_CACHE_SLOTS
    }

    /// Hand the hardware every cycle the game has run since it was last told.
    fn settle(&mut self, state: &mut GbState, extra: u32)
        requires
            old(self).wf(),
        ensures
            final(self).wf(),
            final(self)@ == old(self)@.told(owed(*old(state), extra as int)),
            *final(state) == (GbState { pending: 0, ..*old(state) }),
    {
        let owed: u32 = state.pending.wrapping_add(extra);
        state.pending = 0;
        if owed != 0 {
            self.mmu.tick(owed);
        }
    }

    /// A memory read by translated code.
    pub fn helper_read(&mut self, state: &mut GbState, addr: u16) -> (value: u8)
        requires
            old(self).wf(),
        ensures
            final(self).wf(),
            final(self)@ == old(self)@.told(owed(*old(state), 4)),
            value == final(self)@.mmu.byte(addr),
            *final(state) == (GbState { pending: 0, ..*old(state) }),
    {
        self.settle(state, 4);
        self.mmu.read(addr)
    }

    /// A memory write by translated code.
    pub fn helper_write(&mut self, state: &mut GbState, addr: u16, value: u8)
        requires
            old(self).wf(),
        ensures
            final(self).wf(),
            exists|now: u64|
                rtc::host_second(now) && final(self)@ == #[trigger] old(self)@.told(
                    owed(*old(state), 4),
                ).stored(addr, value, now),
            *final(state) == (GbState {
                pending: 0,
                bank_gen: old(self)@.generation(addr, old(state).bank_gen),
                ..*old(state)
            }),
    {
        let now: u64 = if addr < 0xc000 && self.mmu.cart.has_clock() {
            rtc::now_secs()
        } else {
            0
        };
        proof {
            if addr >= 0xc000 || self@.mmu.cart.rtc is None {
                let shown = rtc::lemma_some_second();
                hosting::lemma_clockless_store(self@, owed(*state, 4), addr, value, now, shown);
            }
        }
        self.helper_write_at(state, addr, value, now)
    }

    /// A memory write by translated code, at wall-clock second `now`.
    pub fn helper_write_at(&mut self, state: &mut GbState, addr: u16, value: u8, now: u64)
        requires
            old(self).wf(),
        ensures
            final(self).wf(),
            final(self)@ == old(self)@.told(owed(*old(state), 4)).stored(addr, value, now),
            *final(state) == (GbState {
                pending: 0,
                bank_gen: old(self)@.generation(addr, old(state).bank_gen),
                ..*old(state)
            }),
    {
        proof {
            memory::law_time_keeps_work_ram(self@.mmu, owed(*state, 4));
        }
        self.settle(state, 4);
        if self.store(addr, value, now) {
            state.bank_gen = state.bank_gen.wrapping_add(1);
        }
    }

    /// Throws away the translations that were built from `page`, and says whether there
    /// can have been any.
    fn forget(&mut self, page: usize) -> (any: bool)
        requires
            old(self).wf(),
            page < 256,
        ensures
            final(self).wf(),
            final(self)@ == old(self)@.forgotten(page as int),
            any == old(self)@.code_pages[page as int],
    {
        let any = self.code_pages[page];
        if any {
            self.cache.invalidate_page(page as u8);
            self.code_pages[page] = false;
        }
        any
    }

    /// Writes to the hardware, throws away the translations that makes stale, and says
    /// whether the bank generation has to move on.
    fn store(&mut self, addr: u16, value: u8, now: u64) -> (moves: bool)
        requires
            old(self).wf(),
        ensures
            final(self).wf(),
            final(self)@ == old(self)@.stored(addr, value, now),
            moves == (old(self)@.remaps(addr) || old(self)@.holds_code(addr)),
    {
        proof {
            reveal(HostState::stored);
        }
        let colour = self.mmu.cgb;
        self.mmu.write_at(addr, value, now);
        if addr < 0x8000 {
            // A mapper write can change what every banked address means, so every
            // cached indirect-jump target has to be re-proved.
            return true;
        }
        if addr < 0xa000 {
            return false;
        }
        let page: usize = (addr / 256) as usize;
        let echo: usize = if 0xc0 <= page && page <= 0xdd {
            page + 0x20
        } else if 0xe0 <= page && page <= 0xfd {
            page - 0x20
        } else {
            page
        };
        let here = self.forget(page);
        let there = self.forget(echo);
        // The work RAM bank register changes what 0xD000-0xDFFF means.
        here || there || (addr == 0xff70 && colour)
    }

    /// A point at which translated code lets the hardware take control back.
    pub fn helper_sync(&mut self, state: &mut GbState)
        requires
            old(self).wf(),
        ensures
            final(self).wf(),
            final(self)@ == old(self)@.told(owed(*old(state), 0)),
            *final(state) == ({
                let st = bus::sync_ime(GbState { pending: 0, ..*old(state) });
                if final(self)@.wants(st.ime != 0) {
                    GbState { exit: EXIT_YIELD, ..st }
                } else {
                    st
                }
            }),
    {
        self.settle(state, 0);
        if state.ime_delay > 0 {
            state.ime_delay = state.ime_delay - 1;
            if state.ime_delay == 0 {
                state.ime = 1;
            }
        }
        // Only leave for an interrupt that can actually be taken; a pending bit with
        // interrupts disabled is the normal state of affairs and must not cost a
        // trip back to the host on every block.
        let interrupt = state.ime != 0 && self.mmu.pending_interrupts() != 0;
        if interrupt || self.mmu.ppu.has_frame() {
            state.exit = EXIT_YIELD;
        }
    }

    /// `HALT`.
    pub fn helper_halt(&mut self, state: &mut GbState)
        requires
            old(self).wf(),
        ensures
            final(self).wf(),
            final(self)@ == old(self)@.told(owed(*old(state), 0)),
            *final(state) == (GbState {
                pending: 0,
                halted: 1,
                exit: EXIT_HALT,
                ..*old(state)
            }),
    {
        self.settle(state, 0);
        state.halted = 1;
        state.exit = EXIT_HALT;
    }

    /// `STOP`.
    pub fn helper_stop(&mut self, state: &mut GbState)
        requires
            old(self).wf(),
        ensures
            final(self).wf(),
            ({
                let told = old(self)@.told(owed(*old(state), 0));
                &&& final(self)@ == (HostState { mmu: told.mmu.stopped(), ..told })
                &&& *final(state) == (GbState {
                    pending: 0,
                    exit: if told.mmu.switches_speed() {
                        EXIT_NONE
                    } else {
                        EXIT_STOP
                    },
                    ..*old(state)
                })
            }),
    {
        self.settle(state, 0);
        // On a Game Boy Color this is usually a speed switch, and execution resumes.
        state.exit = if self.mmu.stop() {
            EXIT_NONE
        } else {
            EXIT_STOP
        };
    }
}

// ---- the game ------------------------------------------------------------

pub struct Emu {
    pub state: GbState,
    pub host: Host,
    pub ctx: Context,
    pub cgb: bool,
    /// Set by a `STOP` that was not a speed switch.
    pub stopped: bool,
    /// Non-fatal diagnostics, e.g. an opcode real hardware locks up on.
    pub fault: Option<String>,
}

/// What an [`Emu`] holds.
pub struct Game {
    pub state: GbState,
    pub host: HostState,
    pub ctx: Context,
    pub cgb: bool,
    pub stopped: bool,
    pub fault: Option<Seq<char>>,
}

impl View for Emu {
    type V = Game;

    open spec fn view(&self) -> Game {
        Game {
            state: self.state,
            host: self.host@,
            ctx: self.ctx,
            cgb: self.cgb,
            stopped: self.stopped,
            fault: match self.fault {
                Some(fault) => Some(fault@),
                None => None,
            },
        }
    }
}

/// What a turn of the host loop comes to.
#[derive(Debug, Clone, Copy, PartialEq, Eq, Structural)]
pub enum Turn {
    /// The processor is not running; time has passed.
    Idle,
    /// Run the translated code at this offset of the arena.
    Run(usize),
    /// The block to run does not fit the arena any more.
    Full,
}

/// The machine code, the open links and the end of the block at `start`.
pub open spec fn translation(mem: spec_fn(u16) -> u8, start: u16, ctx: Context) -> (
    Seq<u8>,
    Seq<Link>,
    u16,
) {
    (
        x64::encode_all(program::block_ops(mem, start, ctx, program::unlinked())),
        program::block_links(mem, start, ctx),
        crate::recomp::decode::next_addr(program::last_insn(mem, start, start, 1)),
    )
}

/// The pages of a block from `start` up to `end` added to `pages`. A block that runs past
/// the end of the address space counts as covering every page.
pub open spec fn marked(pages: Seq<bool>, start: u16, end: u16) -> Seq<bool> {
    let first = start as int / 256;
    let last = end.wrapping_sub(1) as int / 256;
    let past = end.wrapping_sub(1) < start;
    Seq::new(256, |p: int| pages[p] || past || first <= p <= last)
}

/// The number of the lowest bit that is set among the five interrupt bits.
pub open spec fn lowest(pending: u8) -> u8 {
    if pending & 1 != 0 {
        0
    } else if pending & 2 != 0 {
        1
    } else if pending & 4 != 0 {
        2
    } else if pending & 8 != 0 {
        3
    } else {
        4
    }
}

/// What is said of an opcode that the hardware does not implement.
pub open spec fn fault_message(pc: u16, opcode: u8) -> Seq<char> {
    "the game reached "@ + text::low_hex(pc as nat, 4) + ", where "@ + text::low_hex(
        opcode as nat,
        2,
    ) + " is not an instruction the hardware implements"@
}

/// Cycles after which a frame counts as over: a game that switches the LCD off never
/// reaches vblank.
pub const FRAME_BUDGET: u64 = 280_896;

impl Game {
    pub open spec fn with_mmu(self, mmu: Console) -> Game {
        Game { host: HostState { mmu, ..self.host }, ..self }
    }

    /// The memory that the recompiler reads code out of.
    pub open spec fn memory(self) -> spec_fn(u16) -> u8 {
        |a: u16| self.host.mmu.code_byte(a)
    }

    /// The hardware told of the cycles it is owed.
    pub open spec fn flushed(self) -> Game {
        Game {
            host: self.host.told(self.state.pending),
            state: GbState { pending: 0, ..self.state },
            ..self
        }
    }

    /// The program counter pushed, byte by byte, on the way to interrupt `bit`. What the
    /// two bytes make stale goes as it does for any write.
    #[verifier::opaque]
    pub open spec fn vectored(self, bit: u8, now: u64) -> Game {
        let pc = self.state.pc;
        let high = self.state.sp.wrapping_sub(1);
        let low = high.wrapping_sub(1);
        let h0 = HostState { mmu: self.host.mmu.acknowledged(bit).ticked(8).ticked(4), ..self.host };
        let h1 = h0.stored(high, (pc / 256) as u8, now);
        let h2 = HostState { mmu: h1.mmu.ticked(4), ..h1 };
        let h3 = h2.stored(low, (pc % 256) as u8, now);
        Game {
            state: GbState {
                sp: low,
                pc: (0x40 + bit * 8) as u16,
                bank_gen: h2.generation(low, h0.generation(high, self.state.bank_gen)),
                ..self.state
            },
            host: HostState { mmu: h3.mmu.ticked(4), ..h3 },
            ..self
        }
    }

    /// The highest-priority interrupt taken, if one is pending. A pending one wakes the
    /// processor even where interrupts are disabled.
    pub open spec fn serviced(self, now: u64) -> Game {
        let pending = self.host.mmu.pending();
        let awake = Game {
            state: GbState { halted: 0, ..self.state },
            stopped: false,
            ..self
        };
        if pending == 0 {
            self
        } else if self.state.ime == 0 {
            awake
        } else {
            Game { state: GbState { ime: 0, ..awake.state }, ..awake }.vectored(
                lowest(pending),
                now,
            )
        }
    }

    /// The block at `key` in the cache, translated on the spot where it is not there
    /// yet; nothing, where it does not fit.
    pub open spec fn ensured(self, key: BlockKey) -> Option<(Game, BlockInfo)> {
        let cache = self.host.cache;
        let (code, links, end) = translation(self.memory(), key.addr, self.ctx);
        if cache.blocks.contains_key(key) {
            Some((self, cache.blocks[key]))
        } else if cache.fits(key, code.len() as int, links) {
            let info = BlockInfo {
                offset: cache.next_offset() as usize,
                len: code.len() as usize,
                end,
            };
            let host = HostState {
                cache: cache.install(key, code, links, end),
                code_pages: if key.addr >= 0x8000 {
                    marked(self.host.code_pages, key.addr, end)
                } else {
                    self.host.code_pages
                },
                ..self.host
            };
            Some((Game { host, ..self }, info))
        } else {
            None
        }
    }

    /// The code to run at the program counter, with the inline cache primed so the next
    /// indirect jump here stays native.
    pub open spec fn entered(self) -> Option<(Game, usize)> {
        let pc = self.state.pc;
        match self.ensured(BlockKey { bank: self.host.mmu.bank_at(pc), addr: pc }) {
            Some((next, info)) => {
                let entry = JumpEntry {
                    pc: pc as u32,
                    gen: self.state.bank_gen,
                    target: self.host.base.wrapping_add(info.offset as u64),
                };
                let host = HostState {
                    jump_table: next.host.jump_table.update(
                        pc as int % JUMP_CACHE_SLOTS as int,
                        entry,
                    ),
                    ..next.host
                };
                Some((Game { host, ..next }, info.offset))
            },
            None => None,
        }
    }

    /// Whether the processor is not running.
    pub open spec fn idle(self) -> bool {
        self.state.halted != 0 || self.stopped || self.fault is Some
    }

    /// The first half of a turn, up to running translated code.
    pub open spec fn begun(self, now: u64) -> (Game, Turn) {
        let ready = self.flushed().serviced(now);
        if ready.idle() {
            (ready.with_mmu(ready.host.mmu.ticked(4)), Turn::Idle)
        } else {
            match ready.entered() {
                Some((next, offset)) => (
                    Game { state: GbState { exit: EXIT_NONE, ..next.state }, ..next },
                    Turn::Run(offset),
                ),
                None => (ready, Turn::Full),
            }
        }
    }

    /// The second half of a turn, after translated code has come back.
    pub open spec fn finished(self) -> Game {
        Game {
            stopped: self.stopped || self.state.exit == EXIT_STOP,
            fault: if self.state.exit == EXIT_ILLEGAL {
                Some(
                    fault_message(self.state.pc, self.host.mmu.code_byte(self.state.pc)),
                )
            } else {
                self.fault
            },
            ..self
        }.flushed()
    }

    /// Whether the frame that began at cycle `start` is over.
    pub open spec fn frame_over(self, start: u64) -> bool {
        self.host.mmu.ppu.frame_ready || self.host.mmu.clock.wrapping_sub(start) > FRAME_BUDGET
    }

    /// The block at `key` translated where it is not in the cache, and how many blocks that
    /// makes; nothing, where it does not fit.
    #[verifier::opaque]
    pub open spec fn reached(self, key: BlockKey) -> Option<(Game, nat)> {
        if self.host.cache.blocks.contains_key(key) {
            Some((self, 0))
        } else {
            match self.ensured(key) {
                Some((next, _)) => Some((next, 1)),
                None => None,
            }
        }
    }

    /// The blocks of `keys` that are not in the cache translated, one after the other,
    /// and how many there were; nothing, where one does not fit.
    pub open spec fn pretranslated(self, keys: Seq<BlockKey>) -> Option<(Game, nat)>
        decreases keys.len(),
    {
        if keys.len() == 0 {
            Some((self, 0))
        } else {
            match self.pretranslated(keys.drop_last()) {
                Some((game, done)) => match game.reached(keys.last()) {
                    Some((next, new)) => Some((next, done + new)),
                    None => None,
                },
                None => None,
            }
        }
    }
}

impl Emu {
    /// The invariant of the type.
    pub open spec fn wf(self) -> bool {
        self.host.wf()
    }

    fn flush_pending(&mut self)
        requires
            old(self).wf(),
        ensures
            final(self).wf(),
            final(self)@ == old(self)@.flushed(),
    {
        let owed: u32 = self.state.pending;
        self.state.pending = 0;
        if owed != 0 {
            self.host.mmu.tick(owed);
        }
    }

    /// Push the program counter and vector to interrupt `bit`.
    fn vector(&mut self, bit: u8, now: u64)
        requires
            old(self).wf(),
            bit < 5,
        ensures
            final(self).wf(),
            final(self)@ == old(self)@.vectored(bit, now),
    {
        proof {
            reveal(Game::vectored);
        }
        self.host.mmu.ack_interrupt(bit);
        self.host.mmu.tick(8);
        let pc: u16 = self.state.pc;
        self.state.sp = self.state.sp.wrapping_sub(1);
        self.host.mmu.tick(4);
        if self.host.store(self.state.sp, (pc / 256) as u8, now) {
            self.state.bank_gen = self.state.bank_gen.wrapping_add(1);
        }
        self.state.sp = self.state.sp.wrapping_sub(1);
        self.host.mmu.tick(4);
        if self.host.store(self.state.sp, (pc % 256) as u8, now) {
            self.state.bank_gen = self.state.bank_gen.wrapping_add(1);
        }
        self.state.pc = 0x40 + bit as u16 * 8;
        self.host.mmu.tick(4);
    }

    fn service_interrupt(&mut self, now: u64)
        requires
            old(self).wf(),
        ensures
            final(self).wf(),
            final(self)@ == old(self)@.serviced(now),
    {
        let pending: u8 = self.host.mmu.pending_interrupts();
        if pending == 0 {
            return ;
        }
        self.state.halted = 0;
        self.stopped = false;
        if self.state.ime == 0 {
            return ;
        }
        self.state.ime = 0;
        self.vector(lowest_bit(pending), now);
    }

    /// Remember which pages a block was built from, so a write to any of them can throw
    /// it away.
    fn mark_pages(&mut self, start: u16, end: u16)
        requires
            old(self).wf(),
        ensures
            final(self).wf(),
            final(self)@ == (Game {
                host: HostState {
                    code_pages: marked(old(self)@.host.code_pages, start, end),
                    ..old(self)@.host
                },
                ..old(self)@
            }),
    {
        let first: usize = (start / 256) as usize;
        let last: usize = (end.wrapping_sub(1) / 256) as usize;
        let (from, to): (usize, usize) = if end.wrapping_sub(1) < start {
            (0, 255)
        } else {
            (first, last)
        };
        let mut pages: [bool; 256] = self.host.code_pages;
        let ghost before = pages@;
        for p in from..to + 1
            invariant
                from <= to <= 255,
                pages@.len() == 256,
                forall|q: int|
                    0 <= q < 256 ==> #[trigger] pages@[q] == (before[q] || from <= q < p),
        {
            pages[p] = true;
        }
        self.host.code_pages = pages;
        assert(self.host.code_pages@ =~= marked(old(self)@.host.code_pages, start, end));
    }

    /// Translate the block at `key` if it is not already in the cache.
    fn ensure_block(&mut self, key: BlockKey) -> (found: Option<BlockInfo>)
        requires
            old(self).wf(),
        ensures
            final(self).wf(),
            match found {
                Some(info) => old(self)@.ensured(key) == Some((final(self)@, info)),
                None => old(self)@.ensured(key) is None && final(self)@ == old(self)@,
            },
    {
        if let Some(info) = self.host.cache.lookup(key) {
            return Some(info);
        }
        let ghost mem = self@.memory();
        let block = translate_from(&self.host.mmu, key.addr, self.ctx);
        let end: u16 = block.end;
        proof {
            let unlinked = program::unlinked();
            assert(program::code_len(program::block_ops(mem, key.addr, self.ctx, unlinked))
                == block.code.len());
            linking::law_links(mem, key.addr, self.ctx, unlinked);
        }
        if !self.host.cache.has_room(key, &block) {
            return None;
        }
        let info = self.host.cache.install(key, block);
        if key.addr >= 0x8000 {
            self.mark_pages(key.addr, end);
        }
        Some(info)
    }

    /// Translated code for the program counter, translating on the spot if this is the
    /// first time the game has gone there.
    fn entry(&mut self) -> (found: Option<usize>)
        requires
            old(self).wf(),
        ensures
            final(self).wf(),
            match found {
                Some(offset) => old(self)@.entered() == Some((final(self)@, offset)),
                None => old(self)@.entered() is None && final(self)@ == old(self)@,
            },
    {
        let pc: u16 = self.state.pc;
        let bank: u16 = self.host.mmu.bank_at(pc);
        let info = match self.ensure_block(BlockKey { bank, addr: pc }) {
            Some(info) => info,
            None => return None,
        };
        // Prime the inline cache so the next indirect jump here stays native.
        let slot: usize = pc as usize % JUMP_CACHE_SLOTS;
        let target: u64 = self.host.base.wrapping_add(info.offset as u64);
        self.host.jump_table[slot] = JumpEntry {
            pc: pc as u32,
            gen: self.state.bank_gen,
            target,
        };
        Some(info.offset)
    }

    /// The first half of a turn: settles what is owed, takes an interrupt, and says what
    /// to run.
    pub fn begin(&mut self) -> (turn: Turn)
        requires
            old(self).wf(),
        ensures
            final(self).wf(),
            exists|now: u64|
                rtc::host_second(now) && (final(self)@, turn) == #[trigger] old(self)@.begun(now),
    {
        // Only an interrupt that pushes into the cartridge can reach the clock there.
        let now: u64 = if self.state.sp < 0xc002 && self.host.mmu.cart.has_clock() {
            rtc::now_secs()
        } else {
            0
        };
        proof {
            if self@.state.sp >= 0xc002 || self@.host.mmu.cart.rtc is None {
                let shown = rtc::lemma_some_second();
                hosting::lemma_clockless_turn(self@, now, shown);
            }
        }
        self.begin_at(now)
    }

    /// The first half of a turn, at wall-clock second `now`.
    pub fn begin_at(&mut self, now: u64) -> (turn: Turn)
        requires
            old(self).wf(),
        ensures
            final(self).wf(),
            (final(self)@, turn) == old(self)@.begun(now),
    {
        self.flush_pending();
        self.service_interrupt(now);
        if self.state.halted != 0 || self.stopped || self.fault.is_some() {
            self.host.mmu.tick(4);
            return Turn::Idle;
        }
        match self.entry() {
            Some(offset) => {
                self.state.exit = EXIT_NONE;
                Turn::Run(offset)
            },
            None => Turn::Full,
        }
    }

    /// The second half of a turn: takes note of why translated code came back.
    pub fn finish(&mut self)
        requires
            old(self).wf(),
        ensures
            final(self).wf(),
            final(self)@ == old(self)@.finished(),
    {
        if self.state.exit == EXIT_STOP {
            self.stopped = true;
        } else if self.state.exit == EXIT_ILLEGAL {
            let pc: u16 = self.state.pc;
            let opcode: u8 = self.host.mmu.peek(pc);
            let mut message = String::from_str("the game reached ");
            text::push_low_hex(&mut message, pc, 4);
            message.append(", where ");
            text::push_low_hex(&mut message, opcode as u16, 2);
            message.append(" is not an instruction the hardware implements");
            self.fault = Some(message);
        }
        self.flush_pending();
    }
}

fn lowest_bit(pending: u8) -> (bit: u8)
    ensures
        bit == lowest(pending),
        bit < 5,
{
    if pending & 1 != 0 {
        0
    } else if pending & 2 != 0 {
        1
    } else if pending & 4 != 0 {
        2
    } else if pending & 8 != 0 {
        3
    } else {
        4
    }
}

spec fn keeps(mmu: &Mmu) -> bool {
    mmu.wf()
}

/// Translates the block at `start` from what the console shows there.
fn translate_from(mmu: &Mmu, start: u16, ctx: Context) -> (block: Block)
    requires
        mmu.wf(),
    ensures
        translate::translates(block, |a: u16| mmu@.code_byte(a), start, ctx),
{
    let ghost mem = |a: u16| mmu@.code_byte(a);
    let fetch = |a: u16| -> (b: u8)
        requires
            keeps(mmu),
        ensures
            b == mmu@.code_byte(a),
        { mmu.peek(a) };
    translate::translate_in(start, ctx, &fetch, Ghost(mem))
}

// ---- switching on --------------------------------------------------------

/// Whether anything can remap 0x0000-0x3FFF. Only MBC1 can, and only on
/// cartridges big enough for the high bank bits to mean something.
pub fn lower_window_is_fixed(cart: &Cartridge) -> (fixed: bool)
    ensures
        fixed == lower_fixed(cart@.header),
{
    let info = cart.info();
    !(info.mbc == MbcKind::Mbc1 && info.rom_banks > 32)
}

/// Whether the header's mapper leaves 0x0000-0x3FFF alone.
pub open spec fn lower_fixed(header: hw::cartridge::Header) -> bool {
    !(header.mbc == MbcKind::Mbc1 && header.rom_banks > 32)
}

/// What is said when there is no memory for translated code.
pub open spec fn no_arena_message() -> Seq<char> {
    "could not reserve memory for translated code"@
}

/// The game as it is switched on at `now`.
pub open spec fn switched_on(rom: Seq<u8>, config: Config, arena: usize, now: u64) -> Game {
    let mmu = hw::built(rom, config, now);
    let cgb = hw::runs_in_colour(config.model, mmu.cart.header.cgb);
    Game {
        state: if cgb {
            abi::boot_cgb()
        } else {
            abi::boot_dmg()
        },
        host: HostState {
            mmu,
            cache: exec::empty_cache(arena as nat),
            jump_table: Seq::new(JUMP_CACHE_SLOTS as nat, |i: int| JumpEntry::empty()),
            code_pages: Seq::new(256, |i: int| false),
            base: 0,
        },
        ctx: Context { lower_window_fixed: lower_fixed(mmu.cart.header) },
        cgb,
        stopped: false,
        fault: None,
    }
}

/// Why the game cannot be switched on, if it cannot.
pub open spec fn start_refusal(rom: Seq<u8>, config: Config, arena: usize) -> Option<Seq<char>> {
    if hw::build_refusal(rom, config.model) is Some {
        hw::build_refusal(rom, config.model)
    } else if arena == 0 {
        Some(no_arena_message())
    } else {
        None
    }
}

impl Emu {
    /// Switches a game on, with the usual room for translated code.
    pub fn new(rom: Vec<u8>, config: &Config) -> (result: Result<Emu, CartridgeError>)
        ensures
            match result {
                Ok(emu) => {
                    &&& start_refusal(rom@, *config, DEFAULT_ARENA) is None
                    &&& emu.wf()
                    &&& exists|now: u64|
                        rtc::host_second(now) && emu@ == #[trigger] switched_on(rom@, *config, DEFAULT_ARENA, now)
                },
                Err(e) => start_refusal(rom@, *config, DEFAULT_ARENA) == Some(e.0@),
            },
    {
        proof {
            x64::lemma_encode_all_short(translate::trampoline_ops());
        }
        Self::with_arena(rom, config, DEFAULT_ARENA)
    }

    /// Switches a game on, with `arena_bytes` of room for translated code, of which the
    /// trampoline takes its share.
    pub fn with_arena(rom: Vec<u8>, config: &Config, arena_bytes: usize) -> (result: Result<
        Emu,
        CartridgeError,
    >)
        requires
            arena_bytes == 0 || x64::encode_all(translate::trampoline_ops()).len() <= arena_bytes,
        ensures
            match result {
                Ok(emu) => {
                    &&& start_refusal(rom@, *config, arena_bytes) is None
                    &&& emu.wf()
                    &&& exists|now: u64|
                        rtc::host_second(now) && emu@ == #[trigger] switched_on(rom@, *config, arena_bytes, now)
                },
                Err(e) => start_refusal(rom@, *config, arena_bytes) == Some(e.0@),
            },
    {
        Self::with_arena_at(rom, config, arena_bytes, rtc::now_secs())
    }

    /// Switches a game on at wall-clock second `now`.
    pub fn with_arena_at(
        rom: Vec<u8>,
        config: &Config,
        arena_bytes: usize,
        now: u64,
    ) -> (result: Result<Emu, CartridgeError>)
        requires
            arena_bytes == 0 || x64::encode_all(translate::trampoline_ops()).len() <= arena_bytes,
        ensures
            match result {
                Ok(emu) => {
                    &&& start_refusal(rom@, *config, arena_bytes) is None
                    &&& emu.wf()
                    &&& emu@ == switched_on(rom@, *config, arena_bytes, now)
                },
                Err(e) => start_refusal(rom@, *config, arena_bytes) == Some(e.0@),
            },
    {
        let (mmu, cgb) = match hw::build_at(rom, config, now) {
            Ok(built) => built,
            Err(e) => return Err(e),
        };
        let ctx = Context { lower_window_fixed: lower_window_is_fixed(&mmu.cart) };
        let cache = match CodeCache::new(arena_bytes) {
            Some(cache) => cache,
            None => {
                return Err(
                    CartridgeError(
                        String::from_str("could not reserve memory for translated code"),
                    ),
                );
            },
        };
        let host = Host {
            mmu,
            cache,
            jump_table: vec![JumpEntry::empty(); JUMP_CACHE_SLOTS],
            code_pages: [false;256],
            base: 0,
        };
        let state = if cgb {
            GbState::new_cgb()
        } else {
            GbState::default()
        };
        let emu = Emu { state, host, ctx, cgb, stopped: false, fault: None };
        proof {
            let goal = switched_on(rom@, *config, arena_bytes, now);
            assert(emu@.host.jump_table =~= goal.host.jump_table);
            assert(emu@.host.code_pages =~= goal.host.code_pages);
        }
        Ok(emu)
    }

    pub fn context(&self) -> (ctx: Context)
        ensures
            ctx == self@.ctx,
    {
        self.ctx
    }

    /// Says where in host memory the arena lies.
    pub fn set_base(&mut self, base: u64)
        requires
            old(self).wf(),
        ensures
            final(self).wf(),
            final(self)@ == (Game {
                host: HostState { base, ..old(self)@.host },
                ..old(self)@
            }),
    {
        self.host.base = base;
    }

    // ---- frames ----------------------------------------------------------

    /// Starts a frame, and says at which cycle.
    pub fn start_frame(&mut self) -> (start: u64)
        requires
            old(self).wf(),
        ensures
            final(self).wf(),
            start == old(self)@.host.mmu.clock,
            final(self)@ == old(self)@.with_mmu(
                Console {
                    ppu: Picture { frame_ready: false, ..old(self)@.host.mmu.ppu },
                    ..old(self)@.host.mmu
                },
            ),
    {
        self.host.mmu.ppu.take_frame();
        self.host.mmu.total_cycles()
    }

    /// Whether the frame that began at cycle `start` is over.
    pub fn frame_over(&self, start: u64) -> (over: bool)
        ensures
            over == self@.frame_over(start),
    {
        self.host.mmu.ppu.has_frame() || self.host.mmu.total_cycles().wrapping_sub(start)
            > FRAME_BUDGET
    }

    // ---- front-end surface -----------------------------------------------

    pub fn set_button(&mut self, button: Button, pressed: bool)
        requires
            old(self).wf(),
        ensures
            final(self).wf(),
            final(self)@ == old(self)@.with_mmu(
                Console {
                    joypad: old(self)@.host.mmu.joypad.with(button, pressed),
                    ..old(self)@.host.mmu
                },
            ),
    {
        self.host.mmu.joypad.set(button, pressed);
    }

    pub fn framebuffer(&self) -> (pixels: &[u32])
        ensures
            pixels@ == self@.host.mmu.ppu.framebuffer,
    {
        self.host.mmu.ppu.pixels()
    }

    /// Hands over the record of what the mixer was fed.
    pub fn take_sound(&mut self) -> (record: Vec<Mix>)
        requires
            old(self).wf(),
        ensures
            final(self).wf(),
            record@ == old(self)@.host.mmu.apu.record,
            final(self)@ == old(self)@.with_mmu(
                Console {
                    apu: Sound { record: seq![], recorded: 0, ..old(self)@.host.mmu.apu },
                    ..old(self)@.host.mmu
                },
            ),
    {
        self.host.mmu.apu.take_record()
    }

    pub fn info(&self) -> (info: &CartridgeInfo)
        ensures
            info@ == self@.host.mmu.cart.header,
    {
        self.host.mmu.cart.info()
    }

    pub fn has_battery(&self) -> (yes: bool)
        ensures
            yes == self@.host.mmu.cart.battery,
    {
        self.host.mmu.cart.has_battery()
    }

    pub fn save_dirty(&self) -> (yes: bool)
        ensures
            yes == self@.host.mmu.cart.ram_dirty,
    {
        self.host.mmu.cart.is_dirty()
    }

    /// Whether there is anything to save, and anything to save it for.
    pub fn save_due(&self) -> (yes: bool)
        ensures
            yes == (self@.host.mmu.cart.battery && self@.host.mmu.cart.ram_dirty),
    {
        self.has_battery() && self.save_dirty()
    }

    pub fn clear_save_dirty(&mut self)
        requires
            old(self).wf(),
        ensures
            final(self).wf(),
            final(self)@ == old(self)@.with_mmu(
                Console {
                    cart: hw::cartridge::Board { ram_dirty: false, ..old(self)@.host.mmu.cart },
                    ..old(self)@.host.mmu
                },
            ),
    {
        self.host.mmu.cart.set_clean();
    }

    pub fn save_data(&self) -> (data: Vec<u8>)
        ensures
            exists|now: u64|
                rtc::host_second(now) && data@ == #[trigger] self@.host.mmu.cart.saved(now),
    {
        self.host.mmu.cart.save_data()
    }

    pub fn load_save(&mut self, data: &[u8])
        requires
            old(self).wf(),
        ensures
            final(self).wf(),
            exists|now: u64|
                rtc::host_second(now) && final(self)@ == old(self)@.with_mmu(
                    Console {
                        cart: #[trigger] old(self)@.host.mmu.cart.loaded(data@, now),
                        ..old(self)@.host.mmu
                    },
                ),
    {
        self.host.mmu.cart.load_save(data);
    }

    /// Translates one entry point, and says whether it had to.
    fn reach(&mut self, key: BlockKey) -> (new: Option<bool>)
        requires
            old(self).wf(),
        ensures
            final(self).wf(),
            match new {
                Some(new) => old(self)@.reached(key) == Some(
                    (
                        final(self)@,
                        if new {
                            1nat
                        } else {
                            0nat
                        },
                    ),
                ),
                None => old(self)@.reached(key) is None,
            },
    {
        proof {
            reveal(Game::reached);
        }
        if self.host.cache.lookup(key).is_some() {
            return Some(false);
        }
        match self.ensure_block(key) {
            Some(_) => Some(true),
            None => None,
        }
    }

    /// Translate a set of entry points before the game starts running, so the
    /// common path is already native the first time it is reached. Nothing comes back
    /// when they do not all fit.
    pub fn pretranslate(&mut self, keys: &[BlockKey]) -> (done: Option<usize>)
        requires
            old(self).wf(),
        ensures
            final(self).wf(),
            match done {
                Some(n) => old(self)@.pretranslated(keys@) == Some((final(self)@, n as nat)),
                None => old(self)@.pretranslated(keys@) is None,
            },
    {
        let mut done: usize = 0;
        for i in 0..keys.len()
            invariant
                self.wf(),
                done <= i,
                old(self)@.pretranslated(keys@.take(i as int)) == Some((self@, done as nat)),
        {
            assert(keys@.take(i + 1).drop_last() =~= keys@.take(i as int));
            match self.reach(keys[i]) {
                Some(new) => {
                    if new {
                        done += 1;
                    }
                },
                None => {
                    proof {
                        lemma_pretranslated_stays_none(old(self)@, keys@, i + 1);
                    }
                    return None;
                },
            }
        }
        assert(keys@.take(keys@.len() as int) =~= keys@);
        Some(done)
    }

    /// Reinstates code that was translated and exported for the same cartridge.
    pub fn install_translated(&mut self, blob: &[u8], map: &[(BlockKey, u32, u32)])
        requires
            old(self).wf(),
            blob@.len() <= old(self)@.host.cache.bytes.len(),
            forall|i: int| 0 <= i < map@.len() ==> (#[trigger] map@[i]).1 <= blob@.len(),
        ensures
            old(self)@.host.cache.inside(blob@.len()) ==> final(self).wf(),
            final(self)@ == (Game {
                host: HostState {
                    cache: old(self)@.host.cache.import(blob@, map@),
                    ..old(self)@.host
                },
                ..old(self)@
            }),
    {
        self.host.cache.import(blob, map);
    }

    pub fn blocks_translated(&self) -> (n: usize)
        ensures
            n == self@.host.cache.blocks.dom().len(),
    {
        self.host.cache.block_count()
    }

    pub fn code_bytes(&self) -> (n: usize)
        ensures
            n == self@.host.cache.used,
    {
        self.host.cache.used()
    }
}

/// Once a block did not fit, neither do the ones after it.
proof fn lemma_pretranslated_stays_none(game: Game, keys: Seq<BlockKey>, n: int)
    requires
        0 <= n <= keys.len(),
        game.pretranslated(keys.take(n)) is None,
    ensures
        game.pretranslated(keys) is None,
    decreases keys.len() - n,
{
    if n == keys.len() {
        assert(keys.take(n) =~= keys);
    } else {
        assert(keys.take(n + 1).drop_last() =~= keys.take(n));
        lemma_pretranslated_stays_none(game, keys, n + 1);
    }
}

} // verus!
