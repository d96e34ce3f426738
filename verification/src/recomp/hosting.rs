//! What the helpers promise: they are the hardware that translated code is described
//! against, and they drop translations whose code has been overwritten.
use vstd::prelude::*;
use crate::hw::cartridge;
use crate::hw::cartridge::{Board, MbcKind};
use crate::hw::console::Console;
use crate::hw::memory;
use crate::recomp::abi::{GbState, JumpEntry, EXIT_HALT, EXIT_NONE, EXIT_STOP, EXIT_YIELD};
use crate::recomp::bus;
use crate::recomp::bus::{Event, Hardware, Leftover, World};
use crate::recomp::exec;
use crate::recomp::exec::{BlockInfo, BlockKey, Cached, PendingLink};
use crate::recomp::machine;
use crate::recomp::machine::{Game, HostState};
use crate::recomp::program::Link;

verus! {

/// The host after it has been told of the events in `log`, all at wall-clock second
/// `now`.
pub open spec fn replay(host: HostState, log: Seq<Event>, now: u64) -> HostState
    decreases log.len(),
{
    if log.len() == 0 {
        host
    } else {
        let h = replay(host, log.drop_last(), now);
        match log.last() {
            Event::Tick(t) => h.told(t),
            Event::Write(addr, value) => h.stored(addr, value, now),
            Event::Stop => HostState { mmu: h.mmu.stopped(), ..h },
            _ => h,
        }
    }
}

/// The hardware that a host is: it answers by what it has become under the events so
/// far. What helpers leave in registers, and the inline jump cache, are up to the
/// program around it.
pub open spec fn hardware(
    host: HostState,
    now: u64,
    leftover: spec_fn(Seq<Event>) -> Leftover,
    table: spec_fn(Seq<Event>) -> Seq<JumpEntry>,
    table_at: u64,
) -> Hardware {
    Hardware {
        byte: |log: Seq<Event>, addr: u16| replay(host, log, now).mmu.byte(addr),
        generation: |log: Seq<Event>, gen: u32|
            match log.last() {
                Event::Write(addr, _) => replay(host, log.drop_last(), now).generation(addr, gen),
                _ => gen,
            },
        wants: |log: Seq<Event>, ime: bool| replay(host, log, now).wants(ime),
        resumes: |log: Seq<Event>| replay(host, log.drop_last(), now).mmu.switches_speed(),
        leftover,
        table,
        table_at,
    }
}

proof fn lemma_replay_settle(host: HostState, now: u64, w: World, extra: int)
    ensures
        replay(host, w.settle(extra).log, now) == replay(host, w.log, now).told(
            machine::owed(w.st, extra),
        ),
{
    let t = machine::owed(w.st, extra);
    if t != 0 {
        assert(w.log.push(Event::Tick(t)).drop_last() =~= w.log);
    }
}

proof fn lemma_replay_say(host: HostState, now: u64, w: World, event: Event)
    ensures
        replay(host, w.say(event).log, now) == ({
            let h = replay(host, w.log, now);
            match event {
                Event::Tick(t) => h.told(t),
                Event::Write(addr, value) => h.stored(addr, value, now),
                Event::Stop => HostState { mmu: h.mmu.stopped(), ..h },
                _ => h,
            }
        }),
        w.say(event).log.last() == event,
        w.say(event).log.drop_last() == w.log,
{
    assert(w.log.push(event).drop_last() =~= w.log);
}

/// The read helper is the hardware's read: the byte, the registers and the host all come
/// out as the hardware says.
pub proof fn law_read_helper(
    host: HostState,
    now: u64,
    hw: Hardware,
    w: World,
    addr: u16,
)
    requires
        hw == hardware(host, now, hw.leftover, hw.table, hw.table_at),
    ensures
        ({
            let h = replay(host, w.log, now);
            let after = h.told(machine::owed(w.st, 4));
            &&& w.read_value(hw, addr) == after.mmu.byte(addr)
            &&& w.read(addr).st == (GbState { pending: 0, ..w.st })
            &&& replay(host, w.read(addr).log, now) == after
        }),
{
    lemma_replay_settle(host, now, w, 4);
    lemma_replay_say(host, now, w.settle(4), Event::Read(addr));
}

/// The write helper is the hardware's write.
pub proof fn law_write_helper(
    host: HostState,
    now: u64,
    hw: Hardware,
    w: World,
    addr: u16,
    value: u8,
)
    requires
        hw == hardware(host, now, hw.leftover, hw.table, hw.table_at),
    ensures
        ({
            let h = replay(host, w.log, now);
            let told = h.told(machine::owed(w.st, 4));
            &&& w.write(hw, addr, value).st == (GbState {
                pending: 0,
                bank_gen: h.generation(addr, w.st.bank_gen),
                ..w.st
            })
            &&& replay(host, w.write(hw, addr, value).log, now) == told.stored(addr, value, now)
        }),
{
    let h = replay(host, w.log, now);
    memory::law_time_keeps_work_ram(h.mmu, machine::owed(w.st, 4));
    lemma_replay_settle(host, now, w, 4);
    lemma_replay_say(host, now, w.settle(4), Event::Write(addr, value));
}

/// The sync helper is the hardware's sync.
pub proof fn law_sync_helper(host: HostState, now: u64, hw: Hardware, w: World)
    requires
        hw == hardware(host, now, hw.leftover, hw.table, hw.table_at),
    ensures
        ({
            let h = replay(host, w.log, now);
            let after = h.told(machine::owed(w.st, 0));
            let st = bus::sync_ime(GbState { pending: 0, ..w.st });
            &&& w.sync(hw).st == if after.wants(st.ime != 0) {
                GbState { exit: EXIT_YIELD, ..st }
            } else {
                st
            }
            &&& replay(host, w.sync(hw).log, now) == after
        }),
{
    lemma_replay_settle(host, now, w, 0);
    lemma_replay_say(host, now, w.settle(0), Event::Sync);
}

/// The halt and stop helpers are the hardware's halt and stop.
pub proof fn law_halt_and_stop_helpers(host: HostState, now: u64, hw: Hardware, w: World)
    requires
        hw == hardware(host, now, hw.leftover, hw.table, hw.table_at),
    ensures
        ({
            let h = replay(host, w.log, now);
            let told = h.told(machine::owed(w.st, 0));
            &&& w.halt().st == (GbState { pending: 0, halted: 1, exit: EXIT_HALT, ..w.st })
            &&& replay(host, w.halt().log, now) == told
            &&& w.stop(hw).st == (GbState {
                pending: 0,
                exit: if told.mmu.switches_speed() {
                    EXIT_NONE
                } else {
                    EXIT_STOP
                },
                ..w.st
            })
            &&& replay(host, w.stop(hw).log, now) == (HostState {
                mmu: told.mmu.stopped(),
                ..told
            })
        }),
{
    lemma_replay_settle(host, now, w, 0);
    lemma_replay_say(host, now, w.settle(0), Event::Halt);
    lemma_replay_say(host, now, w.settle(0), Event::Stop);
}

// ---- code that changes ---------------------------------------------------

/// Whether every page that a block outside ROM was built from is marked.
pub open spec fn pages_known(host: HostState) -> bool {
    &&& host.code_pages.len() == 256
    &&& forall|key: BlockKey, page: u8|
        #![trigger exec::touches(key, host.cache.blocks[key], page)]
        host.cache.blocks.contains_key(key) && key.addr >= 0x8000 && exec::touches(
            key,
            host.cache.blocks[key],
            page,
        ) ==> host.code_pages[page as int]
}

/// What forgetting a page leaves: no block outside ROM covers any of it, and the others are
/// where they were.
proof fn lemma_forgotten(host: HostState, page: u8)
    requires
        pages_known(host),
    ensures
        ({
            let after = host.forgotten(page as int);
            &&& pages_known(after)
            &&& after.mmu == host.mmu
            &&& forall|key: BlockKey|
                #![trigger after.cache.blocks.contains_key(key)]
                after.cache.blocks.contains_key(key) ==> host.cache.blocks.contains_key(key)
                    && after.cache.blocks[key] == host.cache.blocks[key]
            &&& forall|key: BlockKey|
                #![trigger after.cache.blocks.contains_key(key)]
                after.cache.blocks.contains_key(key) && key.addr >= 0x8000 ==> !exec::touches(
                    key,
                    after.cache.blocks[key],
                    page,
                )
            &&& !host.code_pages[page as int] ==> after == host
            &&& forall|p: int|
                0 <= p < 256 && p != page ==> #[trigger] after.code_pages[p] == host.code_pages[p]
        }),
{
    let after = host.forgotten(page as int);
    assert forall|key: BlockKey|
        #![trigger after.cache.blocks.contains_key(key)]
        after.cache.blocks.contains_key(key) && key.addr >= 0x8000 implies !exec::touches(
        key,
        after.cache.blocks[key],
        page,
    ) by {
        if !host.code_pages[page as int] && exec::touches(key, after.cache.blocks[key], page) {
            assert(exec::touches(key, host.cache.blocks[key], page));
        }
    }
    assert forall|key: BlockKey, p: u8|
        #![trigger exec::touches(key, after.cache.blocks[key], p)]
        after.cache.blocks.contains_key(key) && key.addr >= 0x8000 && exec::touches(
            key,
            after.cache.blocks[key],
            p,
        ) implies after.code_pages[p as int] by {
        assert(exec::touches(key, host.cache.blocks[key], p));
    }
}

/// A write to a page that some block was built from throws the translation away: after
/// it, no block outside ROM covers any of that page or of its echo, and where one did,
/// every inline jump-cache entry has gone stale. Marked pages stay known.
pub proof fn law_stale_code_is_dropped(
    host: HostState,
    addr: u16,
    value: u8,
    now: u64,
    gen: u32,
)
    requires
        pages_known(host),
        addr >= 0xa000,
    ensures
        ({
            let after = host.stored(addr, value, now);
            &&& pages_known(after)
            &&& forall|key: BlockKey|
                #![trigger after.cache.blocks.contains_key(key)]
                after.cache.blocks.contains_key(key) && key.addr >= 0x8000 ==> !exec::touches(
                    key,
                    after.cache.blocks[key],
                    (addr / 256) as u8,
                ) && !exec::touches(
                    key,
                    after.cache.blocks[key],
                    machine::echo_of(addr as int / 256) as u8,
                )
            &&& forall|key: BlockKey|
                #![trigger after.cache.blocks.contains_key(key)]
                host.cache.blocks.contains_key(key) && key.addr >= 0x8000
                    && !after.cache.blocks.contains_key(key) ==> host.generation(addr, gen) != gen
        }),
{
    lemma_stored(host, addr, value, now);
    let page = (addr / 256) as u8;
    let echo = machine::echo_of(addr as int / 256) as u8;
    let next = HostState { mmu: host.mmu.written(addr, value, now), ..host };
    lemma_pages_by_code(host, next);
    lemma_forgotten(next, page);
    let once = next.forgotten(page as int);
    lemma_forgotten(once, echo);
    let after = host.stored(addr, value, now);
    assert(after == once.forgotten(echo as int)) by {
        reveal(HostState::stored);
    }
    assert forall|key: BlockKey|
        #![trigger after.cache.blocks.contains_key(key)]
        after.cache.blocks.contains_key(key) && key.addr >= 0x8000 implies !exec::touches(
        key,
        after.cache.blocks[key],
        page,
    ) by {
        assert(once.cache.blocks.contains_key(key));
    }
}

/// What is known of the pages rests on the translations and the marks alone.
pub proof fn lemma_pages_by_code(host: HostState, next: HostState)
    requires
        pages_known(host),
        next.cache == host.cache,
        next.code_pages == host.code_pages,
    ensures
        pages_known(next),
{
    assert forall|key: BlockKey, p: u8|
        #![trigger exec::touches(key, next.cache.blocks[key], p)]
        next.cache.blocks.contains_key(key) && key.addr >= 0x8000 && exec::touches(
            key,
            next.cache.blocks[key],
            p,
        ) implies next.code_pages[p as int] by {
        assert(exec::touches(key, host.cache.blocks[key], p));
    }
}

/// Marked pages stay known whatever is written to.
pub proof fn lemma_store_keeps_pages(host: HostState, addr: u16, value: u8, now: u64)
    requires
        pages_known(host),
    ensures
        pages_known(host.stored(addr, value, now)),
{
    if addr >= 0xa000 {
        law_stale_code_is_dropped(host, addr, value, now, 0);
    } else {
        lemma_stored(host, addr, value, now);
        lemma_pages_by_code(host, host.stored(addr, value, now));
    }
}

/// What a write does to the hardware, and what it leaves alone.
pub proof fn lemma_stored(host: HostState, addr: u16, value: u8, now: u64)
    ensures
        ({
            let after = host.stored(addr, value, now);
            &&& after.mmu == host.mmu.written(addr, value, now)
            &&& after.jump_table == host.jump_table
            &&& after.base == host.base
            &&& addr < 0xa000 || !host.holds_code(addr) ==> after == (HostState {
                mmu: after.mmu,
                ..host
            })
        }),
{
    reveal(HostState::stored);
}

/// When a write happens matters to the hardware alone.
proof fn lemma_stored_later(host: HostState, addr: u16, value: u8, now: u64, later: u64)
    requires
        host.mmu.written(addr, value, now) == host.mmu.written(addr, value, later),
    ensures
        host.stored(addr, value, now) == host.stored(addr, value, later),
{
    reveal(HostState::stored);
}

/// Whether cartridge RAM fills its window, so that every address there is a byte of its
/// own.
pub open spec fn fills_window(cart: Board) -> bool {
    &&& cart.kind != MbcKind::Mbc2
    &&& !cart.shows_clock()
    &&& cart.ram.len() % 0x2000 == 0
}

/// Whether a write to `addr` goes to memory that code can run from.
pub open spec fn in_memory(console: Console, addr: u16) -> bool {
    0xa000 <= addr <= 0xbfff && fills_window(console.cart) || 0xc000 <= addr <= 0xfdff || 0xff80
        <= addr <= 0xfffe
}

/// A translation that survives a write is still true: wherever code can run from outside
/// ROM, no byte of a page that a surviving block covers has changed. Cartridge RAM smaller
/// than its window is left out, and so is a clock register shown there: a write to such an
/// address shows all over the window.
pub proof fn law_surviving_code_is_unchanged(
    host: HostState,
    addr: u16,
    value: u8,
    now: u64,
    key: BlockKey,
    a: u16,
)
    requires
        pages_known(host),
        host.mmu.wf(),
        in_memory(host.mmu, addr),
        0xa000 <= a <= 0xfdff || 0xff80 <= a <= 0xfffe,
        key.addr >= 0x8000,
        host.stored(addr, value, now).cache.blocks.contains_key(key),
        exec::touches(key, host.stored(addr, value, now).cache.blocks[key], (a / 256) as u8),
    ensures
        host.stored(addr, value, now).mmu.code_byte(a) == host.mmu.code_byte(a),
{
    law_stale_code_is_dropped(host, addr, value, now, 0);
    lemma_stored(host, addr, value, now);
    assert(a / 256 != addr / 256);
    assert(a as int / 256 != machine::echo_of(addr as int / 256));
    reveal(Console::written);
    reveal(Board::ram_written);
    let cart = host.mmu.cart;
    if 0xa000 <= addr <= 0xbfff && 0xa000 <= a <= 0xbfff && cart.ram.len() > 0 {
        cartridge::lemma_window(
            cart.ram_bank() as int,
            addr - 0xa000,
            a - 0xa000,
            cart.ram.len() as int,
        );
    }
}

proof fn lemma_resolve_all_keeps_blocks(s: Cached, links: Seq<Link>, offset: int, bank: u16)
    ensures
        s.resolve_all(links, offset, bank).blocks == s.blocks,
    decreases links.len(),
{
    if links.len() > 0 {
        lemma_resolve_all_keeps_blocks(s, links.drop_last(), offset, bank);
    }
}

proof fn lemma_connect_keeps_blocks(
    s: Cached,
    waiting: Seq<PendingLink>,
    key: BlockKey,
    offset: int,
)
    ensures
        s.connect(waiting, key, offset).blocks == s.blocks,
    decreases waiting.len(),
{
    if waiting.len() > 0 {
        lemma_connect_keeps_blocks(s, waiting.drop_last(), key, offset);
    }
}

pub proof fn lemma_install_blocks(s: Cached, key: BlockKey, code: Seq<u8>, links: Seq<Link>, end: u16)
    ensures
        s.install(key, code, links, end).blocks == s.blocks.insert(
            key,
            BlockInfo { offset: s.next_offset() as usize, len: code.len() as usize, end },
        ),
{
    let at = s.next_offset();
    let info = BlockInfo { offset: at as usize, len: code.len() as usize, end };
    let a = s.append(code);
    let b = Cached { blocks: a.blocks.insert(key, info), ..a };
    lemma_resolve_all_keeps_blocks(b, links, at, key.bank);
    let c = b.resolve_all(links, at, key.bank);
    lemma_connect_keeps_blocks(c, c.waiting, key, at);
}

/// Translating a block marks every page that it covers, and makes the block available
/// under its key.
pub proof fn law_translation_is_marked(game: Game, key: BlockKey)
    requires
        pages_known(game.host),
        game.ensured(key) is Some,
    ensures
        ({
            let (next, info) = game.ensured(key)->0;
            &&& pages_known(next.host)
            &&& next.host.cache.blocks.contains_key(key)
            &&& next.host.cache.blocks[key] == info
            &&& next.ensured(key) == Some((next, info))
        }),
{
    let (next, info) = game.ensured(key)->0;
    let cache = game.host.cache;
    if !cache.blocks.contains_key(key) {
        let (code, links, end) = machine::translation(game.memory(), key.addr, game.ctx);
        lemma_install_blocks(cache, key, code, links, end);
        assert forall|k: BlockKey, p: u8|
            #![trigger exec::touches(k, next.host.cache.blocks[k], p)]
            next.host.cache.blocks.contains_key(k) && k.addr >= 0x8000 && exec::touches(
                k,
                next.host.cache.blocks[k],
                p,
            ) implies next.host.code_pages[p as int] by {
            if k != key {
                assert(exec::touches(k, cache.blocks[k], p));
                assert(game.host.code_pages[p as int]);
            } else {
                let last = (end - 1) % 0x1_0000;
                assert(end.wrapping_sub(1) == last);
            }
        }
    }
}

/// A game that has just been switched on knows its pages: nothing is translated yet.
pub proof fn law_pages_known_at_start(
    rom: Seq<u8>,
    config: crate::hw::Config,
    arena: usize,
    now: u64,
)
    ensures
        pages_known(machine::switched_on(rom, config, arena, now).host),
{
}

// ---- the clock -----------------------------------------------------------

/// Only a cartridge clock cares when a write happens.
pub proof fn lemma_clockless_store(
    host: HostState,
    t: u32,
    addr: u16,
    value: u8,
    now: u64,
    later: u64,
)
    requires
        host.mmu.cart.rtc is None || addr >= 0xc000,
    ensures
        host.told(t).stored(addr, value, now) == host.told(t).stored(addr, value, later),
{
    memory::law_time_keeps_work_ram(host.mmu, t);
    host.told(t).mmu.lemma_clockless(addr, value, now, later);
    lemma_stored_later(host.told(t), addr, value, now, later);
}

/// Only an interrupt that pushes into the cartridge can reach the clock there.
pub proof fn lemma_clockless_turn(game: Game, now: u64, later: u64)
    requires
        game.state.sp >= 0xc002 || game.host.mmu.cart.rtc is None,
    ensures
        game.begun(now) == game.begun(later),
{
    let ready = game.flushed();
    memory::law_time_keeps_work_ram(game.host.mmu, game.state.pending);
    let pending = ready.host.mmu.pending();
    if pending != 0 && ready.state.ime != 0 {
        let awake = Game {
            state: GbState { halted: 0, ime: 0, ..ready.state },
            stopped: false,
            ..ready
        };
        lemma_clockless_vector(awake, machine::lowest(pending), now, later);
        assert(ready.serviced(now) == awake.vectored(machine::lowest(pending), now));
        assert(ready.serviced(later) == awake.vectored(machine::lowest(pending), later));
    }
    assert(ready.serviced(now) == ready.serviced(later));
}

proof fn lemma_clockless_vector(game: Game, bit: u8, now: u64, later: u64)
    requires
        game.state.sp >= 0xc002 || game.host.mmu.cart.rtc is None,
    ensures
        game.vectored(bit, now) == game.vectored(bit, later),
{
    reveal(Game::vectored);
    let pc = game.state.pc;
    let high = game.state.sp.wrapping_sub(1);
    let low = high.wrapping_sub(1);
    let m0 = game.host.mmu.acknowledged(bit);
    memory::law_time_keeps_work_ram(m0, 8);
    memory::law_time_keeps_work_ram(m0.ticked(8), 4);
    let h0 = HostState { mmu: m0.ticked(8).ticked(4), ..game.host };
    h0.mmu.lemma_clockless(high, (pc / 256) as u8, now, later);
    lemma_stored_later(h0, high, (pc / 256) as u8, now, later);
    lemma_stored(h0, high, (pc / 256) as u8, now);
    let h1 = h0.stored(high, (pc / 256) as u8, now);
    memory::law_time_keeps_work_ram(h1.mmu, 4);
    let h2 = HostState { mmu: h1.mmu.ticked(4), ..h1 };
    if high >= 0xc000 && low < 0xc000 {
        memory::lemma_upper_write(h0.mmu, high, (pc / 256) as u8, now);
    }
    h2.mmu.lemma_clockless(low, (pc % 256) as u8, now, later);
    lemma_stored_later(h2, low, (pc % 256) as u8, now, later);
}

// ---- interrupts ----------------------------------------------------------

/// What taking an interrupt does to the registers and to the hardware.
pub proof fn lemma_vectored(game: Game, now: u64)
    requires
        game.state.ime != 0,
        game.host.mmu.pending() != 0,
    ensures
        ({
            let after = game.serviced(now);
            let bit = machine::lowest(game.host.mmu.pending());
            let pc = game.state.pc;
            let high = game.state.sp.wrapping_sub(1);
            let low = high.wrapping_sub(1);
            &&& after.state.pc == 0x40 + 8 * bit
            &&& after.state.ime == 0
            &&& after.state.halted == 0
            &&& !after.stopped
            &&& after.state.sp == low
            &&& after.host.mmu == game.host.mmu.acknowledged(bit).ticked(8).ticked(4).written(
                high,
                (pc / 256) as u8,
                now,
            ).ticked(4).written(low, (pc % 256) as u8, now).ticked(4)
        }),
{
    reveal(Game::vectored);
    let bit = machine::lowest(game.host.mmu.pending());
    let pc = game.state.pc;
    let high = game.state.sp.wrapping_sub(1);
    let low = high.wrapping_sub(1);
    let h0 = HostState {
        mmu: game.host.mmu.acknowledged(bit).ticked(8).ticked(4),
        ..game.host
    };
    lemma_stored(h0, high, (pc / 256) as u8, now);
    let h1 = h0.stored(high, (pc / 256) as u8, now);
    let h2 = HostState { mmu: h1.mmu.ticked(4), ..h1 };
    lemma_stored(h2, low, (pc % 256) as u8, now);
}

/// An interrupt that can be taken is taken: the processor wakes, interrupts go off, the
/// program counter is at the vector of the highest-priority one, and with the stack in
/// work RAM or high RAM the address to return to lies on top of it.
pub proof fn law_interrupt_is_taken(game: Game, now: u64)
    requires
        game.host.mmu.wf(),
        game.state.ime != 0,
        game.host.mmu.pending() != 0,
    ensures
        ({
            let after = game.serviced(now);
            let bit = machine::lowest(game.host.mmu.pending());
            let sp = game.state.sp;
            &&& after.state.pc == 0x40 + 8 * bit
            &&& after.state.ime == 0
            &&& after.state.halted == 0
            &&& !after.stopped
            &&& after.state.sp == (sp - 2) % 0x1_0000
            &&& 0xc002 <= sp <= 0xfe00 || 0xff82 <= sp <= 0xffff ==> {
                &&& after.host.mmu.byte((sp - 2) as u16) == game.state.pc % 256
                &&& after.host.mmu.byte((sp - 1) as u16) == game.state.pc / 256
            }
        }),
{
    lemma_vectored(game, now);
    let sp = game.state.sp;
    let bit = machine::lowest(game.host.mmu.pending());
    let pc = game.state.pc;
    let high = sp.wrapping_sub(1);
    let low = high.wrapping_sub(1);
    let m0 = game.host.mmu.acknowledged(bit);
    let m1 = m0.ticked(8);
    let m2 = m1.ticked(4);
    memory::law_time_keeps_work_ram(m0, 8);
    memory::law_time_keeps_work_ram(m1, 4);
    let m3 = m2.written(high, (pc / 256) as u8, now);
    let m4 = m3.ticked(4);
    memory::law_time_keeps_work_ram(m3, 4);
    let m5 = m4.written(low, (pc % 256) as u8, now);
    memory::law_time_keeps_work_ram(m5, 4);
    if 0xc002 <= sp <= 0xfe00 {
        memory::lemma_work_write(m2, high, (pc / 256) as u8, now);
        memory::lemma_work_write(m4, low, (pc % 256) as u8, now);
    } else if 0xff82 <= sp {
        memory::lemma_high_write(m2, high, (pc / 256) as u8, now);
        memory::lemma_high_write(m4, low, (pc % 256) as u8, now);
    }
}

} // verus!
