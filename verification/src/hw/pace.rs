//! How fast the timer counts, said of what its registers read as.
use vstd::prelude::*;
use crate::hw::bits;
use crate::hw::timer::Timer;

verus! {

/// Clocks in one period of the divided clock that a running timer counts.
spec fn period(tac: u8) -> int {
    if tac == 4 {
        1024
    } else if tac == 5 {
        16
    } else if tac == 6 {
        64
    } else {
        256
    }
}

/// How far into that period the clock numbered `n` is.
spec fn into(tac: u8, n: int) -> int {
    if tac == 4 {
        n % 1024
    } else if tac == 5 {
        n % 16
    } else if tac == 6 {
        n % 64
    } else {
        n % 256
    }
}

/// How many periods are over by the clock numbered `n`.
spec fn ticks(tac: u8, n: int) -> int {
    if tac == 4 {
        n / 1024
    } else if tac == 5 {
        n / 16
    } else if tac == 6 {
        n / 64
    } else {
        n / 256
    }
}

/// The bits of the counter that can clock TIMA: each is set in the second half of its
/// period.
proof fn lemma_taps(c: u16)
    ensures
        (c & 0x200 != 0) == (c % 1024 >= 512),
        (c & 0x08 != 0) == (c % 16 >= 8),
        (c & 0x20 != 0) == (c % 64 >= 32),
        (c & 0x80 != 0) == (c % 256 >= 128),
{
    bits::lemma_word(c);
}

/// What TAC selects.
proof fn lemma_selected(tac: u8)
    requires
        4 <= tac <= 7,
    ensures
        tac & 4 != 0,
        tac & 3 == tac - 4,
{
    bits::lemma_byte(tac);
}

/// The line that clocks TIMA is high in the second half of the period.
proof fn lemma_level(timer: Timer)
    requires
        4 <= timer.tac <= 7,
    ensures
        timer.level() == (into(timer.tac, timer.counter as int) >= period(timer.tac) / 2),
{
    lemma_taps(timer.counter);
    lemma_selected(timer.tac);
}

/// The counter goes on by one, and so does its place in the period.
proof fn lemma_next(tac: u8, c: u16)
    requires
        4 <= tac <= 7,
    ensures
        c.wrapping_add(1) == (c + 1) % 0x1_0000,
        into(tac, c.wrapping_add(1) as int) == if into(tac, c as int) == period(tac) - 1 {
            0
        } else {
            into(tac, c as int) + 1
        },
{
}

/// One clock of a running timer: it counts when the divided clock wraps round.
#[verifier::rlimit(40)]
proof fn lemma_one_clock(timer: Timer)
    requires
        4 <= timer.tac <= 7,
        timer.reload_delay == 0,
        timer.last_edge == timer.level(),
    ensures
        timer.clocked().tac == timer.tac,
        timer.clocked().tma == timer.tma,
        timer.clocked().irq == timer.irq,
        timer.clocked().counter == timer.counter.wrapping_add(1),
        timer.clocked().last_edge == timer.clocked().level(),
        into(timer.tac, timer.counter as int) < period(timer.tac) - 1 ==> {
            &&& timer.clocked().tima == timer.tima
            &&& timer.clocked().reload_delay == 0
        },
        into(timer.tac, timer.counter as int) == period(timer.tac) - 1 ==> {
            &&& timer.tima < 0xff ==> timer.clocked().tima == timer.tima + 1
                && timer.clocked().reload_delay == 0
            &&& timer.tima == 0xff ==> timer.clocked().tima == 0
                && timer.clocked().reload_delay == 4
        },
{
    lemma_level(timer);
    lemma_level(timer.clocked());
    lemma_next(timer.tac, timer.counter);
}

/// `n` clocks of a running timer that does not overflow meanwhile.
proof fn lemma_clocks(timer: Timer, n: nat)
    requires
        4 <= timer.tac <= 7,
        timer.reload_delay == 0,
        timer.last_edge == timer.level(),
        into(timer.tac, timer.counter as int) == 0,
        timer.tima + ticks(timer.tac, n as int) < 256,
    ensures
        timer.after(n).tac == timer.tac,
        timer.after(n).tma == timer.tma,
        timer.after(n).irq == timer.irq,
        timer.after(n).reload_delay == 0,
        timer.after(n).last_edge == timer.after(n).level(),
        into(timer.tac, timer.after(n).counter as int) == into(timer.tac, n as int),
        timer.after(n).tima == timer.tima + ticks(timer.tac, n as int),
    decreases n,
{
    if n > 0 {
        let m = (n - 1) as nat;
        lemma_clocks(timer, m);
        lemma_one_clock(timer.after(m));
        lemma_next(timer.tac, timer.after(m).counter);
        assert(timer.after(n) == timer.after(m).clocked());
    }
}

/// Started at a count with a TAC that enables it, TIMA reads as that count plus one for
/// every 1024, 16, 64 or 256 clocks gone by, as TAC's low two bits say, for as long as it
/// has not overflowed, and no interrupt is asked for.
#[verifier::rlimit(40)]
pub proof fn law_timer_rate(timer: Timer, tac: u8, count: u8, n: nat)
    requires
        tac / 4 % 2 == 1,
    ensures
        ({
            let now = timer.written(0xff07, tac).written(0xff04, 0).written(0xff05, count).after(n);
            &&& tac % 4 == 0 && count + n / 1024 < 256 ==> now.reads(0xff05) == count + n / 1024
                && now.irq == timer.irq
            &&& tac % 4 == 1 && count + n / 16 < 256 ==> now.reads(0xff05) == count + n / 16
                && now.irq == timer.irq
            &&& tac % 4 == 2 && count + n / 64 < 256 ==> now.reads(0xff05) == count + n / 64
                && now.irq == timer.irq
            &&& tac % 4 == 3 && count + n / 256 < 256 ==> now.reads(0xff05) == count + n / 256
                && now.irq == timer.irq
        }),
{
    let start = timer.written(0xff07, tac).written(0xff04, 0).written(0xff05, count);
    bits::lemma_byte(tac);
    bits::lemma_byte(start.tac);
    bits::lemma_word(0);
    assert(start.tac == tac % 8);
    assert(start.counter == 0 && !start.last_edge);
    lemma_level(start);
    if count + ticks(start.tac, n as int) < 256 {
        lemma_clocks(start, n);
    }
}

/// A timer that TAC does not enable stands still, however long it is left.
pub proof fn law_timer_off(timer: Timer, tac: u8, count: u8, n: nat)
    requires
        tac / 4 % 2 == 0,
    ensures
        timer.written(0xff07, tac).written(0xff05, count).after(n).reads(0xff05) == count,
        timer.written(0xff07, tac).written(0xff05, count).after(n).irq == timer.irq,
{
    bits::lemma_byte(tac);
    let start = timer.written(0xff07, tac).written(0xff05, count);
    bits::lemma_byte(start.tac);
    lemma_still(start, n);
}

proof fn lemma_still(timer: Timer, n: nat)
    requires
        timer.tac & 4 == 0,
        !timer.last_edge,
        timer.reload_delay == 0,
    ensures
        timer.after(n) == (Timer { counter: timer.after(n).counter, ..timer }),
    decreases n,
{
    if n > 0 {
        lemma_still(timer, (n - 1) as nat);
    }
}

/// What happens on the clock on which TIMA, standing at its last count, would count on: it
/// reads as zero for that clock and the three after, and on the fourth after it reads as
/// TMA and bit 2 of the requested interrupts is set, which it was not before.
#[verifier::rlimit(40)]
pub proof fn law_timer_overflow(timer: Timer, tac: u8, k: nat)
    requires
        tac / 4 % 2 == 1,
    ensures
        ({
            let period: nat = if tac % 4 == 0 {
                1024
            } else if tac % 4 == 1 {
                16
            } else if tac % 4 == 2 {
                64
            } else {
                256
            };
            let start = timer.written(0xff07, tac).written(0xff04, 0).written(0xff05, 0xff);
            &&& k < period ==> start.after(k).reads(0xff05) == 0xff && start.after(k).irq
                == timer.irq
            &&& period <= k < period + 4 ==> start.after(k).reads(0xff05) == 0
                && start.after(k).irq == timer.irq
            &&& period + 4 <= k < period + 12 ==> start.after(k).reads(0xff05) == timer.tma
                && start.after(k).irq == timer.irq | 4
        }),
{
    let start = timer.written(0xff07, tac).written(0xff04, 0).written(0xff05, 0xff);
    bits::lemma_byte(tac);
    bits::lemma_byte(start.tac);
    bits::lemma_word(0);
    assert(start.tac == tac % 8);
    lemma_level(start);
    let full = period(start.tac);
    if k < full {
        lemma_clocks(start, k);
    } else if k < full + 12 {
        let last = (full - 1) as nat;
        lemma_clocks(start, last);
        let brink = start.after(last);
        lemma_one_clock(brink);
        lemma_next(start.tac, brink.counter);
        assert(start.after(full as nat) == brink.clocked());
        lemma_level(start.after(full as nat));
        crate::hw::timer::law_after_adds(start, full as nat, (k - full) as nat);
        lemma_after_overflow(start.after(full as nat), (k - full) as nat);
    }
}

/// The clocks that follow an overflow.
#[verifier::rlimit(40)]
proof fn lemma_after_overflow(timer: Timer, k: nat)
    requires
        4 <= timer.tac <= 7,
        into(timer.tac, timer.counter as int) == 0,
        timer.last_edge == timer.level(),
        timer.reload_delay == 4,
        timer.tima == 0,
        k < 12,
    ensures
        into(timer.tac, timer.after(k).counter as int) == k,
        timer.after(k).last_edge == timer.after(k).level(),
        timer.after(k).tac == timer.tac,
        timer.after(k).tma == timer.tma,
        timer.after(k).reload_delay == if k < 4 {
            4 - k
        } else {
            0
        },
        k < 4 ==> timer.after(k).tima == 0 && timer.after(k).irq == timer.irq,
        k >= 4 ==> timer.after(k).tima == timer.tma && timer.after(k).irq == timer.irq | 4,
    decreases k,
{
    if k > 0 {
        let prev = timer.after((k - 1) as nat);
        lemma_after_overflow(timer, (k - 1) as nat);
        lemma_next(timer.tac, prev.counter);
        assert(timer.after(k) == prev.clocked());
        lemma_level(prev);
        lemma_level(prev.clocked());
    }
}

/// DIV reads as one for every 256 clocks since it was last written, modulo a byte; writing
/// it, whatever the value, starts it again.
pub proof fn law_div_rate(timer: Timer, value: u8, n: nat)
    ensures
        timer.written(0xff04, value).after(n).reads(0xff04) == n / 256 % 256,
        timer.after(n).reads(0xff04) == (timer.counter + n) / 256 % 256,
{
    let zeroed = timer.written(0xff04, value);
    crate::hw::timer::law_counter_counts(zeroed, n);
    crate::hw::timer::law_counter_counts(timer, n);
    lemma_high(zeroed.after(n).counter, n as int);
    lemma_high(timer.after(n).counter, timer.counter + n);
}

/// The high byte of a counter that has counted to `n`.
proof fn lemma_high(c: u16, n: int)
    requires
        n >= 0,
        c == n % 0x1_0000,
    ensures
        (c >> 8) as u8 == n / 256 % 256,
{
    assert((c >> 8) as u8 == c / 256) by {
        bits::lemma_word(c);
    }
}

/// TIMA and TMA read back as written, and TAC's low three bits do, the rest being ones;
/// each write leaves the other two as they were.
#[verifier::rlimit(40)]
pub proof fn law_timer_registers(timer: Timer, value: u8)
    ensures
        timer.written(0xff05, value).reads(0xff05) == value,
        timer.written(0xff05, value).reads(0xff06) == timer.reads(0xff06),
        timer.written(0xff05, value).reads(0xff07) == timer.reads(0xff07),
        timer.written(0xff06, value).reads(0xff06) == value,
        timer.written(0xff06, value).reads(0xff05) == timer.reads(0xff05),
        timer.written(0xff06, value).reads(0xff07) == timer.reads(0xff07),
        timer.written(0xff07, value).reads(0xff07) == 0xf8 + value % 8,
        timer.written(0xff07, value).reads(0xff06) == timer.reads(0xff06),
        timer.written(0xff07, value).reads(0xff04) == timer.reads(0xff04),
{
    bits::lemma_byte(value);
    bits::lemma_byte(value & 7);
}

} // verus!
