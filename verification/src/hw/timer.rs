//! DIV/TIMA. Both are views onto one 16-bit counter, which is why writing DIV
//! can itself clock TIMA: the falling edge that drives it comes from a counter bit.
use vstd::prelude::*;

verus! {

pub const IRQ_TIMER: u8 = 0x04;

#[derive(Debug, Clone, Copy, PartialEq, Eq, Structural)]
pub struct Timer {
    /// The 16-bit system counter; DIV is its high byte.
    pub counter: u16,
    pub tima: u8,
    pub tma: u8,
    pub tac: u8,
    /// Previous state of the multiplexed counter bit, for edge detection.
    pub last_edge: bool,
    /// TIMA's reload is four cycles late, and reads see 0 in the gap.
    pub reload_delay: u8,
    pub irq: u8,
}

/// The counter bit that TAC's low two bits select, as a mask.
#[verifier::allow_in_spec]
pub fn selected_bit(tac: u8) -> u16
    returns
        (match tac & 3 {
            0 => 0x200u16,
            1 => 0x08u16,
            2 => 0x20u16,
            _ => 0x80u16,
        }),
{
    match tac & 3 {
        0 => 0x200,
        1 => 0x08,
        2 => 0x20,
        _ => 0x80,
    }
}

impl Timer {
    /// The state the boot process leaves the timer in.
    pub open spec fn boot() -> Timer {
        Timer {
            counter: 0xabcc,
            tima: 0,
            tma: 0,
            tac: 0xf8,
            last_edge: false,
            reload_delay: 0,
            irq: 0,
        }
    }

    /// The level of the line that clocks TIMA: the selected counter bit, while enabled.
    pub open spec fn level(self) -> bool {
        self.tac & 4 != 0 && self.counter & selected_bit(self.tac) != 0
    }

    /// TIMA counts up by one; running past 0xff schedules the reload.
    pub open spec fn counted(self) -> Timer {
        if self.tima == 0xff {
            Timer { tima: 0, reload_delay: 4, ..self }
        } else {
            Timer { tima: (self.tima + 1) as u8, ..self }
        }
    }

    /// TIMA counts on the falling edge of `level`, which is then remembered.
    pub open spec fn sampled(self) -> Timer {
        let next = if self.last_edge && !self.level() {
            self.counted()
        } else {
            self
        };
        Timer { last_edge: self.level(), ..next }
    }

    /// The pending reload gets one clock closer, and happens when its delay is over.
    pub open spec fn reloading(self) -> Timer {
        if self.reload_delay == 1 {
            Timer { reload_delay: 0, tima: self.tma, irq: self.irq | IRQ_TIMER, ..self }
        } else if self.reload_delay > 1 {
            Timer { reload_delay: (self.reload_delay - 1) as u8, ..self }
        } else {
            self
        }
    }

    /// One clock.
    pub open spec fn clocked(self) -> Timer {
        let next = self.reloading();
        Timer { counter: next.counter.wrapping_add(1), ..next }.sampled()
    }

    /// `n` clocks.
    pub open spec fn after(self, n: nat) -> Timer
        decreases n,
    {
        if n == 0 {
            self
        } else {
            self.after((n - 1) as nat).clocked()
        }
    }

    /// What the register at `addr` reads as.
    pub open spec fn reads(self, addr: u16) -> u8 {
        match addr {
            0xff04 => (self.counter >> 8) as u8,
            0xff05 => if self.reload_delay > 0 {
                0
            } else {
                self.tima
            },
            0xff06 => self.tma,
            0xff07 => self.tac | 0xf8,
            _ => 0xff,
        }
    }

    /// The effect of writing `value` to the register at `addr`.
    pub open spec fn written(self, addr: u16, value: u8) -> Timer {
        match addr {
            0xff04 => Timer { counter: 0, ..self }.sampled(),
            // A write during the reload window cancels the reload.
            0xff05 => Timer { tima: value, reload_delay: 0, ..self },
            0xff06 => Timer { tma: value, ..self },
            0xff07 => Timer { tac: value & 7, ..self }.sampled(),
            _ => self,
        }
    }

    pub fn new() -> (timer: Self)
        ensures
            timer == Timer::boot(),
    {
        Timer {
            counter: 0xabcc,
            tima: 0,
            tma: 0,
            tac: 0xf8,
            last_edge: false,
            reload_delay: 0,
            irq: 0,
        }
    }

    fn edge(&self) -> (high: bool)
        ensures
            high == self.level(),
    {
        self.tac & 4 != 0 && self.counter & selected_bit(self.tac) != 0
    }

    pub fn step(&mut self, t: u32)
        ensures
            *final(self) == old(self).after(t as nat),
    {
        for i in 0..t
            invariant
                *self == old(self).after(i as nat),
        {
            if self.reload_delay > 0 {
                self.reload_delay = self.reload_delay - 1;
                if self.reload_delay == 0 {
                    self.tima = self.tma;
                    self.irq = self.irq | IRQ_TIMER;
                }
            }
            self.counter = self.counter.wrapping_add(1);
            self.detect_edge();
        }
    }

    fn detect_edge(&mut self)
        ensures
            *final(self) == old(self).sampled(),
    {
        let now = self.edge();
        if self.last_edge && !now {
            self.increment_tima();
        }
        self.last_edge = now;
    }

    fn increment_tima(&mut self)
        ensures
            *final(self) == old(self).counted(),
    {
        if self.tima == 0xff {
            self.tima = 0;
            self.reload_delay = 4;
        } else {
            self.tima = self.tima + 1;
        }
    }

    pub fn read(&self, addr: u16) -> (value: u8)
        ensures
            value == self.reads(addr),
    {
        match addr {
            0xff04 => (self.counter >> 8) as u8,
            0xff05 => {
                if self.reload_delay > 0 {
                    0
                } else {
                    self.tima
                }
            },
            0xff06 => self.tma,
            0xff07 => self.tac | 0xf8,
            _ => 0xff,
        }
    }

    pub fn write(&mut self, addr: u16, value: u8)
        ensures
            *final(self) == old(self).written(addr, value),
    {
        match addr {
            0xff04 => {
                self.counter = 0;
                self.detect_edge();
            },
            0xff05 => {
                // A write during the reload window cancels the reload.
                self.tima = value;
                self.reload_delay = 0;
            },
            0xff06 => self.tma = value,
            0xff07 => {
                self.tac = value & 7;
                self.detect_edge();
            },
            _ => {},
        }
    }
}

impl Default for Timer {
    fn default() -> (timer: Self)
        ensures
            timer == Timer::boot(),
    {
        Self::new()
    }
}

/// Two stretches of clocks in a row are one stretch of their sum.
pub proof fn law_after_adds(timer: Timer, m: nat, n: nat)
    ensures
        timer.after(m).after(n) == timer.after(m + n),
    decreases n,
{
    if n > 0 {
        law_after_adds(timer, m, (n - 1) as nat);
    }
}

/// The system counter counts every clock, modulo its sixteen bits.
pub proof fn law_counter_counts(timer: Timer, n: nat)
    ensures
        timer.after(n).counter == (timer.counter + n) % 0x1_0000,
    decreases n,
{
    if n > 0 {
        law_counter_counts(timer, (n - 1) as nat);
    }
}

/// Writing DIV clocks TIMA when the selected counter bit was set: clearing the
/// counter makes that bit fall.
pub proof fn law_div_write_clocks_tima(timer: Timer, value: u8)
    requires
        timer.last_edge == timer.level(),
    ensures
        timer.written(0xff04, value).counter == 0,
        timer.written(0xff04, value).tima == if timer.level() {
            timer.counted().tima
        } else {
            timer.tima
        },
{
    let sel = selected_bit(timer.tac);
    assert(0u16 & sel == 0) by {
        crate::hw::bits::lemma_word(0);
    }
}

/// After an overflow TIMA reads as zero until four clocks have passed.
pub proof fn law_reload_is_late(timer: Timer, n: nat)
    requires
        timer.tima == 0,
        timer.reload_delay == 4,
        n < 4,
    ensures
        timer.after(n).reload_delay == 4 - n,
        timer.after(n).reads(0xff05) == 0,
        timer.after(n).tima <= n,
        timer.after(n).tma == timer.tma,
    decreases n,
{
    if n > 0 {
        law_reload_is_late(timer, (n - 1) as nat);
    }
}

/// The fourth clock after an overflow requests the interrupt and reloads TIMA with TMA,
/// which an edge falling in that same clock then counts up.
pub proof fn law_reload_happens(timer: Timer)
    requires
        timer.tima == 0,
        timer.reload_delay == 4,
    ensures
        timer.after(4).irq & IRQ_TIMER != 0,
        timer.after(4).tima == if timer.after(3).last_edge && !timer.after(4).last_edge {
            timer.tma.wrapping_add(1)
        } else {
            timer.tma
        },
{
    law_reload_is_late(timer, 3);
    let irq = timer.after(3).irq;
    assert((irq | 0x04u8) & 0x04u8 != 0) by (bit_vector);
    assert(timer.after(4) == timer.after(3).clocked());
}

/// A write to TIMA inside the reload window cancels the reload: TIMA holds the written
/// value until the next edge, and no interrupt is requested.
pub proof fn law_write_cancels_reload(timer: Timer, value: u8)
    ensures
        timer.written(0xff05, value).reads(0xff05) == value,
        timer.written(0xff05, value).clocked().irq == timer.irq,
{
}

} // verus!
