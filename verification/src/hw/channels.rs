//! The sound channels: two pulse channels, a wavetable channel and a noise channel.
use vstd::prelude::*;

verus! {

/// The four duty cycles, eight phases each.
pub const DUTY_TABLE: [u8; 32] = [
    0, 0, 0, 0, 0, 0, 0, 1,
    1, 0, 0, 0, 0, 0, 0, 1,
    1, 0, 0, 0, 0, 1, 1, 1,
    0, 1, 1, 1, 1, 1, 1, 0,
];

/// Noise clock divisors, indexed by the low three bits of NR43.
pub const NOISE_DIVISOR: [u32; 8] = [8, 16, 32, 48, 64, 80, 96, 112];

/// A flag as the number 0 or 1.
#[verifier::allow_in_spec]
pub fn flag(on: bool) -> u8
    returns
        (if on {
            1u8
        } else {
            0u8
        }),
{
    if on {
        1
    } else {
        0
    }
}

/// Volume envelope shared by the pulse and noise channels.
#[derive(Clone, Copy)]
pub struct Envelope {
    pub initial: u8,
    pub increasing: bool,
    pub period: u8,
    pub volume: u8,
    pub timer: u8,
    pub enabled: bool,
}

impl Envelope {
    pub open spec fn zero() -> Envelope {
        Envelope {
            initial: 0,
            increasing: false,
            period: 0,
            volume: 0,
            timer: 0,
            enabled: false,
        }
    }

    pub open spec fn wf(self) -> bool {
        self.initial <= 15 && self.period <= 7 && self.volume <= 15
    }

    pub open spec fn written(self, value: u8) -> Envelope {
        Envelope {
            initial: value / 16,
            increasing: value & 0x08 != 0,
            period: value % 8,
            ..self
        }
    }

    /// The register as it reads back.
    pub open spec fn reads(self) -> u8 {
        (self.initial * 16 + flag(self.increasing) * 8 + self.period) as u8
    }

    pub open spec fn triggered(self) -> Envelope {
        Envelope {
            volume: self.initial,
            timer: if self.period == 0 {
                8
            } else {
                self.period
            },
            enabled: true,
            ..self
        }
    }

    /// One clock: each time the timer runs out the volume moves one step, until it
    /// cannot move any further.
    pub open spec fn stepped(self) -> Envelope {
        if self.period == 0 || !self.enabled {
            self
        } else if self.timer > 1 {
            Envelope { timer: (self.timer - 1) as u8, ..self }
        } else {
            let next = Envelope { timer: self.period, ..self };
            if self.increasing && self.volume < 15 {
                Envelope { volume: (self.volume + 1) as u8, ..next }
            } else if !self.increasing && self.volume > 0 {
                Envelope { volume: (self.volume - 1) as u8, ..next }
            } else {
                Envelope { enabled: false, ..next }
            }
        }
    }

    /// A DAC with all of volume/direction zero is powered down, silencing the channel.
    pub open spec fn dac(self) -> bool {
        self.initial != 0 || self.increasing
    }

    fn new() -> (envelope: Self)
        ensures
            envelope == Envelope::zero(),
    {
        Envelope {
            initial: 0,
            increasing: false,
            period: 0,
            volume: 0,
            timer: 0,
            enabled: false,
        }
    }

    pub fn write(&mut self, value: u8)
        ensures
            *final(self) == old(self).written(value),
    {
        self.initial = value / 16;
        self.increasing = value & 0x08 != 0;
        self.period = value % 8;
    }

    pub fn byte(&self) -> (value: u8)
        requires
            self.wf(),
        ensures
            value == self.reads(),
    {
        self.initial * 16 + flag(self.increasing) * 8 + self.period
    }

    fn trigger(&mut self)
        ensures
            *final(self) == old(self).triggered(),
    {
        self.volume = self.initial;
        self.timer = if self.period == 0 {
            8
        } else {
            self.period
        };
        self.enabled = true;
    }

    pub fn step(&mut self)
        ensures
            *final(self) == old(self).stepped(),
    {
        if self.period == 0 || !self.enabled {
            return ;
        }
        self.timer = self.timer.saturating_sub(1);
        if self.timer == 0 {
            self.timer = self.period;
            if self.increasing && self.volume < 15 {
                self.volume = self.volume + 1;
            } else if !self.increasing && self.volume > 0 {
                self.volume = self.volume - 1;
            } else {
                self.enabled = false;
            }
        }
    }

    pub fn dac_on(&self) -> (on: bool)
        ensures
            on == self.dac(),
    {
        self.initial != 0 || self.increasing
    }
}

#[derive(Clone, Copy)]
pub struct LengthCounter {
    pub value: u16,
    pub enabled: bool,
    pub max: u16,
}

impl LengthCounter {
    pub open spec fn stopped(max: u16) -> LengthCounter {
        LengthCounter { value: 0, enabled: false, max }
    }

    pub open spec fn reloaded(self, written: int) -> LengthCounter {
        LengthCounter { value: (self.max - written) as u16, ..self }
    }

    /// A counter that has run out starts over when its channel is triggered.
    pub open spec fn refilled(self) -> LengthCounter {
        if self.value == 0 {
            LengthCounter { value: self.max, ..self }
        } else {
            self
        }
    }

    pub open spec fn stepped(self) -> LengthCounter {
        if self.enabled && self.value > 0 {
            LengthCounter { value: (self.value - 1) as u16, ..self }
        } else {
            self
        }
    }

    /// Whether the next clock is the one that stops the channel.
    pub open spec fn expiring(self) -> bool {
        self.enabled && self.value == 1
    }

    fn new(max: u16) -> (counter: Self)
        ensures
            counter == LengthCounter::stopped(max),
    {
        LengthCounter { value: 0, enabled: false, max }
    }

    pub fn reload(&mut self, written: u16)
        requires
            written <= old(self).max,
        ensures
            *final(self) == old(self).reloaded(written as int),
    {
        self.value = self.max - written;
    }

    fn refill(&mut self)
        ensures
            *final(self) == old(self).refilled(),
    {
        if self.value == 0 {
            self.value = self.max;
        }
    }

    /// Returns true when the counter just ran out and the channel must stop.
    pub fn step(&mut self) -> (out: bool)
        ensures
            *final(self) == old(self).stepped(),
            out == old(self).expiring(),
    {
        if self.enabled && self.value > 0 {
            self.value = self.value - 1;
            return self.value == 0;
        }
        false
    }
}

#[derive(Clone, Copy)]
pub struct Pulse {
    pub enabled: bool,
    pub duty: u8,
    pub phase: u8,
    pub freq: u16,
    pub timer: i32,
    pub envelope: Envelope,
    pub length: LengthCounter,
    // Sweep unit; only channel 1 has one.
    pub has_sweep: bool,
    pub sweep_period: u8,
    pub sweep_negate: bool,
    pub sweep_shift: u8,
    pub sweep_timer: u8,
    pub sweep_shadow: u16,
    pub sweep_enabled: bool,
    /// Set once a negate-mode calculation has happened, per the sweep quirk.
    pub sweep_negated: bool,
}

impl Pulse {
    pub open spec fn silent(has_sweep: bool) -> Pulse {
        Pulse {
            enabled: false,
            duty: 2,
            phase: 0,
            freq: 0,
            timer: 0,
            envelope: Envelope::zero(),
            length: LengthCounter::stopped(64),
            has_sweep,
            sweep_period: 0,
            sweep_negate: false,
            sweep_shift: 0,
            sweep_timer: 0,
            sweep_shadow: 0,
            sweep_enabled: false,
            sweep_negated: false,
        }
    }

    pub open spec fn wf(self) -> bool {
        &&& self.duty <= 3
        &&& self.phase <= 7
        &&& self.freq <= 2047
        &&& self.envelope.wf()
        &&& self.length.max == 64
        &&& self.sweep_period <= 7
        &&& self.sweep_shift <= 7
    }

    /// Clocks between two phases of the waveform.
    pub open spec fn period(self) -> int {
        (2048 - self.freq) * 4
    }

    /// The waveform moves on a phase each time the timer has run out.
    pub open spec fn caught_up(self) -> Pulse
        decreases (if self.timer <= 0 {
            1 - self.timer
        } else {
            0
        }),
    {
        if self.timer <= 0 && self.freq < 2048 {
            Pulse {
                timer: (self.timer + self.period()) as i32,
                phase: ((self.phase + 1) % 8) as u8,
                ..self
            }.caught_up()
        } else {
            self
        }
    }

    /// `t` clocks.
    pub open spec fn stepped(self, t: u32) -> Pulse {
        Pulse { timer: self.timer.wrapping_sub(t as i32), ..self }.caught_up()
    }

    /// What the channel's DAC is fed, 0 to 15.
    pub open spec fn level(self) -> u8 {
        if !self.enabled || !self.envelope.dac() {
            0
        } else {
            (DUTY_TABLE@[self.duty * 8 + self.phase] * self.envelope.volume) as u8
        }
    }

    /// The frequency that the sweep unit moves to next.
    pub open spec fn swept(self) -> u16 {
        let delta = self.sweep_shadow >> self.sweep_shift;
        if self.sweep_negate {
            self.sweep_shadow.wrapping_sub(delta)
        } else {
            self.sweep_shadow.wrapping_add(delta)
        }
    }

    /// A negate-mode calculation is remembered.
    pub open spec fn calculated(self) -> Pulse {
        Pulse { sweep_negated: self.sweep_negated || self.sweep_negate, ..self }
    }

    pub open spec fn sweep_reload(self) -> u8 {
        if self.sweep_period == 0 {
            8
        } else {
            self.sweep_period
        }
    }

    /// The sweep unit restarts; a first calculation that overflows silences the channel.
    pub open spec fn sweep_triggered(self) -> Pulse {
        if !self.has_sweep {
            self
        } else {
            let next = Pulse {
                sweep_shadow: self.freq,
                sweep_timer: self.sweep_reload(),
                sweep_enabled: self.sweep_period != 0 || self.sweep_shift != 0,
                sweep_negated: false,
                ..self
            };
            if next.sweep_shift != 0 {
                Pulse { enabled: next.enabled && next.swept() <= 2047, ..next.calculated() }
            } else {
                next
            }
        }
    }

    pub open spec fn triggered(self) -> Pulse {
        let next = Pulse {
            enabled: true,
            length: self.length.refilled(),
            timer: self.period() as i32,
            envelope: self.envelope.triggered(),
            ..self
        }.sweep_triggered();
        Pulse { enabled: next.enabled && next.envelope.dac(), ..next }
    }

    /// The sweep unit's calculation, once its timer has run out. The overflow check runs
    /// a second time, discarding the result.
    pub open spec fn sweep_applied(self) -> Pulse {
        let next = self.calculated();
        if self.swept() > 2047 {
            Pulse { enabled: false, ..next }
        } else if self.sweep_shift != 0 {
            let moved = Pulse { sweep_shadow: self.swept(), freq: self.swept(), ..next };
            Pulse { enabled: moved.enabled && moved.swept() <= 2047, ..moved.calculated() }
        } else {
            next
        }
    }

    /// One clock of the sweep unit.
    pub open spec fn sweep_stepped(self) -> Pulse {
        if !self.has_sweep || !self.sweep_enabled {
            self
        } else if self.sweep_timer > 1 {
            Pulse { sweep_timer: (self.sweep_timer - 1) as u8, ..self }
        } else {
            let next = Pulse { sweep_timer: self.sweep_reload(), ..self };
            if self.sweep_period == 0 {
                next
            } else {
                next.sweep_applied()
            }
        }
    }

    /// One clock of the envelope.
    pub open spec fn envelope_stepped(self) -> Pulse {
        Pulse { envelope: self.envelope.stepped(), ..self }
    }

    /// One clock of the length counter.
    pub open spec fn length_stepped(self) -> Pulse {
        Pulse {
            enabled: self.enabled && !self.length.expiring(),
            length: self.length.stepped(),
            ..self
        }
    }

    pub fn new(has_sweep: bool) -> (pulse: Self)
        ensures
            pulse == Pulse::silent(has_sweep),
            pulse.wf(),
    {
        Pulse {
            enabled: false,
            duty: 2,
            phase: 0,
            freq: 0,
            timer: 0,
            envelope: Envelope::new(),
            length: LengthCounter::new(64),
            has_sweep,
            sweep_period: 0,
            sweep_negate: false,
            sweep_shift: 0,
            sweep_timer: 0,
            sweep_shadow: 0,
            sweep_enabled: false,
            sweep_negated: false,
        }
    }

    pub fn step(&mut self, t: u32)
        requires
            old(self).wf(),
        ensures
            final(self).wf(),
            *final(self) == old(self).stepped(t),
    {
        self.timer = self.timer.wrapping_sub(t as i32);
        while self.timer <= 0
            invariant
                self.wf(),
                self.caught_up() == old(self).stepped(t),
            decreases (if self.timer <= 0 {
                1 - self.timer
            } else {
                0
            }),
        {
            self.timer = self.timer + (2048 - self.freq as i32) * 4;
            self.phase = (self.phase + 1) % 8;
        }
    }

    /// What the channel's DAC is fed, 0 to 15.
    pub fn sample(&self) -> (level: u8)
        requires
            self.wf(),
        ensures
            level == self.level(),
            level <= 15,
    {
        if !self.enabled || !self.envelope.dac_on() {
            return 0;
        }
        let on: u8 = DUTY_TABLE[(self.duty * 8 + self.phase) as usize];
        assert(on <= 1);
        assert(on * self.envelope.volume == 0 || on * self.envelope.volume
            == self.envelope.volume) by (nonlinear_arith)
            requires
                on <= 1,
        ;
        on * self.envelope.volume
    }

    pub fn trigger(&mut self)
        requires
            old(self).wf(),
        ensures
            final(self).wf(),
            *final(self) == old(self).triggered(),
    {
        self.enabled = true;
        self.length.refill();
        self.timer = (2048 - self.freq as i32) * 4;
        self.envelope.trigger();

        if self.has_sweep {
            self.sweep_shadow = self.freq;
            self.sweep_timer = if self.sweep_period == 0 {
                8
            } else {
                self.sweep_period
            };
            self.sweep_enabled = self.sweep_period != 0 || self.sweep_shift != 0;
            self.sweep_negated = false;
            if self.sweep_shift != 0 && self.next_sweep_freq() > 2047 {
                self.enabled = false;
            }
        }
        if !self.envelope.dac_on() {
            self.enabled = false;
        }
    }

    fn next_sweep_freq(&mut self) -> (freq: u16)
        requires
            old(self).wf(),
        ensures
            final(self).wf(),
            *final(self) == old(self).calculated(),
            freq == old(self).swept(),
    {
        let delta: u16 = self.sweep_shadow >> self.sweep_shift;
        if self.sweep_negate {
            self.sweep_negated = true;
            self.sweep_shadow.wrapping_sub(delta)
        } else {
            self.sweep_shadow.wrapping_add(delta)
        }
    }

    pub fn step_sweep(&mut self)
        requires
            old(self).wf(),
        ensures
            final(self).wf(),
            *final(self) == old(self).sweep_stepped(),
    {
        if !self.has_sweep || !self.sweep_enabled {
            return ;
        }
        self.sweep_timer = self.sweep_timer.saturating_sub(1);
        if self.sweep_timer != 0 {
            return ;
        }
        self.sweep_timer = if self.sweep_period == 0 {
            8
        } else {
            self.sweep_period
        };
        if self.sweep_period == 0 {
            return ;
        }
        let new_freq: u16 = self.next_sweep_freq();
        if new_freq > 2047 {
            self.enabled = false;
        } else if self.sweep_shift != 0 {
            self.sweep_shadow = new_freq;
            self.freq = new_freq;
            // The overflow check runs a second time, discarding the result.
            if self.next_sweep_freq() > 2047 {
                self.enabled = false;
            }
        }
    }

    pub fn step_envelope(&mut self)
        requires
            old(self).wf(),
        ensures
            final(self).wf(),
            *final(self) == old(self).envelope_stepped(),
    {
        self.envelope.step();
    }

    pub fn step_length(&mut self)
        requires
            old(self).wf(),
        ensures
            final(self).wf(),
            *final(self) == old(self).length_stepped(),
    {
        if self.length.step() {
            self.enabled = false;
        }
    }
}

pub struct Wave {
    pub enabled: bool,
    pub dac_on: bool,
    pub volume_shift: u8,
    pub freq: u16,
    pub timer: i32,
    pub position: u8,
    pub length: LengthCounter,
    pub ram: [u8; 16],
    pub sample_buffer: u8,
}

/// What a [`Wave`] holds.
#[verifier::ext_equal]
pub struct WaveState {
    pub enabled: bool,
    pub dac_on: bool,
    pub volume_shift: u8,
    pub freq: u16,
    pub timer: i32,
    pub position: u8,
    pub length: LengthCounter,
    pub ram: Seq<u8>,
    pub sample_buffer: u8,
}

impl View for Wave {
    type V = WaveState;

    open spec fn view(&self) -> WaveState {
        WaveState {
            enabled: self.enabled,
            dac_on: self.dac_on,
            volume_shift: self.volume_shift,
            freq: self.freq,
            timer: self.timer,
            position: self.position,
            length: self.length,
            ram: self.ram@,
            sample_buffer: self.sample_buffer,
        }
    }
}

impl WaveState {
    pub open spec fn silent(ram: Seq<u8>) -> WaveState {
        WaveState {
            enabled: false,
            dac_on: false,
            volume_shift: 0,
            freq: 0,
            timer: 0,
            position: 0,
            length: LengthCounter::stopped(256),
            ram,
            sample_buffer: 0,
        }
    }

    pub open spec fn wf(self) -> bool {
        &&& self.volume_shift <= 3
        &&& self.freq <= 2047
        &&& self.position <= 31
        &&& self.length.max == 256
        &&& self.ram.len() == 16
        &&& self.sample_buffer <= 15
    }

    /// Clocks between two samples of the waveform.
    pub open spec fn period(self) -> int {
        (2048 - self.freq) * 2
    }

    /// The waveform's sample number `position`: two to a byte, high half first.
    pub open spec fn sample_at(self, position: u8) -> u8 {
        let byte = self.ram[position as int / 2];
        if position % 2 == 0 {
            byte / 16
        } else {
            byte % 16
        }
    }

    /// The waveform moves on a sample each time the timer has run out.
    pub open spec fn caught_up(self) -> WaveState
        decreases (if self.timer <= 0 {
            1 - self.timer
        } else {
            0
        }),
    {
        if self.timer <= 0 && self.freq < 2048 {
            let position = ((self.position + 1) % 32) as u8;
            WaveState {
                timer: (self.timer + self.period()) as i32,
                position,
                sample_buffer: self.sample_at(position),
                ..self
            }.caught_up()
        } else {
            self
        }
    }

    /// `t` clocks.
    pub open spec fn stepped(self, t: u32) -> WaveState {
        WaveState { timer: self.timer.wrapping_sub(t as i32), ..self }.caught_up()
    }

    /// What the channel's DAC is fed, 0 to 15.
    pub open spec fn level(self) -> u8 {
        if !self.enabled || !self.dac_on {
            0
        } else {
            match self.volume_shift {
                0 => 0,
                1 => self.sample_buffer,
                2 => self.sample_buffer / 2,
                _ => self.sample_buffer / 4,
            }
        }
    }

    pub open spec fn triggered(self) -> WaveState {
        WaveState {
            enabled: self.dac_on,
            length: self.length.refilled(),
            timer: self.period() as i32,
            position: 0,
            ..self
        }
    }

    /// One clock of the length counter.
    pub open spec fn length_stepped(self) -> WaveState {
        WaveState {
            enabled: self.enabled && !self.length.expiring(),
            length: self.length.stepped(),
            ..self
        }
    }
}

impl Wave {
    pub fn new(ram: [u8; 16]) -> (wave: Self)
        ensures
            wave@ == WaveState::silent(ram@),
            wave@.wf(),
    {
        Wave {
            enabled: false,
            dac_on: false,
            volume_shift: 0,
            freq: 0,
            timer: 0,
            position: 0,
            length: LengthCounter::new(256),
            ram,
            sample_buffer: 0,
        }
    }

    pub fn step(&mut self, t: u32)
        requires
            old(self)@.wf(),
        ensures
            final(self)@.wf(),
            final(self)@ == old(self)@.stepped(t),
    {
        self.timer = self.timer.wrapping_sub(t as i32);
        while self.timer <= 0
            invariant
                self@.wf(),
                self@.caught_up() == old(self)@.stepped(t),
            decreases (if self.timer <= 0 {
                1 - self.timer
            } else {
                0
            }),
        {
            let ghost before = self@;
            self.timer = self.timer + (2048 - self.freq as i32) * 2;
            self.position = (self.position + 1) % 32;
            let byte: u8 = self.ram[(self.position / 2) as usize];
            self.sample_buffer = if self.position % 2 == 0 {
                byte / 16
            } else {
                byte % 16
            };
            assert(self@.caught_up() == before.caught_up());
        }
    }

    /// What the channel's DAC is fed, 0 to 15.
    pub fn sample(&self) -> (level: u8)
        requires
            self@.wf(),
        ensures
            level == self@.level(),
            level <= 15,
    {
        if !self.enabled || !self.dac_on {
            return 0;
        }
        match self.volume_shift {
            0 => 0,
            1 => self.sample_buffer,
            2 => self.sample_buffer / 2,
            _ => self.sample_buffer / 4,
        }
    }

    pub fn trigger(&mut self)
        requires
            old(self)@.wf(),
        ensures
            final(self)@.wf(),
            final(self)@ == old(self)@.triggered(),
    {
        self.enabled = self.dac_on;
        self.length.refill();
        self.timer = (2048 - self.freq as i32) * 2;
        self.position = 0;
    }

    pub fn step_length(&mut self)
        requires
            old(self)@.wf(),
        ensures
            final(self)@.wf(),
            final(self)@ == old(self)@.length_stepped(),
    {
        if self.length.step() {
            self.enabled = false;
        }
    }
}

#[derive(Clone, Copy)]
pub struct Noise {
    pub enabled: bool,
    pub lfsr: u16,
    pub shift: u8,
    pub width7: bool,
    pub divisor: u8,
    pub timer: i32,
    pub envelope: Envelope,
    pub length: LengthCounter,
}

proof fn lemma_noise_period(d: u32, shift: u8)
    by (bit_vector)
    requires
        8 <= d <= 112,
        shift <= 15,
    ensures
        8 <= (d << shift) <= 0x38_0000,
{
}

impl Noise {
    pub open spec fn silent() -> Noise {
        Noise {
            enabled: false,
            lfsr: 0x7fff,
            shift: 0,
            width7: false,
            divisor: 0,
            timer: 0,
            envelope: Envelope::zero(),
            length: LengthCounter::stopped(64),
        }
    }

    pub open spec fn wf(self) -> bool {
        &&& self.shift <= 15
        &&& self.divisor <= 7
        &&& self.envelope.wf()
        &&& self.length.max == 64
    }

    /// Clocks between two shifts.
    pub open spec fn interval(self) -> int {
        (NOISE_DIVISOR@[self.divisor as int] << self.shift) as int
    }

    /// The shift register after one shift: the exclusive or of its two low bits goes in
    /// at the top, and in the short mode at bit 6 too.
    pub open spec fn shifted(self) -> u16 {
        let bit = (self.lfsr ^ (self.lfsr >> 1)) & 1;
        let next = (self.lfsr >> 1) | (bit << 14);
        if self.width7 {
            (next & !0x40u16) | (bit << 6)
        } else {
            next
        }
    }

    /// The register shifts each time the timer has run out.
    pub open spec fn caught_up(self) -> Noise
        decreases (if self.timer <= 0 {
            1 - self.timer
        } else {
            0
        }),
    {
        if self.timer <= 0 && 0 < self.interval() <= 0x38_0000 {
            Noise {
                timer: (self.timer + self.interval()) as i32,
                lfsr: self.shifted(),
                ..self
            }.caught_up()
        } else {
            self
        }
    }

    /// `t` clocks. Frequencies as high as a shift of 14 never clock the register.
    pub open spec fn stepped(self, t: u32) -> Noise {
        if self.shift >= 14 {
            self
        } else {
            Noise { timer: self.timer.wrapping_sub(t as i32), ..self }.caught_up()
        }
    }

    /// What the channel's DAC is fed, 0 to 15.
    pub open spec fn level(self) -> u8 {
        if !self.enabled || !self.envelope.dac() || self.lfsr & 1 != 0 {
            0
        } else {
            self.envelope.volume
        }
    }

    pub open spec fn triggered(self) -> Noise {
        Noise {
            enabled: self.envelope.dac(),
            length: self.length.refilled(),
            timer: self.interval() as i32,
            lfsr: 0x7fff,
            envelope: self.envelope.triggered(),
            ..self
        }
    }

    /// One clock of the envelope.
    pub open spec fn envelope_stepped(self) -> Noise {
        Noise { envelope: self.envelope.stepped(), ..self }
    }

    /// One clock of the length counter.
    pub open spec fn length_stepped(self) -> Noise {
        Noise {
            enabled: self.enabled && !self.length.expiring(),
            length: self.length.stepped(),
            ..self
        }
    }

    pub fn new() -> (noise: Self)
        ensures
            noise == Noise::silent(),
            noise.wf(),
    {
        Noise {
            enabled: false,
            lfsr: 0x7fff,
            shift: 0,
            width7: false,
            divisor: 0,
            timer: 0,
            envelope: Envelope::new(),
            length: LengthCounter::new(64),
        }
    }

    fn period(&self) -> (clocks: i32)
        requires
            self.wf(),
        ensures
            clocks == self.interval(),
            8 <= clocks <= 0x38_0000,
    {
        let d: u32 = NOISE_DIVISOR[self.divisor as usize];
        proof {
            lemma_noise_period(d, self.shift);
        }
        (d << self.shift) as i32
    }

    pub fn step(&mut self, t: u32)
        requires
            old(self).wf(),
        ensures
            final(self).wf(),
            *final(self) == old(self).stepped(t),
    {
        if self.shift >= 14 {
            return ;  // frequencies this high never clock the shift register
        }
        self.timer = self.timer.wrapping_sub(t as i32);
        while self.timer <= 0
            invariant
                self.wf(),
                self.caught_up() == old(self).stepped(t),
            decreases (if self.timer <= 0 {
                1 - self.timer
            } else {
                0
            }),
        {
            let ghost before = *self;
            self.timer = self.timer + self.period();
            let bit: u16 = (self.lfsr ^ (self.lfsr >> 1)) & 1;
            self.lfsr = (self.lfsr >> 1) | (bit << 14);
            if self.width7 {
                self.lfsr = (self.lfsr & !0x40) | (bit << 6);
            }
            assert(self.caught_up() == before.caught_up());
        }
    }

    /// What the channel's DAC is fed, 0 to 15.
    pub fn sample(&self) -> (level: u8)
        requires
            self.wf(),
        ensures
            level == self.level(),
            level <= 15,
    {
        if !self.enabled || !self.envelope.dac_on() {
            return 0;
        }
        if self.lfsr & 1 == 0 {
            self.envelope.volume
        } else {
            0
        }
    }

    pub fn trigger(&mut self)
        requires
            old(self).wf(),
        ensures
            final(self).wf(),
            *final(self) == old(self).triggered(),
    {
        self.enabled = true;
        self.length.refill();
        self.timer = self.period();
        self.lfsr = 0x7fff;
        self.envelope.trigger();
        if !self.envelope.dac_on() {
            self.enabled = false;
        }
    }

    pub fn step_envelope(&mut self)
        requires
            old(self).wf(),
        ensures
            final(self).wf(),
            *final(self) == old(self).envelope_stepped(),
    {
        self.envelope.step();
    }

    pub fn step_length(&mut self)
        requires
            old(self).wf(),
        ensures
            final(self).wf(),
            *final(self) == old(self).length_stepped(),
    {
        if self.length.step() {
            self.enabled = false;
        }
    }
}

} // verus!
