//! Audio processing unit: the four channels, the frame sequencer that clocks them, and
//! the registers they are played by.
//!
//! What reaches the loudspeaker is a mix of the four channel levels. The unit records
//! the levels after each step in a [`Mix`]; turning the record into samples of the
//! host's rate is the front-end's work.
use vstd::prelude::*;
use crate::hw::channels::{flag, LengthCounter, Noise, Pulse, Wave, WaveState};

verus! {

/// What the mixer was fed for a stretch of clocks.
#[derive(Clone, Copy, Debug, PartialEq, Eq, Structural)]
pub struct Mix {
    /// How many clocks the stretch lasted.
    pub cycles: u64,
    /// The level of each channel at its end, 0 to 15.
    pub ch1: u8,
    pub ch2: u8,
    pub ch3: u8,
    pub ch4: u8,
    /// Master volume: bits 4-6 left, bits 0-2 right.
    pub nr50: u8,
    /// Which channel goes to which side: bits 4-7 left, bits 0-3 right.
    pub nr51: u8,
}

impl Mix {
    /// The channel levels that reach one side, given the bit of NR51 that the first
    /// channel reaches it by.
    pub open spec fn routed(self, first: int) -> Seq<u8> {
        let bits = self.nr51 as int / first;
        seq![
            if bits % 2 == 1 {
                self.ch1
            } else {
                0
            },
            if bits / 2 % 2 == 1 {
                self.ch2
            } else {
                0
            },
            if bits / 4 % 2 == 1 {
                self.ch3
            } else {
                0
            },
            if bits / 8 % 2 == 1 {
                self.ch4
            } else {
                0
            },
        ]
    }

    /// The channel levels that reach the left side.
    pub open spec fn to_left(self) -> Seq<u8> {
        self.routed(16)
    }

    /// The channel levels that reach the right side.
    pub open spec fn to_right(self) -> Seq<u8> {
        self.routed(1)
    }

    /// The master volume of the left and the right side.
    pub open spec fn master(self) -> (u8, u8) {
        ((self.nr50 / 16 % 8) as u8, (self.nr50 % 8) as u8)
    }

    fn route(&self, bits: u8) -> (levels: [u8; 4])
        ensures
            levels@ == (Mix { nr51: bits, ..*self }).routed(1),
    {
        let levels: [u8; 4] = [
            if bits % 2 == 1 {
                self.ch1
            } else {
                0
            },
            if bits / 2 % 2 == 1 {
                self.ch2
            } else {
                0
            },
            if bits / 4 % 2 == 1 {
                self.ch3
            } else {
                0
            },
            if bits / 8 % 2 == 1 {
                self.ch4
            } else {
                0
            },
        ];
        assert(levels@ =~= (Mix { nr51: bits, ..*self }).routed(1));
        levels
    }

    /// The channel levels that reach the left side; 0 for one that does not.
    pub fn left(&self) -> (levels: [u8; 4])
        ensures
            levels@ == self.routed(16),
            levels@ == self.to_left(),
    {
        self.route(self.nr51 / 16)
    }

    /// The channel levels that reach the right side; 0 for one that does not.
    pub fn right(&self) -> (levels: [u8; 4])
        ensures
            levels@ == self.routed(1),
            levels@ == self.to_right(),
    {
        self.route(self.nr51)
    }

    /// The master volume of the left and the right side, 0 to 7.
    pub fn volumes(&self) -> (volumes: (u8, u8))
        ensures
            volumes == ((self.nr50 / 16 % 8) as u8, (self.nr50 % 8) as u8),
            volumes == self.master(),
    {
        (self.nr50 / 16 % 8, self.nr50 % 8)
    }
}

/// Clocks that the record holds apart before it lumps further ones together: half a
/// second, when nobody is consuming it.
pub const RECORD_CYCLES: u64 = 0x20_0000;

/// Clocks between two steps of the 512 Hz frame sequencer.
pub const SEQ_CYCLES: u32 = 8192;

pub struct Apu {
    ch1: Pulse,
    ch2: Pulse,
    ch3: Wave,
    ch4: Noise,
    power: bool,
    nr50: u8,
    nr51: u8,
    /// 512 Hz frame sequencer, clocked off the same divider DIV uses.
    seq_step: u8,
    seq_timer: u32,
    sample_rate: u32,
    record: Vec<Mix>,
    recorded: u64,
}

/// What an [`Apu`] holds.
#[verifier::ext_equal]
pub struct Sound {
    pub ch1: Pulse,
    pub ch2: Pulse,
    pub ch3: WaveState,
    pub ch4: Noise,
    pub power: bool,
    pub nr50: u8,
    pub nr51: u8,
    pub seq_step: u8,
    pub seq_timer: u32,
    /// The host's rate, for whoever turns the record into samples.
    pub sample_rate: u32,
    pub record: Seq<Mix>,
    /// Clocks in the record.
    pub recorded: u64,
}

impl Sound {
    pub open spec fn boot(sample_rate: u32) -> Sound {
        Sound {
            ch1: Pulse::silent(true),
            ch2: Pulse::silent(false),
            ch3: WaveState::silent(Seq::new(16, |i: int| 0u8)),
            ch4: Noise::silent(),
            power: true,
            nr50: 0x77,
            nr51: 0xf3,
            seq_step: 0,
            seq_timer: 0,
            sample_rate,
            record: seq![],
            recorded: 0,
        }
    }

    /// What every unit keeps to.
    pub open spec fn wf(self) -> bool {
        &&& self.ch1.wf()
        &&& self.ch2.wf()
        &&& self.ch3.wf()
        &&& self.ch4.wf()
        &&& self.seq_step <= 7
        &&& self.seq_timer < SEQ_CYCLES
        &&& self.recorded >= RECORD_CYCLES ==> self.record.len() > 0
    }

    pub open spec fn lengths_stepped(self) -> Sound {
        Sound {
            ch1: self.ch1.length_stepped(),
            ch2: self.ch2.length_stepped(),
            ch3: self.ch3.length_stepped(),
            ch4: self.ch4.length_stepped(),
            ..self
        }
    }

    pub open spec fn envelopes_stepped(self) -> Sound {
        Sound {
            ch1: self.ch1.envelope_stepped(),
            ch2: self.ch2.envelope_stepped(),
            ch4: self.ch4.envelope_stepped(),
            ..self
        }
    }

    /// One step of the frame sequencer: lengths on every even step, the sweep on steps 2
    /// and 6, the envelopes on step 7.
    pub open spec fn sequenced(self) -> Sound {
        let next = match self.seq_step {
            0 | 4 => self.lengths_stepped(),
            2 | 6 => {
                let held = self.lengths_stepped();
                Sound { ch1: held.ch1.sweep_stepped(), ..held }
            },
            7 => self.envelopes_stepped(),
            _ => self,
        };
        Sound { seq_step: ((self.seq_step + 1) % 8) as u8, ..next }
    }

    /// The sequencer steps each time its timer has filled up.
    pub open spec fn caught_up(self) -> Sound
        decreases self.seq_timer,
    {
        if self.seq_timer >= SEQ_CYCLES {
            let next = self.sequenced();
            Sound { seq_timer: (self.seq_timer - SEQ_CYCLES) as u32, ..next }.caught_up()
        } else {
            self
        }
    }

    /// What the mixer is fed, standing for `cycles` clocks.
    pub open spec fn mix(self, cycles: u64) -> Mix {
        Mix {
            cycles,
            ch1: self.ch1.level(),
            ch2: self.ch2.level(),
            ch3: self.ch3.level(),
            ch4: self.ch4.level(),
            nr50: self.nr50,
            nr51: self.nr51,
        }
    }

    /// The record taken on by `t` clocks. A full record only counts them on to its last
    /// entry.
    pub open spec fn noted(self, t: u32) -> Sound {
        if t == 0 {
            self
        } else if self.recorded >= RECORD_CYCLES {
            let last = self.record.last();
            Sound {
                record: self.record.update(
                    self.record.len() - 1,
                    Mix { cycles: last.cycles.wrapping_add(t as u64), ..last },
                ),
                ..self
            }
        } else {
            Sound {
                record: self.record.push(self.mix(t as u64)),
                recorded: (self.recorded + t) as u64,
                ..self
            }
        }
    }

    /// `t` clocks. A unit that is switched off stands still, and goes on being heard.
    pub open spec fn stepped(self, t: u32) -> Sound {
        let next = if self.power {
            Sound {
                ch1: self.ch1.stepped(t),
                ch2: self.ch2.stepped(t),
                ch3: self.ch3.stepped(t),
                ch4: self.ch4.stepped(t),
                seq_timer: self.seq_timer.wrapping_add(t),
                ..self
            }.caught_up()
        } else {
            self
        };
        next.noted(t)
    }

    /// What the register at `addr` reads as: the bits that can be read, and ones for the
    /// others.
    pub open spec fn reads(self, addr: u16) -> u8 {
        match addr {
            0xff10 => (0x80 + self.ch1.sweep_period * 16 + flag(self.ch1.sweep_negate) * 8
                + self.ch1.sweep_shift) as u8,
            0xff11 => (0x3f + self.ch1.duty * 64) as u8,
            0xff12 => self.ch1.envelope.reads(),
            0xff14 => (0xbf + flag(self.ch1.length.enabled) * 64) as u8,
            0xff16 => (0x3f + self.ch2.duty * 64) as u8,
            0xff17 => self.ch2.envelope.reads(),
            0xff19 => (0xbf + flag(self.ch2.length.enabled) * 64) as u8,
            0xff1a => (0x7f + flag(self.ch3.dac_on) * 128) as u8,
            0xff1c => (0x9f + self.ch3.volume_shift * 32) as u8,
            0xff1e => (0xbf + flag(self.ch3.length.enabled) * 64) as u8,
            0xff21 => self.ch4.envelope.reads(),
            0xff22 => (self.ch4.shift * 16 + flag(self.ch4.width7) * 8 + self.ch4.divisor) as u8,
            0xff23 => (0xbf + flag(self.ch4.length.enabled) * 64) as u8,
            0xff24 => self.nr50,
            0xff25 => self.nr51,
            0xff26 => (0x70 + flag(self.power) * 128 + flag(self.ch1.enabled) + flag(
                self.ch2.enabled,
            ) * 2 + flag(self.ch3.enabled) * 4 + flag(self.ch4.enabled) * 8) as u8,
            _ => if 0xff30 <= addr <= 0xff3f {
                self.ch3.ram[addr - 0xff30]
            } else {
                0xff
            },
        }
    }

    /// NR10 on channel 1. Leaving negate mode after a calculation disables the channel.
    pub open spec fn sweep_written(ch: Pulse, value: u8) -> Pulse {
        let negate = value & 0x08 != 0;
        Pulse {
            sweep_period: value / 16 % 8,
            enabled: ch.enabled && !(ch.sweep_negate && !negate && ch.sweep_negated),
            sweep_negate: negate,
            sweep_shift: value % 8,
            ..ch
        }
    }

    /// NRx1 on a pulse channel.
    pub open spec fn duty_written(ch: Pulse, value: u8) -> Pulse {
        Pulse { duty: value / 64, length: ch.length.reloaded(value as int % 64), ..ch }
    }

    /// NRx2 on a pulse channel. A DAC that powers down silences the channel.
    pub open spec fn envelope_written(ch: Pulse, value: u8) -> Pulse {
        let envelope = ch.envelope.written(value);
        Pulse { envelope, enabled: ch.enabled && envelope.dac(), ..ch }
    }

    /// The frequency with its low byte replaced.
    pub open spec fn low_written(freq: u16, value: u8) -> u16 {
        (freq as int / 256 * 256 + value) as u16
    }

    /// The frequency with its high bits replaced.
    pub open spec fn high_written(freq: u16, value: u8) -> u16 {
        (freq as int % 256 + value as int % 8 * 256) as u16
    }

    /// NRx4 on a pulse channel: the frequency's high bits, whether the length counts,
    /// and the trigger.
    pub open spec fn control_written(ch: Pulse, value: u8) -> Pulse {
        let next = Pulse {
            freq: Self::high_written(ch.freq, value),
            length: LengthCounter {
                enabled: value & 0x40 != 0,
                ..ch.length
            },
            ..ch
        };
        if value & 0x80 != 0 {
            next.triggered()
        } else {
            next
        }
    }

    /// Powering off clears every register except wave RAM.
    pub open spec fn cleared(self) -> Sound {
        Sound {
            ch1: Pulse { duty: 0, ..Pulse::silent(true) },
            ch2: Pulse { duty: 0, ..Pulse::silent(false) },
            ch3: WaveState::silent(self.ch3.ram),
            ch4: Noise::silent(),
            nr50: 0,
            nr51: 0,
            seq_step: 0,
            ..self
        }
    }

    /// The effect of writing `value` to one of channel 3's registers.
    pub open spec fn wave_written(ch: WaveState, addr: u16, value: u8) -> WaveState {
        match addr {
            0xff1a => WaveState {
                dac_on: value & 0x80 != 0,
                enabled: ch.enabled && value & 0x80 != 0,
                ..ch
            },
            0xff1b => WaveState { length: ch.length.reloaded(value as int), ..ch },
            0xff1c => WaveState { volume_shift: value / 32 % 4, ..ch },
            0xff1d => WaveState { freq: Self::low_written(ch.freq, value), ..ch },
            _ => {
                let next = WaveState {
                    freq: Self::high_written(ch.freq, value),
                    length: LengthCounter {
                        enabled: value & 0x40 != 0,
                        ..ch.length
                    },
                    ..ch
                };
                if value & 0x80 != 0 {
                    next.triggered()
                } else {
                    next
                }
            },
        }
    }

    /// The effect of writing `value` to one of channel 4's registers.
    pub open spec fn noise_written(ch: Noise, addr: u16, value: u8) -> Noise {
        match addr {
            0xff20 => Noise { length: ch.length.reloaded(value as int % 64), ..ch },
            0xff21 => {
                let envelope = ch.envelope.written(value);
                Noise { envelope, enabled: ch.enabled && envelope.dac(), ..ch }
            },
            0xff22 => Noise {
                shift: value / 16,
                width7: value & 0x08 != 0,
                divisor: value % 8,
                ..ch
            },
            _ => {
                let next = Noise {
                    length: LengthCounter {
                        enabled: value & 0x40 != 0,
                        ..ch.length
                    },
                    ..ch
                };
                if value & 0x80 != 0 {
                    next.triggered()
                } else {
                    next
                }
            },
        }
    }

    /// The effect of writing `value` to the register at `addr`. With the unit powered
    /// down only NR52 and wave RAM accept writes.
    pub open spec fn written(self, addr: u16, value: u8) -> Sound {
        if !self.power && addr != 0xff26 && !(0xff30 <= addr <= 0xff3f) {
            self
        } else {
            match addr {
                0xff10 => Sound { ch1: Self::sweep_written(self.ch1, value), ..self },
                0xff11 => Sound { ch1: Self::duty_written(self.ch1, value), ..self },
                0xff12 => Sound { ch1: Self::envelope_written(self.ch1, value), ..self },
                0xff13 => Sound {
                    ch1: Pulse { freq: Self::low_written(self.ch1.freq, value), ..self.ch1 },
                    ..self
                },
                0xff14 => Sound { ch1: Self::control_written(self.ch1, value), ..self },
                0xff16 => Sound { ch2: Self::duty_written(self.ch2, value), ..self },
                0xff17 => Sound { ch2: Self::envelope_written(self.ch2, value), ..self },
                0xff18 => Sound {
                    ch2: Pulse { freq: Self::low_written(self.ch2.freq, value), ..self.ch2 },
                    ..self
                },
                0xff19 => Sound { ch2: Self::control_written(self.ch2, value), ..self },
                0xff1a | 0xff1b | 0xff1c | 0xff1d | 0xff1e => Sound {
                    ch3: Self::wave_written(self.ch3, addr, value),
                    ..self
                },
                0xff20 | 0xff21 | 0xff22 | 0xff23 => Sound {
                    ch4: Self::noise_written(self.ch4, addr, value),
                    ..self
                },
                0xff24 => Sound { nr50: value, ..self },
                0xff25 => Sound { nr51: value, ..self },
                0xff26 => {
                    let on = value & 0x80 != 0;
                    Sound {
                        power: on,
                        ..if !on && self.power {
                            self.cleared()
                        } else {
                            self
                        }
                    }
                },
                _ => if 0xff30 <= addr <= 0xff3f {
                    Sound {
                        ch3: WaveState {
                            ram: self.ch3.ram.update(addr - 0xff30, value),
                            ..self.ch3
                        },
                        ..self
                    }
                } else {
                    self
                },
            }
        }
    }
}

impl View for Apu {
    type V = Sound;

    closed spec fn view(&self) -> Sound {
        Sound {
            ch1: self.ch1,
            ch2: self.ch2,
            ch3: self.ch3@,
            ch4: self.ch4,
            power: self.power,
            nr50: self.nr50,
            nr51: self.nr51,
            seq_step: self.seq_step,
            seq_timer: self.seq_timer,
            sample_rate: self.sample_rate,
            record: self.record@,
            recorded: self.recorded,
        }
    }
}

fn write_low(freq: u16, value: u8) -> (next: u16)
    requires
        freq <= 2047,
    ensures
        next == Sound::low_written(freq, value),
        next <= 2047,
{
    freq / 256 * 256 + value as u16
}

fn write_high(freq: u16, value: u8) -> (next: u16)
    ensures
        next == Sound::high_written(freq, value),
        next <= 2047,
{
    freq % 256 + (value % 8) as u16 * 256
}

fn write_sweep(ch: &mut Pulse, value: u8)
    requires
        old(ch).wf(),
    ensures
        final(ch).wf(),
        *final(ch) == Sound::sweep_written(*old(ch), value),
{
    ch.sweep_period = value / 16 % 8;
    let negate = value & 0x08 != 0;
    // Leaving negate mode after a calculation disables the channel.
    if ch.sweep_negate && !negate && ch.sweep_negated {
        ch.enabled = false;
    }
    ch.sweep_negate = negate;
    ch.sweep_shift = value % 8;
}

fn write_duty(ch: &mut Pulse, value: u8)
    requires
        old(ch).wf(),
    ensures
        final(ch).wf(),
        *final(ch) == Sound::duty_written(*old(ch), value),
{
    ch.duty = value / 64;
    ch.length.reload((value % 64) as u16);
}

fn write_envelope(ch: &mut Pulse, value: u8)
    requires
        old(ch).wf(),
    ensures
        final(ch).wf(),
        *final(ch) == Sound::envelope_written(*old(ch), value),
{
    ch.envelope.write(value);
    if !ch.envelope.dac_on() {
        ch.enabled = false;
    }
}

fn write_control(ch: &mut Pulse, value: u8)
    requires
        old(ch).wf(),
    ensures
        final(ch).wf(),
        *final(ch) == Sound::control_written(*old(ch), value),
{
    ch.freq = write_high(ch.freq, value);
    ch.length.enabled = value & 0x40 != 0;
    if value & 0x80 != 0 {
        ch.trigger();
    }
}

fn write_wave(ch: &mut Wave, addr: u16, value: u8)
    requires
        old(ch)@.wf(),
        0xff1a <= addr <= 0xff1e,
    ensures
        final(ch)@.wf(),
        final(ch)@ == Sound::wave_written(old(ch)@, addr, value),
{
    match addr {
        0xff1a => {
            ch.dac_on = value & 0x80 != 0;
            if !ch.dac_on {
                ch.enabled = false;
            }
        },
        0xff1b => ch.length.reload(value as u16),
        0xff1c => ch.volume_shift = value / 32 % 4,
        0xff1d => ch.freq = write_low(ch.freq, value),
        _ => {
            ch.freq = write_high(ch.freq, value);
            ch.length.enabled = value & 0x40 != 0;
            if value & 0x80 != 0 {
                ch.trigger();
            }
        },
    }
}

fn write_noise(ch: &mut Noise, addr: u16, value: u8)
    requires
        old(ch).wf(),
        0xff20 <= addr <= 0xff23,
    ensures
        final(ch).wf(),
        *final(ch) == Sound::noise_written(*old(ch), addr, value),
{
    match addr {
        0xff20 => ch.length.reload((value % 64) as u16),
        0xff21 => {
            ch.envelope.write(value);
            if !ch.envelope.dac_on() {
                ch.enabled = false;
            }
        },
        0xff22 => {
            ch.shift = value / 16;
            ch.width7 = value & 0x08 != 0;
            ch.divisor = value % 8;
        },
        _ => {
            ch.length.enabled = value & 0x40 != 0;
            if value & 0x80 != 0 {
                ch.trigger();
            }
        },
    }
}

impl Apu {
    /// The invariant of the type: what every sound unit keeps to.
    pub closed spec fn wf(self) -> bool {
        self@.wf()
    }

    pub proof fn lemma_wf(self)
        ensures
            self.wf() == self@.wf(),
    {
    }

    pub fn new(sample_rate: u32) -> (apu: Self)
        ensures
            apu.wf(),
            apu@ == Sound::boot(sample_rate),
    {
        let apu = Apu {
            ch1: Pulse::new(true),
            ch2: Pulse::new(false),
            ch3: Wave::new([0;16]),
            ch4: Noise::new(),
            power: true,
            nr50: 0x77,
            nr51: 0xf3,
            seq_step: 0,
            seq_timer: 0,
            sample_rate,
            record: Vec::new(),
            recorded: 0,
        };
        assert(apu@ =~= Sound::boot(sample_rate));
        apu
    }

    pub fn set_sample_rate(&mut self, sample_rate: u32)
        requires
            old(self).wf(),
        ensures
            final(self).wf(),
            final(self)@ == (Sound { sample_rate, ..old(self)@ }),
    {
        self.sample_rate = sample_rate;
    }

    pub fn sample_rate(&self) -> (rate: u32)
        ensures
            rate == self@.sample_rate,
    {
        self.sample_rate
    }

    /// Hands over the record of what the mixer was fed.
    pub fn take_record(&mut self) -> (record: Vec<Mix>)
        requires
            old(self).wf(),
        ensures
            final(self).wf(),
            record@ == old(self)@.record,
            final(self)@ == (Sound { record: seq![], recorded: 0, ..old(self)@ }),
    {
        let mut record: Vec<Mix> = Vec::new();
        std::mem::swap(&mut record, &mut self.record);
        self.recorded = 0;
        assert(self@ =~= (Sound { record: seq![], recorded: 0, ..old(self)@ }));
        record
    }

    fn step_lengths(&mut self)
        requires
            old(self).wf(),
        ensures
            final(self).wf(),
            final(self)@ == old(self)@.lengths_stepped(),
    {
        self.ch1.step_length();
        self.ch2.step_length();
        self.ch3.step_length();
        self.ch4.step_length();
    }

    fn step_envelopes(&mut self)
        requires
            old(self).wf(),
        ensures
            final(self).wf(),
            final(self)@ == old(self)@.envelopes_stepped(),
    {
        self.ch1.step_envelope();
        self.ch2.step_envelope();
        self.ch4.step_envelope();
    }

    fn step_sequencer(&mut self)
        requires
            old(self).wf(),
        ensures
            final(self).wf(),
            final(self)@ == old(self)@.sequenced(),
    {
        match self.seq_step {
            0 | 4 => self.step_lengths(),
            2 | 6 => {
                self.step_lengths();
                self.ch1.step_sweep();
            },
            7 => self.step_envelopes(),
            _ => {},
        }
        self.seq_step = (self.seq_step + 1) % 8;
    }

    /// In CGB double-speed mode the APU still runs at the normal rate, so the
    /// caller passes normal-speed cycles here.
    pub fn step(&mut self, t: u32)
        requires
            old(self).wf(),
        ensures
            final(self).wf(),
            final(self)@ == old(self)@.stepped(t),
    {
        if self.power {
            self.ch1.step(t);
            self.ch2.step(t);
            self.ch3.step(t);
            self.ch4.step(t);
            let mut timer: u32 = self.seq_timer.wrapping_add(t);
            self.seq_timer = 0;
            let ghost goal = Sound { seq_timer: timer, ..self@ }.caught_up();
            while timer >= SEQ_CYCLES
                invariant
                    self.wf(),
                    self@.seq_timer == 0,
                    (Sound { seq_timer: timer, ..self@ }).caught_up() == goal,
                decreases timer,
            {
                let ghost before = self@;
                timer = timer - SEQ_CYCLES;
                self.step_sequencer();
                proof {
                    let was = Sound { seq_timer: (timer + SEQ_CYCLES) as u32, ..before };
                    assert(Sound { seq_timer: timer, ..was.sequenced() } == Sound {
                        seq_timer: timer,
                        ..self@
                    });
                }
            }
            self.seq_timer = timer;
            assert(self@ == goal);
        }
        self.note(t);
    }

    fn note(&mut self, t: u32)
        requires
            old(self).wf(),
        ensures
            final(self).wf(),
            final(self)@ == old(self)@.noted(t),
    {
        if t == 0 {
            return ;
        }
        if self.recorded >= RECORD_CYCLES {
            // Lump the rest together rather than grow without bound.
            let at: usize = self.record.len() - 1;
            let mut last = self.record[at];
            last.cycles = last.cycles.wrapping_add(t as u64);
            self.record[at] = last;
        } else {
            let mix = Mix {
                cycles: t as u64,
                ch1: self.ch1.sample(),
                ch2: self.ch2.sample(),
                ch3: self.ch3.sample(),
                ch4: self.ch4.sample(),
                nr50: self.nr50,
                nr51: self.nr51,
            };
            self.record.push(mix);
            self.recorded = self.recorded + t as u64;
        }
        assert(self@ =~= old(self)@.noted(t));
    }

    pub fn read(&self, addr: u16) -> (value: u8)
        requires
            self.wf(),
        ensures
            value == self@.reads(addr),
    {
        match addr {
            0xff10 => 0x80 + self.ch1.sweep_period * 16 + flag(self.ch1.sweep_negate) * 8
                + self.ch1.sweep_shift,
            0xff11 => 0x3f + self.ch1.duty * 64,
            0xff12 => self.ch1.envelope.byte(),
            0xff14 => 0xbf + flag(self.ch1.length.enabled) * 64,
            0xff16 => 0x3f + self.ch2.duty * 64,
            0xff17 => self.ch2.envelope.byte(),
            0xff19 => 0xbf + flag(self.ch2.length.enabled) * 64,
            0xff1a => 0x7f + flag(self.ch3.dac_on) * 128,
            0xff1c => 0x9f + self.ch3.volume_shift * 32,
            0xff1e => 0xbf + flag(self.ch3.length.enabled) * 64,
            0xff21 => self.ch4.envelope.byte(),
            0xff22 => self.ch4.shift * 16 + flag(self.ch4.width7) * 8 + self.ch4.divisor,
            0xff23 => 0xbf + flag(self.ch4.length.enabled) * 64,
            0xff24 => self.nr50,
            0xff25 => self.nr51,
            0xff26 => 0x70 + flag(self.power) * 128 + flag(self.ch1.enabled) + flag(
                self.ch2.enabled,
            ) * 2 + flag(self.ch3.enabled) * 4 + flag(self.ch4.enabled) * 8,
            _ => {
                if 0xff30 <= addr && addr <= 0xff3f {
                    self.ch3.ram[(addr - 0xff30) as usize]
                } else {
                    0xff
                }
            },
        }
    }

    pub fn write(&mut self, addr: u16, value: u8)
        requires
            old(self).wf(),
        ensures
            final(self).wf(),
            final(self)@ == old(self)@.written(addr, value),
    {
        // With the APU powered down only NR52 and wave RAM accept writes.
        if !self.power && addr != 0xff26 && !(0xff30 <= addr && addr <= 0xff3f) {
            return ;
        }
        match addr {
            0xff10 => write_sweep(&mut self.ch1, value),
            0xff11 => write_duty(&mut self.ch1, value),
            0xff12 => write_envelope(&mut self.ch1, value),
            0xff13 => self.ch1.freq = write_low(self.ch1.freq, value),
            0xff14 => write_control(&mut self.ch1, value),
            0xff16 => write_duty(&mut self.ch2, value),
            0xff17 => write_envelope(&mut self.ch2, value),
            0xff18 => self.ch2.freq = write_low(self.ch2.freq, value),
            0xff19 => write_control(&mut self.ch2, value),
            0xff1a | 0xff1b | 0xff1c | 0xff1d | 0xff1e => write_wave(&mut self.ch3, addr, value),
            0xff20 | 0xff21 | 0xff22 | 0xff23 => write_noise(&mut self.ch4, addr, value),
            0xff24 => self.nr50 = value,
            0xff25 => self.nr51 = value,
            0xff26 => {
                let on = value & 0x80 != 0;
                if !on && self.power {
                    self.reset();
                }
                self.power = on;
            },
            _ => {
                if 0xff30 <= addr && addr <= 0xff3f {
                    self.ch3.ram[(addr - 0xff30) as usize] = value;
                }
            },
        }
        assert(self@ =~= old(self)@.written(addr, value));
    }

    /// Powering the APU off clears every register except wave RAM.
    fn reset(&mut self)
        requires
            old(self).wf(),
        ensures
            final(self).wf(),
            final(self)@ == old(self)@.cleared(),
    {
        self.ch1 = Pulse::new(true);
        self.ch1.duty = 0;
        self.ch2 = Pulse::new(false);
        self.ch2.duty = 0;
        self.ch3 = Wave::new(self.ch3.ram);
        self.ch4 = Noise::new();
        self.nr50 = 0;
        self.nr51 = 0;
        self.seq_step = 0;
    }
}

/// The clocks that a record stands for.
pub open spec fn cycles_of(record: Seq<Mix>) -> int
    decreases record.len(),
{
    if record.len() == 0 {
        0
    } else {
        cycles_of(record.drop_last()) + record.last().cycles
    }
}

/// No clock is lost from the record, whether it is full or not.
pub proof fn law_record_keeps_time(sound: Sound, t: u32)
    requires
        sound.wf(),
        cycles_of(sound.record) + t <= u64::MAX,
    ensures
        cycles_of(sound.noted(t).record) == cycles_of(sound.record) + t,
        sound.noted(t).wf(),
{
    lemma_cycles_nonnegative(sound.record);
    if sound.record.len() > 0 {
        lemma_cycles_nonnegative(sound.record.drop_last());
    }
    let next = sound.noted(t).record;
    if t != 0 {
        if sound.recorded >= RECORD_CYCLES {
            assert(next.drop_last() =~= sound.record.drop_last());
        } else {
            assert(next.drop_last() =~= sound.record);
        }
    }
}

proof fn lemma_cycles_nonnegative(record: Seq<Mix>)
    ensures
        cycles_of(record) >= 0,
    decreases record.len(),
{
    if record.len() > 0 {
        lemma_cycles_nonnegative(record.drop_last());
    }
}

/// A record that nobody takes stops growing: it never holds more entries than clocks, nor
/// more than it keeps apart.
pub proof fn law_record_is_bounded(sound: Sound, t: u32)
    requires
        sound.wf(),
        sound.record.len() <= sound.recorded,
        sound.record.len() <= RECORD_CYCLES,
    ensures
        sound.noted(t).record.len() <= sound.noted(t).recorded,
        sound.noted(t).record.len() <= RECORD_CYCLES,
{
}

/// What a register reads as when every bit of it that can be read is clear.
pub open spec fn unread_bits(addr: u16) -> u8 {
    match addr {
        0xff10 => 0x80,
        0xff11 => 0x3f,
        0xff16 => 0x3f,
        0xff14 => 0xbf,
        0xff19 => 0xbf,
        0xff1e => 0xbf,
        0xff23 => 0xbf,
        0xff1a => 0x7f,
        0xff1c => 0x9f,
        0xff26 => 0x70,
        0xff12 => 0,
        0xff17 => 0,
        0xff21 => 0,
        0xff22 => 0,
        0xff24 => 0,
        0xff25 => 0,
        _ => 0xff,
    }
}

/// While the unit is off, its registers other than NR52 ignore writes; switching it off
/// clears them all and keeps wave RAM, which stays writable.
pub proof fn law_power(sound: Sound, addr: u16, value: u8)
    requires
        sound.wf(),
    ensures
        !sound.power && addr != 0xff26 && !(0xff30 <= addr <= 0xff3f) ==> sound.written(
            addr,
            value,
        ) == sound,
        0xff30 <= addr <= 0xff3f ==> sound.written(addr, value).reads(addr) == value,
        sound.power && value & 0x80 == 0 ==> ({
            let off = sound.written(0xff26, value);
            &&& !off.power
            &&& off.ch3.ram == sound.ch3.ram
            &&& !(0xff30 <= addr <= 0xff3f) ==> off.reads(addr) == unread_bits(addr)
            &&& off.mix(1) == (Mix { cycles: 1, ch1: 0, ch2: 0, ch3: 0, ch4: 0, nr50: 0, nr51: 0 })
        }),
{
}

/// The envelope registers read back what was written to them while the unit is on.
pub proof fn law_envelope_reads_back(sound: Sound, value: u8)
    requires
        sound.power,
    ensures
        sound.written(0xff12, value).reads(0xff12) == value,
        sound.written(0xff17, value).reads(0xff17) == value,
        sound.written(0xff21, value).reads(0xff21) == value,
{
    assert((value & 0x08 != 0) == (value / 8 % 2 == 1)) by {
        crate::hw::bits::lemma_byte(value);
    }
}

/// `n` clocks of a length counter.
pub open spec fn lengths(counter: LengthCounter, n: nat) -> LengthCounter
    decreases n,
{
    if n == 0 {
        counter
    } else {
        lengths(counter, (n - 1) as nat).stepped()
    }
}

/// A length counter that counts stops its channel on exactly the clock that its value
/// says: not before, and never again without being refilled.
pub proof fn law_length_runs_out(counter: LengthCounter, n: nat)
    requires
        counter.enabled,
        counter.value > 0,
    ensures
        lengths(counter, n).expiring() <==> n + 1 == counter.value,
        lengths(counter, n).enabled,
        lengths(counter, n).value == if n <= counter.value {
            counter.value - n
        } else {
            0
        },
    decreases n,
{
    if n > 0 {
        law_length_runs_out(counter, (n - 1) as nat);
    }
}

} // verus!
