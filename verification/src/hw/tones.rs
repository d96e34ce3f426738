//! What the sound channels are heard to do: how fast they run, and what shape they have.
use vstd::prelude::*;
use crate::hw::bits;
use crate::hw::channels::{Envelope, Noise, Pulse, WaveState};

verus! {

/// `k` catch-up steps of a pulse channel.
proof fn lemma_pulse_catches(pulse: Pulse, k: nat)
    requires
        pulse.freq <= 2047,
        pulse.timer + k * (4 * (2048 - pulse.freq)) > 0,
        k > 0 ==> pulse.timer + (k - 1) * (4 * (2048 - pulse.freq)) <= 0,
    ensures
        pulse.caught_up() == (Pulse {
            timer: (pulse.timer + k * (4 * (2048 - pulse.freq))) as i32,
            phase: if k == 0 {
                pulse.phase
            } else {
                ((pulse.phase + k) % 8) as u8
            },
            ..pulse
        }),
    decreases k,
{
    let full = 4 * (2048 - pulse.freq);
    if k > 0 {
        assert(k * full == (k - 1) * full + full) by (nonlinear_arith);
        assert((k - 1) * full >= 0) by (nonlinear_arith)
            requires
                k >= 1,
                full >= 0,
        ;
        let next = Pulse {
            timer: (pulse.timer + pulse.period()) as i32,
            phase: ((pulse.phase + 1) % 8) as u8,
            ..pulse
        };
        assert(next.timer == pulse.timer + full);
        if k > 1 {
            assert((k - 1) * full == (k - 2) * full + full) by (nonlinear_arith);
        }
        lemma_pulse_catches(next, (k - 1) as nat);
        assert(pulse.caught_up() == next.caught_up());
        assert((k - 1) as nat * full == (k - 1) * full);
    } else {
        assert(0 * full == 0) by (nonlinear_arith);
    }
}

/// Where a counter that has run for `e` clocks of its period of `full`, and runs for `t`
/// more, gets to.
proof fn lemma_rounds(full: int, e: int, t: int) -> (k: nat)
    requires
        full > 0,
        0 <= e < full,
        t >= 0,
    ensures
        k == (e + t) / full,
        (full - e) - t + k * full == full - (e + t) % full,
        (full - e) - t + k * full > 0,
        k > 0 ==> (full - e) - t + (k - 1) * full <= 0,
{
    let k = (e + t) / full;
    assert(k >= 0 && e + t == full * k + (e + t) % full && 0 <= (e + t) % full < full)
        by (nonlinear_arith)
        requires
            full > 0,
            e + t >= 0,
            k == (e + t) / full,
    ;
    assert(k * full == full * k) by (nonlinear_arith);
    assert((k - 1) * full == k * full - full) by (nonlinear_arith);
    k as nat
}

/// A pulse channel moves on by one eighth of its wave for every 4 * (2048 - frequency)
/// clocks; `e` of them were over when it was looked at first, so none if it has just been
/// triggered.
pub proof fn law_pulse_pitch(pulse: Pulse, e: int, t: u32)
    requires
        pulse.wf(),
        0 <= e < 4 * (2048 - pulse.freq),
        pulse.timer == 4 * (2048 - pulse.freq) - e,
        t <= 0x4000_0000,
    ensures
        pulse.stepped(t).phase == (pulse.phase + (e + t) / (4 * (2048 - pulse.freq))) % 8,
        pulse.stepped(t).timer == 4 * (2048 - pulse.freq) - (e + t) % (4 * (2048 - pulse.freq)),
        pulse.stepped(t) == (Pulse {
            phase: pulse.stepped(t).phase,
            timer: pulse.stepped(t).timer,
            ..pulse
        }),
{
    let full = 4 * (2048 - pulse.freq);
    let k = lemma_rounds(full, e, t as int);
    let late = Pulse { timer: pulse.timer.wrapping_sub(t as i32), ..pulse };
    assert(late.timer == full - e - t);
    lemma_pulse_catches(late, k);
}

/// Triggering starts the period afresh and keeps the place in the wave: the channel stays
/// there for 4 * (2048 - frequency) clocks, is one eighth further after exactly that many,
/// and back where it was after eight times as many.
pub proof fn law_pulse_trigger(pulse: Pulse, t: u32)
    requires
        pulse.wf(),
    ensures
        t < 4 * (2048 - pulse.freq) ==> pulse.triggered().stepped(t).phase == pulse.phase,
        t == 4 * (2048 - pulse.freq) ==> pulse.triggered().stepped(t).phase == (pulse.phase + 1)
            % 8,
        t == 32 * (2048 - pulse.freq) ==> pulse.triggered().stepped(t).phase == pulse.phase,
        pulse.triggered().freq == pulse.freq,
        pulse.triggered().phase == pulse.phase,
        pulse.triggered().duty == pulse.duty,
{
    let full = 4 * (2048 - pulse.freq);
    let started = pulse.triggered();
    if t <= 8 * full {
        law_pulse_pitch(started, 0, t);
        assert(t < full ==> t as int / full == 0) by (nonlinear_arith)
            requires
                full > 0,
                t >= 0,
        ;
        assert(t == full ==> t as int / full == 1) by (nonlinear_arith)
            requires
                full > 0,
        ;
        assert(t == 8 * full ==> t as int / full == 8) by (nonlinear_arith)
            requires
                full > 0,
        ;
    }
}

/// The shape of the wave: of its eight places the channel is loud in one, two, four or six,
/// as the duty says, at the volume of its envelope, and silent in the others.
#[verifier::rlimit(40)]
pub proof fn law_pulse_shape(pulse: Pulse)
    requires
        pulse.wf(),
    ensures
        pulse.enabled && pulse.envelope.dac() && (pulse.duty == 0 && pulse.phase == 7 || pulse.duty
            == 1 && (pulse.phase == 0 || pulse.phase == 7) || pulse.duty == 2 && (pulse.phase == 0
            || pulse.phase >= 5) || pulse.duty == 3 && 1 <= pulse.phase <= 6) ==> pulse.level()
            == pulse.envelope.volume,
        !(pulse.enabled && pulse.envelope.dac() && (pulse.duty == 0 && pulse.phase == 7
            || pulse.duty == 1 && (pulse.phase == 0 || pulse.phase == 7) || pulse.duty == 2 && (
        pulse.phase == 0 || pulse.phase >= 5) || pulse.duty == 3 && 1 <= pulse.phase <= 6))
            ==> pulse.level() == 0,
{
    let at = pulse.duty * 8 + pulse.phase;
    let table = crate::hw::channels::DUTY_TABLE@;
    let on = table[at];
    assert(0 <= at < 32);
    assert(on == 1 <==> at == 7 || at == 8 || at == 15 || at == 16 || at == 21 || at == 22 || at
        == 23 || 25 <= at <= 30);
    assert(on == 0 || on == 1);
    let volume = pulse.envelope.volume as int;
    assert(0 * volume == 0 && 1 * volume == volume) by (nonlinear_arith);
}

/// `k` catch-up steps of the wave channel.
proof fn lemma_wave_catches(wave: WaveState, k: nat)
    requires
        wave.wf(),
        wave.timer + k * (2 * (2048 - wave.freq)) > 0,
        k > 0 ==> wave.timer + (k - 1) * (2 * (2048 - wave.freq)) <= 0,
    ensures
        wave.caught_up().timer == wave.timer + k * (2 * (2048 - wave.freq)),
        wave.caught_up().position == (wave.position + k) % 32,
        wave.caught_up().sample_buffer == if k == 0 {
            wave.sample_buffer
        } else {
            wave.sample_at(wave.caught_up().position)
        },
        wave.caught_up() == (WaveState {
            timer: wave.caught_up().timer,
            position: wave.caught_up().position,
            sample_buffer: wave.caught_up().sample_buffer,
            ..wave
        }),
    decreases k,
{
    let full = 2 * (2048 - wave.freq);
    if k > 0 {
        assert(k * full == (k - 1) * full + full) by (nonlinear_arith);
        assert((k - 1) * full >= 0) by (nonlinear_arith)
            requires
                k >= 1,
                full >= 0,
        ;
        let position = ((wave.position + 1) % 32) as u8;
        let next = WaveState {
            timer: (wave.timer + wave.period()) as i32,
            position,
            sample_buffer: wave.sample_at(position),
            ..wave
        };
        assert(next.timer == wave.timer + full);
        if k > 1 {
            assert((k - 1) * full == (k - 2) * full + full) by (nonlinear_arith);
        }
        lemma_wave_catches(next, (k - 1) as nat);
        assert(wave.caught_up() == next.caught_up());
        assert((k - 1) as nat * full == (k - 1) * full);
    } else {
        assert(0 * full == 0) by (nonlinear_arith);
    }
}

/// The wave channel moves on to the next of its 32 samples for every
/// 2 * (2048 - frequency) clocks, `e` of which were over when it was looked at first. It
/// then holds that sample: two to a byte of wave RAM, the high half first.
#[verifier::rlimit(40)]
pub proof fn law_wave_pitch(wave: WaveState, e: int, t: u32)
    requires
        wave.wf(),
        0 <= e < 2 * (2048 - wave.freq),
        wave.timer == 2 * (2048 - wave.freq) - e,
        t <= 0x4000_0000,
    ensures
        ({
            let k = (e + t) / (2 * (2048 - wave.freq));
            let at = (wave.position + k) % 32;
            let next = wave.stepped(t);
            &&& next.position == at
            &&& next.timer == 2 * (2048 - wave.freq) - (e + t) % (2 * (2048 - wave.freq))
            &&& k == 0 ==> next.sample_buffer == wave.sample_buffer
            &&& k > 0 && at % 2 == 0 ==> next.sample_buffer == wave.ram[at / 2] / 16
            &&& k > 0 && at % 2 == 1 ==> next.sample_buffer == wave.ram[at / 2] % 16
            &&& next.ram == wave.ram
            &&& next.freq == wave.freq
            &&& next.enabled == wave.enabled
            &&& next.dac_on == wave.dac_on
            &&& next.volume_shift == wave.volume_shift
            &&& next.length == wave.length
        }),
{
    let full = 2 * (2048 - wave.freq);
    let k = lemma_rounds(full, e, t as int);
    let late = WaveState { timer: wave.timer.wrapping_sub(t as i32), ..wave };
    assert(late.timer == full - e - t);
    lemma_wave_catches(late, k);
}

/// Triggering the wave channel starts it at its first sample with its period fresh, and
/// sounds it if its converter is on.
pub proof fn law_wave_trigger(wave: WaveState)
    requires
        wave.wf(),
    ensures
        wave.triggered().position == 0,
        wave.triggered().timer == 2 * (2048 - wave.freq),
        wave.triggered().enabled == wave.dac_on,
        wave.triggered().freq == wave.freq,
        wave.triggered().ram == wave.ram,
{
}

/// The wave channel plays its sample not at all, in full, at half or at a quarter, as its
/// volume code says.
pub proof fn law_wave_volume(wave: WaveState)
    requires
        wave.wf(),
    ensures
        !wave.enabled || !wave.dac_on || wave.volume_shift == 0 ==> wave.level() == 0,
        wave.enabled && wave.dac_on && wave.volume_shift == 1 ==> wave.level()
            == wave.sample_buffer,
        wave.enabled && wave.dac_on && wave.volume_shift == 2 ==> 2 * wave.level()
            + wave.sample_buffer % 2 == wave.sample_buffer,
        wave.enabled && wave.dac_on && wave.volume_shift == 3 ==> 4 * wave.level()
            + wave.sample_buffer % 4 == wave.sample_buffer,
{
}

/// The noise register moved on by one place: the sum of its two low bits, modulo 2, comes
/// in at bit 14, and in the short form at bit 6 as well.
pub open spec fn shuffled(x: int, short: bool) -> int {
    let bit = (x % 2 + x / 2 % 2) % 2;
    let long = x / 2 % 0x4000 + 0x4000 * bit;
    if short {
        long - long / 64 % 2 * 64 + 64 * bit
    } else {
        long
    }
}

/// The noise register moved on by `n` places.
pub open spec fn shuffles(x: int, short: bool, n: nat) -> int
    decreases n,
{
    if n == 0 {
        x
    } else {
        shuffles(shuffled(x, short), short, (n - 1) as nat)
    }
}

proof fn lemma_shift_register(x: u16)
    by (bit_vector)
    requires
        x < 0x8000,
    ensures
        ({
            let bit = (x ^ (x >> 1)) & 1;
            let long = (x >> 1) | (bit << 14);
            let short = (long & !0x40u16) | (bit << 6);
            &&& bit == (x % 2 + x / 2 % 2) % 2
            &&& long == x / 2 % 0x4000 + 0x4000 * bit
            &&& short == long - long / 64 % 2 * 64 + 64 * bit
            &&& long < 0x8000
            &&& short < 0x8000
            &&& (x & 1 != 0) == (x % 2 == 1)
        }),
{
}

/// One shift of the noise register.
pub proof fn law_noise_shift(noise: Noise)
    requires
        noise.lfsr < 0x8000,
    ensures
        noise.shifted() == shuffled(noise.lfsr as int, noise.width7),
        noise.shifted() < 0x8000,
{
    lemma_shift_register(noise.lfsr);
}

/// The clocks between two shifts of the noise register: eight for the divisor code 0 and
/// sixteen times the code for the others, doubled as often as the shift says.
pub proof fn law_noise_interval(noise: Noise)
    requires
        noise.wf(),
    ensures
        noise.divisor == 0 ==> noise.interval() == 8 * vstd::arithmetic::power2::pow2(
            noise.shift as nat,
        ),
        noise.divisor > 0 ==> noise.interval() == 16 * noise.divisor
            * vstd::arithmetic::power2::pow2(noise.shift as nat),
        0 < noise.interval() <= 0x38_0000,
{
    let d = crate::hw::channels::NOISE_DIVISOR@[noise.divisor as int];
    let power = vstd::arithmetic::power2::pow2(noise.shift as nat);
    assert(d == if noise.divisor == 0 {
        8
    } else {
        16 * noise.divisor as int
    });
    vstd::arithmetic::power2::lemma2_to64();
    if noise.shift < 15 {
        vstd::arithmetic::power2::lemma_pow2_strictly_increases(noise.shift as nat, 15);
    }
    vstd::arithmetic::power2::lemma_pow2_pos(noise.shift as nat);
    assert(0 < d * power <= 112 * 0x8000) by (nonlinear_arith)
        requires
            0 < d <= 112,
            0 < power <= 0x8000,
    ;
    vstd::bits::lemma_u32_shl_is_mul(d, noise.shift as u32);
}

/// `k` catch-up steps of the noise channel.
proof fn lemma_noise_catches(noise: Noise, full: int, k: nat)
    requires
        noise.wf(),
        noise.lfsr < 0x8000,
        full == noise.interval(),
        0 < full <= 0x38_0000,
        noise.timer + k * full > 0,
        k > 0 ==> noise.timer + (k - 1) * full <= 0,
    ensures
        noise.caught_up().timer == noise.timer + k * full,
        noise.caught_up().lfsr == shuffles(noise.lfsr as int, noise.width7, k),
        noise.caught_up() == (Noise {
            timer: noise.caught_up().timer,
            lfsr: noise.caught_up().lfsr,
            ..noise
        }),
    decreases k,
{
    if k > 0 {
        assert(k * full == (k - 1) * full + full) by (nonlinear_arith);
        assert((k - 1) * full >= 0) by (nonlinear_arith)
            requires
                k >= 1,
                full >= 0,
        ;
        law_noise_shift(noise);
        let next = Noise {
            timer: (noise.timer + full) as i32,
            lfsr: noise.shifted(),
            ..noise
        };
        assert(next.interval() == full);
        assert(next.timer == noise.timer + full);
        if k > 1 {
            assert((k - 1) * full == (k - 2) * full + full) by (nonlinear_arith);
        }
        lemma_noise_catches(next, full, (k - 1) as nat);
        assert(noise.caught_up() == next.caught_up());
        assert((k - 1) as nat * full == (k - 1) * full);
    } else {
        assert(0 * full == 0) by (nonlinear_arith);
    }
}

/// The noise register is shifted once for every interval of clocks, `e` of which were over
/// when it was looked at first; with a shift of 14 or 15 it is never clocked at all.
#[verifier::rlimit(40)]
pub proof fn law_noise_pitch(noise: Noise, full: int, e: int, t: u32)
    requires
        noise.wf(),
        noise.lfsr < 0x8000,
        noise.divisor == 0 ==> full == 8 * vstd::arithmetic::power2::pow2(noise.shift as nat),
        noise.divisor > 0 ==> full == 16 * noise.divisor * vstd::arithmetic::power2::pow2(
            noise.shift as nat,
        ),
        0 <= e < full,
        noise.timer == full - e,
        t <= 0x4000_0000,
    ensures
        noise.shift >= 14 ==> noise.stepped(t) == noise,
        noise.shift < 14 ==> {
            &&& noise.stepped(t).lfsr == shuffles(
                noise.lfsr as int,
                noise.width7,
                ((e + t) / full) as nat,
            )
            &&& noise.stepped(t).timer == full - (e + t) % full
            &&& noise.stepped(t) == (Noise {
                timer: noise.stepped(t).timer,
                lfsr: noise.stepped(t).lfsr,
                ..noise
            })
        },
{
    law_noise_interval(noise);
    if noise.shift < 14 {
        let k = lemma_rounds(full, e, t as int);
        let late = Noise { timer: noise.timer.wrapping_sub(t as i32), ..noise };
        assert(late.timer == full - e - t);
        lemma_noise_catches(late, full, k);
    }
}

/// Triggering the noise channel fills its register with fifteen ones, starts its interval
/// afresh and sounds it if its converter is on. It is heard at the volume of its envelope
/// while the register is even, and is silent while it is odd.
pub proof fn law_noise_trigger(noise: Noise)
    requires
        noise.wf(),
        noise.lfsr < 0x8000,
    ensures
        noise.triggered().lfsr == 0x7fff,
        noise.triggered().timer == noise.interval(),
        noise.triggered().enabled == noise.envelope.dac(),
        noise.triggered().width7 == noise.width7,
        noise.enabled && noise.envelope.dac() && noise.lfsr % 2 == 0 ==> noise.level()
            == noise.envelope.volume,
        !noise.enabled || !noise.envelope.dac() || noise.lfsr % 2 == 1 ==> noise.level() == 0,
{
    law_noise_interval(noise);
    lemma_shift_register(noise.lfsr);
}

/// `n` clocks of an envelope.
pub open spec fn envelopes(envelope: Envelope, n: nat) -> Envelope
    decreases n,
{
    if n == 0 {
        envelope
    } else {
        envelopes(envelope, (n - 1) as nat).stepped()
    }
}

proof fn lemma_envelope_waits(envelope: Envelope, n: nat)
    requires
        envelope.period > 0,
        envelope.enabled,
        n < envelope.timer,
    ensures
        envelopes(envelope, n) == (Envelope { timer: (envelope.timer - n) as u8, ..envelope }),
    decreases n,
{
    if n > 0 {
        lemma_envelope_waits(envelope, (n - 1) as nat);
    }
}

/// An envelope written with `value` and triggered starts at the volume `value / 16`, keeps
/// it for `value % 8` clocks and is then one louder if bit 3 of `value` is set and one
/// softer if it is clear, within 0 to 15; and every further step takes as many clocks.
/// With `value % 8` of 0 the volume never moves.
#[verifier::rlimit(40)]
pub proof fn law_envelope_pace(envelope: Envelope, value: u8, n: nat)
    ensures
        ({
            let started = envelope.written(value).triggered();
            &&& started.volume == value / 16
            &&& value % 8 == 0 ==> envelopes(started, n).volume == value / 16
            &&& n < value % 8 ==> envelopes(started, n).volume == value / 16
            &&& n > 0 && n == value % 8 ==> {
                let later = envelopes(started, n);
                &&& value / 8 % 2 == 1 && value / 16 < 15 ==> later == (Envelope {
                    volume: (value / 16 + 1) as u8,
                    ..started
                })
                &&& value / 8 % 2 == 0 && value / 16 > 0 ==> later == (Envelope {
                    volume: (value / 16 - 1) as u8,
                    ..started
                })
                &&& value / 8 % 2 == 1 && value / 16 == 15 || value / 8 % 2 == 0 && value / 16 == 0
                    ==> later == (Envelope { enabled: false, ..started })
            }
        }),
    decreases n,
{
    bits::lemma_byte(value);
    let started = envelope.written(value).triggered();
    if value % 8 == 0 {
        lemma_envelope_rests(started, n);
    } else if n < value % 8 {
        lemma_envelope_waits(started, n);
    } else if n == value % 8 {
        lemma_envelope_waits(started, (n - 1) as nat);
    }
}

proof fn lemma_envelope_rests(envelope: Envelope, n: nat)
    requires
        envelope.period == 0 || !envelope.enabled,
    ensures
        envelopes(envelope, n) == envelope,
    decreases n,
{
    if n > 0 {
        lemma_envelope_rests(envelope, (n - 1) as nat);
    }
}

/// An envelope that has gone as far as it can stays there; one under way moves by one for
/// every `period` clocks.
pub proof fn law_envelope_steps(envelope: Envelope, n: nat)
    requires
        envelope.wf(),
    ensures
        !envelope.enabled ==> envelopes(envelope, n) == envelope,
        envelope.enabled && envelope.period > 0 && envelope.timer == envelope.period && n
            == envelope.period ==> {
            let later = envelopes(envelope, n);
            &&& later.timer == envelope.period
            &&& later.volume == if envelope.increasing && envelope.volume < 15 {
                envelope.volume + 1
            } else if !envelope.increasing && envelope.volume > 0 {
                envelope.volume - 1
            } else {
                envelope.volume as int
            }
            &&& later.enabled == (later.volume != envelope.volume)
        },
        envelope.enabled && envelope.period > 0 && n < envelope.timer ==> envelopes(
            envelope,
            n,
        ).volume == envelope.volume,
{
    if !envelope.enabled {
        lemma_envelope_rests(envelope, n);
    } else if envelope.period > 0 && n < envelope.timer {
        lemma_envelope_waits(envelope, n);
    } else if envelope.period > 0 && envelope.timer == envelope.period && n == envelope.period {
        lemma_envelope_waits(envelope, (n - 1) as nat);
    }
}

/// The converter of a channel with an envelope is off exactly when the top five bits of
/// its envelope register are all clear.
pub proof fn law_converter(envelope: Envelope, value: u8)
    ensures
        envelope.written(value).dac() == (value >= 8),
{
    bits::lemma_byte(value);
}

/// The frequency that the sweep unit moves to: up, or down when it negates, by the present
/// one divided by two as often as the shift says.
pub proof fn law_sweep_amount(pulse: Pulse)
    requires
        pulse.wf(),
        pulse.sweep_shadow <= 2047,
    ensures
        ({
            let step = pulse.sweep_shadow as nat / vstd::arithmetic::power2::pow2(
                pulse.sweep_shift as nat,
            );
            pulse.swept() == if pulse.sweep_negate {
                pulse.sweep_shadow - step
            } else {
                pulse.sweep_shadow + step
            }
        }),
        pulse.sweep_shift == 0 ==> pulse.swept() == if pulse.sweep_negate {
            0
        } else {
            2 * pulse.sweep_shadow
        },
{
    let shadow = pulse.sweep_shadow;
    let power = vstd::arithmetic::power2::pow2(pulse.sweep_shift as nat);
    vstd::bits::lemma_u16_shr_is_div(shadow, pulse.sweep_shift as u16);
    vstd::arithmetic::power2::lemma2_to64();
    vstd::arithmetic::power2::lemma_pow2_pos(pulse.sweep_shift as nat);
    assert(0 <= shadow as nat / power <= shadow as nat) by (nonlinear_arith)
        requires
            power > 0,
    ;
    assert(shadow as nat / 1 == shadow) by (nonlinear_arith);
}

/// `n` clocks of the sweep unit.
pub open spec fn sweeps(pulse: Pulse, n: nat) -> Pulse
    decreases n,
{
    if n == 0 {
        pulse
    } else {
        sweeps(pulse, (n - 1) as nat).sweep_stepped()
    }
}

proof fn lemma_sweep_waits(pulse: Pulse, n: nat)
    requires
        pulse.has_sweep,
        pulse.sweep_enabled,
        n < pulse.sweep_timer,
    ensures
        sweeps(pulse, n) == (Pulse { sweep_timer: (pulse.sweep_timer - n) as u8, ..pulse }),
    decreases n,
{
    if n > 0 {
        lemma_sweep_waits(pulse, (n - 1) as nat);
    }
}

/// Triggered at the frequency f, a sweep unit with a period and a shift leaves the
/// frequency alone for one clock less than its period, and on the clock that completes it
/// moves the frequency to f plus or minus f / 2^shift. A frequency that would pass 2047
/// silences the channel and moves nothing.
#[verifier::rlimit(40)]
pub proof fn law_sweep_pace(pulse: Pulse, n: nat)
    requires
        pulse.wf(),
        pulse.has_sweep,
        pulse.sweep_period > 0,
        pulse.sweep_shift > 0,
    ensures
        ({
            let started = pulse.triggered();
            let step = pulse.freq as nat / vstd::arithmetic::power2::pow2(
                pulse.sweep_shift as nat,
            );
            let target = if pulse.sweep_negate {
                pulse.freq - step
            } else {
                pulse.freq + step
            };
            &&& n < pulse.sweep_period ==> sweeps(started, n).freq == pulse.freq && sweeps(
                started,
                n,
            ).enabled == started.enabled
            &&& n == pulse.sweep_period && target <= 2047 ==> sweeps(started, n).freq == target
            &&& n == pulse.sweep_period && target > 2047 ==> sweeps(started, n).freq == pulse.freq
                && !sweeps(started, n).enabled
            &&& target > 2047 ==> !started.enabled
            &&& target <= 2047 ==> started.enabled == pulse.envelope.dac()
        }),
{
    let started = pulse.triggered();
    law_sweep_amount(started);
    if n < pulse.sweep_period {
        lemma_sweep_waits(started, n);
    } else if n == pulse.sweep_period {
        lemma_sweep_waits(started, (n - 1) as nat);
        let brink = sweeps(started, (n - 1) as nat);
        assert(sweeps(started, n) == brink.sweep_stepped());
        assert(brink.swept() == started.swept());
    }
}

/// A channel without a sweep unit, and one whose unit has no period, keeps its frequency; and
/// without a unit or a shift, triggering it sounds it whenever its converter is on.
pub proof fn law_no_sweep(pulse: Pulse, n: nat)
    requires
        pulse.wf(),
        !pulse.has_sweep || pulse.sweep_period == 0,
    ensures
        sweeps(pulse.triggered(), n).freq == pulse.freq,
        sweeps(pulse.triggered(), n).enabled == pulse.triggered().enabled,
        !pulse.has_sweep || pulse.sweep_shift == 0 ==> pulse.triggered().enabled
            == pulse.envelope.dac(),
{
    lemma_unswept(pulse.triggered(), n);
}

proof fn lemma_unswept(pulse: Pulse, n: nat)
    requires
        !pulse.has_sweep || pulse.sweep_period == 0,
    ensures
        sweeps(pulse, n) == (Pulse { sweep_timer: sweeps(pulse, n).sweep_timer, ..pulse }),
    decreases n,
{
    if n > 0 {
        lemma_unswept(pulse, (n - 1) as nat);
    }
}

} // verus!
