//! The sound unit's registers and its frame sequencer: which bits of a register do what, and
//! how often each unit is clocked.
use vstd::prelude::*;
use crate::hw::apu::{Mix, Sound};
use crate::hw::bits;
use crate::hw::channels::Pulse;

verus! {

proof fn lemma_frequency(freq: u16, low: u8, high: u8)
    requires
        freq <= 2047,
    ensures
        Sound::low_written(freq, low) <= 2047,
        Sound::low_written(freq, low) % 256 == low,
        Sound::low_written(freq, low) / 256 == freq / 256,
        Sound::high_written(freq, high) == high % 8 * 256 + freq % 256,
        Sound::high_written(freq, high) <= 2047,
{
}

/// The frequency registers of the first channel: the low register gives the low eight
/// bits, the high register's low three bits the others.
pub proof fn law_frequency_one(sound: Sound, low: u8, high: u8)
    requires
        sound.power,
        sound.wf(),
    ensures
        sound.written(0xff13, low).written(0xff14, high).ch1.freq == high % 8 * 256 + low,
        sound.written(0xff14, high).written(0xff13, low).ch1.freq == high % 8 * 256 + low,
{
    lemma_frequency(sound.ch1.freq, low, high);
    lemma_frequency(sound.written(0xff13, low).ch1.freq, low, high);
    lemma_frequency(sound.written(0xff14, high).ch1.freq, low, high);
}

/// The frequency registers of the second channel, likewise.
pub proof fn law_frequency_two(sound: Sound, low: u8, high: u8)
    requires
        sound.power,
        sound.wf(),
    ensures
        sound.written(0xff18, low).written(0xff19, high).ch2.freq == high % 8 * 256 + low,
        sound.written(0xff19, high).written(0xff18, low).ch2.freq == high % 8 * 256 + low,
{
    lemma_frequency(sound.ch2.freq, low, high);
    lemma_frequency(sound.written(0xff18, low).ch2.freq, low, high);
    lemma_frequency(sound.written(0xff19, high).ch2.freq, low, high);
}

/// The frequency registers of the wave channel, likewise.
pub proof fn law_frequency_wave(sound: Sound, low: u8, high: u8)
    requires
        sound.power,
        sound.wf(),
    ensures
        sound.written(0xff1d, low).written(0xff1e, high).ch3.freq == high % 8 * 256 + low,
        sound.written(0xff1e, high).written(0xff1d, low).ch3.freq == high % 8 * 256 + low,
{
    lemma_frequency(sound.ch3.freq, low, high);
    lemma_frequency(sound.written(0xff1d, low).ch3.freq, low, high);
    lemma_frequency(sound.written(0xff1e, high).ch3.freq, low, high);
}

/// The top bit of a control register triggers its channel and nothing less does; the next
/// bit lets its length count.
#[verifier::rlimit(40)]
pub proof fn law_control(sound: Sound, value: u8)
    requires
        sound.power,
        sound.wf(),
        !sound.ch2.has_sweep,
    ensures
        sound.written(0xff14, value).ch1.length.enabled == (value / 64 % 2 == 1),
        sound.written(0xff19, value).ch2.length.enabled == (value / 64 % 2 == 1),
        sound.written(0xff1e, value).ch3.length.enabled == (value / 64 % 2 == 1),
        sound.written(0xff23, value).ch4.length.enabled == (value / 64 % 2 == 1),
        value < 128 ==> {
            &&& sound.written(0xff14, value).ch1.enabled == sound.ch1.enabled
            &&& sound.written(0xff14, value).ch1.timer == sound.ch1.timer
            &&& sound.written(0xff19, value).ch2.enabled == sound.ch2.enabled
            &&& sound.written(0xff19, value).ch2.timer == sound.ch2.timer
            &&& sound.written(0xff1e, value).ch3.enabled == sound.ch3.enabled
            &&& sound.written(0xff1e, value).ch3.position == sound.ch3.position
            &&& sound.written(0xff23, value).ch4.enabled == sound.ch4.enabled
            &&& sound.written(0xff23, value).ch4.lfsr == sound.ch4.lfsr
        },
        value >= 128 ==> {
            &&& sound.written(0xff19, value).ch2.enabled == (sound.reads(0xff17) >= 8)
            &&& sound.written(0xff19, value).ch2.envelope.volume == sound.reads(0xff17) / 16
            &&& sound.written(0xff14, value).ch1.envelope.volume == sound.reads(0xff12) / 16
            &&& sound.reads(0xff12) < 8 ==> !sound.written(0xff14, value).ch1.enabled
            &&& sound.written(0xff1e, value).ch3.enabled == sound.ch3.dac_on
            &&& sound.written(0xff1e, value).ch3.position == 0
            &&& sound.written(0xff23, value).ch4.enabled == (sound.reads(0xff21) >= 8)
            &&& sound.written(0xff23, value).ch4.envelope.volume == sound.reads(0xff21) / 16
            &&& sound.written(0xff23, value).ch4.lfsr == 0x7fff
        },
{
    bits::lemma_byte(value);
}

/// A length register sets how many length clocks are left: 64 less its low six bits, and
/// for the wave channel 256 less the whole of it. A trigger refills a spent counter.
#[verifier::rlimit(40)]
pub proof fn law_length_registers(sound: Sound, value: u8)
    requires
        sound.power,
        sound.wf(),
    ensures
        sound.written(0xff11, value).ch1.length.value == 64 - value % 64,
        sound.written(0xff16, value).ch2.length.value == 64 - value % 64,
        sound.written(0xff1b, value).ch3.length.value == 256 - value,
        sound.written(0xff20, value).ch4.length.value == 64 - value % 64,
        value >= 128 ==> {
            &&& sound.written(0xff14, value).ch1.length.value == if sound.ch1.length.value == 0 {
                64
            } else {
                sound.ch1.length.value
            }
            &&& sound.written(0xff19, value).ch2.length.value == if sound.ch2.length.value == 0 {
                64
            } else {
                sound.ch2.length.value
            }
            &&& sound.written(0xff1e, value).ch3.length.value == if sound.ch3.length.value == 0 {
                256
            } else {
                sound.ch3.length.value
            }
            &&& sound.written(0xff23, value).ch4.length.value == if sound.ch4.length.value == 0 {
                64
            } else {
                sound.ch4.length.value
            }
        },
{
    bits::lemma_byte(value);
}

/// What the shape registers set: the duty from the top two bits, the sweep's period,
/// direction and shift, the wave's volume code, and the noise's shift, width and divisor.
#[verifier::rlimit(40)]
pub proof fn law_shape_registers(sound: Sound, value: u8)
    requires
        sound.power,
        sound.wf(),
    ensures
        sound.written(0xff11, value).ch1.duty == value / 64,
        sound.written(0xff16, value).ch2.duty == value / 64,
        sound.written(0xff10, value).ch1.sweep_period == value / 16 % 8,
        sound.written(0xff10, value).ch1.sweep_negate == (value / 8 % 2 == 1),
        sound.written(0xff10, value).ch1.sweep_shift == value % 8,
        sound.written(0xff10, value).ch1.enabled == (sound.ch1.enabled && !(
        sound.ch1.sweep_negate && value / 8 % 2 == 0 && sound.ch1.sweep_negated)),
        sound.written(0xff1a, value).ch3.dac_on == (value >= 128),
        sound.written(0xff1a, value).ch3.enabled == (sound.ch3.enabled && value >= 128),
        sound.written(0xff1c, value).ch3.volume_shift == value / 32 % 4,
        sound.written(0xff22, value).ch4.shift == value / 16,
        sound.written(0xff22, value).ch4.width7 == (value / 8 % 2 == 1),
        sound.written(0xff22, value).ch4.divisor == value % 8,
        sound.written(0xff12, value).ch1.enabled == (sound.ch1.enabled && value >= 8),
        sound.written(0xff17, value).ch2.enabled == (sound.ch2.enabled && value >= 8),
        sound.written(0xff21, value).ch4.enabled == (sound.ch4.enabled && value >= 8),
{
    bits::lemma_byte(value);
}

/// The fields that a register's byte falls into.
proof fn lemma_fields(value: u8)
    ensures
        value % 128 == value / 16 % 8 * 16 + value / 8 % 2 * 8 + value % 8,
        value == value / 16 * 16 + value / 8 % 2 * 8 + value % 8,
        (value & 0x08 != 0) == (value / 8 % 2 == 1),
{
    assert((value & 0x08 != 0) == (value / 8 % 2 == 1)) by {
        bits::lemma_byte(value);
    }
    let (a, b) = (value / 8, value / 16);
    assert(a / 2 == b && a == 2 * b + a % 2);
    assert(value == 8 * a + value % 8);
    assert(value / 128 == b / 8 && b == 8 * (b / 8) + b % 8);
}

/// What the sweep register and the envelope registers of the pulse channels read as after a
/// write to them, while the unit is on: the bits that can be read as they were written, and
/// a one for the bit of the sweep register that cannot.
#[verifier::rlimit(40)]
pub proof fn law_pulse_reads_back(sound: Sound, value: u8)
    requires
        sound.power,
    ensures
        sound.written(0xff10, value).reads(0xff10) == 0x80 + value % 128,
        sound.written(0xff12, value).reads(0xff12) == value,
        sound.written(0xff17, value).reads(0xff17) == value,
{
    lemma_fields(value);
}

/// Of the duty registers the top two bits read back, the rest being ones; the low frequency
/// registers read as ones.
pub proof fn law_duty_reads_back(sound: Sound, value: u8)
    requires
        sound.power,
    ensures
        sound.written(0xff11, value).reads(0xff11) == value / 64 * 64 + 0x3f,
        sound.written(0xff16, value).reads(0xff16) == value / 64 * 64 + 0x3f,
        sound.reads(0xff13) == 0xff,
        sound.reads(0xff18) == 0xff,
{
}

/// What the control registers read as after a write to them: whether the length counts,
/// and ones.
#[verifier::rlimit(40)]
pub proof fn law_control_reads_back(sound: Sound, value: u8)
    requires
        sound.power,
    ensures
        sound.written(0xff14, value).reads(0xff14) == 0xbf + value / 64 % 2 * 64,
        sound.written(0xff19, value).reads(0xff19) == 0xbf + value / 64 % 2 * 64,
        sound.written(0xff1e, value).reads(0xff1e) == 0xbf + value / 64 % 2 * 64,
        sound.written(0xff23, value).reads(0xff23) == 0xbf + value / 64 % 2 * 64,
{
    bits::lemma_byte(value);
}

/// What the other registers read as after a write to them.
#[verifier::rlimit(40)]
pub proof fn law_rest_reads_back(sound: Sound, addr: u16, value: u8)
    requires
        sound.power,
        sound.wf(),
    ensures
        sound.written(0xff1a, value).reads(0xff1a) == 0x7f + value / 128 * 128,
        sound.reads(0xff1b) == 0xff,
        sound.written(0xff1c, value).reads(0xff1c) == 0x9f + value / 32 % 4 * 32,
        sound.reads(0xff1d) == 0xff,
        sound.reads(0xff20) == 0xff,
        sound.written(0xff21, value).reads(0xff21) == value,
        sound.written(0xff22, value).reads(0xff22) == value,
        sound.written(0xff24, value).reads(0xff24) == value,
        sound.written(0xff25, value).reads(0xff25) == value,
        0xff30 <= addr <= 0xff3f ==> sound.written(addr, value).reads(addr) == value,
        0xff27 <= addr <= 0xff2f || addr == 0xff15 || addr == 0xff1f ==> sound.reads(addr) == 0xff,
{
    lemma_fields(value);
    assert((value & 0x80 != 0) == (value / 128 % 2 == 1)) by {
        bits::lemma_byte(value);
    }
}

/// NR52 tells of the power in its top bit and of the four channels in its low four, the
/// first channel lowest; the bits between are ones. Writing it sets nothing but the power.
#[verifier::rlimit(40)]
pub proof fn law_status(sound: Sound, value: u8)
    ensures
        sound.reads(0xff26) / 128 == 1 <==> sound.power,
        sound.reads(0xff26) / 16 % 8 == 7,
        sound.reads(0xff26) % 2 == 1 <==> sound.ch1.enabled,
        sound.reads(0xff26) / 2 % 2 == 1 <==> sound.ch2.enabled,
        sound.reads(0xff26) / 4 % 2 == 1 <==> sound.ch3.enabled,
        sound.reads(0xff26) / 8 % 2 == 1 <==> sound.ch4.enabled,
        sound.written(0xff26, value).power == (value >= 128),
        value >= 128 ==> sound.written(0xff26, value) == (Sound { power: true, ..sound }),
{
    bits::lemma_byte(value);
}

/// Only the first pulse channel has a sweep unit, from the start and after the unit has been
/// switched off, which also takes the sequencer back to its first step.
pub proof fn law_sweep_unit(sound: Sound, rate: u32, value: u8)
    requires
        sound.power,
        value < 128,
    ensures
        Sound::boot(rate).ch1.has_sweep,
        !Sound::boot(rate).ch2.has_sweep,
        Sound::boot(rate).power,
        sound.written(0xff26, value).ch1.has_sweep,
        !sound.written(0xff26, value).ch2.has_sweep,
        sound.written(0xff26, value).seq_step == 0,
        sound.written(0xff26, value).seq_timer == sound.seq_timer,
        !sound.written(0xff26, value).ch1.enabled,
        !sound.written(0xff26, value).ch2.enabled,
        !sound.written(0xff26, value).ch3.enabled,
        !sound.written(0xff26, value).ch4.enabled,
{
    assert((value & 0x80 != 0) == (value / 128 % 2 == 1)) by {
        bits::lemma_byte(value);
    }
}

/// Nothing but a power cycle moves a sweep unit to or from a channel.
pub proof fn law_sweep_unit_stays(sound: Sound, addr: u16, value: u8, t: u32)
    requires
        addr != 0xff26,
    ensures
        sound.written(addr, value).ch1.has_sweep == sound.ch1.has_sweep,
        sound.written(addr, value).ch2.has_sweep == sound.ch2.has_sweep,
        sound.sequenced().ch1.has_sweep == sound.ch1.has_sweep,
        sound.sequenced().ch2.has_sweep == sound.ch2.has_sweep,
{
}

/// The panning register sends each channel to the left by its upper half and to the right
/// by its lower, the first channel by the lowest bit of each; the volume register holds
/// the left side's volume in bits 4 to 6 and the right side's in bits 0 to 2.
pub proof fn law_panning(mix: Mix)
    ensures
        mix.routed(16).len() == 4,
        mix.routed(16)[0] == if mix.nr51 / 16 % 2 == 1 { mix.ch1 } else { 0 },
        mix.routed(16)[1] == if mix.nr51 / 32 % 2 == 1 { mix.ch2 } else { 0 },
        mix.routed(16)[2] == if mix.nr51 / 64 % 2 == 1 { mix.ch3 } else { 0 },
        mix.routed(16)[3] == if mix.nr51 / 128 % 2 == 1 { mix.ch4 } else { 0 },
        mix.routed(1).len() == 4,
        mix.routed(1)[0] == if mix.nr51 % 2 == 1 { mix.ch1 } else { 0 },
        mix.routed(1)[1] == if mix.nr51 / 2 % 2 == 1 { mix.ch2 } else { 0 },
        mix.routed(1)[2] == if mix.nr51 / 4 % 2 == 1 { mix.ch3 } else { 0 },
        mix.routed(1)[3] == if mix.nr51 / 8 % 2 == 1 { mix.ch4 } else { 0 },
        mix.to_left() == mix.routed(16),
        mix.to_right() == mix.routed(1),
        mix.nr50 == mix.nr50 / 128 * 128 + mix.master().0 * 16 + mix.nr50 / 8 % 2 * 8
            + mix.master().1,
        mix.master().0 < 8,
        mix.master().1 < 8,
{
}

/// The mixer is fed with each channel's own level and with the two registers as they are.
pub proof fn law_mixer(sound: Sound, cycles: u64)
    ensures
        sound.mix(cycles).cycles == cycles,
        sound.mix(cycles).ch1 == sound.ch1.level(),
        sound.mix(cycles).ch2 == sound.ch2.level(),
        sound.mix(cycles).ch3 == sound.ch3.level(),
        sound.mix(cycles).ch4 == sound.ch4.level(),
        sound.mix(cycles).nr50 == sound.reads(0xff24),
        sound.mix(cycles).nr51 == sound.reads(0xff25),
{
}

/// Until half a second is waiting to be taken, every stretch of clocks adds one entry to the
/// record: what the channels and the two registers then were, and for how long.
pub proof fn law_record(sound: Sound, t: u32)
    requires
        t > 0,
        sound.recorded < 0x20_0000,
    ensures
        sound.noted(t).record == sound.record.push(
            Mix {
                cycles: t as u64,
                ch1: sound.ch1.level(),
                ch2: sound.ch2.level(),
                ch3: sound.ch3.level(),
                ch4: sound.ch4.level(),
                nr50: sound.nr50,
                nr51: sound.nr51,
            },
        ),
        sound.noted(t).recorded == sound.recorded + t,
        sound.noted(0) == sound,
{
}

/// A write to one channel's registers leaves the other channels and the sequencer alone.
pub proof fn law_separate(sound: Sound, addr: u16, value: u8)
    requires
        0xff10 <= addr <= 0xff25,
    ensures
        ({
            let next = sound.written(addr, value);
            &&& addr > 0xff14 ==> next.ch1 == sound.ch1
            &&& addr < 0xff16 || addr > 0xff19 ==> next.ch2 == sound.ch2
            &&& addr < 0xff1a || addr > 0xff1e ==> next.ch3 == sound.ch3
            &&& addr < 0xff20 || addr > 0xff23 ==> next.ch4 == sound.ch4
            &&& addr != 0xff24 ==> next.nr50 == sound.nr50
            &&& addr != 0xff25 ==> next.nr51 == sound.nr51
            &&& next.seq_step == sound.seq_step
            &&& next.seq_timer == sound.seq_timer
            &&& next.power == sound.power
            &&& next.record == sound.record
            &&& next.ch3.ram == sound.ch3.ram
        }),
{
}

/// Short of a trigger, writing to a pulse channel never disturbs its wave: its place, its
/// timer and its volume go on.
pub proof fn law_undisturbed(sound: Sound, addr: u16, value: u8)
    requires
        0xff10 <= addr <= 0xff19,
        addr == 0xff14 || addr == 0xff19 ==> value < 128,
    ensures
        ({
            let next = sound.written(addr, value);
            &&& next.ch1.phase == sound.ch1.phase
            &&& next.ch1.timer == sound.ch1.timer
            &&& next.ch1.envelope.volume == sound.ch1.envelope.volume
            &&& next.ch1.envelope.timer == sound.ch1.envelope.timer
            &&& next.ch2.phase == sound.ch2.phase
            &&& next.ch2.timer == sound.ch2.timer
            &&& next.ch2.envelope.volume == sound.ch2.envelope.volume
            &&& next.ch2.envelope.timer == sound.ch2.envelope.timer
            &&& addr != 0xff13 && addr != 0xff14 ==> next.ch1.freq == sound.ch1.freq
            &&& addr != 0xff18 && addr != 0xff19 ==> next.ch2.freq == sound.ch2.freq
            &&& addr != 0xff11 ==> next.ch1.duty == sound.ch1.duty
            &&& addr != 0xff16 ==> next.ch2.duty == sound.ch2.duty
            &&& addr != 0xff11 ==> next.ch1.length.value == sound.ch1.length.value
            &&& addr != 0xff16 ==> next.ch2.length.value == sound.ch2.length.value
            &&& addr != 0xff10 && addr != 0xff12 ==> next.ch1.enabled == sound.ch1.enabled
            &&& addr != 0xff17 ==> next.ch2.enabled == sound.ch2.enabled
        }),
{
    assert((value & 0x80 != 0) == (value / 128 % 2 == 1)) by {
        bits::lemma_byte(value);
    }
}

/// Short of a trigger, writing to the wave or the noise channel never disturbs what it is at,
/// and each of its registers moves what is its own.
pub proof fn law_others_undisturbed(sound: Sound, addr: u16, value: u8)
    requires
        0xff1a <= addr <= 0xff23,
        addr == 0xff1e || addr == 0xff23 ==> value < 128,
    ensures
        ({
            let next = sound.written(addr, value);
            &&& next.ch3.position == sound.ch3.position
            &&& next.ch3.timer == sound.ch3.timer
            &&& next.ch3.sample_buffer == sound.ch3.sample_buffer
            &&& addr != 0xff1d && addr != 0xff1e ==> next.ch3.freq == sound.ch3.freq
            &&& addr != 0xff1c ==> next.ch3.volume_shift == sound.ch3.volume_shift
            &&& addr != 0xff1b ==> next.ch3.length.value == sound.ch3.length.value
            &&& addr != 0xff1a ==> next.ch3.enabled == sound.ch3.enabled
            &&& addr != 0xff1a ==> next.ch3.dac_on == sound.ch3.dac_on
            &&& next.ch4.lfsr == sound.ch4.lfsr
            &&& next.ch4.timer == sound.ch4.timer
            &&& next.ch4.envelope.volume == sound.ch4.envelope.volume
            &&& addr != 0xff22 ==> next.ch4.shift == sound.ch4.shift && next.ch4.width7
                == sound.ch4.width7 && next.ch4.divisor == sound.ch4.divisor
            &&& addr != 0xff20 ==> next.ch4.length.value == sound.ch4.length.value
            &&& addr != 0xff21 ==> next.ch4.enabled == sound.ch4.enabled
        }),
{
    assert((value & 0x80 != 0) == (value / 128 % 2 == 1)) by {
        bits::lemma_byte(value);
    }
}

/// What one step of the sequencer clocks: the lengths on every other step, the sweep on
/// every fourth and the envelopes on every eighth.
pub proof fn law_sequencer(sound: Sound)
    requires
        sound.wf(),
    ensures
        sound.sequenced().seq_step == (sound.seq_step + 1) % 8,
        sound.sequenced().seq_timer == sound.seq_timer,
        sound.sequenced().ch3 == if sound.seq_step % 2 == 0 {
            sound.ch3.length_stepped()
        } else {
            sound.ch3
        },
        sound.sequenced().ch4 == if sound.seq_step % 2 == 0 {
            sound.ch4.length_stepped()
        } else if sound.seq_step == 7 {
            sound.ch4.envelope_stepped()
        } else {
            sound.ch4
        },
        sound.sequenced().ch2 == if sound.seq_step % 2 == 0 {
            sound.ch2.length_stepped()
        } else if sound.seq_step == 7 {
            sound.ch2.envelope_stepped()
        } else {
            sound.ch2
        },
        sound.sequenced().ch1 == if sound.seq_step % 4 == 2 {
            sound.ch1.length_stepped().sweep_stepped()
        } else if sound.seq_step % 2 == 0 {
            sound.ch1.length_stepped()
        } else if sound.seq_step == 7 {
            sound.ch1.envelope_stepped()
        } else {
            sound.ch1
        },
{
}

/// A length clock silences a channel whose length counts and has one left, and touches no
/// other.
pub proof fn law_length_silences(pulse: Pulse)
    ensures
        pulse.length.enabled && pulse.length.value == 1 ==> !pulse.length_stepped().enabled,
        !pulse.length.enabled || pulse.length.value != 1 ==> pulse.length_stepped().enabled
            == pulse.enabled,
        pulse.length_stepped().envelope == pulse.envelope,
        pulse.length_stepped().freq == pulse.freq,
        pulse.length_stepped().phase == pulse.phase,
{
}

/// What a step of the sequencer leaves alone.
proof fn lemma_sequenced_keeps(sound: Sound)
    requires
        sound.seq_step <= 7,
    ensures
        same_run(sound, sound.sequenced()),
        sound.sequenced().seq_step == (sound.seq_step + 1) % 8,
{
}

/// The two are at the same place in every channel's wave.
spec fn same_run(a: Sound, b: Sound) -> bool {
    &&& b.ch1.phase == a.ch1.phase
    &&& b.ch1.timer == a.ch1.timer
    &&& b.ch2.phase == a.ch2.phase
    &&& b.ch2.timer == a.ch2.timer
    &&& b.ch3.position == a.ch3.position
    &&& b.ch3.timer == a.ch3.timer
    &&& b.ch3.sample_buffer == a.ch3.sample_buffer
    &&& b.ch4.lfsr == a.ch4.lfsr
    &&& b.ch4.timer == a.ch4.timer
    &&& b.power == a.power
}

proof fn lemma_turns(step: int, timer: int)
    requires
        0 <= step < 8,
        timer >= 8192,
    ensures
        ((step + 1) % 8 + (timer - 8192) / 8192) % 8 == (step + timer / 8192) % 8,
        (timer - 8192) % 8192 == timer % 8192,
{
}

/// How many steps the catch-up of the sequencer takes.
#[verifier::rlimit(40)]
proof fn lemma_sequencer_catches(sound: Sound)
    requires
        sound.seq_step <= 7,
    ensures
        sound.caught_up().seq_timer == sound.seq_timer % 8192,
        sound.caught_up().seq_step == (sound.seq_step + sound.seq_timer / 8192) % 8,
        same_run(sound, sound.caught_up()),
    decreases sound.seq_timer,
{
    if sound.seq_timer >= 8192 {
        let stepped = sound.sequenced();
        let next = Sound { seq_timer: (sound.seq_timer - 8192) as u32, ..stepped };
        lemma_sequenced_keeps(sound);
        lemma_turns(sound.seq_step as int, sound.seq_timer as int);
        lemma_sequencer_catches(next);
        assert(sound.caught_up() == next.caught_up());
    }
}

/// While the unit is on, the sequencer takes a step for every 8192 clocks and every channel
/// runs for all of them; while it is off nothing moves.
#[verifier::rlimit(40)]
pub proof fn law_clocks(sound: Sound, t: u32)
    requires
        sound.wf(),
        t <= 0x4000_0000,
    ensures
        sound.power ==> {
            let next = sound.stepped(t);
            &&& next.seq_timer == (sound.seq_timer + t) % 8192
            &&& next.seq_step == (sound.seq_step + (sound.seq_timer + t) / 8192) % 8
            &&& next.ch1.phase == sound.ch1.stepped(t).phase
            &&& next.ch1.timer == sound.ch1.stepped(t).timer
            &&& next.ch2.phase == sound.ch2.stepped(t).phase
            &&& next.ch2.timer == sound.ch2.stepped(t).timer
            &&& next.ch3.position == sound.ch3.stepped(t).position
            &&& next.ch3.timer == sound.ch3.stepped(t).timer
            &&& next.ch3.sample_buffer == sound.ch3.stepped(t).sample_buffer
            &&& next.ch4.lfsr == sound.ch4.stepped(t).lfsr
            &&& next.ch4.timer == sound.ch4.stepped(t).timer
        },
        !sound.power ==> {
            let next = sound.stepped(t);
            &&& next.seq_timer == sound.seq_timer
            &&& next.seq_step == sound.seq_step
            &&& next.ch1 == sound.ch1
            &&& next.ch2 == sound.ch2
            &&& next.ch3 == sound.ch3
            &&& next.ch4 == sound.ch4
        },
{
    if sound.power {
        let run = Sound {
            ch1: sound.ch1.stepped(t),
            ch2: sound.ch2.stepped(t),
            ch3: sound.ch3.stepped(t),
            ch4: sound.ch4.stepped(t),
            seq_timer: sound.seq_timer.wrapping_add(t),
            ..sound
        };
        lemma_sequencer_catches(run);
    }
}

/// A tone, from the registers to the wave: with the frequency written and the channel
/// triggered, the two pulse channels move on by an eighth of their wave for every
/// 4 * (2048 - frequency) clocks, whatever the sequencer does meanwhile.
#[verifier::rlimit(40)]
pub proof fn law_tone(sound: Sound, low: u8, high: u8, t: u32)
    requires
        sound.wf(),
        sound.power,
        high >= 128,
        t <= 0x4000_0000,
    ensures
        ({
            let full = 4 * (2048 - (high % 8 * 256 + low));
            &&& sound.written(0xff13, low).written(0xff14, high).stepped(t).ch1.phase == (
            sound.ch1.phase + t as int / full) % 8
            &&& sound.written(0xff18, low).written(0xff19, high).stepped(t).ch2.phase == (
            sound.ch2.phase + t as int / full) % 8
        }),
{
    law_frequency_one(sound, low, high);
    law_frequency_two(sound, low, high);
    let first = sound.written(0xff13, low).written(0xff14, high);
    let second = sound.written(0xff18, low).written(0xff19, high);
    lemma_started(sound, low, high);
    law_clocks(first, t);
    law_clocks(second, t);
    crate::hw::tones::law_pulse_pitch(first.ch1, 0, t);
    crate::hw::tones::law_pulse_pitch(second.ch2, 0, t);
}

#[verifier::rlimit(40)]
proof fn lemma_started(sound: Sound, low: u8, high: u8)
    requires
        sound.wf(),
        sound.power,
        high >= 128,
    ensures
        ({
            let first = sound.written(0xff13, low).written(0xff14, high);
            let second = sound.written(0xff18, low).written(0xff19, high);
            &&& first.wf() && first.power && first.ch1.phase == sound.ch1.phase
            &&& second.wf() && second.power && second.ch2.phase == sound.ch2.phase
            &&& first.ch1.timer == 4 * (2048 - first.ch1.freq)
            &&& second.ch2.timer == 4 * (2048 - second.ch2.freq)
        }),
{
    lemma_frequency(sound.ch1.freq, low, high);
    lemma_frequency(sound.written(0xff13, low).ch1.freq, low, high);
    lemma_frequency(sound.ch2.freq, low, high);
    lemma_frequency(sound.written(0xff18, low).ch2.freq, low, high);
    assert(high & 0x80 != 0) by {
        bits::lemma_byte(high);
    }
}

} // verus!
