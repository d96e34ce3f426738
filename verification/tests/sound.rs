//! The sound unit's registers, and the record that the host's mixer reads.

use gbtoexe::front::sample_cap;
use gbtoexe::hw::apu::{Apu, Mix, RECORD_CYCLES};
use gbtoexe::hw::channels::{Envelope, LengthCounter, Noise};

#[test]
fn no_clock_is_lost_from_the_record() {
    let mut apu = Apu::new(48_000);
    for t in [4, 8, 100, 0, 4] {
        apu.step(t);
    }
    let record = apu.take_record();
    assert_eq!(record.iter().map(|m| m.cycles).sum::<u64>(), 116);
    assert_eq!(apu.take_record().len(), 0);
}

#[test]
fn an_unread_record_stops_growing_and_keeps_counting() {
    let mut apu = Apu::new(48_000);
    for _ in 0..300 {
        apu.step(8192);
    }
    let record = apu.take_record();
    assert_eq!(record.len() as u64, RECORD_CYCLES / 8192);
    assert_eq!(record.iter().map(|m| m.cycles).sum::<u64>(), 300 * 8192);
}

#[test]
fn a_triggered_pulse_is_heard() {
    let mut apu = Apu::new(48_000);
    apu.write(0xff11, 0x80);
    apu.write(0xff12, 0xf0);
    apu.write(0xff13, 0x00);
    apu.write(0xff14, 0x87);
    assert_eq!(apu.read(0xff26) & 0x81, 0x81);
    let mut levels = Vec::new();
    for _ in 0..1024 {
        apu.step(4);
    }
    for mix in apu.take_record() {
        assert_eq!(mix.cycles, 4);
        assert_eq!(mix.nr50, 0x77);
        assert_eq!(mix.nr51, 0xf3);
        levels.push(mix.ch1);
    }
    assert!(levels.contains(&15), "the wave's high half");
    assert!(levels.contains(&0), "the wave's low half");
}

#[test]
fn switching_the_unit_off_silences_it_and_locks_it() {
    let mut apu = Apu::new(48_000);
    apu.write(0xff12, 0xf3);
    apu.write(0xff30, 0xab);
    apu.write(0xff26, 0x00);
    assert_eq!(apu.read(0xff26) & 0x80, 0);
    assert_eq!(apu.read(0xff12), 0x00);
    apu.write(0xff12, 0x55);
    assert_eq!(apu.read(0xff12), 0x00);
    assert_eq!(apu.read(0xff30), 0xab);
    apu.write(0xff31, 0xcd);
    assert_eq!(apu.read(0xff31), 0xcd);
    apu.step(4);
    let last = apu.take_record().pop().expect("a record");
    assert_eq!((last.ch1, last.ch2, last.ch3, last.ch4), (0, 0, 0, 0));
    assert_eq!((last.nr50, last.nr51), (0, 0));
}

#[test]
fn envelope_registers_read_back() {
    let mut apu = Apu::new(48_000);
    for addr in [0xff12, 0xff17, 0xff21] {
        for value in [0x00, 0x5b, 0xf7, 0x08] {
            apu.write(addr, value);
            assert_eq!(apu.read(addr), value);
        }
    }
}

#[test]
fn a_length_counter_stops_its_channel_on_time() {
    let mut apu = Apu::new(48_000);
    apu.write(0xff12, 0xf0);
    // Two length clocks; they come on every other step of the sequencer.
    apu.write(0xff11, 0x3e);
    apu.write(0xff14, 0xc7);
    apu.step(8192);
    assert_eq!(apu.read(0xff26) & 1, 1);
    apu.step(8192);
    assert_eq!(apu.read(0xff26) & 1, 1);
    apu.step(8192);
    assert_eq!(apu.read(0xff26) & 1, 0);

    let mut counter = LengthCounter { enabled: true, value: 3, max: 64 };
    assert!(!counter.step());
    assert!(!counter.step());
    assert!(counter.step());
    assert!(!counter.step());
}

#[test]
fn the_envelope_fades_out_and_stops() {
    let mut envelope = Envelope {
        initial: 2,
        increasing: false,
        period: 1,
        volume: 2,
        timer: 1,
        enabled: true,
    };
    assert!(envelope.dac_on());
    assert_eq!(envelope.byte(), 0x21);
    for expected in [1, 0, 0] {
        envelope.step();
        assert_eq!(envelope.volume, expected);
    }
    envelope.write(0x07);
    assert!(!envelope.dac_on());
}

#[test]
fn a_new_noise_channel_is_silent() {
    assert_eq!(Noise::new().sample(), 0);
}

#[test]
fn the_sample_rate_is_kept_for_the_mixer() {
    let mut apu = Apu::new(48_000);
    assert_eq!(apu.sample_rate(), 48_000);
    apu.set_sample_rate(44_100);
    assert_eq!(apu.sample_rate(), 44_100);
}

#[test]
fn channels_are_routed_to_their_sides() {
    let mix = Mix { cycles: 4, ch1: 1, ch2: 2, ch3: 3, ch4: 4, nr50: 0xd3, nr51: 0xa6 };
    assert_eq!(mix.left(), [0, 2, 0, 4]);
    assert_eq!(mix.right(), [0, 2, 3, 0]);
    assert_eq!(mix.volumes(), (5, 3));
    assert_eq!(sample_cap(48_000), 24_000);
    assert_eq!(sample_cap(7), 2);
}

#[test]
fn switching_the_unit_off_clears_every_register() {
    let mut apu = Apu::new(48_000);
    assert_eq!(apu.read(0xff11), 0xbf);
    apu.write(0xff11, 0xc0);
    apu.write(0xff16, 0xc0);
    apu.write(0xff30, 0x5a);
    apu.write(0xff26, 0x00);
    apu.write(0xff24, 0x77);
    let off = [
        (0xff10, 0x80), (0xff11, 0x3f), (0xff12, 0x00), (0xff14, 0xbf), (0xff16, 0x3f),
        (0xff17, 0x00), (0xff19, 0xbf), (0xff1a, 0x7f), (0xff1c, 0x9f), (0xff1e, 0xbf),
        (0xff21, 0x00), (0xff22, 0x00), (0xff23, 0xbf), (0xff24, 0x00), (0xff25, 0x00),
        (0xff26, 0x70), (0xff30, 0x5a),
    ];
    for (addr, value) in off {
        assert_eq!(apu.read(addr), value, "{addr:04x}");
    }
}
