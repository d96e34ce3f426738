//! The hardware model as the translated code sees it.

use gbtoexe::hw::apu::Mix;
use gbtoexe::hw::{build, Button, Config, MbcKind, Mmu, CPU_HZ, FRAME_CYCLES};

fn machine(rom: Vec<u8>) -> (Mmu, bool) {
    match build(rom, &Config::default()) {
        Ok(built) => built,
        Err(e) => panic!("{}", e.message()),
    }
}

/// Samples of the left and right channel, at the host's rate.
fn resample(record: &[Mix], sample_rate: u32) -> Vec<f32> {
    let cycles_per_sample = CPU_HZ as f64 / sample_rate as f64;
    let mut timer = 0.0f64;
    let mut out = Vec::new();
    for mix in record {
        timer += mix.cycles as f64;
        while timer >= cycles_per_sample {
            timer -= cycles_per_sample;
            let (left, right) = mix.volumes();
            let total = |levels: [u8; 4]| levels.iter().map(|&l| l as f32 / 15.0).sum::<f32>();
            out.push(total(mix.left()) * 0.25 * left as f32 / 7.0);
            out.push(total(mix.right()) * 0.25 * right as f32 / 7.0);
        }
    }
    out
}

fn test_rom() -> Vec<u8> {
    let mut rom = vec![0u8; 0x8000];
    rom[0x100..0x104].copy_from_slice(&[0x00, 0xc3, 0x50, 0x01]);
    rom[0x147] = 0x00;
    let sum = rom[0x134..0x14d]
        .iter()
        .fold(0u8, |acc, &b| acc.wrapping_sub(b).wrapping_sub(1));
    rom[0x14d] = sum;
    rom
}

#[test]
fn header_is_parsed() {
    let (mmu, cgb) = machine(test_rom());
    assert!(mmu.cart.info().header_checksum_ok);
    assert_eq!(mmu.cart.info().mbc, MbcKind::NoMapper);
    assert!(!cgb);
}

#[test]
fn rejects_a_file_too_short_to_be_a_rom() {
    assert!(build(vec![0; 16], &Config::default()).is_err());
}

#[test]
fn ram_writes_bump_the_code_version() {
    let (mut mmu, _) = machine(test_rom());
    let before = mmu.code_version[0xc1];
    mmu.write(0xc100, 0x42);
    assert_eq!(mmu.code_version[0xc1], before + 1);
    assert_eq!(mmu.read(0xc100), 0x42);
}

#[test]
fn the_ppu_reaches_vblank() {
    let (mut mmu, _) = machine(test_rom());
    for _ in 0..FRAME_CYCLES / 4 {
        mmu.tick(4);
    }
    assert!(mmu.ppu.has_frame());
}

#[test]
fn the_apu_produces_samples() {
    let (mut mmu, _) = machine(test_rom());
    for _ in 0..FRAME_CYCLES / 4 {
        mmu.tick(4);
    }
    let audio = resample(&mmu.apu.take_record(), Config::default().sample_rate);
    assert!(audio.len() > 1200, "got {} samples", audio.len());
}

#[test]
fn battery_ram_survives_a_save_and_reload() {
    // A cartridge type with battery-backed RAM: MBC1 + RAM + battery.
    let mut rom = test_rom();
    rom[0x147] = 0x03;
    rom[0x149] = 0x02; // 8 KiB of cartridge RAM
    let sum = rom[0x134..0x14d]
        .iter()
        .fold(0u8, |acc, &b| acc.wrapping_sub(b).wrapping_sub(1));
    rom[0x14d] = sum;

    let (mut mmu, _) = machine(rom.clone());
    assert!(mmu.cart.has_battery());
    assert!(!mmu.cart.ram_dirty);

    mmu.write(0x0000, 0x0a); // unlock cartridge RAM
    mmu.write(0xa000, 0x5a);
    mmu.write(0xa001, 0xa5);
    assert!(
        mmu.cart.ram_dirty,
        "writing battery RAM should mark it dirty"
    );
    let saved = mmu.cart.save_data();

    let (mut restored, _) = machine(rom);
    restored.cart.load_save(&saved);
    restored.write(0x0000, 0x0a);
    assert_eq!(restored.read(0xa000), 0x5a);
    assert_eq!(restored.read(0xa001), 0xa5);
    assert!(!restored.cart.ram_dirty, "a fresh load is not unsaved work");
}

#[test]
fn a_cartridge_without_a_battery_reports_no_save() {
    let (mmu, _) = machine(test_rom());
    assert!(!mmu.cart.has_battery());
}

#[test]
fn joypad_reads_back_inverted() {
    let (mut mmu, _) = machine(test_rom());
    mmu.joypad.write(0x10);
    mmu.joypad.set(Button::A, true);
    assert_eq!(mmu.joypad.read() & 0x01, 0);
    mmu.joypad.set(Button::A, false);
    assert_eq!(mmu.joypad.read() & 0x01, 1);
}
