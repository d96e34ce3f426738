//! The memory map: RAM and its echo, DMA, the speed switch, the clock.

use gbtoexe::hw::joypad::Joypad;
use gbtoexe::hw::{build, Button, CgbSupport, Config, Mmu, Model};

fn rom(colour: u8) -> Vec<u8> {
    let mut rom = vec![0u8; 0x8000];
    for i in 0..0x100 {
        rom[0x1000 + i] = (i as u8) ^ 0x5a;
    }
    rom[0x143] = colour;
    rom
}

fn machine(colour: u8, model: Model) -> (Mmu, bool) {
    let config = Config { model, ..Config::default() };
    match build(rom(colour), &config) {
        Ok(built) => built,
        Err(e) => panic!("{}", e.message()),
    }
}

#[test]
fn the_model_follows_the_header_unless_told() {
    assert!(!machine(0x00, Model::Auto).1);
    assert!(machine(0x80, Model::Auto).1);
    assert!(machine(0xc0, Model::Auto).1);
    assert!(machine(0x00, Model::Cgb).1);
    assert!(!machine(0x80, Model::Dmg).1);
    assert_eq!(machine(0xc0, Model::Auto).0.cart.cgb_support(), CgbSupport::Required);
}

#[test]
fn a_colour_only_game_is_refused_on_a_monochrome_machine() {
    let config = Config { model: Model::Dmg, ..Config::default() };
    match build(rom(0xc0), &config) {
        Ok(_) => panic!("the game should have been refused"),
        Err(e) => assert!(e.message().contains("Color"), "{}", e.message()),
    }
}

#[test]
fn work_ram_echoes() {
    let (mut mmu, _) = machine(0, Model::Auto);
    let pages = mmu.code_version;
    mmu.write(0xc234, 0x99);
    assert_eq!(mmu.read(0xc234), 0x99);
    assert_eq!(mmu.read(0xe234), 0x99);
    assert_eq!(mmu.peek(0xc234), 0x99);
    for page in 0..256 {
        let bumped = if page == 0xc2 { 1 } else { 0 };
        assert_eq!(mmu.code_version[page], pages[page] + bumped);
    }
}

#[test]
fn high_ram_keeps_a_byte() {
    let (mut mmu, _) = machine(0, Model::Auto);
    let before = mmu.code_version[0xff];
    mmu.write(0xff80, 0x42);
    assert_eq!(mmu.read(0xff80), 0x42);
    assert_eq!(mmu.peek(0xff80), 0x42);
    assert_eq!(mmu.code_version[0xff], before + 1);
}

#[test]
fn translation_sees_what_the_processor_reads() {
    let (mut mmu, _) = machine(0, Model::Auto);
    mmu.write(0xd123, 0x76);
    for addr in [0x0000u16, 0x1004, 0x4000, 0x7fff, 0xa000, 0xd123, 0xf123, 0xff90] {
        assert_eq!(mmu.peek(addr), mmu.read(addr), "at {addr:#06x}");
    }
}

#[test]
fn oam_is_busy_while_dma_fills_it() {
    let (mut mmu, _) = machine(0, Model::Auto);
    mmu.write(0xff40, 0x00);
    mmu.write(0xfe10, 0x33);
    assert_eq!(mmu.read(0xfe10), 0x33);
    mmu.write(0xff46, 0x10);
    assert_eq!(mmu.read(0xfe10), 0xff);
    mmu.write(0xfe10, 0x44);
    mmu.tick(636);
    assert_eq!(mmu.read(0xfe10), 0xff);
    mmu.tick(4);
    for i in 0..0xa0u16 {
        assert_eq!(mmu.read(0xfe00 + i), (i as u8) ^ 0x5a);
    }
}

#[test]
fn stop_switches_the_speed_when_asked() {
    let (mut mmu, _) = machine(0x80, Model::Auto);
    assert!(!mmu.stop());
    mmu.write(0xff4d, 0x01);
    assert_eq!(mmu.read(0xff4d) & 0x81, 0x01);
    assert!(mmu.stop());
    assert!(mmu.is_double_speed());
    assert_eq!(mmu.read(0xff4d) & 0x81, 0x80);
    assert_eq!(mmu.read(0xff04), 0);
    assert!(!mmu.stop());
    assert!(mmu.is_double_speed());
}

#[test]
fn every_clock_is_counted() {
    let (mut mmu, _) = machine(0, Model::Auto);
    mmu.tick(100);
    mmu.tick(24);
    assert_eq!(mmu.total_cycles(), 124);
    assert_eq!(mmu.take_cycles(), 124);
    assert_eq!(mmu.take_cycles(), 0);
    assert_eq!(mmu.total_cycles(), 124);
}

#[test]
fn time_leaves_ram_alone() {
    let (mut mmu, _) = machine(0, Model::Auto);
    mmu.write(0xc000, 0x12);
    mmu.write(0xfff0, 0x34);
    mmu.tick(100_000);
    assert_eq!(mmu.read(0xc000), 0x12);
    assert_eq!(mmu.read(0xfff0), 0x34);
}

#[test]
fn work_ram_banks_switch_in_colour() {
    let (mut mmu, _) = machine(0x80, Model::Auto);
    mmu.write(0xff70, 2);
    mmu.write(0xd000, 0x22);
    mmu.write(0xff70, 3);
    assert_eq!(mmu.read(0xd000), 0x00);
    mmu.write(0xff70, 2);
    assert_eq!(mmu.read(0xd000), 0x22);
}

#[test]
fn general_dma_copies_into_video_memory() {
    let (mut mmu, _) = machine(0x80, Model::Auto);
    mmu.write(0xff40, 0x00);
    mmu.write(0xff51, 0x10);
    mmu.write(0xff52, 0x00);
    mmu.write(0xff53, 0x00);
    mmu.write(0xff54, 0x00);
    mmu.write(0xff55, 0x01);
    for i in 0..0x20u16 {
        assert_eq!(mmu.read(0x8000 + i), (i as u8) ^ 0x5a);
    }
    assert_eq!(mmu.read(0xff55), 0xff);
}

#[test]
fn interrupts_are_requested_and_acknowledged() {
    let (mut mmu, _) = machine(0, Model::Auto);
    mmu.write(0xffff, 0x14);
    mmu.write(0xff0f, 0x1f);
    assert_eq!(mmu.pending_interrupts(), 0x14);
    mmu.ack_interrupt(2);
    assert_eq!(mmu.pending_interrupts(), 0x10);
}

#[test]
fn pressing_a_selected_button_requests_an_interrupt() {
    let mut pad = Joypad::new();
    pad.write(0x20);
    pad.set(Button::Left, true);
    assert_eq!(pad.read() & 0x0f, 0x0d);
    assert_eq!(pad.irq, 0x10);
    pad.set(Button::Start, true);
    assert_eq!(pad.read() & 0x0f, 0x0d);
    pad.set(Button::Left, false);
    assert_eq!(pad.read() & 0x0f, 0x0f);
}

#[test]
fn cartridge_ram_has_page_versions_too() {
    let (mut mmu, _) = machine(0, Model::Auto);
    let before = mmu.code_version;
    mmu.write(0xa3ff, 1);
    mmu.write(0x8000, 1);
    for page in 0..256 {
        let bumped = if page == 0xa3 { 1 } else { 0 };
        assert_eq!(mmu.code_version[page], before[page] + bumped);
    }
}

#[test]
fn only_bank_registers_change_what_an_address_shows() {
    let (mut mmu, _) = machine(0x80, Model::Auto);
    let seen: Vec<u16> = (0..=0xff).map(|p: u16| mmu.bank_at(p << 8)).collect();
    for addr in [0x8000u16, 0xa000, 0xc000, 0xff40, 0xff46, 0xff4d, 0xff4f, 0xff80, 0xffff] {
        mmu.write(addr, 3);
        let now: Vec<u16> = (0..=0xff).map(|p: u16| mmu.bank_at(p << 8)).collect();
        assert_eq!(now, seen, "after a write to {addr:#06x}");
    }
    mmu.write(0xff70, 3);
    assert_eq!(mmu.bank_at(0xd000), 0x103);
    assert_eq!(mmu.bank_at(0xc000), 0);
}
