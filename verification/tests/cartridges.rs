//! Headers, mappers, battery saves and the cartridge clock.

use std::time::{Duration, SystemTime, UNIX_EPOCH};

use gbtoexe::hw::rtc::{now_secs, whole_seconds, Rtc};
use gbtoexe::hw::title::{read_title, tidy};
use gbtoexe::hw::{Cartridge, CgbSupport, MbcKind};

/// A file of `banks` 16 KiB banks, each of which starts with its own number.
fn rom(kind: u8, ram: u8, banks: usize) -> Vec<u8> {
    let mut rom = vec![0u8; banks * 0x4000];
    for bank in 0..banks {
        rom[bank * 0x4000] = bank as u8;
    }
    rom[0x134..0x13a].copy_from_slice(b"TESTER");
    rom[0x147] = kind;
    rom[0x149] = ram;
    let sum = rom[0x134..0x14d]
        .iter()
        .fold(0u8, |acc, &b| acc.wrapping_sub(b).wrapping_sub(1));
    rom[0x14d] = sum;
    rom
}

fn cart(kind: u8, ram: u8, banks: usize) -> Cartridge {
    match Cartridge::new_at(rom(kind, ram, banks), 1000) {
        Ok(cart) => cart,
        Err(e) => panic!("{}", e.message()),
    }
}

fn refusal(rom: Vec<u8>) -> String {
    match Cartridge::new(rom) {
        Ok(_) => panic!("the file should have been refused"),
        Err(e) => e.message(),
    }
}

#[test]
fn a_short_file_is_refused_with_its_length() {
    assert_eq!(
        refusal(vec![0; 16]),
        "ROM is 16 bytes; a Game Boy header alone needs 336"
    );
}

#[test]
fn an_unknown_cartridge_type_is_named() {
    assert_eq!(
        refusal(rom(0xfe, 0, 2)),
        "unsupported cartridge type 0xFE at header offset 0x147"
    );
}

#[test]
fn the_header_is_read_in_full() {
    let mut file = rom(0x10, 0x03, 8);
    file[0x143] = 0x80;
    let cart = match Cartridge::new_at(file, 0) {
        Ok(cart) => cart,
        Err(e) => panic!("{}", e.message()),
    };
    let info = cart.info();
    assert_eq!(info.title, "TESTER");
    assert_eq!(info.mbc, MbcKind::Mbc3);
    assert_eq!(info.rom_banks, 8);
    assert_eq!(info.ram_bytes, 0x8000);
    assert!(info.battery);
    assert!(info.rtc);
    assert_eq!(info.cgb, CgbSupport::Enhanced);
    assert!(!info.header_checksum_ok);
    assert!(!info.global_checksum_ok);
}

#[test]
fn the_global_checksum_leaves_its_own_bytes_out() {
    let mut file = rom(0x00, 0, 2);
    let sum = file.iter().fold(0u16, |acc, &b| acc.wrapping_add(b as u16));
    file[0x14e] = (sum >> 8) as u8;
    file[0x14f] = sum as u8;
    let cart = Cartridge::new(file).ok().expect("a whole cartridge");
    assert!(cart.info().global_checksum_ok);
    assert!(cart.info().header_checksum_ok);
}

#[test]
fn titles_are_tidied() {
    assert_eq!(read_title(b"  ZELDA\x07 \0\0garbage"), "ZELDA");
    assert_eq!(read_title(&[0; 16]), "UNTITLED");
    assert_eq!(read_title(&[b'A', 0xff, b'B']), "A\u{fffd}B");
    assert_eq!(tidy("\u{1}\u{85} \u{9f}"), "UNTITLED");
    assert_eq!(tidy("\u{3000}caf\u{e9}\u{2003}"), "caf\u{e9}");
}

#[test]
fn a_cartridge_without_a_mapper_ignores_its_registers() {
    let mut cart = cart(0x00, 0, 2);
    cart.write_rom(0x2000, 5);
    assert_eq!(cart.bank_at(0x4000), 1);
    assert_eq!(cart.read_rom(0x4000), 1);
}

#[test]
fn mbc1_selects_banks_and_never_bank_zero() {
    let mut cart = cart(0x01, 0, 64);
    cart.write_rom(0x2000, 0x13);
    assert_eq!(cart.read_rom(0x4000), 0x13);
    cart.write_rom(0x2000, 0x00);
    assert_eq!(cart.read_rom(0x4000), 0x01);
    cart.write_rom(0x4000, 0x01);
    assert_eq!(cart.read_rom(0x4000), 0x21);
    assert_eq!(cart.bank_at(0x0000), 0);
    // Only mode 1 moves the lower window, and only on a cartridge this large.
    cart.write_rom(0x6000, 1);
    assert_eq!(cart.bank_at(0x0000), 0x20);
    assert_eq!(cart.read_rom(0x0000), 0x20);
}

#[test]
fn the_lower_window_of_a_small_mbc1_stays_put() {
    let mut cart = cart(0x01, 0, 32);
    cart.write_rom(0x4000, 0x03);
    cart.write_rom(0x6000, 1);
    assert_eq!(cart.bank_at(0x3fff), 0);
}

#[test]
fn a_bank_beyond_the_file_wraps_around() {
    let mut cart = cart(0x19, 0, 4);
    cart.write_rom(0x2000, 0x06);
    assert_eq!(cart.bank_at(0x4000), 2);
    // MBC5 can map bank zero into the upper window.
    cart.write_rom(0x2000, 0x00);
    assert_eq!(cart.bank_at(0x4000), 0);
    cart.write_rom(0x2000, 0x03);
    cart.write_rom(0x3000, 0x01);
    assert_eq!(cart.bank_at(0x4000), 3);
}

#[test]
fn reads_behind_the_end_of_the_file_are_open_bus() {
    let mut file = rom(0x01, 0, 2);
    file.truncate(0x4100);
    let cart = Cartridge::new(file).ok().expect("a whole cartridge");
    assert_eq!(cart.read_rom(0x4000), 1);
    assert_eq!(cart.read_rom(0x4100), 0xff);
}

#[test]
fn locked_cartridge_ram_reads_as_ones_and_ignores_writes() {
    let mut cart = cart(0x03, 0x02, 2);
    cart.write_ram(0xa000, 0x12);
    assert_eq!(cart.read_ram(0xa000), 0xff);
    assert!(!cart.is_dirty());
    cart.write_rom(0x0000, 0x0a);
    assert_eq!(cart.read_ram(0xa000), 0x00);
    cart.write_ram(0xa000, 0x12);
    assert_eq!(cart.read_ram(0xa000), 0x12);
    assert_eq!(cart.read_ram(0xa001), 0x00);
    assert!(cart.is_dirty());
    cart.set_clean();
    assert!(!cart.is_dirty());
    cart.write_rom(0x0000, 0x00);
    assert_eq!(cart.read_ram(0xa000), 0xff);
}

#[test]
fn ram_banks_hold_separate_bytes() {
    let mut cart = cart(0x1b, 0x03, 2);
    cart.write_rom(0x0000, 0x0a);
    cart.write_ram(0xa123, 0x01);
    cart.write_rom(0x4000, 0x02);
    assert_eq!(cart.read_ram(0xa123), 0x00);
    cart.write_ram(0xa123, 0x02);
    cart.write_rom(0x4000, 0x00);
    assert_eq!(cart.read_ram(0xa123), 0x01);
}

#[test]
fn mbc2_keeps_half_bytes_that_echo() {
    let mut cart = cart(0x06, 0, 4);
    cart.write_rom(0x0000, 0x0a);
    cart.write_ram(0xa003, 0xa7);
    assert_eq!(cart.read_ram(0xa003), 0xf7);
    assert_eq!(cart.read_ram(0xa203), 0xf7);
    // Address bit 8 picks the bank register.
    cart.write_rom(0x2100, 0x03);
    assert_eq!(cart.bank_at(0x4000), 3);
    assert_eq!(cart.save_data().len(), 512);
}

#[test]
fn a_short_save_fills_what_it_can() {
    let mut cart = cart(0x03, 0x02, 2);
    cart.load_save(&[1, 2, 3]);
    cart.write_rom(0x0000, 0x0a);
    assert_eq!(cart.read_ram(0xa002), 3);
    assert_eq!(cart.read_ram(0xa003), 0);
    assert_eq!(cart.save_data().len(), 0x2000);
}

fn clock_reading(cart: &mut Cartridge, now: u64) -> [u8; 5] {
    cart.write_rom_at(0x6000, 0, now);
    cart.write_rom_at(0x6000, 1, now);
    let mut regs = [0u8; 5];
    for (i, slot) in regs.iter_mut().enumerate() {
        cart.write_rom_at(0x4000, 0x08 + i as u8, now);
        *slot = cart.read_ram(0xa000);
    }
    regs
}

#[test]
fn the_cartridge_clock_counts_the_hosts_seconds() {
    let mut cart = cart(0x10, 0x02, 2);
    cart.write_rom_at(0x0000, 0x0a, 1000);
    assert_eq!(clock_reading(&mut cart, 1000), [0, 0, 0, 0, 0]);
    let later = 1000 + 3 * 86_400 + 4 * 3600 + 5 * 60 + 6;
    assert_eq!(clock_reading(&mut cart, later), [6, 5, 4, 3, 0]);
    assert!(cart.has_clock());
}

#[test]
fn a_time_that_is_set_reads_back() {
    let mut cart = cart(0x10, 0x02, 2);
    cart.write_rom_at(0x0000, 0x0a, 1000);
    cart.write_rom_at(0x4000, 0x0a, 1000);
    cart.write_ram_at(0xa000, 17, 1000);
    assert!(cart.is_dirty());
    assert_eq!(clock_reading(&mut cart, 1000), [0, 0, 17, 0, 0]);
    assert_eq!(clock_reading(&mut cart, 1061), [1, 1, 17, 0, 0]);
}

#[test]
fn a_halted_clock_stands_still() {
    let mut cart = cart(0x10, 0x02, 2);
    cart.write_rom_at(0x0000, 0x0a, 1000);
    cart.write_rom_at(0x4000, 0x0c, 1010);
    cart.write_ram_at(0xa000, 0x40, 1010);
    assert_eq!(clock_reading(&mut cart, 1010), [10, 0, 0, 0, 0x40]);
    assert_eq!(clock_reading(&mut cart, 5000), [10, 0, 0, 0, 0x40]);
    cart.write_rom_at(0x4000, 0x0c, 5000);
    cart.write_ram_at(0xa000, 0x00, 5000);
    assert_eq!(clock_reading(&mut cart, 5005), [15, 0, 0, 0, 0]);
}

#[test]
fn the_day_counter_carries() {
    let mut cart = cart(0x10, 0x02, 2);
    cart.write_rom_at(0x0000, 0x0a, 1000);
    assert_eq!(
        clock_reading(&mut cart, 1000 + 300 * 86_400),
        [0, 0, 0, 44, 1]
    );
    assert_eq!(
        clock_reading(&mut cart, 1000 + 513 * 86_400),
        [0, 0, 0, 1, 0x80]
    );
}

#[test]
fn a_saved_clock_goes_on_while_the_game_is_closed() {
    let saved = cart(0x10, 0x02, 2).save_data_at(1042);
    assert_eq!(saved.len(), 0x2000 + 23);
    let mut back = cart(0x10, 0x02, 2);
    back.load_save_at(&saved, 1142);
    back.write_rom_at(0x0000, 0x0a, 1142);
    assert_eq!(clock_reading(&mut back, 1142), [22, 2, 0, 0, 0]);
}

#[test]
fn a_clock_saved_without_its_moment_resumes_from_its_count() {
    let mut saved = cart(0x10, 0x02, 2).save_data_at(1042);
    saved.truncate(0x2000 + 15);
    let mut back = cart(0x10, 0x02, 2);
    back.load_save_at(&saved, 1142);
    back.write_rom_at(0x0000, 0x0a, 1142);
    assert_eq!(clock_reading(&mut back, 1142), [42, 0, 0, 0, 0]);
}

#[test]
fn the_clock_reads_the_hosts_time() {
    let mut rtc = Rtc::new(0);
    let before = now_secs();
    assert!(before > 1_600_000_000);
    rtc.write(0x08, 30, before);
    assert_eq!(rtc.registers(before)[0], 30);
    assert_eq!(rtc.elapsed(before) / 86_400, before / 86_400 % 512);
    assert!(now_secs() >= before);
}

#[test]
fn a_clock_before_the_epoch_counts_as_zero() {
    assert_eq!(whole_seconds(Ok(Duration::from_millis(1999))), 1);
    let before = UNIX_EPOCH - Duration::from_secs(5);
    assert_eq!(whole_seconds(before.duration_since(UNIX_EPOCH)), 0);
    let now = SystemTime::now().duration_since(UNIX_EPOCH).unwrap().as_secs();
    assert!(now_secs() >= now && now_secs() <= now + 5);
}

#[test]
fn a_mapper_names_at_most_512_banks() {
    let mut cart = cart(0x19, 0, 512);
    cart.write_rom(0x2000, 0xff);
    cart.write_rom(0x3000, 0xff);
    assert_eq!(cart.bank_at(0x4000), 0x1ff);
}

#[test]
fn a_saved_count_beyond_the_hosts_own_comes_back() {
    // 100 days on the clock, saved and loaded when the host's clock says 1000 seconds.
    let mut rtc = Rtc::new(1000);
    rtc.write(0x0b, 100, 1000);
    let saved = rtc.serialize(1000);
    let mut back = Rtc::new(0);
    back.deserialize(&saved, 1050);
    assert_eq!(back.registers(1050), [50, 0, 0, 100, 0]);
    assert_eq!(back.registers(1060), [0, 1, 0, 100, 0]);
}

#[test]
fn the_battery_is_what_the_type_byte_says() {
    let with = [0x03, 0x06, 0x09, 0x0f, 0x10, 0x13, 0x1b, 0x1e];
    let without = [0x00, 0x01, 0x02, 0x05, 0x08, 0x11, 0x12, 0x19, 0x1a, 0x1c, 0x1d];
    for (kinds, battery) in [(&with[..], true), (&without[..], false)] {
        for &kind in kinds {
            let mut cart = cart(kind, 0x02, 4);
            assert_eq!(cart.has_battery(), battery);
            cart.write_rom(0x0000, 0x0a);
            cart.write_ram(0xa000, 0x12);
            cart.load_save(&[1, 2, 3]);
            assert_eq!(cart.has_battery(), battery);
            assert_eq!(cart.info().battery, battery);
        }
    }
}

#[test]
fn the_windows_show_the_banks_that_are_mapped() {
    let mut cart = cart(0x19, 0x00, 8);
    cart.write_rom(0x2000, 5);
    assert_eq!(cart.bank_at(0x1234), 0);
    assert_eq!(cart.bank_at(0x5234), 5);
    assert_eq!(cart.read_rom(0x4000), rom(0x19, 0x00, 8)[5 * 0x4000]);
    assert_eq!(cart.read_rom(0x7fff), rom(0x19, 0x00, 8)[6 * 0x4000 - 1]);
}

#[test]
fn full_ram_has_a_byte_for_every_address() {
    let mut cart = cart(0x1b, 0x02, 2);
    cart.write_rom(0x0000, 0x0a);
    for addr in 0xa000..=0xbfffu16 {
        cart.write_ram(addr, (addr % 251) as u8);
    }
    for addr in 0xa000..=0xbfffu16 {
        assert_eq!(cart.read_ram(addr), (addr % 251) as u8);
    }
    assert_eq!(cart.save_data().len(), cart.info().ram_bytes);
}

#[test]
fn an_mbc1_of_an_odd_size_keeps_its_lower_window() {
    let mut cart = cart(0x01, 0x00, 20);
    cart.write_rom(0x6000, 1);
    for hi in 0..4 {
        cart.write_rom(0x4000, hi);
        assert_eq!(cart.bank_at(0x0000), 0);
        assert_eq!(cart.read_rom(0x0150), rom(0x01, 0x00, 20)[0x0150]);
    }
}

#[test]
fn a_register_set_past_the_last_day_reads_back() {
    let mut rtc = Rtc::new(0);
    let now = 600 * 86_400 + 5;
    assert_eq!(rtc.registers(now), [5, 0, 0, 88, 0x80]);
    rtc.write(0x09, 7, now);
    assert_eq!(rtc.registers(now), [5, 7, 0, 88, 0x00]);
}
