//! What the PPU draws, and when.

use gbtoexe::hw::picture::{IRQ_STAT, IRQ_VBLANK, MODE_HBLANK, MODE_OAM, MODE_VBLANK};
use gbtoexe::hw::ppu::Ppu;
use gbtoexe::hw::{PALETTE_GREY, SCREEN_W};

const WHITE: u32 = 0xffffff;
const LIGHT: u32 = 0xaaaaaa;
const DARK: u32 = 0x555555;
const BLACK: u32 = 0x000000;

/// A monochrome screen that is switched off, with the identity palettes.
fn dark() -> Ppu {
    let mut ppu = Ppu::new(false, PALETTE_GREY);
    ppu.write_reg(0xff40, 0x00);
    ppu.write_reg(0xff47, 0xe4);
    ppu.write_reg(0xff48, 0xe4);
    ppu.write_reg(0xff49, 0xe4);
    ppu
}

/// Fills tile `n` with one colour.
fn tile(ppu: &mut Ppu, n: u16, colour: u8) {
    for row in 0..8 {
        let at = 0x8000 + n * 16 + row * 2;
        ppu.write_vram(at, if colour & 1 != 0 { 0xff } else { 0 });
        ppu.write_vram(at + 1, if colour & 2 != 0 { 0xff } else { 0 });
    }
}

fn sprite(ppu: &mut Ppu, n: u16, y: u8, x: u8, tile: u8, flags: u8) {
    for (i, value) in [y, x, tile, flags].into_iter().enumerate() {
        ppu.write_oam(0xfe00 + n * 4 + i as u16, value);
    }
}

fn frame(ppu: &mut Ppu, lcdc: u8) -> Vec<u32> {
    ppu.write_reg(0xff40, lcdc);
    ppu.take_frame();
    ppu.step(70_224);
    assert!(ppu.take_frame(), "no frame was finished");
    ppu.pixels().to_vec()
}

#[test]
fn a_tile_lands_where_the_map_says() {
    let mut ppu = dark();
    tile(&mut ppu, 1, 3);
    tile(&mut ppu, 2, 1);
    ppu.write_vram(0x9800, 1);
    ppu.write_vram(0x9821, 2);
    let pixels = frame(&mut ppu, 0x91);
    assert_eq!(pixels[0], BLACK);
    assert_eq!(pixels[7 * SCREEN_W + 7], BLACK);
    assert_eq!(pixels[8], WHITE);
    assert_eq!(pixels[8 * SCREEN_W], WHITE);
    assert_eq!(pixels[8 * SCREEN_W + 8], LIGHT);
}

#[test]
fn scrolling_moves_the_picture() {
    let mut ppu = dark();
    tile(&mut ppu, 1, 3);
    ppu.write_vram(0x9800, 1);
    ppu.write_reg(0xff43, 4);
    ppu.write_reg(0xff42, 2);
    let pixels = frame(&mut ppu, 0x91);
    assert_eq!(pixels[3], BLACK);
    assert_eq!(pixels[4], WHITE);
    assert_eq!(pixels[5 * SCREEN_W], BLACK);
    assert_eq!(pixels[6 * SCREEN_W], WHITE);
}

#[test]
fn the_window_covers_the_background() {
    let mut ppu = dark();
    tile(&mut ppu, 1, 2);
    for i in 0..0x400 {
        ppu.write_vram(0x9c00 + i, 1);
    }
    ppu.write_reg(0xff4a, 10);
    ppu.write_reg(0xff4b, 27);
    let pixels = frame(&mut ppu, 0x91 | 0x20 | 0x40);
    assert_eq!(pixels[10 * SCREEN_W + 20], DARK);
    assert_eq!(pixels[10 * SCREEN_W + 19], WHITE);
    assert_eq!(pixels[9 * SCREEN_W + 20], WHITE);
}

#[test]
fn the_palette_register_maps_colours_to_shades() {
    let mut ppu = dark();
    tile(&mut ppu, 0, 1);
    ppu.write_reg(0xff47, 0x0c);
    let pixels = frame(&mut ppu, 0x91);
    assert_eq!(pixels[0], BLACK);
    assert_eq!(ppu.read_reg(0xff47), 0x0c);
}

#[test]
fn only_ten_sprites_show_on_a_line() {
    let mut ppu = dark();
    tile(&mut ppu, 1, 3);
    for n in 0..12 {
        sprite(&mut ppu, n, 16, 8 + 10 * n as u8, 1, 0);
    }
    let pixels = frame(&mut ppu, 0x93);
    for n in 0..10 {
        assert_eq!(pixels[10 * n], BLACK, "sprite {n}");
    }
    assert_eq!(pixels[100], WHITE);
    assert_eq!(pixels[110], WHITE);
}

#[test]
fn the_sprite_further_left_wins_an_overlap() {
    let mut ppu = dark();
    tile(&mut ppu, 1, 1);
    tile(&mut ppu, 2, 3);
    sprite(&mut ppu, 0, 16, 12, 1, 0);
    sprite(&mut ppu, 1, 16, 8, 2, 0);
    sprite(&mut ppu, 2, 16, 28, 1, 0);
    sprite(&mut ppu, 3, 16, 28, 2, 0);
    let pixels = frame(&mut ppu, 0x93);
    assert_eq!(pixels[4], BLACK);
    assert_eq!(pixels[8], LIGHT);
    // In the same column, the first in OAM wins.
    assert_eq!(pixels[20], LIGHT);
}

#[test]
fn a_sprite_behind_the_background_shows_through_colour_zero_only() {
    let mut ppu = dark();
    tile(&mut ppu, 1, 1);
    tile(&mut ppu, 2, 3);
    ppu.write_vram(0x9800, 1);
    sprite(&mut ppu, 0, 16, 12, 2, 0x80);
    let pixels = frame(&mut ppu, 0x93);
    assert_eq!(pixels[4], LIGHT);
    assert_eq!(pixels[8], BLACK);
}

#[test]
fn four_dots_move_four_dots_on() {
    let mut ppu = dark();
    ppu.write_reg(0xff40, 0x91);
    assert_eq!(ppu.ly(), 0);
    assert_eq!(ppu.mode(), MODE_OAM);
    ppu.step(452);
    assert_eq!(ppu.ly(), 0);
    assert_eq!(ppu.mode(), MODE_HBLANK);
    assert!(ppu.in_hblank());
    ppu.step(4);
    assert_eq!(ppu.ly(), 1);
    ppu.step(456 * 9);
    assert_eq!(ppu.ly(), 10);
    ppu.step(70_224);
    assert_eq!(ppu.ly(), 10);
}

#[test]
fn the_vertical_blank_is_announced_once_a_frame() {
    let mut ppu = dark();
    ppu.write_reg(0xff40, 0x91);
    ppu.take_frame();
    ppu.step(456 * 144 - 4);
    assert!(!ppu.has_frame());
    ppu.take_irq();
    ppu.step(4);
    assert!(ppu.has_frame());
    assert_eq!(ppu.mode(), MODE_VBLANK);
    assert_eq!(ppu.take_irq() & IRQ_VBLANK, IRQ_VBLANK);
    assert_eq!(ppu.take_irq(), 0);
}

#[test]
fn a_line_match_requests_the_status_interrupt() {
    let mut ppu = dark();
    ppu.write_reg(0xff45, 3);
    ppu.write_reg(0xff41, 0x40);
    ppu.write_reg(0xff40, 0x91);
    ppu.take_irq();
    ppu.step(456 * 3 - 4);
    assert_eq!(ppu.take_irq() & IRQ_STAT, 0);
    ppu.step(4);
    assert_eq!(ppu.take_irq() & IRQ_STAT, IRQ_STAT);
    assert_eq!(ppu.read_reg(0xff41) & 0x04, 0x04);
}

#[test]
fn switching_the_screen_off_blanks_it() {
    let mut ppu = dark();
    tile(&mut ppu, 0, 3);
    let shown = frame(&mut ppu, 0x91);
    assert_eq!(shown[0], BLACK);
    ppu.write_reg(0xff40, 0x11);
    assert!(ppu.has_frame());
    assert!(ppu.pixels().iter().all(|&p| p == WHITE));
    assert_eq!(ppu.ly(), 0);
    ppu.step(100_000);
    assert_eq!(ppu.ly(), 0);
}

#[test]
fn colour_palettes_are_written_through_their_index() {
    let mut ppu = Ppu::new(true, PALETTE_GREY);
    ppu.write_reg(0xff40, 0x00);
    ppu.write_reg(0xff68, 0x80);
    // Colour 0 of palette 0: full red.
    ppu.write_reg(0xff69, 0x1f);
    ppu.write_reg(0xff69, 0x00);
    assert_eq!(ppu.read_reg(0xff68) & 0x3f, 2);
    let pixels = frame(&mut ppu, 0x91);
    // Red 31 comes out as 31 * 26 / 32 = 25 of 31, with 31 * 6 / 32 = 5 of blue.
    assert_eq!(pixels[0], ((25 * 255 / 31) << 16) | (5 * 255 / 31));
}

#[test]
fn video_memory_banks_are_separate_in_colour() {
    let mut ppu = Ppu::new(true, PALETTE_GREY);
    ppu.write_reg(0xff40, 0x00);
    ppu.write_vram(0x8000, 0x11);
    ppu.write_reg(0xff4f, 1);
    assert_eq!(ppu.vram_bank(), 1);
    ppu.write_vram(0x8000, 0x22);
    assert_eq!(ppu.read_vram(0x8000), 0x22);
    assert_eq!(ppu.vram_byte(0, 0), 0x11);
    assert_eq!(ppu.vram_byte(1, 0), 0x22);
}

#[test]
fn a_status_source_that_stays_up_fires_once() {
    let mut ppu = dark();
    ppu.write_reg(0xff45, 0);
    ppu.write_reg(0xff41, 0x40 | 0x08);
    ppu.write_reg(0xff40, 0x91);
    ppu.take_irq();
    // The line match of line 0 is up until the horizontal blank takes over.
    ppu.step(4);
    assert_eq!(ppu.take_irq() & IRQ_STAT, IRQ_STAT);
    ppu.step(448);
    assert_eq!(ppu.mode(), MODE_HBLANK);
    assert_eq!(ppu.take_irq() & IRQ_STAT, 0);
    // Both sources drop with the line, and the next horizontal blank is a new rise.
    ppu.step(456);
    assert_eq!(ppu.mode(), MODE_HBLANK);
    assert_eq!(ppu.take_irq() & IRQ_STAT, IRQ_STAT);
}

#[test]
fn display_registers_read_back() {
    let mut ppu = Ppu::new(false, PALETTE_GREY);
    for addr in [0xff42, 0xff43, 0xff45, 0xff47, 0xff48, 0xff49, 0xff4a, 0xff4b] {
        ppu.write_reg(addr, 0x5a);
        assert_eq!(ppu.read_reg(addr), 0x5a);
    }
    let low = ppu.read_reg(0xff41) & 7;
    ppu.write_reg(0xff41, 0xff);
    assert_eq!(ppu.read_reg(0xff41), 0xf8 | low);
    ppu.write_reg(0xff44, 99);
    assert_eq!(ppu.read_reg(0xff44), 0);
    for addr in [0xff4f, 0xff68, 0xff69, 0xff6a, 0xff6b, 0xff6c] {
        ppu.write_reg(addr, 0);
        assert_eq!(ppu.read_reg(addr), 0xff);
    }
}

#[test]
fn modes_and_lines_stay_in_step() {
    let mut ppu = Ppu::new(true, PALETTE_GREY);
    for _ in 0..20_000 {
        ppu.step(4);
        assert!(ppu.mode() <= 3 && ppu.ly() <= 153);
        assert_eq!(ppu.mode() == 1, ppu.ly() >= 144);
    }
}

#[test]
fn video_memory_is_written_in_the_bank_that_shows() {
    let mut ppu = Ppu::new(true, PALETTE_GREY);
    ppu.write_reg(0xff4f, 1);
    ppu.write_vram(0x8123, 0x77);
    assert_eq!(ppu.read_vram(0x8123), 0x77);
    assert_eq!(ppu.vram_byte(1, 0x123), 0x77);
    assert_eq!(ppu.vram_byte(0, 0x123), 0);
}
