//! Which bank a game sees, told from the cartridge's type byte and from what was written to
//! the mapper.
use vstd::prelude::*;
use crate::hw::cartridge;
use crate::hw::cartridge::{Board, CgbSupport, MbcKind};

verus! {

proof fn lemma_register_bits(lo: usize, hi: usize, v: usize)
    by (bit_vector)
    requires
        hi <= 3,
        lo <= 0x1ff,
        v <= 0xff,
    ensures
        hi << 5 == hi * 32,
        (hi << 5) | (lo & 0x1f) == hi * 32 + lo % 32,
        (hi << 5) | 1 == hi * 32 + 1,
        lo & 0x1f == lo % 32,
        lo & 0x0f == lo % 16,
        lo & 0x7f == lo % 128,
        lo & 0x1ff == lo,
        (lo & 0x100) | v == lo / 256 * 256 + v,
        (lo & 0xff) | ((v & 1) << 8) == lo % 256 + v % 2 * 256,
{
}

proof fn lemma_bank_bits(lo: usize, hi: usize, v: u8)
    requires
        hi <= 3,
        lo <= 0x1ff,
    ensures
        hi << 5 == hi * 32,
        (hi << 5) | (lo & 0x1f) == hi * 32 + lo % 32,
        (hi << 5) | 1 == hi * 32 + 1,
        lo & 0x1f == lo % 32,
        lo & 0x0f == lo % 16,
        lo & 0x7f == lo % 128,
        lo & 0x1ff == lo,
        (lo & 0x100) | (v as usize) == lo / 256 * 256 + v,
        (lo & 0xff) | (((v as usize) & 1) << 8) == lo % 256 + v % 2 * 256,
        v & 0x1f == v % 32,
        v & 0x0f == v % 16,
        v & 0x7f == v % 128,
        v & 0x03 == v % 4,
        v & 1 == v % 2,
{
    lemma_register_bits(lo, hi, v as usize);
    crate::hw::bits::lemma_byte(v);
}

/// What the type byte at 0x147 says of the mapper, the battery and the clock, and that any
/// other byte there is refused.
pub proof fn law_type_byte(rom: Seq<u8>)
    requires
        rom.len() >= 0x150,
    ensures
        ({
            let code = rom[0x147];
            let header = cartridge::header_of(rom);
            let plain = code == 0x00 || code == 0x08 || code == 0x09;
            let one = 0x01 <= code <= 0x03;
            let two = code == 0x05 || code == 0x06;
            let three = 0x0f <= code <= 0x13;
            let five = 0x19 <= code <= 0x1e;
            &&& cartridge::refusal(rom) is None <==> plain || one || two || three || five
            &&& plain ==> header.mbc == MbcKind::NoMapper
            &&& one ==> header.mbc == MbcKind::Mbc1
            &&& two ==> header.mbc == MbcKind::Mbc2
            &&& three ==> header.mbc == MbcKind::Mbc3
            &&& five ==> header.mbc == MbcKind::Mbc5
            &&& plain || one || two || three || five ==> {
                &&& header.rtc <==> code == 0x0f || code == 0x10
                &&& header.battery <==> code == 0x03 || code == 0x06 || code == 0x09 || code == 0x0f
                    || code == 0x10 || code == 0x13 || code == 0x1b || code == 0x1e
            }
        }),
{
}

/// What the header says of sizes: as many 16 KiB banks as hold the file, and two at the
/// least; RAM of 2, 8, 32, 128 or 64 KiB for the size bytes 1 to 5, none for another, and
/// the 512 half-bytes of an MBC2 whatever the byte.
pub proof fn law_sizes(rom: Seq<u8>)
    requires
        rom.len() >= 0x150,
        cartridge::refusal(rom) is None,
    ensures
        ({
            let header = cartridge::header_of(rom);
            let code = rom[0x149];
            &&& header.rom_banks >= 2
            &&& header.rom_banks * 0x4000 >= rom.len()
            &&& header.rom_banks > 2 ==> (header.rom_banks - 1) * 0x4000 < rom.len()
            &&& rom[0x147] == 0x05 || rom[0x147] == 0x06 ==> header.ram_bytes == 512
            &&& rom[0x147] != 0x05 && rom[0x147] != 0x06 ==> header.ram_bytes == (if code == 1 {
                0x800int
            } else if code == 2 {
                0x2000
            } else if code == 3 {
                0x8000
            } else if code == 4 {
                0x2_0000
            } else if code == 5 {
                0x1_0000
            } else {
                0
            })
        }),
{
}

/// What the header says of colour, and when its sums are right: the bytes from 0x134 to
/// 0x14d and 25 more come to 0 modulo 256, and all the bytes but the last two of the
/// header come to those two, the high one first.
#[verifier::rlimit(40)]
pub proof fn law_colour_and_sums(rom: Seq<u8>)
    requires
        rom.len() >= 0x150,
        cartridge::refusal(rom) is None,
    ensures
        ({
            let header = cartridge::header_of(rom);
            &&& header.cgb == CgbSupport::Enhanced <==> rom[0x143] == 0x80
            &&& header.cgb == CgbSupport::Required <==> rom[0x143] == 0xc0
            &&& header.cgb == CgbSupport::Monochrome <==> rom[0x143] != 0x80 && rom[0x143] != 0xc0
            &&& header.header_checksum_ok <==> (cartridge::total(rom.subrange(0x134, 0x14e)) + 25)
                % 256 == 0
            &&& header.global_checksum_ok <==> (cartridge::total(rom) - rom[0x14e] - rom[0x14f] - (
            rom[0x14e] * 256 + rom[0x14f])) % 0x1_0000 == 0
        }),
{
    let all = rom.subrange(0x134, 0x14e);
    assert(all.drop_last() =~= rom.subrange(0x134, 0x14d));
    assert(all.last() == rom[0x14d]);
}

/// The title is what the sixteen bytes from 0x134 spell, and depends on nothing else.
pub proof fn law_title_place(rom: Seq<u8>, other: Seq<u8>)
    requires
        rom.len() >= 0x150,
        other.len() >= 0x150,
        rom.subrange(0x134, 0x144) == other.subrange(0x134, 0x144),
    ensures
        cartridge::header_of(rom).title == cartridge::header_of(other).title,
        cartridge::header_of(rom).title == crate::hw::title::title_of(rom.subrange(0x134, 0x144)),
{
}

/// The sum that the checks are made of adds every byte once.
pub proof fn law_total(s: Seq<u8>, t: Seq<u8>)
    ensures
        cartridge::total(s + t) == cartridge::total(s) + cartridge::total(t),
        s.len() == 1 ==> cartridge::total(s) == s[0],
        s.len() == 0 ==> cartridge::total(s) == 0,
    decreases t.len(),
{
    if s.len() == 1 {
        assert(s.drop_last() =~= Seq::<u8>::empty());
        assert(cartridge::total(s.drop_last()) == 0);
    }
    if t.len() == 0 {
        assert(s + t =~= s);
    } else {
        assert((s + t).drop_last() =~= s + t.drop_last());
        law_total(s, t.drop_last());
    }
}

/// A cartridge that has just been put in shows bank 0 and bank 1, has its RAM locked and
/// has a RAM bank for every 8 KiB.
#[verifier::rlimit(40)]
pub proof fn law_fresh(rom: Seq<u8>, now: u64, addr: u16)
    requires
        rom.len() >= 0x150,
        rom.len() <= usize::MAX - 0x4000,
        cartridge::refusal(rom) is None,
        rom[0x147] < 0x19,
        addr < 0x8000,
    ensures
        Board::fresh(rom, now).bank_at(addr) == addr / 0x4000,
        Board::fresh(rom, now).ram_byte(0xa000) == 0xff,
        Board::fresh(rom, now).ram.len() >= 0x4000 ==> Board::fresh(rom, now).ram_banks * 0x2000
            == Board::fresh(rom, now).ram.len(),
        Board::fresh(rom, now).ram.len() < 0x4000 ==> Board::fresh(rom, now).ram_banks == 1,
{
    let board = Board::fresh(rom, now);
    lemma_bank_bits(1, 0, 0);
    law_sizes(rom);
    assert(board.rom_banks as int == cartridge::header_of(rom).rom_banks);
    assert(board.asked_bank() == 1);
    vstd::arithmetic::div_mod::lemma_small_mod(1, board.rom_banks as nat);
}

/// MBC1: a write to 0x2000-0x3fff gives the low five bits of the upper window's bank, with
/// 1 in place of 0, and one to 0x4000-0x5fff the two above them, in either order.
#[verifier::rlimit(40)]
pub proof fn law_mbc1(board: Board, a: u16, lo: u8, b: u16, hi: u8, now: u64, addr: u16)
    requires
        board.wf(),
        0x01 <= board.rom[0x147] <= 0x03,
        0x2000 <= a <= 0x3fff,
        0x4000 <= b <= 0x5fff,
        0x4000 <= addr <= 0x7fff,
    ensures
        ({
            let low: int = if lo % 32 == 0 {
                1
            } else {
                (lo % 32) as int
            };
            let asked = hi % 4 * 32 + low;
            let one = board.rom_written(a, lo, now).rom_written(b, hi, now);
            let two = board.rom_written(b, hi, now).rom_written(a, lo, now);
            &&& one.bank_at(addr) == asked % board.header.rom_banks
            &&& two.bank_at(addr) == asked % board.header.rom_banks
            &&& asked < board.header.rom_banks ==> one.bank_at(addr) == asked
        }),
{
    reveal(Board::rom_written);
    reveal(cartridge::says);
    let one = board.rom_written(a, lo, now).rom_written(b, hi, now);
    lemma_bank_bits(0, 0, lo);
    lemma_bank_bits(0, 0, hi);
    lemma_bank_bits((lo & 0x1f) as usize, (hi & 0x03) as usize, 0);
    let asked = one.asked_bank();
    lemma_shown(one, asked as int, addr);
    lemma_shown(board.rom_written(b, hi, now).rom_written(a, lo, now), asked as int, addr);
}

/// The bank that the upper window shows, once it is known which one is asked for.
proof fn lemma_shown(board: Board, asked: int, addr: u16)
    requires
        board.asked_bank() == asked,
        asked <= 0x1ff,
        board.rom_banks >= 2,
        0x4000 <= addr <= 0x7fff,
    ensures
        board.bank_at(addr) == asked % board.rom_banks as int,
        asked < board.rom_banks ==> board.bank_at(addr) == asked,
{
    vstd::arithmetic::div_mod::lemma_mod_bound(asked, board.rom_banks as int);
    vstd::arithmetic::div_mod::lemma_mod_decreases(asked as nat, board.rom_banks as nat);
    if asked < board.rom_banks {
        vstd::arithmetic::div_mod::lemma_small_mod(asked as nat, board.rom_banks as nat);
    }
}

/// MBC1 with more than 32 banks: an odd write to 0x6000-0x7fff puts the bank that the two
/// upper bits name in the lower window, an even one bank 0.
#[verifier::rlimit(40)]
pub proof fn law_mbc1_mode(board: Board, b: u16, hi: u8, c: u16, mode: u8, now: u64, addr: u16)
    requires
        board.wf(),
        0x01 <= board.rom[0x147] <= 0x03,
        board.header.rom_banks > 32,
        0x4000 <= b <= 0x5fff,
        0x6000 <= c <= 0x7fff,
        addr <= 0x3fff,
    ensures
        ({
            let next = board.rom_written(b, hi, now).rom_written(c, mode, now);
            &&& mode % 2 == 0 ==> next.bank_at(addr) == 0
            &&& mode % 2 == 1 ==> next.bank_at(addr) == (hi % 4 * 32) % board.header.rom_banks
        }),
{
    reveal(Board::rom_written);
    reveal(cartridge::says);
    lemma_bank_bits(0, 0, mode);
    lemma_bank_bits(0, 0, hi);
    lemma_bank_bits(0, (hi & 0x03) as usize, 0);
    vstd::arithmetic::div_mod::lemma_mod_bound(hi % 4 * 32, board.header.rom_banks);
    vstd::arithmetic::div_mod::lemma_mod_decreases(
        (hi % 4 * 32) as nat,
        board.header.rom_banks as nat,
    );
}

/// MBC2: of the writes below 0x4000 those to an address with bit 8 set give the bank, four
/// bits of it with 1 in place of 0.
#[verifier::rlimit(40)]
pub proof fn law_mbc2(board: Board, a: u16, value: u8, now: u64, addr: u16)
    requires
        board.wf(),
        board.rom[0x147] == 0x05 || board.rom[0x147] == 0x06,
        a <= 0x3fff,
        0x4000 <= addr <= 0x7fff,
    ensures
        ({
            let asked: int = if value % 16 == 0 {
                1
            } else {
                (value % 16) as int
            };
            let next = board.rom_written(a, value, now);
            &&& a / 256 % 2 == 1 ==> next.bank_at(addr) == asked % board.header.rom_banks
            &&& a / 256 % 2 == 0 ==> next.bank_at(addr) == board.bank_at(addr)
            &&& a / 256 % 2 == 1 ==> next.ram_enabled == board.ram_enabled
            &&& a / 256 % 2 == 0 ==> next.ram_enabled == (value % 16 == 10)
        }),
{
    reveal(Board::rom_written);
    reveal(cartridge::says);
    crate::hw::bits::lemma_word(a);
    lemma_bank_bits(0, 0, value);
    lemma_bank_bits((value & 0x0f) as usize, 0, 0);
    let next = board.rom_written(a, value, now);
    if a / 256 % 2 == 1 {
        lemma_shown(next, next.asked_bank() as int, addr);
    }
}

/// MBC3: a write to 0x2000-0x3fff gives the bank, seven bits of it with 1 in place of 0.
#[verifier::rlimit(40)]
pub proof fn law_mbc3(board: Board, a: u16, value: u8, now: u64, addr: u16)
    requires
        board.wf(),
        0x0f <= board.rom[0x147] <= 0x13,
        0x2000 <= a <= 0x3fff,
        0x4000 <= addr <= 0x7fff,
    ensures
        ({
            let asked: int = if value % 128 == 0 {
                1
            } else {
                (value % 128) as int
            };
            let next = board.rom_written(a, value, now);
            &&& next.bank_at(addr) == asked % board.header.rom_banks
            &&& 1 <= value < board.header.rom_banks && value <= 0x7f ==> next.bank_at(addr) == value
        }),
{
    reveal(Board::rom_written);
    reveal(cartridge::says);
    lemma_bank_bits(0, 0, value);
    lemma_bank_bits((value & 0x7f) as usize, 0, 0);
    let next = board.rom_written(a, value, now);
    lemma_shown(next, next.asked_bank() as int, addr);
}

/// MBC5: a write to 0x2000-0x2fff gives the low eight bits of the bank and one to
/// 0x3000-0x3fff the ninth, in either order; bank 0 can be asked for like any other.
#[verifier::rlimit(40)]
pub proof fn law_mbc5(board: Board, a: u16, lo: u8, b: u16, hi: u8, now: u64, addr: u16)
    requires
        board.wf(),
        0x19 <= board.rom[0x147] <= 0x1e,
        0x2000 <= a <= 0x2fff,
        0x3000 <= b <= 0x3fff,
        0x4000 <= addr <= 0x7fff,
    ensures
        ({
            let asked = hi % 2 * 256 + lo;
            let one = board.rom_written(a, lo, now).rom_written(b, hi, now);
            let two = board.rom_written(b, hi, now).rom_written(a, lo, now);
            &&& one.bank_at(addr) == asked % board.header.rom_banks
            &&& two.bank_at(addr) == asked % board.header.rom_banks
            &&& asked < board.header.rom_banks ==> one.bank_at(addr) == asked
        }),
{
    reveal(cartridge::says);
    let one = board.rom_written(a, lo, now).rom_written(b, hi, now);
    let two = board.rom_written(b, hi, now).rom_written(a, lo, now);
    lemma_low_then_high(board, a, lo, b, hi, now);
    lemma_high_then_low(board, a, lo, b, hi, now);
    lemma_shown(one, one.asked_bank() as int, addr);
    lemma_shown(two, two.asked_bank() as int, addr);
}

proof fn lemma_low_register(lo: usize, v: u8)
    requires
        lo <= 0x1ff,
    ensures
        (lo & 0x100) | (v as usize) == lo / 256 * 256 + v,
        lo & 0x1ff == lo,
{
    lemma_register_bits(lo, 0, v as usize);
}

proof fn lemma_high_register(lo: usize, v: u8)
    requires
        lo <= 0x1ff,
    ensures
        (lo & 0xff) | (((v as usize) & 1) << 8) == lo % 256 + v % 2 * 256,
        lo & 0x1ff == lo,
{
    lemma_register_bits(lo, 0, v as usize);
}

proof fn lemma_low_then_high(board: Board, a: u16, lo: u8, b: u16, hi: u8, now: u64)
    requires
        board.kind == MbcKind::Mbc5,
        board.bank_lo <= 0x1ff,
        0x2000 <= a <= 0x2fff,
        0x3000 <= b <= 0x3fff,
    ensures
        ({
            let one = board.rom_written(a, lo, now).rom_written(b, hi, now);
            &&& one.asked_bank() == hi % 2 * 256 + lo
            &&& one.rom_banks == board.rom_banks
        }),
{
    reveal(Board::rom_written);
    let mid = board.rom_written(a, lo, now);
    lemma_low_register(board.bank_lo, lo);
    lemma_high_register(mid.bank_lo, hi);
    lemma_low_register(mid.rom_written(b, hi, now).bank_lo, 0);
}

proof fn lemma_high_then_low(board: Board, a: u16, lo: u8, b: u16, hi: u8, now: u64)
    requires
        board.kind == MbcKind::Mbc5,
        board.bank_lo <= 0x1ff,
        0x2000 <= a <= 0x2fff,
        0x3000 <= b <= 0x3fff,
    ensures
        ({
            let two = board.rom_written(b, hi, now).rom_written(a, lo, now);
            &&& two.asked_bank() == hi % 2 * 256 + lo
            &&& two.rom_banks == board.rom_banks
        }),
{
    reveal(Board::rom_written);
    let mid = board.rom_written(b, hi, now);
    lemma_high_register(board.bank_lo, hi);
    lemma_low_register(mid.bank_lo, lo);
    lemma_low_register(mid.rom_written(a, lo, now).bank_lo, 0);
}

/// Writes that choose no ROM bank leave both windows as they are: those to the RAM lock,
/// on MBC3 and MBC5 those to 0x4000 and above, and all of them without a mapper.
pub proof fn law_other_writes(board: Board, a: u16, value: u8, now: u64, addr: u16)
    requires
        board.wf(),
        addr < 0x8000,
        board.rom[0x147] != 0x05 && board.rom[0x147] != 0x06 && a <= 0x1fff || board.rom[0x147]
            >= 0x0f && a >= 0x4000 || board.rom[0x147] == 0x00 || board.rom[0x147] == 0x08
            || board.rom[0x147] == 0x09,
    ensures
        board.rom_written(a, value, now).bank_at(addr) == board.bank_at(addr),
{
    reveal(Board::rom_written);
    reveal(cartridge::says);
}

/// Which 8 KiB of RAM the window at 0xa000 shows after a write to 0x4000-0x5fff: the bank
/// that it names on MBC3, its low four bits on MBC5, its low two on MBC1 in mode 1 and the
/// first in mode 0. A byte written there is the byte of the save at that place, and no
/// other is touched.
#[verifier::rlimit(40)]
pub proof fn law_ram_bank(board: Board, b: u16, bank: u8, now: u64, addr: u16, value: u8)
    requires
        board.wf(),
        board.ram_enabled,
        board.ram.len() == board.ram_banks * 0x2000,
        0x4000 <= b <= 0x5fff,
        0xa000 <= addr <= 0xbfff,
        0x0f <= board.rom[0x147] <= 0x13 && bank < 8 || 0x19 <= board.rom[0x147] <= 0x1e || 0x01
            <= board.rom[0x147] <= 0x03,
    ensures
        ({
            let shown: int = if board.rom[0x147] >= 0x19 {
                (bank % 16) as int
            } else if board.rom[0x147] >= 0x0f {
                bank as int
            } else if board.mode == 1 {
                (bank % 4) as int
            } else {
                0
            };
            let at = shown % board.ram_banks as int * 0x2000 + (addr - 0xa000);
            let chosen = board.rom_written(b, bank, now);
            &&& chosen.ram_byte(addr) == board.ram[at]
            &&& chosen.ram_written(addr, value, now).ram == board.ram.update(at, value)
            &&& 0 <= at < board.ram.len()
        }),
{
    reveal(Board::rom_written);
    reveal(Board::ram_written);
    reveal(cartridge::says);
    lemma_bank_bits(0, 0, bank);
    let chosen = board.rom_written(b, bank, now);
    let n = board.ram_banks as int;
    let shown = chosen.ram_bank() as int;
    assert(0 <= shown < n) by {
        vstd::arithmetic::div_mod::lemma_mod_bound(chosen.bank_hi as int, n);
        vstd::arithmetic::div_mod::lemma_mod_bound(0, n);
    }
    assert(0int % n == 0) by {
        vstd::arithmetic::div_mod::lemma_small_mod(0, n as nat);
    }
    let at = shown * 0x2000 + (addr - 0xa000);
    assert(at < n * 0x2000);
    vstd::arithmetic::div_mod::lemma_small_mod(at as nat, board.ram.len() as nat);
}

/// MBC2 keeps half-bytes: what is written to any address of the window comes back in the
/// low half with ones above it, at every address 512 apart.
#[verifier::rlimit(40)]
pub proof fn law_mbc2_ram(board: Board, addr: u16, value: u8, now: u64, other: u16)
    requires
        board.wf(),
        board.rom[0x147] == 0x05 || board.rom[0x147] == 0x06,
        board.ram_enabled,
        0xa000 <= addr <= 0xbfff,
        0xa000 <= other <= 0xbfff,
    ensures
        (addr - other) % 512 == 0 ==> board.ram_written(addr, value, now).ram_byte(other) == 0xf0
            + value % 16,
        (addr - other) % 512 != 0 ==> board.ram_written(addr, value, now).ram_byte(other)
            == board.ram_byte(other),
{
    reveal(Board::ram_written);
    reveal(cartridge::says);
    crate::hw::bits::lemma_byte(value);
    crate::hw::bits::lemma_byte(value & 0x0f);
    assert(board.ram.len() == 512);
    if (addr - other) % 512 == 0 {
        assert(Board::nibble_index(addr) == Board::nibble_index(other));
    } else {
        assert(Board::nibble_index(addr) != Board::nibble_index(other));
    }
}

/// MBC3 with a clock: naming 0x08 to 0x0c in place of a RAM bank shows the latched clock
/// registers, in that order, all over the window.
pub proof fn law_clock_window(board: Board, b: u16, which: u8, now: u64, addr: u16)
    requires
        board.wf(),
        board.rom[0x147] == 0x0f || board.rom[0x147] == 0x10,
        board.ram_enabled,
        0x4000 <= b <= 0x5fff,
        0x08 <= which <= 0x0c,
        0xa000 <= addr <= 0xbfff,
    ensures
        board.rtc is Some,
        board.rom_written(b, which, now).ram_byte(addr) == board.rtc->0.latched[which - 8],
{
    reveal(Board::rom_written);
    reveal(cartridge::says);
}

/// MBC3 with a clock: writing 0 and then 1 anywhere in 0x6000-0x7fff takes the time over into
/// the registers that show, and nothing else does.
pub proof fn law_clock_latch(board: Board, a: u16, b: u16, value: u8, then: u64, now: u64)
    requires
        board.wf(),
        board.rom[0x147] == 0x0f || board.rom[0x147] == 0x10,
        0x6000 <= a <= 0x7fff,
        0x6000 <= b <= 0x7fff,
    ensures
        board.rtc is Some,
        board.rom_written(a, 0, then).rom_written(b, 1, now).rtc->0.latched
            == board.rtc->0.registers(now),
        value != 1 ==> board.rom_written(a, value, now).rtc->0.latched == board.rtc->0.latched,
{
    reveal(Board::rom_written);
    reveal(cartridge::says);
}

/// MBC3 with a clock: writing anywhere in the window while 0x08 to 0x0c is named sets that
/// register of the clock, and leaves the RAM alone.
pub proof fn law_clock_set(board: Board, b: u16, which: u8, addr: u16, value: u8, now: u64)
    requires
        board.wf(),
        board.rom[0x147] == 0x0f || board.rom[0x147] == 0x10,
        board.ram_enabled,
        0x4000 <= b <= 0x5fff,
        0x08 <= which <= 0x0b,
        0xa000 <= addr <= 0xbfff,
        which == 0x08 || which == 0x09 ==> value < 60,
        which == 0x0a ==> value < 24,
    ensures
        ({
            let next = board.rom_written(b, which, now).ram_written(addr, value, now);
            &&& next.rtc is Some
            &&& next.rtc->0.registers(now)[which - 8] == value
            &&& next.rtc->0.latched[which - 8] == value
            &&& next.ram == board.ram
        }),
{
    reveal(Board::rom_written);
    reveal(Board::ram_written);
    reveal(cartridge::says);
    crate::hw::rtc::law_written_reads_back(board.rtc->0, which, value, now);
}

/// What a save holds: the RAM from its first byte to its last, then the clock if there is
/// one. A save that is shorter than the RAM fills what it reaches and leaves the rest.
pub proof fn law_save(board: Board, data: Seq<u8>, now: u64, i: int)
    requires
        board.wf(),
        0 <= i < board.ram.len(),
    ensures
        board.saved(now)[i] == board.ram[i],
        board.rtc is None ==> board.saved(now).len() == board.ram.len(),
        board.rtc matches Some(rtc) ==> board.saved(now).skip(board.ram.len() as int) == rtc.saved(
            now,
        ),
        board.loaded(data, now).ram[i] == if i < data.len() {
            data[i]
        } else {
            board.ram[i]
        },
        !board.loaded(data, now).ram_dirty,
{
    if let Some(rtc) = board.rtc {
        assert(board.saved(now).skip(board.ram.len() as int) =~= rtc.saved(now));
    }
}

} // verus!
