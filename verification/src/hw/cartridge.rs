//! Cartridge parsing and memory bank controllers.
use vstd::prelude::*;
use crate::bytes;
use crate::hw::rtc;
use crate::hw::rtc::{Rtc, RtcState};
use crate::hw::title;
use crate::text;

verus! {

#[derive(Debug, Clone, Copy, PartialEq, Eq, Structural)]
pub enum MbcKind {
    NoMapper,
    Mbc1,
    Mbc2,
    Mbc3,
    Mbc5,
}

/// What the cartridge header says the console should be.
#[derive(Debug, Clone, Copy, PartialEq, Eq, Structural)]
pub enum CgbSupport {
    /// Monochrome only.
    Monochrome,
    /// Runs on both; colour enhancements available.
    Enhanced,
    /// Refuses to boot on a DMG.
    Required,
}

#[derive(Debug)]
pub struct CartridgeError(pub String);

impl CartridgeError {
    /// The error in words.
    pub fn message(&self) -> (text: String)
        ensures
            text@ == self.0@,
    {
        self.0.clone()
    }
}

/// Header facts a front-end may want to show or act on.
#[derive(Debug, Clone)]
pub struct CartridgeInfo {
    pub title: String,
    pub mbc: MbcKind,
    pub rom_banks: usize,
    pub ram_bytes: usize,
    pub battery: bool,
    pub rtc: bool,
    pub cgb: CgbSupport,
    pub header_checksum_ok: bool,
    pub global_checksum_ok: bool,
}

/// What a [`CartridgeInfo`] says.
pub struct Header {
    pub title: Seq<char>,
    pub mbc: MbcKind,
    pub rom_banks: int,
    pub ram_bytes: int,
    pub battery: bool,
    pub rtc: bool,
    pub cgb: CgbSupport,
    pub header_checksum_ok: bool,
    pub global_checksum_ok: bool,
}

impl View for CartridgeInfo {
    type V = Header;

    open spec fn view(&self) -> Header {
        Header {
            title: self.title@,
            mbc: self.mbc,
            rom_banks: self.rom_banks as int,
            ram_bytes: self.ram_bytes as int,
            battery: self.battery,
            rtc: self.rtc,
            cgb: self.cgb,
            header_checksum_ok: self.header_checksum_ok,
            global_checksum_ok: self.global_checksum_ok,
        }
    }
}

/// The shortest file that holds a whole header.
pub const HEADER_END: usize = 0x150;

/// The mapper, battery and clock that a cartridge type byte stands for, where it is
/// one that is supported.
pub open spec fn hardware(code: u8) -> Option<(MbcKind, bool, bool)> {
    match code {
        0x00 | 0x08 => Some((MbcKind::NoMapper, false, false)),
        0x09 => Some((MbcKind::NoMapper, true, false)),
        0x01 | 0x02 => Some((MbcKind::Mbc1, false, false)),
        0x03 => Some((MbcKind::Mbc1, true, false)),
        0x05 => Some((MbcKind::Mbc2, false, false)),
        0x06 => Some((MbcKind::Mbc2, true, false)),
        0x0f | 0x10 => Some((MbcKind::Mbc3, true, true)),
        0x11 | 0x12 => Some((MbcKind::Mbc3, false, false)),
        0x13 => Some((MbcKind::Mbc3, true, false)),
        0x19 | 0x1a | 0x1c | 0x1d => Some((MbcKind::Mbc5, false, false)),
        0x1b | 0x1e => Some((MbcKind::Mbc5, true, false)),
        _ => None,
    }
}

/// Bytes of cartridge RAM. MBC2 has 512 half-bytes on the controller itself and no
/// size byte.
pub open spec fn ram_size(kind: MbcKind, size: u8) -> int {
    if kind == MbcKind::Mbc2 {
        512
    } else {
        match size {
            0x01 => 0x800,
            0x02 => 0x2000,
            0x03 => 0x8000,
            0x04 => 0x2_0000,
            0x05 => 0x1_0000,
            _ => 0,
        }
    }
}

/// What the colour byte of the header asks for.
pub open spec fn colour(code: u8) -> CgbSupport {
    match code {
        0x80 => CgbSupport::Enhanced,
        0xc0 => CgbSupport::Required,
        _ => CgbSupport::Monochrome,
    }
}

/// Banks of 16 KiB that a file of `len` bytes fills, and never fewer than two.
pub open spec fn bank_count(len: int) -> int {
    if len <= 0x8000 {
        2
    } else {
        (len + 0x3fff) / 0x4000
    }
}

/// The sum of all bytes.
pub open spec fn total(s: Seq<u8>) -> int
    decreases s.len(),
{
    if s.len() == 0 {
        0
    } else {
        total(s.drop_last()) + s.last()
    }
}

/// The header checksum: every byte of the header's body and one more for each, counted
/// down from zero.
pub open spec fn header_sum(rom: Seq<u8>) -> int {
    (-total(rom.subrange(0x134, 0x14d)) - 25) % 256
}

/// The global checksum: every byte but its own two.
pub open spec fn global_sum(rom: Seq<u8>) -> int {
    (total(rom) - rom[0x14e] - rom[0x14f]) % 0x1_0000
}

/// What a whole header says.
pub open spec fn header_of(rom: Seq<u8>) -> Header {
    let (kind, battery, rtc) = hardware(rom[0x147])->0;
    Header {
        title: title::title_of(rom.subrange(0x134, 0x144)),
        mbc: kind,
        rom_banks: bank_count(rom.len() as int),
        ram_bytes: ram_size(kind, rom[0x149]),
        battery,
        rtc,
        cgb: colour(rom[0x143]),
        header_checksum_ok: header_sum(rom) == rom[0x14d],
        global_checksum_ok: global_sum(rom) == rom[0x14e] * 256 + rom[0x14f],
    }
}

/// What is said of a file too short for a header.
pub open spec fn short_message(len: nat) -> Seq<char> {
    "ROM is "@ + text::decimal(len) + " bytes; a Game Boy header alone needs 336"@
}

/// What is said of a cartridge type that is not supported.
pub open spec fn type_message(code: u8) -> Seq<char> {
    "unsupported cartridge type 0x"@ + text::hex(code) + " at header offset 0x147"@
}

/// Why `rom` cannot be a cartridge, if it cannot.
pub open spec fn refusal(rom: Seq<u8>) -> Option<Seq<char>> {
    if rom.len() < HEADER_END {
        Some(short_message(rom.len()))
    } else if hardware(rom[0x147]) is None {
        Some(type_message(rom[0x147]))
    } else {
        None
    }
}

/// Whether `header` is what the file `rom`, a cartridge that is supported, says of itself.
#[verifier::opaque]
pub open spec fn says(rom: Seq<u8>, header: Header) -> bool {
    refusal(rom) is None && header == header_of(rom)
}

/// Whether a cartridge can have `bytes` of RAM.
pub open spec fn sized(kind: MbcKind, bytes: int) -> bool {
    if kind == MbcKind::Mbc2 {
        bytes == 512
    } else {
        bytes == 0 || bytes == 0x800 || bytes == 0x2000 || bytes == 0x8000 || bytes == 0x1_0000
            || bytes == 0x2_0000
    }
}

pub struct Cartridge {
    pub rom: Vec<u8>,
    pub ram: Vec<u8>,
    pub kind: MbcKind,
    pub battery: bool,
    pub rom_banks: usize,
    pub ram_banks: usize,
    pub ram_enabled: bool,
    /// Low bank register: 5 bits on MBC1/2, 7 on MBC3, 9 on MBC5.
    pub bank_lo: usize,
    /// Secondary register: RAM bank / upper ROM bits / RTC register select.
    pub bank_hi: usize,
    /// MBC1 only: 0 = simple ROM banking, 1 = RAM banking / upper-ROM remap.
    pub mode: u8,
    pub rtc: Option<Rtc>,
    /// Set whenever battery-backed RAM (or the RTC) changed since the last save.
    pub ram_dirty: bool,
    pub info: CartridgeInfo,
}

/// What a [`Cartridge`] holds.
#[verifier::ext_equal]
pub struct Board {
    pub rom: Seq<u8>,
    pub ram: Seq<u8>,
    pub kind: MbcKind,
    pub battery: bool,
    pub rom_banks: usize,
    pub ram_banks: usize,
    pub ram_enabled: bool,
    pub bank_lo: usize,
    pub bank_hi: usize,
    pub mode: u8,
    pub rtc: Option<RtcState>,
    pub ram_dirty: bool,
    pub header: Header,
}

impl Board {
    /// The board as the console is switched on at `now`.
    pub open spec fn fresh(rom: Seq<u8>, now: u64) -> Board {
        let header = header_of(rom);
        Board {
            rom,
            ram: Seq::new(header.ram_bytes as nat, |i: int| 0u8),
            kind: header.mbc,
            battery: header.battery,
            rom_banks: header.rom_banks as usize,
            ram_banks: (if header.ram_bytes < 0x4000 {
                1
            } else {
                header.ram_bytes / 0x2000
            }) as usize,
            ram_enabled: false,
            bank_lo: 1,
            bank_hi: 0,
            mode: 0,
            rtc: if header.rtc {
                Some(RtcState::started(now))
            } else {
                None
            },
            ram_dirty: false,
            header,
        }
    }

    /// What every board keeps to.
    pub open spec fn wf(self) -> bool {
        &&& says(self.rom, self.header)
        &&& self.ram.len() == self.header.ram_bytes
        &&& self.battery == self.header.battery
        &&& self.rtc is Some == self.header.rtc
        &&& self.rom_banks == bank_count(self.rom.len() as int)
        &&& 1 <= self.ram_banks <= 0x10
        &&& sized(self.kind, self.ram.len() as int)
        &&& self.bank_lo <= 0x1ff
        &&& self.bank_hi <= 0xff
        &&& self.kind == MbcKind::Mbc1 ==> self.bank_hi <= 3
        &&& self.header.mbc == self.kind
        &&& self.header.rom_banks == self.rom_banks
        &&& self.rtc matches Some(rtc) ==> rtc.latched.len() == 5
    }

    /// ROM bank mapped at 0x0000-0x3FFF. Only MBC1 mode 1 moves it off zero, and only on
    /// a cartridge big enough for the high bank bits to mean something.
    pub open spec fn lower_bank(self) -> usize {
        if self.kind == MbcKind::Mbc1 && self.mode == 1 && self.rom_banks > 32 {
            (self.bank_hi << 5) % self.rom_banks
        } else {
            0
        }
    }

    /// The bank that the registers ask for at 0x4000-0x7FFF.
    pub open spec fn asked_bank(self) -> usize {
        match self.kind {
            MbcKind::NoMapper => 1,
            MbcKind::Mbc1 => (self.bank_hi << 5) | at_least_one(self.bank_lo & 0x1f),
            MbcKind::Mbc2 => at_least_one(self.bank_lo & 0x0f),
            MbcKind::Mbc3 => at_least_one(self.bank_lo & 0x7f),
            MbcKind::Mbc5 => self.bank_lo & 0x1ff,
        }
    }

    /// ROM bank mapped at 0x4000-0x7FFF.
    pub open spec fn upper_bank(self) -> usize {
        self.asked_bank() % self.rom_banks
    }

    /// Which ROM bank is visible at `addr`.
    pub open spec fn bank_at(self, addr: u16) -> u16 {
        if addr <= 0x3fff {
            self.lower_bank() as u16
        } else {
            self.upper_bank() as u16
        }
    }

    /// The byte that the ROM window shows at `addr`; beyond the end of the file, 0xff.
    pub open spec fn rom_byte(self, addr: u16) -> u8 {
        let at = if addr <= 0x3fff {
            self.lower_bank() * 0x4000 + addr
        } else {
            self.upper_bank() * 0x4000 + (addr - 0x4000)
        };
        if at < self.rom.len() {
            self.rom[at]
        } else {
            0xff
        }
    }

    /// The effect of writing to the mapper's registers.
    #[verifier::opaque]
    pub open spec fn rom_written(self, addr: u16, value: u8, now: u64) -> Board {
        let enabled = value & 0x0f == 0x0a;
        match self.kind {
            MbcKind::NoMapper => self,
            MbcKind::Mbc1 => if addr <= 0x1fff {
                Board { ram_enabled: enabled, ..self }
            } else if addr <= 0x3fff {
                Board { bank_lo: (value & 0x1f) as usize, ..self }
            } else if addr <= 0x5fff {
                Board { bank_hi: (value & 0x03) as usize, ..self }
            } else if addr <= 0x7fff {
                Board { mode: value & 1, ..self }
            } else {
                self
            },
            // Address bit 8 picks which register the write lands in.
            MbcKind::Mbc2 => if addr >= 0x4000 {
                self
            } else if addr & 0x0100 == 0 {
                Board { ram_enabled: enabled, ..self }
            } else {
                Board { bank_lo: (value & 0x0f) as usize, ..self }
            },
            MbcKind::Mbc3 => if addr <= 0x1fff {
                Board { ram_enabled: enabled, ..self }
            } else if addr <= 0x3fff {
                Board { bank_lo: (value & 0x7f) as usize, ..self }
            } else if addr <= 0x5fff {
                Board { bank_hi: value as usize, ..self }
            } else if addr <= 0x7fff && self.rtc is Some {
                Board { rtc: Some(self.rtc->0.latch_written(value, now)), ..self }
            } else {
                self
            },
            MbcKind::Mbc5 => if addr <= 0x1fff {
                Board { ram_enabled: enabled, ..self }
            } else if addr <= 0x2fff {
                Board { bank_lo: (self.bank_lo & 0x100) | value as usize, ..self }
            } else if addr <= 0x3fff {
                Board {
                    bank_lo: (self.bank_lo & 0xff) | ((value as usize & 1) << 8),
                    ..self
                }
            } else if addr <= 0x5fff {
                Board { bank_hi: (value & 0x0f) as usize, ..self }
            } else {
                self
            },
        }
    }

    /// Whether the RAM window shows a clock register.
    pub open spec fn shows_clock(self) -> bool {
        self.kind == MbcKind::Mbc3 && 0x08 <= self.bank_hi <= 0x0c
    }

    /// The RAM bank mapped at 0xA000-0xBFFF.
    pub open spec fn ram_bank(self) -> usize {
        match self.kind {
            MbcKind::NoMapper => 0,
            MbcKind::Mbc1 => if self.mode == 1 {
                self.bank_hi % self.ram_banks
            } else {
                0
            },
            _ => self.bank_hi % self.ram_banks,
        }
    }

    /// Where in the cartridge RAM `addr` lands. Memory smaller than the window repeats
    /// through it.
    pub open spec fn ram_index(self, addr: u16) -> int {
        (self.ram_bank() * 0x2000 + (addr - 0xa000)) % self.ram.len() as int
    }

    /// Where in MBC2's 512 half-bytes `addr` lands: they echo through the whole window.
    pub open spec fn nibble_index(addr: u16) -> int {
        (addr - 0xa000) % 512
    }

    /// The byte that the RAM window shows at `addr`.
    pub open spec fn ram_byte(self, addr: u16) -> u8 {
        if !self.ram_enabled {
            0xff
        } else if self.kind == MbcKind::Mbc2 {
            0xf0 | (self.ram[Self::nibble_index(addr)] & 0x0f)
        } else if self.shows_clock() && self.rtc is Some {
            self.rtc->0.latched[self.bank_hi - 0x08]
        } else if self.ram.len() == 0 {
            0xff
        } else {
            self.ram[self.ram_index(addr)]
        }
    }

    /// The effect of writing to the RAM window.
    #[verifier::opaque]
    pub open spec fn ram_written(self, addr: u16, value: u8, now: u64) -> Board {
        if !self.ram_enabled {
            self
        } else if self.kind == MbcKind::Mbc2 {
            Board {
                ram: self.ram.update(Self::nibble_index(addr), value & 0x0f),
                ram_dirty: true,
                ..self
            }
        } else if self.shows_clock() {
            if self.rtc is Some {
                Board {
                    rtc: Some(self.rtc->0.written(self.bank_hi as u8, value, now)),
                    ram_dirty: true,
                    ..self
                }
            } else {
                self
            }
        } else if self.ram.len() == 0 {
            self
        } else {
            Board { ram: self.ram.update(self.ram_index(addr), value), ram_dirty: true, ..self }
        }
    }

    /// Without a clock, it does not matter when a register or the RAM is written.
    pub proof fn lemma_clockless(self, addr: u16, value: u8, now: u64, later: u64)
        requires
            self.rtc is None,
        ensures
            self.rom_written(addr, value, now) == self.rom_written(addr, value, later),
            self.ram_written(addr, value, now) == self.ram_written(addr, value, later),
            self.rom_written(addr, value, now).rtc is None,
            self.ram_written(addr, value, now).rtc is None,
    {
        reveal(Board::rom_written);
        reveal(Board::ram_written);
    }

    /// What is kept across power cycles: the RAM, then the clock.
    pub open spec fn saved(self, now: u64) -> Seq<u8> {
        match self.rtc {
            Some(rtc) => self.ram + rtc.saved(now),
            None => self.ram,
        }
    }

    /// The board with saved contents in place: as much of the RAM as there is data for,
    /// and the clock where the data holds one.
    pub open spec fn loaded(self, data: Seq<u8>, now: u64) -> Board {
        let size = self.ram.len() as int;
        Board {
            ram: if data.len() >= size {
                data.take(size)
            } else {
                data + self.ram.skip(data.len() as int)
            },
            rtc: match self.rtc {
                Some(rtc) => if data.len() >= size + rtc::SAVE_LEN {
                    Some(rtc.restored(data.skip(size), now))
                } else {
                    Some(rtc)
                },
                None => None,
            },
            ram_dirty: false,
            ..self
        }
    }
}

/// `bank`, but never bank zero.
#[verifier::allow_in_spec]
pub fn at_least_one(bank: usize) -> usize
    returns
        (if bank == 0 {
            1usize
        } else {
            bank
        }),
{
    if bank == 0 {
        1
    } else {
        bank
    }
}

impl View for Cartridge {
    type V = Board;

    closed spec fn view(&self) -> Board {
        Board {
            rom: self.rom@,
            ram: self.ram@,
            kind: self.kind,
            battery: self.battery,
            rom_banks: self.rom_banks,
            ram_banks: self.ram_banks,
            ram_enabled: self.ram_enabled,
            bank_lo: self.bank_lo,
            bank_hi: self.bank_hi,
            mode: self.mode,
            rtc: match self.rtc {
                Some(rtc) => Some(rtc@),
                None => None,
            },
            ram_dirty: self.ram_dirty,
            header: self.info@,
        }
    }
}

proof fn lemma_register_bits(lo: usize, value: usize, byte: u8)
    by (bit_vector)
    requires
        value <= 0xff,
    ensures
        byte & 0x03 <= 3,
        ((lo & 0x100) | value) <= 0x1ff,
        ((lo & 0xff) | ((value & 1) << 8)) <= 0x1ff,
{
}

proof fn lemma_total_take(s: Seq<u8>, i: int)
    requires
        0 <= i < s.len(),
    ensures
        total(s.take(i + 1)) == total(s.take(i)) + s[i],
{
    assert(s.take(i + 1).drop_last() =~= s.take(i));
}

fn header_checksum(rom: &Vec<u8>) -> (sum: u8)
    requires
        rom@.len() >= HEADER_END,
    ensures
        sum == header_sum(rom@),
{
    let ghost body = rom@.subrange(0x134, 0x14d);
    let mut sum: u8 = 0;
    for i in 0x134..0x14dusize
        invariant
            rom@.len() >= HEADER_END,
            body == rom@.subrange(0x134, 0x14d),
            sum == (-total(body.take(i - 0x134)) - (i - 0x134)) % 256,
    {
        proof {
            lemma_total_take(body, i - 0x134);
        }
        sum = sum.wrapping_sub(rom[i]).wrapping_sub(1);
    }
    assert(body.take(25) =~= body);
    sum
}

fn global_checksum(rom: &Vec<u8>) -> (sum: u16)
    requires
        rom@.len() >= HEADER_END,
    ensures
        sum == global_sum(rom@),
{
    let mut sum: u16 = 0;
    for i in 0..rom.len()
        invariant
            rom@.len() >= HEADER_END,
            sum == (total(rom@.take(i as int)) - (if i > 0x14e {
                rom@[0x14e] as int
            } else {
                0
            }) - (if i > 0x14f {
                rom@[0x14f] as int
            } else {
                0
            })) % 0x1_0000,
    {
        proof {
            lemma_total_take(rom@, i as int);
        }
        if i != 0x14e && i != 0x14f {
            sum = sum.wrapping_add(rom[i] as u16);
        }
    }
    assert(rom@.take(rom@.len() as int) =~= rom@);
    sum
}

fn hardware_of(code: u8) -> (found: Option<(MbcKind, bool, bool)>)
    ensures
        found == hardware(code),
{
    match code {
        0x00 | 0x08 => Some((MbcKind::NoMapper, false, false)),
        0x09 => Some((MbcKind::NoMapper, true, false)),
        0x01 | 0x02 => Some((MbcKind::Mbc1, false, false)),
        0x03 => Some((MbcKind::Mbc1, true, false)),
        0x05 => Some((MbcKind::Mbc2, false, false)),
        0x06 => Some((MbcKind::Mbc2, true, false)),
        0x0f | 0x10 => Some((MbcKind::Mbc3, true, true)),
        0x11 | 0x12 => Some((MbcKind::Mbc3, false, false)),
        0x13 => Some((MbcKind::Mbc3, true, false)),
        0x19 | 0x1a | 0x1c | 0x1d => Some((MbcKind::Mbc5, false, false)),
        0x1b | 0x1e => Some((MbcKind::Mbc5, true, false)),
        _ => None,
    }
}

impl Cartridge {
    /// The invariant of the type: what every board keeps to.
    pub closed spec fn wf(self) -> bool {
        self@.wf()
    }

    pub proof fn lemma_wf(self)
        ensures
            self.wf() == self@.wf(),
    {
    }

    /// The field that callers look at is what the view says.
    pub proof fn lemma_fields(self)
        ensures
            self@.ram_dirty == self.ram_dirty,
    {
    }

    /// Reads the header of `rom` and powers the cartridge up, at the moment the host
    /// clock says.
    pub fn new(rom: Vec<u8>) -> (result: Result<Self, CartridgeError>)
        ensures
            match result {
                Ok(cart) => {
                    &&& refusal(rom@) is None
                    &&& cart.wf()
                    &&& exists|now: u64|
                        rtc::host_second(now) && cart@ == #[trigger] Board::fresh(rom@, now)
                },
                Err(e) => refusal(rom@) == Some(e.0@),
            },
    {
        Self::new_at(rom, rtc::now_secs())
    }

    /// Reads the header of `rom` and powers the cartridge up at `now`.
    pub fn new_at(rom: Vec<u8>, now: u64) -> (result: Result<Self, CartridgeError>)
        ensures
            match result {
                Ok(cart) => {
                    &&& refusal(rom@) is None
                    &&& cart.wf()
                    &&& cart@ == Board::fresh(rom@, now)
                },
                Err(e) => refusal(rom@) == Some(e.0@),
            },
    {
        if rom.len() < HEADER_END {
            let mut message = String::from_str("ROM is ");
            text::push_decimal(&mut message, rom.len());
            message.append(" bytes; a Game Boy header alone needs 336");
            return Err(CartridgeError(message));
        }
        let code: u8 = rom[0x147];
        let (kind, battery, rtc) = match hardware_of(code) {
            Some(found) => found,
            None => {
                let mut message = String::from_str("unsupported cartridge type 0x");
                text::push_hex(&mut message, code);
                message.append(" at header offset 0x147");
                return Err(CartridgeError(message));
            },
        };

        // The header's ROM-size byte is advisory; the file decides.
        let rom_banks: usize = if rom.len() <= 0x8000 {
            2
        } else {
            (rom.len() - 1) / 0x4000 + 1
        };

        let ram_bytes: usize = match kind {
            // MBC2 has 512 half-bytes on the controller itself and no size byte.
            MbcKind::Mbc2 => 512,
            _ => match rom[0x149] {
                0x01 => 0x800,
                0x02 => 0x2000,
                0x03 => 0x8000,
                0x04 => 0x2_0000,
                0x05 => 0x1_0000,
                _ => 0,
            },
        };
        let ram_banks: usize = if ram_bytes < 0x4000 {
            1
        } else {
            ram_bytes / 0x2000
        };

        let title = title::read_title(vstd::slice::slice_subrange(rom.as_slice(), 0x134, 0x144));
        let cgb = match rom[0x143] {
            0x80 => CgbSupport::Enhanced,
            0xc0 => CgbSupport::Required,
            _ => CgbSupport::Monochrome,
        };
        let header_checksum_ok = header_checksum(&rom) == rom[0x14d];
        let global_checksum_ok = global_checksum(&rom) == rom[0x14e] as u16 * 256
            + rom[0x14f] as u16;

        let info = CartridgeInfo {
            title,
            mbc: kind,
            rom_banks,
            ram_bytes,
            battery,
            rtc,
            cgb,
            header_checksum_ok,
            global_checksum_ok,
        };
        let cart = Cartridge {
            rom,
            ram: vec![0; ram_bytes],
            kind,
            battery,
            rom_banks,
            ram_banks,
            ram_enabled: false,
            bank_lo: 1,
            bank_hi: 0,
            mode: 0,
            rtc: if rtc {
                Some(Rtc::new(now))
            } else {
                None
            },
            ram_dirty: false,
            info,
        };
        assert(cart@ =~= Board::fresh(cart.rom@, now));
        proof {
            reveal(says);
        }
        Ok(cart)
    }

    pub fn info(&self) -> (info: &CartridgeInfo)
        ensures
            info@ == self@.header,
    {
        &self.info
    }

    pub fn cgb_support(&self) -> (cgb: CgbSupport)
        ensures
            cgb == self@.header.cgb,
    {
        self.info.cgb
    }

    pub fn has_battery(&self) -> (yes: bool)
        ensures
            yes == self@.battery,
    {
        self.battery
    }

    /// Whether battery-backed contents changed since they were last saved.
    pub fn is_dirty(&self) -> (yes: bool)
        ensures
            yes == self@.ram_dirty,
    {
        self.ram_dirty
    }

    /// Battery-backed contents have been saved.
    pub fn set_clean(&mut self)
        requires
            old(self).wf(),
        ensures
            final(self).wf(),
            final(self)@ == (Board { ram_dirty: false, ..old(self)@ }),
    {
        self.ram_dirty = false;
    }

    /// Whether the cartridge holds a clock, and so depends on the host's.
    pub fn has_clock(&self) -> (yes: bool)
        ensures
            yes == (self@.rtc is Some),
    {
        self.rtc.is_some()
    }

    /// Battery-backed contents, in the layout `load_save` expects.
    pub fn save_data(&self) -> (data: Vec<u8>)
        ensures
            exists|now: u64| rtc::host_second(now) && data@ == #[trigger] self@.saved(now),
    {
        self.save_data_at(rtc::now_secs())
    }

    /// Battery-backed contents as they are at `now`.
    pub fn save_data_at(&self, now: u64) -> (data: Vec<u8>)
        ensures
            data@ == self@.saved(now),
    {
        let mut out: Vec<u8> = Vec::new();
        bytes::push_all(&mut out, self.ram.as_slice());
        if let Some(rtc) = &self.rtc {
            let tail = rtc.serialize(now);
            bytes::push_all(&mut out, tail.as_slice());
        }
        assert(out@ =~= self@.saved(now));
        out
    }

    pub fn load_save(&mut self, data: &[u8])
        requires
            old(self).wf(),
        ensures
            final(self).wf(),
            exists|now: u64|
                rtc::host_second(now) && final(self)@ == #[trigger] old(self)@.loaded(data@, now),
    {
        self.load_save_at(data, rtc::now_secs())
    }

    /// Puts saved contents in place, at `now`.
    pub fn load_save_at(&mut self, data: &[u8], now: u64)
        requires
            old(self).wf(),
        ensures
            final(self).wf(),
            final(self)@ == old(self)@.loaded(data@, now),
    {
        let size: usize = self.ram.len();
        let n: usize = if size <= data.len() {
            size
        } else {
            data.len()
        };
        for i in 0..n
            invariant
                n <= size,
                n <= data@.len(),
                self.ram@.len() == size,
                old(self).ram@.len() == size,
                self.ram@ == data@.take(i as int) + old(self).ram@.skip(i as int),
                self@ == (Board { ram: self.ram@, ..old(self)@ }),
        {
            self.ram[i] = data[i];
            assert(self.ram@ =~= data@.take(i + 1) + old(self).ram@.skip(i + 1));
        }
        if data.len() >= size && data.len() - size >= rtc::SAVE_LEN {
            assert(data@.skip(size as int) =~= data@.subrange(size as int, data@.len() as int));
            if let Some(rtc) = &mut self.rtc {
                rtc.deserialize(vstd::slice::slice_subrange(data, size, data.len()), now);
            }
        }
        self.ram_dirty = false;
        assert(self@ =~= old(self)@.loaded(data@, now));
    }

    fn lower_bank(&self) -> (bank: usize)
        requires
            self.wf(),
        ensures
            bank == self@.lower_bank(),
    {
        if self.kind == MbcKind::Mbc1 && self.mode == 1 && self.rom_banks > 32 {
            (self.bank_hi << 5) % self.rom_banks
        } else {
            0
        }
    }

    fn upper_bank(&self) -> (bank: usize)
        requires
            self.wf(),
        ensures
            bank == self@.upper_bank(),
    {
        let bank: usize = match self.kind {
            MbcKind::NoMapper => 1,
            MbcKind::Mbc1 => (self.bank_hi << 5) | at_least_one(self.bank_lo & 0x1f),
            MbcKind::Mbc2 => at_least_one(self.bank_lo & 0x0f),
            MbcKind::Mbc3 => at_least_one(self.bank_lo & 0x7f),
            MbcKind::Mbc5 => self.bank_lo & 0x1ff,
        };
        bank % self.rom_banks
    }

    /// Which ROM bank is currently visible at `addr`. Recompiled blocks are keyed
    /// on this, since the same address holds different code in different banks.
    pub fn bank_at(&self, addr: u16) -> (bank: u16)
        requires
            self.wf(),
        ensures
            bank == self@.bank_at(addr),
    {
        if addr <= 0x3fff {
            self.lower_bank() as u16
        } else {
            self.upper_bank() as u16
        }
    }

    pub fn read_rom(&self, addr: u16) -> (value: u8)
        requires
            self.wf(),
        ensures
            value == self@.rom_byte(addr),
    {
        let (bank, off): (usize, usize) = if addr <= 0x3fff {
            (self.lower_bank(), addr as usize)
        } else {
            (self.upper_bank(), (addr - 0x4000) as usize)
        };
        let len: usize = self.rom.len();
        assert(bank * 0x4000 <= (self.rom_banks - 1) * 0x4000 <= (if len <= 0x8000 {
            0x4000
        } else {
            len as int
        }));
        let base: usize = bank * 0x4000;
        if base >= len || off >= len - base {
            0xff
        } else {
            self.rom[base + off]
        }
    }

    pub fn write_rom(&mut self, addr: u16, value: u8)
        requires
            old(self).wf(),
        ensures
            final(self).wf(),
            exists|now: u64|
                rtc::host_second(now) && final(self)@ == #[trigger] old(self)@.rom_written(
                    addr,
                    value,
                    now,
                ),
    {
        let now: u64 = if self.has_clock() {
            rtc::now_secs()
        } else {
            0
        };
        proof {
            if self@.rtc is None {
                let shown = rtc::lemma_some_second();
                self@.lemma_clockless(addr, value, now, shown);
            }
        }
        self.write_rom_at(addr, value, now)
    }

    /// Writes to the mapper's registers, at `now`.
    pub fn write_rom_at(&mut self, addr: u16, value: u8, now: u64)
        requires
            old(self).wf(),
        ensures
            final(self).wf(),
            final(self)@ == old(self)@.rom_written(addr, value, now),
    {
        reveal(Board::rom_written);
        let enabled = value & 0x0f == 0x0a;
        proof {
            lemma_register_bits(self.bank_lo, value as usize, value);
        }
        match self.kind {
            MbcKind::NoMapper => {},
            MbcKind::Mbc1 => {
                if addr <= 0x1fff {
                    self.ram_enabled = enabled;
                } else if addr <= 0x3fff {
                    self.bank_lo = (value & 0x1f) as usize;
                } else if addr <= 0x5fff {
                    self.bank_hi = (value & 0x03) as usize;
                } else if addr <= 0x7fff {
                    self.mode = value & 1;
                }
            },
            MbcKind::Mbc2 => {
                // Address bit 8 picks which register the write lands in.
                if addr < 0x4000 {
                    if addr & 0x0100 == 0 {
                        self.ram_enabled = enabled;
                    } else {
                        self.bank_lo = (value & 0x0f) as usize;
                    }
                }
            },
            MbcKind::Mbc3 => {
                if addr <= 0x1fff {
                    self.ram_enabled = enabled;
                } else if addr <= 0x3fff {
                    self.bank_lo = (value & 0x7f) as usize;
                } else if addr <= 0x5fff {
                    self.bank_hi = value as usize;
                } else if addr <= 0x7fff {
                    if let Some(rtc) = &mut self.rtc {
                        rtc.write_latch(value, now);
                    }
                }
            },
            MbcKind::Mbc5 => {
                if addr <= 0x1fff {
                    self.ram_enabled = enabled;
                } else if addr <= 0x2fff {
                    self.bank_lo = (self.bank_lo & 0x100) | value as usize;
                } else if addr <= 0x3fff {
                    self.bank_lo = (self.bank_lo & 0xff) | ((value as usize & 1) << 8);
                } else if addr <= 0x5fff {
                    self.bank_hi = (value & 0x0f) as usize;
                }
            },
        }
        assert(self@ =~= old(self)@.rom_written(addr, value, now));
    }

    fn ram_bank(&self) -> (bank: usize)
        requires
            self.wf(),
        ensures
            bank == self@.ram_bank(),
            bank < 0x10,
    {
        match self.kind {
            MbcKind::NoMapper => 0,
            MbcKind::Mbc1 => {
                if self.mode == 1 {
                    self.bank_hi % self.ram_banks
                } else {
                    0
                }
            },
            _ => self.bank_hi % self.ram_banks,
        }
    }

    pub fn read_ram(&self, addr: u16) -> (value: u8)
        requires
            self.wf(),
            self@.ram_enabled ==> addr >= 0xa000,
        ensures
            value == self@.ram_byte(addr),
    {
        if !self.ram_enabled {
            return 0xff;
        }
        let off: usize = (addr - 0xa000) as usize;
        if self.kind == MbcKind::Mbc2 {
            // 512 x 4 bits, echoed through the whole A000-BFFF window.
            return 0xf0 | (self.ram[off % 512] & 0x0f);
        }
        if self.kind == MbcKind::Mbc3 && 0x08 <= self.bank_hi && self.bank_hi <= 0x0c {
            if let Some(rtc) = &self.rtc {
                return rtc.read(self.bank_hi as u8);
            }
        }
        if self.ram.len() == 0 {
            return 0xff;
        }
        let bank: usize = self.ram_bank();
        self.ram[(bank * 0x2000 + off) % self.ram.len()]
    }

    pub fn write_ram(&mut self, addr: u16, value: u8)
        requires
            old(self).wf(),
            old(self)@.ram_enabled ==> addr >= 0xa000,
        ensures
            final(self).wf(),
            exists|now: u64|
                rtc::host_second(now) && final(self)@ == #[trigger] old(self)@.ram_written(
                    addr,
                    value,
                    now,
                ),
    {
        let now: u64 = if self.has_clock() {
            rtc::now_secs()
        } else {
            0
        };
        proof {
            if self@.rtc is None {
                let shown = rtc::lemma_some_second();
                self@.lemma_clockless(addr, value, now, shown);
            }
        }
        self.write_ram_at(addr, value, now)
    }

    /// Writes to the RAM window, at `now`.
    pub fn write_ram_at(&mut self, addr: u16, value: u8, now: u64)
        requires
            old(self).wf(),
            old(self)@.ram_enabled ==> addr >= 0xa000,
        ensures
            final(self).wf(),
            final(self)@ == old(self)@.ram_written(addr, value, now),
    {
        reveal(Board::ram_written);
        if !self.ram_enabled {
            return ;
        }
        let off: usize = (addr - 0xa000) as usize;
        if self.kind == MbcKind::Mbc2 {
            self.ram[off % 512] = value & 0x0f;
            self.ram_dirty = true;
            return ;
        }
        if self.kind == MbcKind::Mbc3 && 0x08 <= self.bank_hi && self.bank_hi <= 0x0c {
            let reg: u8 = self.bank_hi as u8;
            if let Some(rtc) = &mut self.rtc {
                rtc.write(reg, value, now);
                self.ram_dirty = true;
            }
            return ;
        }
        if self.ram.len() == 0 {
            return ;
        }
        let bank: usize = self.ram_bank();
        let len: usize = self.ram.len();
        self.ram[(bank * 0x2000 + off) % len] = value;
        self.ram_dirty = true;
    }
}

/// A save survives: loaded into a cartridge of the same make it brings back the RAM, and
/// a fresh load is not unsaved work. The clock comes back as saving and restoring it
/// says.
pub proof fn law_save_survives(from: Board, into: Board, now: u64, later: u64)
    requires
        from.wf(),
        into.wf(),
        from.header.ram_bytes == into.header.ram_bytes,
        from.header.rtc == into.header.rtc,
    ensures
        ({
            let back = into.loaded(from.saved(now), later);
            &&& back.ram == from.ram
            &&& !back.ram_dirty
            &&& from.rtc matches Some(rtc) ==> back.rtc == Some(
                into.rtc->0.restored(rtc.saved(now), later),
            )
        }),
{
    let data = from.saved(now);
    let size = from.ram.len() as int;
    assert(data.take(size) =~= from.ram);
    if let Some(rtc) = from.rtc {
        assert(data.skip(size) =~= rtc.saved(now));
    }
}

/// A save is as long as the header says: the RAM, and the clock where there is one.
pub proof fn law_save_length(board: Board, now: u64)
    requires
        board.wf(),
        board.rtc matches Some(rtc) ==> rtc.latched.len() == 5,
    ensures
        board.saved(now).len() == board.header.ram_bytes + (if board.header.rtc {
            rtc::STAMPED_LEN as int
        } else {
            0
        }),
{
}

/// Two addresses of a window land on different bytes of memory that fills it.
pub proof fn lemma_window(bank: int, i: int, j: int, size: int)
    requires
        0 <= bank,
        0 <= i < 0x2000,
        0 <= j < 0x2000,
        i != j,
        size > 0,
        size % 0x2000 == 0,
    ensures
        (bank * 0x2000 + i) % size != (bank * 0x2000 + j) % size,
{
    let a = bank * 0x2000 + i;
    let b = bank * 0x2000 + j;
    if a % size == b % size {
        let n = size / 0x2000;
        assert(size == n * 0x2000);
        let qa = a / size;
        let qb = b / size;
        vstd::arithmetic::div_mod::lemma_fundamental_div_mod(a, size);
        vstd::arithmetic::div_mod::lemma_fundamental_div_mod(b, size);
        assert(i - j == 0x2000 * (n * (qa - qb))) by (nonlinear_arith)
            requires
                a == bank * 0x2000 + i,
                b == bank * 0x2000 + j,
                a == size * qa + a % size,
                b == size * qb + b % size,
                a % size == b % size,
                size == n * 0x2000,
        ;
        assert(n * (qa - qb) == 0);
    }
}

/// Unlocked cartridge RAM reads back what was written to it, and the write counts as
/// unsaved work. Nothing changes at an address of the window that lands on another byte,
/// and RAM of 8 KiB or more has a byte for every address.
pub proof fn law_ram_reads_back(board: Board, addr: u16, value: u8, now: u64)
    requires
        board.wf(),
        board.ram_enabled,
        0xa000 <= addr <= 0xbfff,
        board.kind != MbcKind::Mbc2,
        !board.shows_clock(),
        board.ram.len() > 0,
    ensures
        board.ram_written(addr, value, now).ram_byte(addr) == value,
        board.ram_written(addr, value, now).ram_dirty,
        forall|other: u16|
            0xa000 <= other <= 0xbfff && board.ram_index(other) != board.ram_index(addr)
                ==> #[trigger] board.ram_written(addr, value, now).ram_byte(other)
                == board.ram_byte(other),
        board.header.ram_bytes >= 0x2000 ==> forall|other: u16|
            0xa000 <= other <= 0xbfff && other != addr ==> #[trigger] board.ram_written(
                addr,
                value,
                now,
            ).ram_byte(other) == board.ram_byte(other),
{
    reveal(Board::ram_written);
    let len = board.ram.len() as int;
    let bank = board.ram_bank() * 0x2000;
    assert forall|other: u16| 0xa000 <= other <= 0xbfff implies 0 <= #[trigger] board.ram_index(
        other,
    ) < len by {
        vstd::arithmetic::div_mod::lemma_mod_bound(bank + (other - 0xa000), len);
    }
    assert(0 <= board.ram_index(addr) < len);
    if len >= 0x2000 {
        assert forall|other: u16|
            0xa000 <= other <= 0xbfff && other != addr implies #[trigger] board.ram_index(other)
            != board.ram_index(addr) by {
            lemma_window(board.ram_bank() as int, other - 0xa000, addr - 0xa000, len);
        }
        assert forall|other: u16|
            0xa000 <= other <= 0xbfff && other != addr implies #[trigger] board.ram_written(
            addr,
            value,
            now,
        ).ram_byte(other) == board.ram_byte(other) by {
            assert(board.ram_index(other) != board.ram_index(addr));
        }
    }
}

/// Locked cartridge RAM, as it is when the console is switched on, reads as 0xff and
/// ignores writes.
pub proof fn law_locked_ram(board: Board, addr: u16, value: u8, now: u64)
    requires
        !board.ram_enabled,
    ensures
        board.ram_byte(addr) == 0xff,
        board.ram_written(addr, value, now) == board,
        !Board::fresh(board.rom, now).ram_enabled,
{
    reveal(Board::ram_written);
}

/// The RAM is unlocked while the last write to the lock register had 0xa in its low half,
/// and MBC1 remaps the lower window while the last write to its mode register was odd.
/// Nothing else moves either.
pub proof fn law_lock_and_mode(board: Board, addr: u16, value: u8, now: u64, data: Seq<u8>)
    requires
        board.wf(),
    ensures
        ({
            let next = board.rom_written(addr, value, now);
            let locks = match board.header.mbc {
                MbcKind::NoMapper => false,
                MbcKind::Mbc2 => addr <= 0x3fff && addr & 0x0100 == 0,
                _ => addr <= 0x1fff,
            };
            let modes = board.header.mbc == MbcKind::Mbc1 && 0x6000 <= addr <= 0x7fff;
            &&& next.ram_enabled == if locks {
                value & 0x0f == 0x0a
            } else {
                board.ram_enabled
            }
            &&& next.mode == if modes {
                value & 1
            } else {
                board.mode
            }
            &&& board.ram_written(addr, value, now).ram_enabled == board.ram_enabled
            &&& board.ram_written(addr, value, now).mode == board.mode
            &&& board.loaded(data, now).ram_enabled == board.ram_enabled
            &&& board.loaded(data, now).mode == board.mode
            &&& Board::fresh(board.rom, now).mode == 0
        }),
{
    reveal(Board::rom_written);
    reveal(Board::ram_written);
}

/// A cartridge is what its header says for as long as it lasts: no write and no save that
/// is loaded changes the ROM, the header, the battery or how much RAM there is.
pub proof fn law_make_stays(board: Board, addr: u16, value: u8, now: u64, data: Seq<u8>)
    requires
        board.wf(),
    ensures
        ({
            let a = board.rom_written(addr, value, now);
            let b = board.ram_written(addr, value, now);
            let c = board.loaded(data, now);
            &&& a.rom == board.rom && a.header == board.header && a.battery == board.battery
                && a.ram.len() == board.ram.len()
            &&& b.rom == board.rom && b.header == board.header && b.battery == board.battery
                && b.ram.len() == board.ram.len()
            &&& c.rom == board.rom && c.header == board.header && c.battery == board.battery
                && c.ram.len() == board.ram.len()
        }),
{
    reveal(Board::rom_written);
    reveal(Board::ram_written);
}

/// A cartridge has a battery exactly when its type byte says so.
pub proof fn law_battery(board: Board)
    requires
        board.wf(),
    ensures
        board.header == header_of(board.rom),
        board.battery == board.header.battery,
        board.battery <==> ({
            let code = board.rom[0x147];
            code == 0x03 || code == 0x06 || code == 0x09 || code == 0x0f || code == 0x10 || code
                == 0x13 || code == 0x1b || code == 0x1e
        }),
{
    reveal(says);
}

/// The bank that an address shows is one that the file has. Below 0x4000 it is bank zero
/// but for a large MBC1 with its mode register set, and without a mapper the other window shows
/// bank one.
pub proof fn law_bank_at(board: Board, addr: u16)
    requires
        board.wf(),
        addr < 0x8000,
    ensures
        board.bank_at(addr) < board.header.rom_banks,
        addr < 0x4000 && board.bank_at(addr) != 0 ==> board.header.mbc == MbcKind::Mbc1
            && board.mode == 1 && board.header.rom_banks > 32,
        addr >= 0x4000 && board.header.mbc == MbcKind::NoMapper ==> board.bank_at(addr) == 1,
{
    law_bank_fits_its_key(board);
    vstd::arithmetic::div_mod::lemma_mod_bound(
        (board.bank_hi << 5) as int,
        board.rom_banks as int,
    );
    vstd::arithmetic::div_mod::lemma_mod_bound(
        board.asked_bank() as int,
        board.rom_banks as int,
    );
    if board.kind == MbcKind::NoMapper {
        vstd::arithmetic::div_mod::lemma_small_mod(1, board.rom_banks as nat);
    }
}

/// The ROM window shows the byte of the bank that is mapped there, and 0xff beyond the end
/// of the file.
pub proof fn law_rom_window(board: Board, addr: u16)
    requires
        board.wf(),
        addr < 0x8000,
    ensures
        board.rom_byte(addr) == ({
            let at = board.bank_at(addr) * 0x4000 + addr % 0x4000;
            if at < board.rom.len() {
                board.rom[at]
            } else {
                0xff
            }
        }),
{
    law_bank_fits_its_key(board);
}

/// Only a bank that the file has is ever mapped, and the registers never change the ROM
/// itself, the RAM or what the header said.
pub proof fn law_mapper_keeps(board: Board, addr: u16, value: u8, now: u64)
    requires
        board.wf(),
    ensures
        board.lower_bank() < board.rom_banks,
        board.upper_bank() < board.rom_banks,
        board.rom_written(addr, value, now).rom == board.rom,
        board.rom_written(addr, value, now).ram == board.ram,
        board.rom_written(addr, value, now).header == board.header,
        board.rom_written(addr, value, now).rom_banks == board.rom_banks,
{
    reveal(Board::rom_written);
}

proof fn lemma_bank_masks(lo: usize, hi: usize)
    by (bit_vector)
    requires
        hi <= 3,
    ensures
        (hi << 5) <= 96,
        (hi << 5) | (lo & 0x1f) <= 0x7f,
        (hi << 5) | 1 <= 0x7f,
        lo & 0x0f <= 0x0f,
        lo & 0x7f <= 0x7f,
        lo & 0x1ff <= 0x1ff,
{
}

/// No mapper can name a bank beyond 0x1ff, so a bank's number always fits its key.
pub proof fn law_bank_fits_its_key(board: Board)
    requires
        board.wf(),
    ensures
        board.lower_bank() <= 0x1ff,
        board.upper_bank() <= 0x1ff,
{
    if board.kind == MbcKind::Mbc1 {
        lemma_bank_masks(board.bank_lo, board.bank_hi);
    } else {
        lemma_bank_masks(board.bank_lo, 0);
    }
    vstd::arithmetic::div_mod::lemma_mod_bound(
        (board.bank_hi << 5) as int,
        board.rom_banks as int,
    );
    vstd::arithmetic::div_mod::lemma_mod_decreases(
        (board.bank_hi << 5) as nat,
        board.rom_banks as nat,
    );
    vstd::arithmetic::div_mod::lemma_mod_decreases(
        board.asked_bank() as nat,
        board.rom_banks as nat,
    );
}

/// Only MBC1 can move the lower window off bank zero, and only where it has more than 32
/// banks.
pub proof fn law_lower_window(board: Board, addr: u16)
    requires
        board.wf(),
        board.header.mbc != MbcKind::Mbc1 || board.header.rom_banks <= 32,
        addr <= 0x3fff,
    ensures
        board.bank_at(addr) == 0,
{
}

} // verus!
