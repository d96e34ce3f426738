//! The console around the processor: what every address means, the DMA engines, and
//! what a stretch of clocks does to it all.
use vstd::prelude::*;
use crate::hw::apu::Sound;
use crate::hw::cartridge::Board;
use crate::hw::joypad::Joypad;
use crate::hw::picture::Picture;
use crate::hw::timer::Timer;

verus! {

/// Bit 3 of IF: serial transfer complete.
pub const IRQ_SERIAL: u8 = 0x08;

#[derive(Clone, Copy, PartialEq, Eq, Structural)]
pub enum HdmaMode {
    Off,
    /// Copies 0x10 bytes at each HBlank until the length runs out.
    HBlank,
}

/// What the console holds.
pub struct Console {
    pub cart: Board,
    pub ppu: Picture,
    pub apu: Sound,
    pub timer: Timer,
    pub joypad: Joypad,
    /// 8 banks of 4 KiB; DMG only ever uses the first two.
    pub wram: Seq<u8>,
    pub wram_bank: usize,
    pub hram: Seq<u8>,
    pub ie: u8,
    pub iflag: u8,
    pub cgb: bool,
    pub double_speed: bool,
    pub speed_switch_armed: bool,
    pub dma_source: u8,
    pub dma_active: bool,
    pub dma_index: usize,
    pub dma_timer: u32,
    pub hdma_src: u16,
    pub hdma_dst: u16,
    pub hdma_len: u8,
    pub hdma_mode: HdmaMode,
    pub sb: u8,
    pub sc: u8,
    pub serial_timer: i32,
    pub elapsed: u64,
    pub clock: u64,
    pub code_version: Seq<u32>,
}

impl Console {
    pub open spec fn boot(cart: Board, cgb: bool, sample_rate: u32, palette: Seq<u32>) -> Console {
        Console {
            cart,
            ppu: Picture::boot(cgb, palette),
            apu: Sound::boot(sample_rate),
            timer: Timer::boot(),
            joypad: Joypad::idle(),
            wram: Seq::new(0x8000, |i: int| 0u8),
            wram_bank: 1,
            hram: Seq::new(0x7f, |i: int| 0u8),
            ie: 0,
            iflag: 0xe1,
            cgb,
            double_speed: false,
            speed_switch_armed: false,
            dma_source: 0,
            dma_active: false,
            dma_index: 0,
            dma_timer: 0,
            hdma_src: 0,
            hdma_dst: 0,
            hdma_len: 0xff,
            hdma_mode: HdmaMode::Off,
            sb: 0,
            sc: 0,
            serial_timer: 0,
            elapsed: 0,
            clock: 0,
            code_version: Seq::new(256, |i: int| 0u32),
        }
    }

    /// What every console keeps to.
    pub open spec fn wf(self) -> bool {
        &&& self.cart.wf()
        &&& self.ppu.wf()
        &&& self.apu.wf()
        &&& self.sized()
    }

    /// The sizes of its memories, and positions inside them.
    pub open spec fn sized(self) -> bool {
        &&& self.wram.len() == 0x8000
        &&& 1 <= self.wram_bank <= 7
        &&& self.hram.len() == 0x7f
        &&& self.code_version.len() == 256
        &&& self.dma_active ==> self.dma_index < 0xa0
    }

    /// Where in work RAM `addr` of 0xC000-0xFDFF lands: the fixed bank, then the selected
    /// one, and the same again as an echo.
    pub open spec fn wram_index(self, addr: u16) -> int {
        if addr < 0xd000 {
            addr - 0xc000
        } else if addr < 0xe000 {
            self.wram_bank * 0x1000 + (addr - 0xd000)
        } else if addr < 0xf000 {
            addr - 0xe000
        } else {
            self.wram_bank * 0x1000 + (addr - 0xf000)
        }
    }

    // ---- DMA -------------------------------------------------------------

    /// What DMA reads: it bypasses the OAM/VRAM access rules the CPU is subject to.
    pub open spec fn dma_byte(self, addr: u16) -> u8 {
        if addr <= 0x7fff {
            self.cart.rom_byte(addr)
        } else if addr <= 0x9fff {
            self.ppu.vram[self.ppu.vram_index(addr)]
        } else if addr <= 0xbfff {
            self.cart.ram_byte(addr)
        } else if addr <= 0xdfff {
            self.wram[self.wram_index(addr)]
        } else {
            0xff
        }
    }

    /// OAM DMA moves one byte every four clocks, 160 bytes in all.
    pub open spec fn dma_caught_up(self) -> Console
        decreases self.dma_timer,
    {
        if self.dma_active && self.dma_timer >= 4 {
            let byte = self.dma_byte((self.dma_source * 256 + self.dma_index) as u16);
            Console {
                ppu: Picture {
                    oam: self.ppu.oam.update(self.dma_index as int, byte),
                    ..self.ppu
                },
                dma_timer: (self.dma_timer - 4) as u32,
                dma_index: (self.dma_index + 1) as usize,
                dma_active: self.dma_index + 1 != 0xa0,
                ..self
            }.dma_caught_up()
        } else {
            self
        }
    }

    pub open spec fn dma_stepped(self, t: u32) -> Console {
        if self.dma_active {
            Console { dma_timer: self.dma_timer.wrapping_add(t), ..self }.dma_caught_up()
        } else {
            self
        }
    }

    /// Byte `i` of a CGB video DMA block moved.
    pub open spec fn hdma_put(self, i: u16) -> Console {
        let to = 0x8000 + self.hdma_dst.wrapping_add(i) % 0x2000;
        Console {
            ppu: Picture {
                vram: self.ppu.vram.update(
                    self.ppu.vram_index(to as u16),
                    self.dma_byte(self.hdma_src.wrapping_add(i)),
                ),
                ..self.ppu
            },
            ..self
        }
    }

    /// The first `n` bytes of a CGB video DMA block moved, one after the other.
    pub open spec fn hdma_moved(self, n: nat) -> Console
        decreases n,
    {
        if n == 0 {
            self
        } else {
            self.hdma_moved((n - 1) as nat).hdma_put((n - 1) as u16)
        }
    }

    /// A CGB video DMA block counted: the engine stops with the last one.
    pub open spec fn hdma_counted(self) -> Console {
        Console {
            hdma_src: self.hdma_src.wrapping_add(0x10),
            hdma_dst: self.hdma_dst.wrapping_add(0x10),
            hdma_len: if self.hdma_len == 0 {
                0xff
            } else {
                (self.hdma_len - 1) as u8
            },
            hdma_mode: if self.hdma_len == 0 {
                HdmaMode::Off
            } else {
                self.hdma_mode
            },
            ..self
        }
    }

    /// One CGB video DMA block: sixteen bytes.
    #[verifier::opaque]
    pub open spec fn hdma_block(self) -> Console {
        self.hdma_moved(0x10).hdma_counted()
    }

    /// `n` video DMA blocks.
    pub open spec fn hdma_blocks(self, n: nat) -> Console
        decreases n,
    {
        if n == 0 {
            self
        } else {
            self.hdma_blocks((n - 1) as nat).hdma_block()
        }
    }

    // ---- time ------------------------------------------------------------

    /// The serial port. Nothing is connected, so transfers complete into 0xFF; one that
    /// waits on an external clock never does.
    pub open spec fn serial_stepped(self, t: u32) -> Console {
        if self.sc & 0x80 == 0 || self.sc & 0x01 == 0 {
            self
        } else {
            let timer = self.serial_timer.wrapping_sub(t as i32);
            if timer <= 0 {
                Console {
                    serial_timer: timer,
                    sb: 0xff,
                    sc: self.sc & !0x80u8,
                    iflag: self.iflag | IRQ_SERIAL,
                    ..self
                }
            } else {
                Console { serial_timer: timer, ..self }
            }
        }
    }

    /// Video and audio clocks: they run on a fixed clock regardless of CPU speed.
    pub open spec fn video_clocks(self, t: u32) -> u32 {
        if self.double_speed {
            t / 2
        } else {
            t
        }
    }

    /// The picture moves on; entering HBlank moves one block of a running HBlank DMA.
    pub open spec fn video_stepped(self, t: u32) -> Console {
        let next = Console { ppu: self.ppu.stepped(t), ..self };
        if self.hdma_mode == HdmaMode::HBlank && !self.ppu.in_hblank() && next.ppu.in_hblank() {
            next.hdma_block()
        } else {
            next
        }
    }

    /// The interrupt requests of the parts are collected in IF.
    pub open spec fn irqs_collected(self) -> Console {
        Console {
            iflag: self.iflag | (self.ppu.irq | self.timer.irq | self.joypad.irq),
            ppu: Picture { irq: 0, ..self.ppu },
            timer: Timer { irq: 0, ..self.timer },
            joypad: Joypad { irq: 0, ..self.joypad },
            ..self
        }
    }

    /// `t` clocks of the processor. The timer counts CPU clocks, so it speeds up with
    /// the CPU.
    #[verifier::opaque]
    pub open spec fn ticked(self, t: u32) -> Console {
        let counted = Console {
            elapsed: self.elapsed.wrapping_add(t as u64),
            clock: self.clock.wrapping_add(t as u64),
            timer: self.timer.after(t as nat),
            ..self
        };
        let moved = counted.dma_stepped(t).serial_stepped(t);
        let shown = moved.video_stepped(moved.video_clocks(t));
        Console { apu: shown.apu.stepped(moved.video_clocks(t)), ..shown }.irqs_collected()
    }

    // ---- registers -------------------------------------------------------

    /// What the register at `addr`, 0xFF00-0xFF7F, reads as.
    pub open spec fn io_byte(self, addr: u16) -> u8 {
        if addr == 0xff00 {
            self.joypad.reads()
        } else if addr == 0xff01 {
            self.sb
        } else if addr == 0xff02 {
            self.sc | (if self.cgb {
                0x7cu8
            } else {
                0x7eu8
            })
        } else if 0xff04 <= addr <= 0xff07 {
            self.timer.reads(addr)
        } else if addr == 0xff0f {
            self.iflag | 0xe0
        } else if 0xff10 <= addr <= 0xff3f {
            self.apu.reads(addr)
        } else if 0xff40 <= addr <= 0xff4b || addr == 0xff4f || 0xff68 <= addr <= 0xff6c {
            self.ppu.reads(addr)
        } else if !self.cgb {
            0xff
        } else {
            self.cgb_byte(addr)
        }
    }

    /// What the registers that only a CGB has read as.
    pub open spec fn cgb_byte(self, addr: u16) -> u8 {
        match addr {
            0xff4d => (0x7e + (if self.double_speed {
                0x80int
            } else {
                0
            }) + (if self.speed_switch_armed {
                1int
            } else {
                0
            })) as u8,
            0xff51 => (self.hdma_src / 256) as u8,
            0xff52 => (self.hdma_src % 256) as u8,
            0xff53 => (self.hdma_dst / 256) as u8,
            0xff54 => (self.hdma_dst % 256) as u8,
            0xff55 => self.hdma_len | (if self.hdma_mode == HdmaMode::Off {
                0x80u8
            } else {
                0u8
            }),
            0xff70 => (0xf8 + self.wram_bank) as u8,
            _ => 0xff,
        }
    }

    /// The serial control register. A transfer takes 8 bits at 8192 Hz, or eight times
    /// that on CGB's fast clock.
    pub open spec fn serial_written(self, value: u8) -> Console {
        let sc = value & 0x83;
        Console {
            sc,
            serial_timer: if sc & 0x81 == 0x81 {
                if self.cgb && value & 0x02 != 0 {
                    512
                } else {
                    4096
                }
            } else {
                self.serial_timer
            },
            ..self
        }
    }

    /// The video DMA length register. Clearing bit 7 cancels a running HBlank DMA;
    /// setting it starts one; a general-purpose DMA stalls the CPU until it finishes.
    #[verifier::opaque]
    pub open spec fn hdma_started(self, value: u8) -> Console {
        if self.hdma_mode == HdmaMode::HBlank && value & 0x80 == 0 {
            Console { hdma_mode: HdmaMode::Off, hdma_len: self.hdma_len | 0x80, ..self }
        } else if value & 0x80 != 0 {
            let next = Console { hdma_len: value % 128, hdma_mode: HdmaMode::HBlank, ..self };
            if self.ppu.in_hblank() {
                next.hdma_block()
            } else {
                next
            }
        } else {
            let blocks = value % 128 + 1;
            let done = Console {
                hdma_len: value % 128,
                hdma_mode: HdmaMode::Off,
                ..self
            }.hdma_blocks(blocks as nat);
            let stall = blocks * 32 * (if self.double_speed {
                2int
            } else {
                1
            });
            Console { hdma_len: 0xff, ..done }.ticked(stall as u32)
        }
    }

    /// The registers that only a CGB has.
    #[verifier::opaque]
    pub open spec fn cgb_written(self, addr: u16, value: u8) -> Console {
        match addr {
            0xff4d => Console { speed_switch_armed: value % 2 == 1, ..self },
            0xff51 => Console {
                hdma_src: (value * 256 + self.hdma_src % 256) as u16,
                ..self
            },
            0xff52 => Console {
                hdma_src: (self.hdma_src / 256 * 256 + value / 16 * 16) as u16,
                ..self
            },
            0xff53 => Console {
                hdma_dst: (value % 32 * 256 + self.hdma_dst % 256) as u16,
                ..self
            },
            0xff54 => Console {
                hdma_dst: (self.hdma_dst / 256 * 256 + value / 16 * 16) as u16,
                ..self
            },
            0xff55 => self.hdma_started(value),
            0xff70 => Console {
                wram_bank: if value % 8 == 0 {
                    1
                } else {
                    (value % 8) as usize
                },
                ..self
            },
            _ => self,
        }
    }

    /// The effect of writing `value` to the register at `addr`, 0xFF00-0xFF7F.
    #[verifier::opaque]
    pub open spec fn io_written(self, addr: u16, value: u8) -> Console {
        if addr == 0xff00 {
            Console { joypad: Joypad { select: value & 0x30, ..self.joypad }, ..self }
        } else if addr == 0xff01 {
            Console { sb: value, ..self }
        } else if addr == 0xff02 {
            self.serial_written(value)
        } else if 0xff04 <= addr <= 0xff07 {
            Console { timer: self.timer.written(addr, value), ..self }
        } else if addr == 0xff0f {
            Console { iflag: value & 0x1f, ..self }
        } else if 0xff10 <= addr <= 0xff3f {
            Console { apu: self.apu.written(addr, value), ..self }
        } else if addr == 0xff46 {
            Console {
                dma_source: value,
                dma_active: true,
                dma_index: 0,
                dma_timer: 0,
                ..self
            }
        } else if 0xff40 <= addr <= 0xff4b || addr == 0xff4f || 0xff68 <= addr <= 0xff6c {
            Console { ppu: self.ppu.written(addr, value), ..self }
        } else if self.cgb {
            self.cgb_written(addr, value)
        } else {
            self
        }
    }

    // ---- the bus ---------------------------------------------------------

    /// What the processor reads at `addr`. OAM is hidden while DMA fills it.
    pub open spec fn byte(self, addr: u16) -> u8 {
        if addr <= 0x7fff {
            self.cart.rom_byte(addr)
        } else if addr <= 0x9fff {
            self.ppu.vram[self.ppu.vram_index(addr)]
        } else if addr <= 0xbfff {
            self.cart.ram_byte(addr)
        } else if addr <= 0xfdff {
            self.wram[self.wram_index(addr)]
        } else if addr <= 0xfe9f {
            if self.dma_active {
                0xff
            } else {
                self.ppu.oam[addr - 0xfe00]
            }
        } else if addr <= 0xfeff {
            0
        } else if addr <= 0xff7f {
            self.io_byte(addr)
        } else if addr <= 0xfffe {
            self.hram[addr - 0xff80]
        } else {
            self.ie
        }
    }

    /// The version of the page that `addr` is in moves on.
    pub open spec fn touched(self, addr: u16) -> Console {
        let page = addr as int / 256;
        Console {
            code_version: self.code_version.update(
                page,
                self.code_version[page].wrapping_add(1),
            ),
            ..self
        }
    }

    /// The effect of the processor writing `value` to `addr` at wall-clock second `now`,
    /// which only a cartridge clock looks at.
    #[verifier::opaque]
    pub open spec fn written(self, addr: u16, value: u8, now: u64) -> Console {
        if addr <= 0x7fff {
            Console { cart: self.cart.rom_written(addr, value, now), ..self }
        } else if addr <= 0x9fff {
            Console {
                ppu: Picture {
                    vram: self.ppu.vram.update(self.ppu.vram_index(addr), value),
                    ..self.ppu
                },
                ..self
            }
        } else if addr <= 0xbfff {
            Console { cart: self.cart.ram_written(addr, value, now), ..self }.touched(addr)
        } else if addr <= 0xfdff {
            Console { wram: self.wram.update(self.wram_index(addr), value), ..self }.touched(addr)
        } else if addr <= 0xfe9f {
            if self.dma_active {
                self
            } else {
                Console {
                    ppu: Picture { oam: self.ppu.oam.update(addr - 0xfe00, value), ..self.ppu },
                    ..self
                }
            }
        } else if addr <= 0xfeff {
            self
        } else if addr <= 0xff7f {
            self.io_written(addr, value)
        } else if addr <= 0xfffe {
            Console { hram: self.hram.update(addr - 0xff80, value), ..self }.touched(addr)
        } else {
            Console { ie: value & 0x1f, ..self }
        }
    }

    /// Only a cartridge clock cares when a write happens, and no write puts one there.
    pub proof fn lemma_clockless(self, addr: u16, value: u8, now: u64, later: u64)
        requires
            self.cart.rtc is None || addr >= 0xc000,
        ensures
            self.written(addr, value, now) == self.written(addr, value, later),
            addr <= 0xbfff ==> self.written(addr, value, now).cart.rtc is None,
    {
        reveal(Console::written);
        if self.cart.rtc is None {
            self.cart.lemma_clockless(addr, value, now, later);
        }
    }

    /// What the translator reads at `addr`. Code never runs from video memory or the
    /// register file.
    pub open spec fn code_byte(self, addr: u16) -> u8 {
        if addr <= 0x7fff {
            self.cart.rom_byte(addr)
        } else if addr <= 0x9fff {
            0xff
        } else if addr <= 0xbfff {
            self.cart.ram_byte(addr)
        } else if addr <= 0xfdff {
            self.wram[self.wram_index(addr)]
        } else if 0xff80 <= addr <= 0xfffe {
            self.hram[addr - 0xff80]
        } else {
            0xff
        }
    }

    /// Bank visible at `addr`, used as part of a block's cache key.
    pub open spec fn bank_at(self, addr: u16) -> u16 {
        if addr <= 0x7fff {
            self.cart.bank_at(addr)
        } else if 0xd000 <= addr <= 0xdfff || 0xf000 <= addr <= 0xfdff {
            (0x100 + self.wram_bank) as u16
        } else {
            0
        }
    }

    /// Interrupts that are both enabled and requested.
    pub open spec fn pending(self) -> u8 {
        self.ie & self.iflag & 0x1f
    }

    /// Interrupt `bit` is no longer requested.
    pub open spec fn acknowledged(self, bit: u8) -> Console {
        Console { iflag: self.iflag & !(1u8 << bit), ..self }
    }

    /// Whether STOP switches speed rather than stopping.
    pub open spec fn switches_speed(self) -> bool {
        self.cgb && self.speed_switch_armed
    }

    pub open spec fn stopped(self) -> Console {
        if self.switches_speed() {
            Console {
                double_speed: !self.double_speed,
                speed_switch_armed: false,
                timer: self.timer.written(0xff04, 0),
                ..self
            }
        } else {
            self
        }
    }
}

} // verus!
