//! Address decoding, DMA engines, and the CGB-only speed switch.
use vstd::prelude::*;
use crate::hw::apu::Apu;
use crate::hw::cartridge::Cartridge;
use crate::hw::console::{Console, HdmaMode, IRQ_SERIAL};
use crate::hw::joypad::Joypad;
use crate::hw::ppu::{DmgPalette, Ppu};
use crate::hw::rtc;
use crate::hw::timer::Timer;

verus! {

pub struct Mmu {
    pub cart: Cartridge,
    pub ppu: Ppu,
    pub apu: Apu,
    pub timer: Timer,
    pub joypad: Joypad,
    /// 8 banks of 4 KiB; DMG only ever uses the first two.
    pub wram: Vec<u8>,
    pub wram_bank: usize,
    pub hram: [u8; 0x7f],
    pub ie: u8,
    pub iflag: u8,
    pub cgb: bool,
    pub double_speed: bool,
    pub speed_switch_armed: bool,
    // OAM DMA, which runs alongside the CPU rather than instantly.
    pub dma_source: u8,
    pub dma_active: bool,
    pub dma_index: usize,
    pub dma_timer: u32,
    // CGB VRAM DMA.
    pub hdma_src: u16,
    pub hdma_dst: u16,
    pub hdma_len: u8,
    pub hdma_mode: HdmaMode,
    // Serial port. Nothing is connected, so transfers complete into 0xFF.
    pub sb: u8,
    pub sc: u8,
    pub serial_timer: i32,
    /// Cycles consumed since the last `take_cycles`, for frame pacing.
    pub elapsed: u64,
    /// Monotonic cycle count since power-on.
    pub clock: u64,
    /// Bumped whenever a 256-byte page of RAM is written. Blocks recompiled
    /// out of RAM record the version they were built from and are thrown away
    /// when it moves, which is what makes self-modifying code safe.
    pub code_version: [u32; 256],
}

impl View for Mmu {
    type V = Console;

    open spec fn view(&self) -> Console {
        Console {
            cart: self.cart@,
            ppu: self.ppu@,
            apu: self.apu@,
            timer: self.timer,
            joypad: self.joypad,
            wram: self.wram@,
            wram_bank: self.wram_bank,
            hram: self.hram@,
            ie: self.ie,
            iflag: self.iflag,
            cgb: self.cgb,
            double_speed: self.double_speed,
            speed_switch_armed: self.speed_switch_armed,
            dma_source: self.dma_source,
            dma_active: self.dma_active,
            dma_index: self.dma_index,
            dma_timer: self.dma_timer,
            hdma_src: self.hdma_src,
            hdma_dst: self.hdma_dst,
            hdma_len: self.hdma_len,
            hdma_mode: self.hdma_mode,
            sb: self.sb,
            sc: self.sc,
            serial_timer: self.serial_timer,
            elapsed: self.elapsed,
            clock: self.clock,
            code_version: self.code_version@,
        }
    }
}

impl Mmu {
    /// The invariant of the type: what every console keeps to.
    pub open spec fn wf(self) -> bool {
        &&& self.cart.wf()
        &&& self.ppu.wf()
        &&& self.apu.wf()
        &&& self@.sized()
    }

    pub proof fn lemma_wf(self)
        ensures
            self.wf() == self@.wf(),
    {
        self.cart.lemma_wf();
        self.apu.lemma_wf();
    }

    pub fn new(cart: Cartridge, cgb: bool, sample_rate: u32, palette: DmgPalette) -> (mmu: Self)
        requires
            cart.wf(),
        ensures
            mmu.wf(),
            mmu@ == Console::boot(cart@, cgb, sample_rate, palette@),
    {
        let mmu = Mmu {
            cart,
            ppu: Ppu::new(cgb, palette),
            apu: Apu::new(sample_rate),
            timer: Timer::new(),
            joypad: Joypad::new(),
            wram: vec![0; 0x8000],
            wram_bank: 1,
            hram: [0;0x7f],
            ie: 0,
            iflag: 0xe1,
            cgb,
            double_speed: false,
            speed_switch_armed: false,
            dma_source: 0,
            dma_active: false,
            dma_index: 0,
            dma_timer: 0,
            hdma_src: 0,
            hdma_dst: 0,
            hdma_len: 0xff,
            hdma_mode: HdmaMode::Off,
            sb: 0,
            sc: 0,
            serial_timer: 0,
            elapsed: 0,
            clock: 0,
            code_version: [0;256],
        };
        proof {
            let goal = Console::boot(cart@, cgb, sample_rate, palette@);
            assert(mmu.wram@ =~= goal.wram);
            assert(mmu.hram@ =~= goal.hram);
            assert(mmu.code_version@ =~= goal.code_version);
        }
        mmu
    }

    pub fn is_double_speed(&self) -> (yes: bool)
        ensures
            yes == self@.double_speed,
    {
        self.double_speed
    }

    /// Total cycles the hardware has been advanced by, for pacing.
    pub fn total_cycles(&self) -> (cycles: u64)
        ensures
            cycles == self@.clock,
    {
        self.clock
    }

    pub fn take_cycles(&mut self) -> (cycles: u64)
        requires
            old(self).wf(),
        ensures
            final(self).wf(),
            cycles == old(self)@.elapsed,
            final(self)@ == (Console { elapsed: 0, ..old(self)@ }),
    {
        let cycles: u64 = self.elapsed;
        self.elapsed = 0;
        cycles
    }

    fn work_index(&self, addr: u16) -> (at: usize)
        requires
            self.wf(),
            0xc000 <= addr <= 0xfdff,
        ensures
            at == self@.wram_index(addr),
            at < 0x8000,
    {
        if addr < 0xd000 {
            (addr - 0xc000) as usize
        } else if addr < 0xe000 {
            self.wram_bank * 0x1000 + (addr - 0xd000) as usize
        } else if addr < 0xf000 {
            (addr - 0xe000) as usize
        } else {
            self.wram_bank * 0x1000 + (addr - 0xf000) as usize
        }
    }

    /// DMA reads bypass the OAM/VRAM access rules the CPU is subject to.
    fn read_dma_source(&self, addr: u16) -> (value: u8)
        requires
            self.wf(),
        ensures
            value == self@.dma_byte(addr),
    {
        if addr <= 0x7fff {
            self.cart.read_rom(addr)
        } else if addr <= 0x9fff {
            self.ppu.read_vram(addr)
        } else if addr <= 0xbfff {
            self.cart.read_ram(addr)
        } else if addr <= 0xdfff {
            self.wram[self.work_index(addr)]
        } else {
            0xff
        }
    }

    fn step_dma(&mut self, t: u32)
        requires
            old(self).wf(),
        ensures
            final(self).wf(),
            final(self)@ == old(self)@.dma_stepped(t),
    {
        if !self.dma_active {
            return ;
        }
        self.dma_timer = self.dma_timer.wrapping_add(t);
        // One byte every 4 cycles, 160 bytes total.
        while self.dma_active && self.dma_timer >= 4
            invariant
                self.wf(),
                self@.dma_caught_up() == old(self)@.dma_stepped(t),
            decreases self.dma_timer,
        {
            let ghost before = self@;
            self.dma_timer = self.dma_timer - 4;
            let src: u16 = self.dma_source as u16 * 256 + self.dma_index as u16;
            let value: u8 = self.read_dma_source(src);
            assert(value == before.dma_byte(src));
            self.ppu.write_oam(0xfe00 + self.dma_index as u16, value);
            self.dma_index = self.dma_index + 1;
            if self.dma_index == 0xa0 {
                self.dma_active = false;
            }
            assert(self@.dma_caught_up() == before.dma_caught_up());
        }
    }

    fn step_serial(&mut self, t: u32)
        requires
            old(self).wf(),
        ensures
            final(self).wf(),
            final(self)@ == old(self)@.serial_stepped(t),
    {
        if self.sc & 0x80 == 0 || self.sc & 0x01 == 0 {
            return ;  // idle, or waiting on an external clock that will never come
        }
        self.serial_timer = self.serial_timer.wrapping_sub(t as i32);
        if self.serial_timer <= 0 {
            self.sb = 0xff;
            self.sc = self.sc & !0x80;
            self.iflag = self.iflag | IRQ_SERIAL;
        }
    }

    fn hdma_copy_byte(&mut self, i: u16)
        requires
            old(self).wf(),
        ensures
            final(self).wf(),
            final(self)@ == old(self)@.hdma_put(i),
    {
        let value: u8 = self.read_dma_source(self.hdma_src.wrapping_add(i));
        let dst: u16 = 0x8000 + self.hdma_dst.wrapping_add(i) % 0x2000;
        self.ppu.write_vram(dst, value);
    }

    fn hdma_count_block(&mut self)
        requires
            old(self).wf(),
        ensures
            final(self).wf(),
            final(self)@ == old(self)@.hdma_counted(),
    {
        self.hdma_src = self.hdma_src.wrapping_add(0x10);
        self.hdma_dst = self.hdma_dst.wrapping_add(0x10);
        if self.hdma_len == 0 {
            self.hdma_len = 0xff;
            self.hdma_mode = HdmaMode::Off;
        } else {
            self.hdma_len = self.hdma_len - 1;
        }
    }

    fn hdma_copy_block(&mut self)
        requires
            old(self).wf(),
        ensures
            final(self).wf(),
            final(self)@ == old(self)@.hdma_block(),
    {
        reveal(Console::hdma_block);
        for i in 0..0x10u16
            invariant
                self.wf(),
                self@ == old(self)@.hdma_moved(i as nat),
        {
            self.hdma_copy_byte(i);
        }
        self.hdma_count_block();
    }

    /// HBlank DMA moves one block per HBlank.
    fn step_video(&mut self, t: u32)
        requires
            old(self).wf(),
        ensures
            final(self).wf(),
            final(self)@ == old(self)@.video_stepped(t),
    {
        let was_hblank = self.ppu.in_hblank();
        self.ppu.step(t);
        if self.hdma_mode == HdmaMode::HBlank && !was_hblank && self.ppu.in_hblank() {
            self.hdma_copy_block();
        }
    }

    fn collect_irqs(&mut self)
        requires
            old(self).wf(),
        ensures
            final(self).wf(),
            final(self)@ == old(self)@.irqs_collected(),
    {
        let video: u8 = self.ppu.take_irq();
        self.iflag = self.iflag | (video | self.timer.irq | self.joypad.irq);
        self.timer.irq = 0;
        self.joypad.irq = 0;
    }

    pub fn tick(&mut self, t: u32)
        requires
            old(self).wf(),
        ensures
            final(self).wf(),
            final(self)@ == old(self)@.ticked(t),
    {
        reveal(Console::ticked);
        self.elapsed = self.elapsed.wrapping_add(t as u64);
        self.clock = self.clock.wrapping_add(t as u64);

        // The timer counts CPU clocks, so it speeds up with the CPU.
        self.timer.step(t);
        self.step_dma(t);
        self.step_serial(t);

        // Video and audio are on a fixed clock regardless of CPU speed.
        let video_t: u32 = if self.double_speed {
            t / 2
        } else {
            t
        };
        self.step_video(video_t);
        self.apu.step(video_t);
        self.collect_irqs();
    }
}

impl Mmu {
    fn read_cgb(&self, addr: u16) -> (value: u8)
        requires
            self.wf(),
        ensures
            value == self@.cgb_byte(addr),
    {
        match addr {
            0xff4d => {
                let speed: u8 = if self.double_speed {
                    0x80
                } else {
                    0
                };
                let armed: u8 = if self.speed_switch_armed {
                    1
                } else {
                    0
                };
                0x7e + speed + armed
            },
            0xff51 => (self.hdma_src / 256) as u8,
            0xff52 => (self.hdma_src % 256) as u8,
            0xff53 => (self.hdma_dst / 256) as u8,
            0xff54 => (self.hdma_dst % 256) as u8,
            0xff55 => {
                let idle: u8 = if self.hdma_mode == HdmaMode::Off {
                    0x80
                } else {
                    0
                };
                self.hdma_len | idle
            },
            0xff70 => 0xf8 + self.wram_bank as u8,
            _ => 0xff,
        }
    }

    fn read_io(&self, addr: u16) -> (value: u8)
        requires
            self.wf(),
        ensures
            value == self@.io_byte(addr),
    {
        if addr == 0xff00 {
            self.joypad.read()
        } else if addr == 0xff01 {
            self.sb
        } else if addr == 0xff02 {
            let unused: u8 = if self.cgb {
                0x7c
            } else {
                0x7e
            };
            self.sc | unused
        } else if 0xff04 <= addr && addr <= 0xff07 {
            self.timer.read(addr)
        } else if addr == 0xff0f {
            self.iflag | 0xe0
        } else if 0xff10 <= addr && addr <= 0xff3f {
            self.apu.read(addr)
        } else if (0xff40 <= addr && addr <= 0xff4b) || addr == 0xff4f || (0xff68 <= addr && addr
            <= 0xff6c) {
            self.ppu.read_reg(addr)
        } else if !self.cgb {
            0xff
        } else {
            self.read_cgb(addr)
        }
    }

    fn write_serial(&mut self, value: u8)
        requires
            old(self).wf(),
        ensures
            final(self).wf(),
            final(self)@ == old(self)@.serial_written(value),
    {
        self.sc = value & 0x83;
        if self.sc & 0x81 == 0x81 {
            // 8 bits at 8192 Hz, or eight times that on CGB's fast clock.
            self.serial_timer = if self.cgb && value & 0x02 != 0 {
                512
            } else {
                4096
            };
        }
    }

    fn start_hdma(&mut self, value: u8)
        requires
            old(self).wf(),
        ensures
            final(self).wf(),
            final(self)@ == old(self)@.hdma_started(value),
    {
        reveal(Console::hdma_started);
        if self.hdma_mode == HdmaMode::HBlank && value & 0x80 == 0 {
            self.hdma_mode = HdmaMode::Off;  // writing 0 to bit 7 cancels
            self.hdma_len = self.hdma_len | 0x80;
            return ;
        }
        self.hdma_len = value % 128;
        if value & 0x80 != 0 {
            self.hdma_mode = HdmaMode::HBlank;
            if self.ppu.in_hblank() {
                self.hdma_copy_block();
            }
        } else {
            // General-purpose DMA stalls the CPU until it finishes.
            let blocks: u32 = self.hdma_len as u32 + 1;
            let factor: u32 = if self.double_speed {
                2
            } else {
                1
            };
            self.hdma_mode = HdmaMode::Off;
            self.copy_blocks(blocks);
            self.hdma_len = 0xff;
            self.tick(blocks * 32 * factor);
        }
    }

    fn copy_blocks(&mut self, blocks: u32)
        requires
            old(self).wf(),
        ensures
            final(self).wf(),
            final(self)@ == old(self)@.hdma_blocks(blocks as nat),
    {
        for n in 0..blocks
            invariant
                self.wf(),
                self@ == old(self)@.hdma_blocks(n as nat),
        {
            self.hdma_copy_block();
        }
    }

    fn write_cgb(&mut self, addr: u16, value: u8)
        requires
            old(self).wf(),
        ensures
            final(self).wf(),
            final(self)@ == old(self)@.cgb_written(addr, value),
    {
        reveal(Console::cgb_written);
        match addr {
            0xff4d => self.speed_switch_armed = value % 2 == 1,
            0xff51 => self.hdma_src = value as u16 * 256 + self.hdma_src % 256,
            0xff52 => self.hdma_src = self.hdma_src / 256 * 256 + (value / 16 * 16) as u16,
            0xff53 => self.hdma_dst = (value % 32) as u16 * 256 + self.hdma_dst % 256,
            0xff54 => self.hdma_dst = self.hdma_dst / 256 * 256 + (value / 16 * 16) as u16,
            0xff55 => self.start_hdma(value),
            0xff70 => {
                self.wram_bank = if value % 8 == 0 {
                    1
                } else {
                    (value % 8) as usize
                };
            },
            _ => {},
        }
    }

    fn write_io(&mut self, addr: u16, value: u8)
        requires
            old(self).wf(),
        ensures
            final(self).wf(),
            final(self)@ == old(self)@.io_written(addr, value),
    {
        reveal(Console::io_written);
        if addr == 0xff00 {
            self.joypad.write(value);
        } else if addr == 0xff01 {
            self.sb = value;
        } else if addr == 0xff02 {
            self.write_serial(value);
        } else if 0xff04 <= addr && addr <= 0xff07 {
            self.timer.write(addr, value);
        } else if addr == 0xff0f {
            self.iflag = value & 0x1f;
        } else if 0xff10 <= addr && addr <= 0xff3f {
            self.apu.write(addr, value);
        } else if addr == 0xff46 {
            self.dma_source = value;
            self.dma_active = true;
            self.dma_index = 0;
            self.dma_timer = 0;
        } else if (0xff40 <= addr && addr <= 0xff4b) || addr == 0xff4f || (0xff68 <= addr && addr
            <= 0xff6c) {
            self.ppu.write_reg(addr, value);
        } else if self.cgb {
            self.write_cgb(addr, value);
        }
    }
}

/// The bus the recompiled code calls into for every memory access.
impl Mmu {
    pub fn read(&self, addr: u16) -> (value: u8)
        requires
            self.wf(),
        ensures
            value == self@.byte(addr),
    {
        if addr <= 0x7fff {
            self.cart.read_rom(addr)
        } else if addr <= 0x9fff {
            self.ppu.read_vram(addr)
        } else if addr <= 0xbfff {
            self.cart.read_ram(addr)
        } else if addr <= 0xfdff {
            self.wram[self.work_index(addr)]
        } else if addr <= 0xfe9f {
            if self.dma_active {
                0xff
            } else {
                self.ppu.read_oam(addr)
            }
        } else if addr <= 0xfeff {
            0
        } else if addr <= 0xff7f {
            self.read_io(addr)
        } else if addr <= 0xfffe {
            self.hram[(addr - 0xff80) as usize]
        } else {
            self.ie
        }
    }

    fn touch(&mut self, addr: u16)
        requires
            old(self).wf(),
        ensures
            final(self).wf(),
            final(self)@ == old(self)@.touched(addr),
    {
        let page: usize = (addr / 256) as usize;
        self.code_version[page] = self.code_version[page].wrapping_add(1);
    }

    fn write_cart_ram(&mut self, addr: u16, value: u8, now: u64)
        requires
            old(self).wf(),
            addr >= 0xa000,
        ensures
            final(self).wf(),
            final(self)@ == (Console {
                cart: old(self)@.cart.ram_written(addr, value, now),
                ..old(self)@
            }).touched(addr),
    {
        self.cart.write_ram_at(addr, value, now);
        self.touch(addr);
    }

    fn write_work_ram(&mut self, addr: u16, value: u8)
        requires
            old(self).wf(),
            0xc000 <= addr <= 0xfdff,
        ensures
            final(self).wf(),
            final(self)@ == (Console {
                wram: old(self)@.wram.update(old(self)@.wram_index(addr), value),
                ..old(self)@
            }).touched(addr),
    {
        let at: usize = self.work_index(addr);
        self.wram[at] = value;
        self.touch(addr);
    }

    fn write_high_ram(&mut self, addr: u16, value: u8)
        requires
            old(self).wf(),
            0xff80 <= addr <= 0xfffe,
        ensures
            final(self).wf(),
            final(self)@ == (Console {
                hram: old(self)@.hram.update(addr - 0xff80, value),
                ..old(self)@
            }).touched(addr),
    {
        self.hram[(addr - 0xff80) as usize] = value;
        self.touch(addr);
    }

    pub fn write(&mut self, addr: u16, value: u8)
        requires
            old(self).wf(),
        ensures
            final(self).wf(),
            exists|now: u64|
                rtc::host_second(now) && final(self)@ == #[trigger] old(self)@.written(
                    addr,
                    value,
                    now,
                ),
    {
        let now: u64 = if addr < 0xc000 && self.cart.has_clock() {
            rtc::now_secs()
        } else {
            0
        };
        proof {
            if addr >= 0xc000 || self@.cart.rtc is None {
                let shown = rtc::lemma_some_second();
                self@.lemma_clockless(addr, value, now, shown);
            }
        }
        self.write_at(addr, value, now)
    }

    /// Writes at wall-clock second `now`, which only a cartridge clock looks at.
    pub fn write_at(&mut self, addr: u16, value: u8, now: u64)
        requires
            old(self).wf(),
        ensures
            final(self).wf(),
            final(self)@ == old(self)@.written(addr, value, now),
    {
        reveal(Console::written);
        if addr <= 0xbfff {
            self.write_lower(addr, value, now);
        } else if addr <= 0xfdff {
            self.write_work_ram(addr, value);
        } else {
            self.write_upper(addr, value, Ghost(now));
        }
    }

    /// Writes to the cartridge or to video memory.
    fn write_lower(&mut self, addr: u16, value: u8, now: u64)
        requires
            old(self).wf(),
            addr <= 0xbfff,
        ensures
            final(self).wf(),
            final(self)@ == old(self)@.written(addr, value, now),
    {
        reveal(Console::written);
        if addr <= 0x7fff {
            self.cart.write_rom_at(addr, value, now);
        } else if addr <= 0x9fff {
            self.ppu.write_vram(addr, value);
        } else {
            self.write_cart_ram(addr, value, now);
        }
    }

    /// Writes to OAM, the registers or high RAM.
    fn write_upper(&mut self, addr: u16, value: u8, Ghost(now): Ghost<u64>)
        requires
            old(self).wf(),
            addr >= 0xfe00,
        ensures
            final(self).wf(),
            final(self)@ == old(self)@.written(addr, value, now),
    {
        reveal(Console::written);
        if addr <= 0xfe9f {
            if !self.dma_active {
                self.ppu.write_oam(addr, value);
            }
        } else if addr <= 0xfeff {
        } else if addr <= 0xff7f {
            self.write_io(addr, value);
        } else if addr <= 0xfffe {
            self.write_high_ram(addr, value);
        } else {
            self.ie = value & 0x1f;
        }
    }

    pub fn pending_interrupts(&self) -> (pending: u8)
        ensures
            pending == self@.pending(),
    {
        self.ie & self.iflag & 0x1f
    }

    pub fn ack_interrupt(&mut self, bit: u8)
        requires
            old(self).wf(),
            bit < 8,
        ensures
            final(self).wf(),
            final(self)@ == old(self)@.acknowledged(bit),
    {
        self.iflag = self.iflag & !(1u8 << bit);
    }

    /// Read without advancing anything. The recompiler uses this to fetch the
    /// instruction stream it is translating, which must not disturb the machine.
    pub fn peek(&self, addr: u16) -> (value: u8)
        requires
            self.wf(),
        ensures
            value == self@.code_byte(addr),
    {
        if addr <= 0x7fff {
            self.cart.read_rom(addr)
        } else if addr <= 0x9fff {
            0xff
        } else if addr <= 0xbfff {
            self.cart.read_ram(addr)
        } else if addr <= 0xfdff {
            self.wram[self.work_index(addr)]
        } else if 0xff80 <= addr && addr <= 0xfffe {
            self.hram[(addr - 0xff80) as usize]
        } else {
            0xff
        }
    }

    /// Bank currently visible at `addr`, used as part of a block's cache key.
    pub fn bank_at(&self, addr: u16) -> (bank: u16)
        requires
            self.wf(),
        ensures
            bank == self@.bank_at(addr),
    {
        if addr <= 0x7fff {
            self.cart.bank_at(addr)
        } else if (0xd000 <= addr && addr <= 0xdfff) || (0xf000 <= addr && addr <= 0xfdff) {
            0x100 + self.wram_bank as u16
        } else {
            0
        }
    }

    pub fn stop(&mut self) -> (switched: bool)
        requires
            old(self).wf(),
        ensures
            final(self).wf(),
            final(self)@ == old(self)@.stopped(),
            switched == old(self)@.switches_speed(),
    {
        if self.cgb && self.speed_switch_armed {
            self.double_speed = !self.double_speed;
            self.speed_switch_armed = false;
            self.timer.write(0xff04, 0);
            return true;
        }
        false
    }
}

} // verus!
