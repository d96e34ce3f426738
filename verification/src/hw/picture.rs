//! What the picture processor shows: the state it is in, and each pixel of a line as a
//! function of that state.
use vstd::prelude::*;

verus! {

pub const SCREEN_W: usize = 160;

pub const SCREEN_H: usize = 144;

/// Dots per scanline, including blanking.
pub const DOTS_PER_LINE: u32 = 456;

pub const LINES_PER_FRAME: u8 = 154;

pub const MODE_HBLANK: u8 = 0;

pub const MODE_VBLANK: u8 = 1;

pub const MODE_OAM: u8 = 2;

pub const MODE_DRAW: u8 = 3;

pub const IRQ_VBLANK: u8 = 0x01;

pub const IRQ_STAT: u8 = 0x02;

/// What a picture processor holds.
#[verifier::ext_equal]
pub struct Picture {
    /// Two 8 KiB banks; only bank 0 exists on DMG.
    pub vram: Seq<u8>,
    pub vram_bank: usize,
    pub oam: Seq<u8>,
    pub lcdc: u8,
    pub stat: u8,
    pub scy: u8,
    pub scx: u8,
    pub ly: u8,
    pub lyc: u8,
    pub bgp: u8,
    pub obp0: u8,
    pub obp1: u8,
    pub wy: u8,
    pub wx: u8,
    pub bg_pal: Seq<u8>,
    pub obj_pal: Seq<u8>,
    pub bcps: u8,
    pub ocps: u8,
    pub opri: u8,
    pub mode: u8,
    pub dots: u32,
    pub window_line: u8,
    pub window_active: bool,
    pub stat_line: bool,
    pub cgb: bool,
    pub dmg_palette: Seq<u32>,
    pub bg_line: Seq<u8>,
    pub framebuffer: Seq<u32>,
    pub frame_ready: bool,
    pub irq: u8,
}

/// A byte's bit `n`, as a number.
pub open spec fn bit_of(b: u8, n: int) -> u8 {
    (b >> (n as u8)) & 1
}

/// The colour, 0 to 3, of a tile row's pixel whose bit in both planes is `n`.
pub open spec fn plane_colour(lo: u8, hi: u8, n: int) -> int {
    2 * bit_of(hi, n) + bit_of(lo, n)
}

/// A 15-bit CGB colour expanded to 0xRRGGBB, lifted out of the washed-out linear mapping
/// that a naive 5-to-8-bit shift produces on a modern backlit display.
pub open spec fn cgb_rgb(pal: Seq<u8>, palette: int, index: int) -> u32 {
    let off = palette * 8 + index * 2;
    let raw = pal[off] + 256 * pal[off + 1];
    let r = raw % 32;
    let g = raw / 32 % 32;
    let b = raw / 1024 % 32;
    let red = (r * 26 + g * 4 + b * 2) / 32;
    let green = (g * 24 + b * 8) / 32;
    let blue = (r * 6 + g * 4 + b * 22) / 32;
    (red * 255 / 31 * 0x1_0000 + green * 255 / 31 * 0x100 + blue * 255 / 31) as u32
}

impl Picture {
    /// The state the boot process leaves the picture processor in.
    pub open spec fn boot(cgb: bool, palette: Seq<u32>) -> Picture {
        Picture {
            vram: Seq::new(0x4000, |i: int| 0u8),
            vram_bank: 0,
            oam: Seq::new(0xa0, |i: int| 0u8),
            lcdc: 0x91,
            stat: 0x85,
            scy: 0,
            scx: 0,
            ly: 0,
            lyc: 0,
            bgp: 0xfc,
            obp0: 0xff,
            obp1: 0xff,
            wy: 0,
            wx: 0,
            bg_pal: Seq::new(64, |i: int| 0xffu8),
            obj_pal: Seq::new(64, |i: int| 0xffu8),
            bcps: 0,
            ocps: 0,
            opri: 0,
            mode: MODE_OAM,
            dots: 0,
            window_line: 0,
            window_active: false,
            stat_line: false,
            cgb,
            dmg_palette: palette,
            bg_line: Seq::new(160, |i: int| 0u8),
            framebuffer: Seq::new(160 * 144, |i: int| palette[0]),
            frame_ready: false,
            irq: 0,
        }
    }

    /// The sizes of its memories, and a line that exists.
    pub open spec fn shaped(self) -> bool {
        &&& self.vram.len() == 0x4000
        &&& self.vram_bank <= 1
        &&& self.oam.len() == 0xa0
        &&& self.bg_pal.len() == 64
        &&& self.obj_pal.len() == 64
        &&& self.dmg_palette.len() == 4
        &&& self.bg_line.len() == 160
        &&& self.framebuffer.len() == 160 * 144
        &&& self.ly < LINES_PER_FRAME
    }

    /// What every picture processor keeps to: each mode ends before its dots run out.
    pub open spec fn wf(self) -> bool {
        &&& self.shaped()
        &&& self.mode <= MODE_DRAW
        &&& self.mode == MODE_VBLANK <==> self.ly >= 144
        &&& self.dots < DOTS_PER_LINE
        &&& self.mode == MODE_OAM ==> self.dots < 80
        &&& self.mode == MODE_DRAW ==> self.dots < 80 + 289
    }

    pub open spec fn lcd_on(self) -> bool {
        self.lcdc & 0x80 != 0
    }

    /// True during HBlank, which is when HDMA is allowed to move a block.
    pub open spec fn in_hblank(self) -> bool {
        self.lcd_on() && self.mode == MODE_HBLANK
    }

    // ---- background ------------------------------------------------------

    /// On DMG, LCDC bit 0 blanks background and window entirely.
    pub open spec fn blanked(self) -> bool {
        !self.cgb && self.lcdc & 0x01 == 0
    }

    /// Whether the window shows on the current line.
    pub open spec fn window_on(self) -> bool {
        self.lcdc & 0x20 != 0 && self.wy <= self.ly && self.wx <= 166
    }

    /// Whether the window covers column `x` of the current line.
    pub open spec fn in_window(self, x: int) -> bool {
        self.window_on() && x + 7 >= self.wx
    }

    /// Column `x` of the current line in the tile map that shows there: the map's base,
    /// and the coordinates inside the map.
    pub open spec fn map_point(self, x: int) -> (int, int, int) {
        if self.in_window(x) {
            (
                if self.lcdc & 0x40 != 0 {
                    0x1c00
                } else {
                    0x1800
                },
                x + 7 - self.wx,
                self.window_line as int,
            )
        } else {
            (
                if self.lcdc & 0x08 != 0 {
                    0x1c00
                } else {
                    0x1800
                },
                (x + self.scx) % 256,
                (self.ly + self.scy) % 256,
            )
        }
    }

    /// Where the map entry of column `x` lies in video memory.
    pub open spec fn map_index(self, x: int) -> int {
        let (base, mx, my) = self.map_point(x);
        base + my / 8 * 32 + mx / 8
    }

    /// The CGB attributes of column `x`; a DMG has none.
    pub open spec fn bg_attr(self, x: int) -> u8 {
        if self.cgb {
            self.vram[0x2000 + self.map_index(x)]
        } else {
            0
        }
    }

    /// Where the tile data of `tile` starts in its bank: LCDC bit 4 chooses between
    /// numbering from the bottom and numbering around the middle.
    pub open spec fn tile_base(self, tile: u8) -> int {
        if self.lcdc & 0x10 != 0 {
            tile * 16
        } else if tile < 128 {
            0x1000 + tile * 16
        } else {
            tile * 16
        }
    }

    /// The background's colour, 0 to 3, in column `x`.
    pub open spec fn bg_colour(self, x: int) -> int {
        let (base, mx, my) = self.map_point(x);
        let attr = self.bg_attr(x);
        let row = if attr & 0x40 != 0 {
            7 - my % 8
        } else {
            my % 8
        };
        let bit = if attr & 0x20 != 0 {
            mx % 8
        } else {
            7 - mx % 8
        };
        let at = (if attr & 0x08 != 0 {
            0x2000int
        } else {
            0
        }) + self.tile_base(self.vram[self.map_index(x)]) + row * 2;
        plane_colour(self.vram[at], self.vram[at + 1], bit)
    }

    /// The shade a DMG palette register gives `colour`.
    pub open spec fn shade(self, register: u8, colour: int) -> u32 {
        self.dmg_palette[((register >> ((2 * colour) as u8)) & 3) as int]
    }

    /// What the background shows in column `x`.
    pub open spec fn bg_pixel(self, x: int) -> u32 {
        if self.blanked() {
            self.dmg_palette[0]
        } else if self.cgb {
            cgb_rgb(self.bg_pal, self.bg_attr(x) as int % 8, self.bg_colour(x))
        } else {
            self.shade(self.bgp, self.bg_colour(x))
        }
    }

    /// The record of column `x` that sprites are mixed by: bits 0-1 the colour, bit 7
    /// the CGB "BG over OBJ" attribute.
    pub open spec fn bg_entry(self, x: int) -> u8 {
        if self.blanked() {
            0
        } else {
            self.bg_colour(x) as u8 | (self.bg_attr(x) & 0x80)
        }
    }

    // ---- sprites ---------------------------------------------------------

    pub open spec fn sprite_height(self) -> int {
        if self.lcdc & 0x04 != 0 {
            16
        } else {
            8
        }
    }

    /// Whether sprite `i` intersects the current line.
    pub open spec fn on_line(self, i: int) -> bool {
        let top = self.oam[i * 4] - 16;
        top <= self.ly < top + self.sprite_height()
    }

    /// The sprites among the first `n` that intersect the line, at most ten of them.
    pub open spec fn found(self, n: nat) -> Seq<int>
        decreases n,
    {
        if n == 0 {
            seq![]
        } else {
            let fewer = self.found((n - 1) as nat);
            if fewer.len() < 10 && self.on_line(n - 1) {
                fewer.push(n - 1)
            } else {
                fewer
            }
        }
    }

    /// `i` put into `s` behind every sprite that is not further right.
    pub open spec fn placed(self, s: Seq<int>, i: int) -> Seq<int>
        decreases s.len(),
    {
        if s.len() == 0 || self.oam[s.last() * 4 + 1] <= self.oam[i * 4 + 1] {
            s.push(i)
        } else {
            self.placed(s.drop_last(), i).push(s.last())
        }
    }

    /// `s` ordered from left to right; of two sprites in the same column the one that
    /// came first stays first.
    pub open spec fn by_column(self, s: Seq<int>) -> Seq<int>
        decreases s.len(),
    {
        if s.len() == 0 {
            s
        } else {
            self.placed(self.by_column(s.drop_last()), s.last())
        }
    }

    /// The sprites on the current line in the order they are painted: the one that wins
    /// an overlap comes last. DMG resolves overlap by column first; CGB uses OAM order
    /// unless OPRI says otherwise.
    pub open spec fn visible(self) -> Seq<int> {
        if self.lcdc & 0x02 == 0 {
            seq![]
        } else if !self.cgb || self.opri & 1 != 0 {
            self.by_column(self.found(40)).reverse()
        } else {
            self.found(40).reverse()
        }
    }

    /// The colour, 0 to 3, of sprite `i` in column `x`; 0 is transparent, and so is
    /// everything beside the sprite.
    pub open spec fn sprite_colour(self, i: int, x: int) -> int {
        let left = self.oam[i * 4 + 1] - 8;
        let px = x - left;
        let attr = self.oam[i * 4 + 3];
        let tile = self.oam[i * 4 + 2];
        let line = self.ly - (self.oam[i * 4] - 16);
        let row = if attr & 0x40 != 0 {
            self.sprite_height() - 1 - line
        } else {
            line
        };
        // 8x16 sprites ignore the low bit of the tile number.
        let first = if self.sprite_height() == 16 {
            tile - tile % 2
        } else {
            tile as int
        };
        let at = (if self.cgb && attr & 0x08 != 0 {
            0x2000int
        } else {
            0
        }) + first * 16 + row * 2;
        let bit = if attr & 0x20 != 0 {
            px
        } else {
            7 - px
        };
        if 0 <= px < 8 {
            plane_colour(self.vram[at], self.vram[at + 1], bit)
        } else {
            0
        }
    }

    /// Whether the background hides sprite `i` where its record is `entry`. On CGB,
    /// LCDC bit 0 clear lets every sprite through.
    pub open spec fn hidden(self, i: int, entry: u8) -> bool {
        &&& !self.cgb || self.lcdc & 0x01 != 0
        &&& self.oam[i * 4 + 3] & 0x80 != 0 || entry & 0x80 != 0
        &&& entry & 3 != 0
    }

    /// What sprite `i` paints with its colour `colour`.
    pub open spec fn sprite_rgb(self, i: int, colour: int) -> u32 {
        let attr = self.oam[i * 4 + 3];
        if self.cgb {
            cgb_rgb(self.obj_pal, attr as int % 8, colour)
        } else {
            self.shade(
                if attr & 0x10 != 0 {
                    self.obp1
                } else {
                    self.obp0
                },
                colour,
            )
        }
    }

    /// Whether sprite `i` paints column `x` over a background recorded as `entry`.
    pub open spec fn paints(self, i: int, x: int, entry: u8) -> bool {
        self.sprite_colour(i, x) != 0 && !self.hidden(i, entry)
    }

    /// Column `x` once `sprites` are painted in turn over the pixel `under`.
    pub open spec fn over(self, sprites: Seq<int>, x: int, entry: u8, under: u32) -> u32
        decreases sprites.len(),
    {
        if sprites.len() == 0 {
            under
        } else if self.paints(sprites.last(), x, entry) {
            self.sprite_rgb(sprites.last(), self.sprite_colour(sprites.last(), x))
        } else {
            self.over(sprites.drop_last(), x, entry, under)
        }
    }

    /// What the current line shows in column `x`.
    pub open spec fn pixel(self, x: int) -> u32 {
        self.over(self.visible(), x, self.bg_entry(x), self.bg_pixel(x))
    }

    // ---- video memory ----------------------------------------------------

    /// The effect of the processor writing `value` to video memory.
    pub open spec fn vram_written(self, addr: u16, value: u8) -> Picture {
        Picture { vram: self.vram.update(self.vram_index(addr), value), ..self }
    }

    // ---- lines and frames ------------------------------------------------

    /// The framebuffer with the current line replaced by `line`.
    pub open spec fn with_line(self, line: spec_fn(int) -> u32) -> Seq<u32> {
        Seq::new(
            160 * 144,
            |p: int|
                if self.ly * 160 <= p < self.ly * 160 + 160 {
                    line(p - self.ly * 160)
                } else {
                    self.framebuffer[p]
                },
        )
    }

    /// The current line drawn. The window's own line counter only moves on lines where
    /// it drew.
    pub open spec fn drawn(self) -> Picture {
        if self.ly >= 144 {
            self
        } else {
            let shown = !self.blanked() && self.window_on();
            Picture {
                framebuffer: self.with_line(|x: int| self.pixel(x)),
                bg_line: Seq::new(160, |x: int| self.bg_entry(x)),
                window_line: if shown {
                    self.window_line.wrapping_add(1)
                } else {
                    self.window_line
                },
                window_active: self.window_active || shown,
                ..self
            }
        }
    }

    /// Dots that drawing the current line takes: mode 3 stretches for fine scroll, an
    /// active window, and each sprite fetched.
    pub open spec fn draw_length(self) -> int {
        172 + self.scx % 8 + (if self.window_on() {
            6int
        } else {
            0
        }) + 6 * self.visible().len()
    }

    pub open spec fn with_mode(self, mode: u8) -> Picture {
        Picture { mode, stat: (self.stat & 0xfc) | mode, ..self }
    }

    /// The next line; the window's line counter starts over with the frame.
    pub open spec fn next_line(self) -> Picture {
        let ly = ((self.ly + 1) % 154) as u8;
        Picture {
            ly,
            window_line: if ly == 0 {
                0
            } else {
                self.window_line
            },
            ..self
        }
    }

    /// STAT as it reads with its coincidence bit up to date.
    pub open spec fn stat_now(self) -> u8 {
        if self.ly == self.lyc {
            self.stat | 0x04
        } else {
            self.stat & !0x04u8
        }
    }

    /// The OR of the enabled STAT interrupt sources.
    pub open spec fn stat_sources(self) -> bool {
        let stat = self.stat_now();
        ||| stat & 0x40 != 0 && self.ly == self.lyc
        ||| stat & 0x20 != 0 && self.mode == MODE_OAM
        ||| stat & 0x10 != 0 && self.mode == MODE_VBLANK
        ||| stat & 0x08 != 0 && self.mode == MODE_HBLANK
    }

    /// STAT's interrupt line is level-triggered internally; only its rise fires.
    pub open spec fn stat_sampled(self) -> Picture {
        Picture {
            stat: self.stat_now(),
            irq: if self.stat_sources() && !self.stat_line {
                self.irq | IRQ_STAT
            } else {
                self.irq
            },
            stat_line: self.stat_sources(),
            ..self
        }
    }

    /// What the mode does once the dot counter has been advanced.
    pub open spec fn advanced(self) -> Picture {
        if self.mode == MODE_OAM && self.dots >= 80 {
            self.with_mode(MODE_DRAW)
        } else if self.mode == MODE_DRAW && self.dots >= 80 + self.draw_length() {
            self.drawn().with_mode(MODE_HBLANK)
        } else if self.mode == MODE_HBLANK && self.dots >= DOTS_PER_LINE {
            let next = Picture { dots: (self.dots - DOTS_PER_LINE) as u32, ..self }.next_line();
            if next.ly == 144 {
                let blank = next.with_mode(MODE_VBLANK);
                Picture { irq: blank.irq | IRQ_VBLANK, frame_ready: true, ..blank }
            } else {
                next.with_mode(MODE_OAM)
            }
        } else if self.mode == MODE_VBLANK && self.dots >= DOTS_PER_LINE {
            let next = Picture { dots: (self.dots - DOTS_PER_LINE) as u32, ..self }.next_line();
            if next.ly == 0 {
                next.with_mode(MODE_OAM)
            } else {
                next
            }
        } else {
            self
        }
    }

    /// Four dots.
    pub open spec fn ticked(self) -> Picture {
        Picture { dots: (self.dots + 4) as u32, ..self }.advanced().stat_sampled()
    }

    /// `n` times four dots.
    pub open spec fn ticks(self, n: nat) -> Picture
        decreases n,
    {
        if n == 0 {
            self
        } else {
            self.ticks((n - 1) as nat).ticked()
        }
    }

    /// `t` dots, in whole steps of four. A screen that is off stands still.
    pub open spec fn stepped(self, t: u32) -> Picture {
        if self.lcd_on() {
            self.ticks((t / 4) as nat)
        } else {
            self
        }
    }

    // ---- registers -------------------------------------------------------

    /// What the register at `addr` reads as.
    pub open spec fn reads(self, addr: u16) -> u8 {
        match addr {
            0xff40 => self.lcdc,
            0xff41 => self.stat | 0x80,
            0xff42 => self.scy,
            0xff43 => self.scx,
            0xff44 => self.ly,
            0xff45 => self.lyc,
            0xff47 => self.bgp,
            0xff48 => self.obp0,
            0xff49 => self.obp1,
            0xff4a => self.wy,
            0xff4b => self.wx,
            _ => if !self.cgb {
                0xff
            } else {
                match addr {
                    0xff4f => 0xfe | self.vram_bank as u8,
                    0xff68 => self.bcps | 0x40,
                    0xff69 => self.bg_pal[self.bcps as int % 64],
                    0xff6a => self.ocps | 0x40,
                    0xff6b => self.obj_pal[self.ocps as int % 64],
                    0xff6c => self.opri | 0xfe,
                    _ => 0xff,
                }
            },
        }
    }

    /// LCDC takes a new value. Switching the LCD off parks it at the top of the frame
    /// and shows a blank screen; switching it on starts a frame.
    pub open spec fn lcdc_written(self, value: u8) -> Picture {
        let next = Picture { lcdc: value, ..self };
        if self.lcd_on() && !next.lcd_on() {
            Picture {
                ly: 0,
                dots: 0,
                window_line: 0,
                stat_line: false,
                framebuffer: Seq::new(160 * 144, |p: int| self.dmg_palette[0]),
                frame_ready: true,
                ..next.with_mode(MODE_HBLANK)
            }
        } else if !self.lcd_on() && next.lcd_on() {
            Picture { dots: 0, ly: 0, ..next.with_mode(MODE_OAM) }
        } else {
            next
        }
    }

    /// A palette index register after an access: it moves on where its top bit asks for
    /// it.
    pub open spec fn index_after(index: u8) -> u8 {
        if index & 0x80 != 0 {
            (index & 0x80) | (index.wrapping_add(1) & 0x3f)
        } else {
            index
        }
    }

    /// The effect of writing `value` to the register at `addr`.
    pub open spec fn written(self, addr: u16, value: u8) -> Picture {
        match addr {
            0xff40 => self.lcdc_written(value),
            0xff41 => Picture { stat: (value & 0x78) | (self.stat & 0x07), ..self },
            0xff42 => Picture { scy: value, ..self },
            0xff43 => Picture { scx: value, ..self },
            0xff45 => Picture { lyc: value, ..self },
            0xff47 => Picture { bgp: value, ..self },
            0xff48 => Picture { obp0: value, ..self },
            0xff49 => Picture { obp1: value, ..self },
            0xff4a => Picture { wy: value, ..self },
            0xff4b => Picture { wx: value, ..self },
            _ => if !self.cgb {
                self
            } else {
                match addr {
                    0xff4f => Picture { vram_bank: (value % 2) as usize, ..self },
                    0xff68 => Picture { bcps: value & 0xbf, ..self },
                    0xff69 => Picture {
                        bg_pal: self.bg_pal.update(self.bcps as int % 64, value),
                        bcps: Self::index_after(self.bcps),
                        ..self
                    },
                    0xff6a => Picture { ocps: value & 0xbf, ..self },
                    0xff6b => Picture {
                        obj_pal: self.obj_pal.update(self.ocps as int % 64, value),
                        ocps: Self::index_after(self.ocps),
                        ..self
                    },
                    0xff6c => Picture { opri: value & 1, ..self },
                    _ => self,
                }
            },
        }
    }

    /// Where the selected bank of video memory shows `addr`.
    pub open spec fn vram_index(self, addr: u16) -> int {
        self.vram_bank * 0x2000 + (addr - 0x8000)
    }
}

} // verus!
